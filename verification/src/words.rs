//! Splitting text into words and the white space between them, grapheme
//! cluster by grapheme cluster. The pieces are described with char offsets;
//! the iterator hands out the byte offsets at which they start.
use vstd::prelude::*;
use vstd::string::StrSliceExecFns;

use crate::byte_pos::byte_offset;
use crate::blocks::{first_where, lemma_cluster_offset, lemma_first_where_bounds, lemma_first_where_is, lemma_off_mono, lemma_off_step, off};
use crate::graphemes::{grapheme_clusters_of, PeekableGraphemesPrevious};
use crate::text::{all_white_space, str_all_whitespace, str_contains, strs_view};

verus! {

#[derive(Debug, Clone, Copy, PartialEq, Eq, Structural)]
pub enum WordsEvent {
    Newline,
    Whitespace,
    Word,
}

/// A piece of the text: where it starts, its chars, and what it is.
pub type WordPiece = (int, Seq<char>, WordsEvent);

/// The state of a word splitter: how many clusters it has read, where the
/// word being read started, and a piece waiting to be given out.
pub struct WordsState {
    pub pos: int,
    pub word: Option<int>,
    pub event: Option<WordPiece>,
}

/// The first cluster at `p` or later that is all white space.
pub open spec fn first_space(gs: Seq<Seq<char>>, p: int) -> int {
    first_where(gs, p, |g: Seq<char>| all_white_space(g))
}

/// One step of the splitter over the clusters `gs`: the piece it gives out and
/// its state after.
pub open spec fn words_step(gs: Seq<Seq<char>>, st: WordsState) -> (Option<WordPiece>, WordsState) {
    let t = gs.flatten();
    match st.event {
        Some(e) => (Some(e), WordsState { event: None, ..st }),
        None => {
            let k = first_space(gs, st.pos);
            let word = if st.word is Some {
                st.word
            } else if k > st.pos {
                Some(off(gs, st.pos))
            } else {
                None
            };
            if k < gs.len() {
                let space = (
                    off(gs, k),
                    gs[k],
                    if gs[k].contains('\n') {
                        WordsEvent::Newline
                    } else {
                        WordsEvent::Whitespace
                    },
                );
                match word {
                    Some(w) => (
                        Some((w, t.subrange(w, off(gs, k)), WordsEvent::Word)),
                        WordsState { pos: k + 1, word: None, event: Some(space) },
                    ),
                    None => (Some(space), WordsState { pos: k + 1, word: None, event: None }),
                }
            } else {
                match word {
                    Some(w) => (
                        Some((w, t.subrange(w, t.len() as int), WordsEvent::Word)),
                        WordsState { pos: gs.len() as int, word: None, event: None },
                    ),
                    None => (None, WordsState { pos: gs.len() as int, word: None, event: None }),
                }
            }
        },
    }
}

/// Splits text into words, line breaks and other white space.
pub struct WordsIter<'a> {
    text: &'a str,
    graphemes: PeekableGraphemesPrevious<'a>,
    event: Option<(usize, usize, &'a str, WordsEvent)>,
    word: Option<(usize, usize)>,
}

impl<'a> WordsIter<'a> {
    pub closed spec fn text(&self) -> Seq<char> {
        self.text@
    }

    pub closed spec fn state(&self) -> WordsState {
        WordsState {
            pos: self.graphemes.position(),
            word: match self.word {
                Some((w, _)) => Some(w as int),
                None => None,
            },
            event: match self.event {
                Some((i, _, g, e)) => Some((i as int, g@, e)),
                None => None,
            },
        }
    }

    pub closed spec fn wf(&self) -> bool {
        let gs = grapheme_clusters_of(self.text@);
        &&& self.graphemes.wf()
        &&& self.graphemes.text() == self.text@
        &&& (self.word matches Some((w, b)) ==> w <= off(gs, self.graphemes.position()) && b
            == byte_offset(self.text@, w as int))
        &&& (self.event matches Some((i, b, _, _)) ==> b == byte_offset(self.text@, i as int))
    }

    pub fn new(text: &'a str) -> (w: Self)
        ensures
            w.wf(),
            w.text() == text@,
            w.state() == (WordsState { pos: 0, word: None, event: None }),
    {
        WordsIter { text, graphemes: PeekableGraphemesPrevious::new(text), event: None, word: None }
    }

    /// The next word, line break or other white space, with the byte offset
    /// at which it starts.
    pub fn next(&mut self) -> (r: Option<(usize, &'a str, WordsEvent)>)
        requires
            old(self).wf(),
        ensures
            final(self).wf(),
            final(self).text() == old(self).text(),
            ({
                let (piece, st) = words_step(grapheme_clusters_of(old(self).text()), old(self).state());
                &&& final(self).state() == st
                &&& match r {
                    Some((i, g, e)) => piece matches Some((c, pg, pe)) && i == byte_offset(
                        old(self).text(),
                        c,
                    ) && g@ == pg && e == pe,
                    None => piece is None,
                }
            }),
    {
        if let Some((_, b, g, e)) = self.event {
            self.event = None;
            return Some((b, g, e));
        }
        let ghost gs = grapheme_clusters_of(self.text@);
        let ghost s = self.graphemes.clusters();
        let ghost p0 = self.graphemes.position();
        proof {
            self.graphemes.lemma_wf();
            lemma_first_where_bounds(gs, p0, |g: Seq<char>| all_white_space(g));
            assert forall|j: int| p0 <= j < first_space(gs, p0) implies !all_white_space(
                #[trigger] gs[j],
            ) by {
                assert(!(|g: Seq<char>| all_white_space(g))(gs[j]));
            }
        }
        let len = self.text.unicode_len();
        loop
            invariant
                self.graphemes.wf(),
                self.graphemes.text() == self.text@,
                self.graphemes.clusters() == s,
                strs_view(s) == gs,
                gs.flatten() == self.text@,
                gs == grapheme_clusters_of(self.text@),
                len == self.text@.len(),
                self.event is None,
                p0 == old(self).state().pos,
                old(self).state().event is None,
                p0 <= self.graphemes.position() <= first_space(gs, p0),
                first_space(gs, p0) <= gs.len(),
                first_space(gs, p0) < gs.len() ==> all_white_space(gs[first_space(gs, p0)]),
                0 <= p0 <= gs.len(),
                s.len() == gs.len(),
                forall|j: int| p0 <= j < first_space(gs, p0) ==> !all_white_space(#[trigger] gs[j]),
                self.text == old(self).text,
                forall|k: int| 0 <= k < gs.len() ==> (#[trigger] gs[k]).len() > 0,
                old(self).word is Some ==> self.word == old(self).word,
                old(self).word is None ==> (self.graphemes.position() > p0 <==> self.word is Some),
                old(self).word is None ==> (self.word matches Some((c, wb)) ==> c == off(gs, p0) && wb
                    == byte_offset(self.text@, off(gs, p0))),
                old(self).word matches Some((w, b)) ==> w <= off(gs, p0) && b == byte_offset(self.text@, w as int),
            decreases gs.len() - self.graphemes.position(),
        {
            let ghost k = self.graphemes.position();
            proof {
                self.graphemes.lemma_wf();
                lemma_off_mono(gs, 0, gs.len() as int);
            }
            let Some((ib, g)) = self.graphemes.next() else {
                proof {
                    lemma_first_where_is(gs, p0, k, |g: Seq<char>| all_white_space(g));
                    crate::blocks::lemma_off_end(gs, 0);
                    if self.word is Some {
                        lemma_off_mono(gs, p0, gs.len() as int);
                    }
                }
                return match self.word {
                    Some((ws, wb)) => {
                        self.word = None;
                        Some((wb, self.text.substring_char(ws, len), WordsEvent::Word))
                    },
                    None => None,
                };
            };
            let i = self.graphemes.char_offset_at(self.graphemes.read() - 1);
            proof {
                assert(gs[k] == s[k]@);
                lemma_cluster_offset(s, k);
                lemma_off_step(gs, k);
                lemma_off_mono(gs, k + 1, gs.len() as int);
                lemma_off_mono(gs, p0, k);
            }
            if str_all_whitespace(g) {
                proof {
                    lemma_first_where_is(gs, p0, k, |g: Seq<char>| all_white_space(g));
                }
                let event = if str_contains(g, '\n') {
                    WordsEvent::Newline
                } else {
                    WordsEvent::Whitespace
                };
                match self.word {
                    Some((ws, wb)) => {
                        self.word = None;
                        self.event = Some((i, ib, g, event));
                        return Some((wb, self.text.substring_char(ws, i), WordsEvent::Word));
                    },
                    None => {
                        return Some((ib, g, event));
                    },
                }
            } else {
                if self.word.is_none() {
                    self.word = Some((i, ib));
                }
            }
        }
    }
}

} // verus!
