//! Block markup: paragraphs (left, `|` centered, `>` right aligned), `-` lists,
//! `#` comments, fenced code, `![description](path)` images and `---` breaks,
//! separated by empty lines.
//!
//! The text is read grapheme cluster by grapheme cluster; positions count
//! clusters and offsets count chars.
use vstd::prelude::*;
use vstd::string::StrSliceExecFns;

use crate::graphemes::{grapheme_clusters_of, cluster_offset, PeekableGraphemesPrevious};
use crate::markup::{Alignment, MarkupItem};
use crate::text::{
    chars_of, graphemes_of, str_any_whitespace, str_contains, str_eq, strs_view, trim_slice,
    trimmed, any_white_space, lemma_skip_ws_bounds,
};

verus! {

/// Whether a cluster holds a line break.
pub open spec fn nl(g: Seq<char>) -> bool {
    g.contains('\n')
}

/// The char offset where cluster `k` starts.
pub open spec fn off(gs: Seq<Seq<char>>, k: int) -> int {
    gs.take(k).flatten().len() as int
}

/// The first cluster at `p` or later that `pred` accepts, or the number of
/// clusters when there is none.
pub open spec fn first_where(gs: Seq<Seq<char>>, p: int, pred: spec_fn(Seq<char>) -> bool) -> int
    decreases gs.len() - p,
{
    if p < 0 || p >= gs.len() {
        gs.len() as int
    } else if pred(gs[p]) {
        p
    } else {
        first_where(gs, p + 1, pred)
    }
}

/// The first cluster at `p` or later that holds a line break.
pub open spec fn first_nl(gs: Seq<Seq<char>>, p: int) -> int {
    first_where(gs, p, |g: Seq<char>| nl(g))
}

/// The first cluster `g` at `p` or later.
pub open spec fn first_eq(gs: Seq<Seq<char>>, p: int, g: Seq<char>) -> int {
    first_where(gs, p, |x: Seq<char>| x == g)
}

/// The first cluster `e` at `e0` or later that holds a line break as the one
/// before it does.
pub open spec fn first_nl_pair(gs: Seq<Seq<char>>, e0: int) -> int
    decreases gs.len() - e0,
{
    if e0 < 1 || e0 >= gs.len() {
        gs.len() as int
    } else if nl(gs[e0 - 1]) && nl(gs[e0]) {
        e0
    } else {
        first_nl_pair(gs, e0 + 1)
    }
}

/// How many clusters `g` follow one another from `p` on.
pub open spec fn run_of(gs: Seq<Seq<char>>, p: int, g: Seq<char>) -> nat
    decreases gs.len() - p,
{
    if 0 <= p < gs.len() && gs[p] == g {
        1 + run_of(gs, p + 1, g)
    } else {
        0
    }
}

/// How many clusters holding a line break follow one another from `p` on.
pub open spec fn nl_run(gs: Seq<Seq<char>>, p: int) -> nat
    decreases gs.len() - p,
{
    if 0 <= p < gs.len() && nl(gs[p]) {
        1 + nl_run(gs, p + 1)
    } else {
        0
    }
}

/// A block of markup, its text pieces taken from the markup.
pub enum BlockView {
    Paragraph(Seq<char>, Alignment),
    List(Seq<char>),
    Code(Seq<char>, Seq<char>),
    Image(Seq<char>, Seq<char>),
    Comment(Seq<char>),
    Break,
}

/// A block, the char range it was read from, and the position the parser
/// stands at after it.
pub struct Parsed {
    pub block: BlockView,
    pub start: int,
    pub end: int,
    pub pos: int,
}

/// Where a block that runs to the next empty line ends: the end of its text,
/// the end of its range and the position after it.
pub open spec fn after_pair(gs: Seq<Seq<char>>, p: int) -> (int, int, int) {
    let e = first_nl_pair(gs, p + 1);
    if e < gs.len() {
        (off(gs, e), off(gs, e + 1), e + 1)
    } else {
        (gs.flatten().len() as int, gs.flatten().len() as int, gs.len() as int)
    }
}

/// Where a block that runs to the end of its line ends.
pub open spec fn after_nl(gs: Seq<Seq<char>>, p: int) -> (int, int, int) {
    let e = first_nl(gs, p);
    if e < gs.len() {
        (off(gs, e), off(gs, e + 1), e + 1)
    } else {
        (gs.flatten().len() as int, gs.flatten().len() as int, gs.len() as int)
    }
}

/// A paragraph whose marker is at char `i`, read on from position `p`.
pub open spec fn paragraph_at(gs: Seq<Seq<char>>, i: int, p: int, a: Alignment) -> Parsed {
    let lo = match a {
        Alignment::Left => i,
        _ => i + 1,
    };
    let (hi, end, pos) = after_pair(gs, p);
    Parsed { block: BlockView::Paragraph(trimmed(gs.flatten(), lo, hi), a), start: i, end, pos }
}

/// A list whose `-` is at char `i`.
pub open spec fn list_at(gs: Seq<Seq<char>>, i: int, p: int) -> Parsed {
    let (hi, end, pos) = after_pair(gs, p);
    Parsed { block: BlockView::List(trimmed(gs.flatten(), i + 1, hi)), start: i, end, pos }
}

/// A comment whose `#` is at char `i`.
pub open spec fn comment_at(gs: Seq<Seq<char>>, i: int, p: int) -> Parsed {
    let (hi, end, pos) = after_nl(gs, p);
    Parsed { block: BlockView::Comment(trimmed(gs.flatten(), i + 1, hi)), start: i, end, pos }
}

/// The rest of a code block from position `p`: its lines run up to a line of
/// as many backticks as opened it, followed by the end of the text, or by an
/// empty line.
pub open spec fn code_body(
    gs: Seq<Seq<char>>,
    i: int,
    ticks: int,
    lang: Seq<char>,
    code_start: int,
    p: int,
) -> Parsed
    decreases gs.len() - p,
{
    let t = gs.flatten();
    let e = first_nl(gs, p);
    if p < 0 || e >= gs.len() {
        Parsed {
            block: BlockView::Code(lang, t.subrange(code_start, t.len() as int)),
            start: i,
            end: t.len() as int,
            pos: gs.len() as int,
        }
    } else {
        proof {
            lemma_first_where_bounds(gs, p, |g: Seq<char>| nl(g));
            lemma_run_of_bound(gs, e + 1, seq!['`']);
        }
        let n = run_of(gs, e + 1, seq!['`']);
        let q = e + 1 + n;
        let code = Parsed {
            block: BlockView::Code(lang, t.subrange(code_start, off(gs, e))),
            start: i,
            end: off(gs, q),
            pos: q,
        };
        if n == ticks {
            let rest = grapheme_clusters_of(t.subrange(off(gs, q), t.len() as int));
            if rest.len() == 0 {
                code
            } else if nl(rest[0]) {
                if rest.len() == 1 {
                    Parsed { end: rest[0].len() as int, ..code }
                } else if nl(rest[1]) {
                    Parsed {
                        end: (rest[0].len() + rest[1].len()) as int,
                        pos: if q + 2 <= gs.len() {
                            q + 2
                        } else {
                            gs.len() as int
                        },
                        ..code
                    }
                } else {
                    code_body(gs, i, ticks, lang, code_start, q)
                }
            } else {
                code_body(gs, i, ticks, lang, code_start, q)
            }
        } else {
            code_body(gs, i, ticks, lang, code_start, q)
        }
    }
}

/// A code block opened by `ticks` backticks at char `i`; `p` is the position
/// after them. The rest of the opening line names the language.
pub open spec fn code_at(gs: Seq<Seq<char>>, i: int, p: int, ticks: int) -> Parsed {
    let t = gs.flatten();
    let e = first_nl(gs, p);
    if e >= gs.len() {
        Parsed {
            block: BlockView::Code(trimmed(t, i + ticks, t.len() as int), Seq::empty()),
            start: i,
            end: t.len() as int,
            pos: gs.len() as int,
        }
    } else {
        code_body(gs, i, ticks, trimmed(t, i + ticks, off(gs, e)), off(gs, e + 1), e + 1)
    }
}

/// An image `![description](path)` whose `!` is at char `i`; it must stand
/// alone in its paragraph, else the text is a paragraph.
pub open spec fn image_at(gs: Seq<Seq<char>>, i: int, p: int) -> Parsed {
    let t = gs.flatten();
    let n = gs.len() as int;
    if p >= n {
        paragraph_at(gs, i, p, Alignment::Left)
    } else if gs[p] != seq!['['] {
        paragraph_at(gs, i, p + 1, Alignment::Left)
    } else {
        let d = first_eq(gs, p + 1, seq![']']);
        if d >= n {
            paragraph_at(gs, i, n, Alignment::Left)
        } else if d + 1 >= n {
            paragraph_at(gs, i, n, Alignment::Left)
        } else if gs[d + 1] != seq!['('] {
            paragraph_at(gs, i, d + 2, Alignment::Left)
        } else {
            let e = first_eq(gs, d + 2, seq![')']);
            if e >= n {
                paragraph_at(gs, i, n, Alignment::Left)
            } else {
                let image = BlockView::Image(
                    trimmed(t, off(gs, p) + 1, off(gs, d)),
                    trimmed(t, off(gs, d + 1) + 1, off(gs, e)),
                );
                if e + 1 >= n {
                    Parsed { block: image, start: i, end: t.len() as int, pos: n }
                } else if !nl(gs[e + 1]) {
                    paragraph_at(gs, i, e + 2, Alignment::Left)
                } else if e + 2 >= n {
                    Parsed { block: image, start: i, end: off(gs, e + 1), pos: n }
                } else if !nl(gs[e + 2]) {
                    paragraph_at(gs, i, e + 3, Alignment::Left)
                } else {
                    Parsed { block: image, start: i, end: off(gs, e + 1), pos: e + 3 }
                }
            }
        }
    }
}

/// A cluster that is a line break by itself.
pub open spec fn is_line_break(g: Seq<char>) -> bool {
    g == seq!['\n'] || g == seq!['\r', '\n']
}

/// The block that starts at cluster `k`, which holds no white space.
pub open spec fn block_at(gs: Seq<Seq<char>>, k: int) -> Parsed {
    let g = gs[k];
    let i = off(gs, k);
    let p = k + 1;
    if k == 0 || is_line_break(gs[k - 1]) {
        if g == seq!['|'] {
            paragraph_at(gs, i, p, Alignment::Center)
        } else if g == seq!['>'] {
            paragraph_at(gs, i, p, Alignment::Right)
        } else if g == seq!['#'] {
            comment_at(gs, i, p)
        } else if g == seq!['!'] {
            image_at(gs, i, p)
        } else if g == seq!['`'] {
            let n = run_of(gs, p, seq!['`']);
            if n + 1 >= 3 {
                code_at(gs, i, p + n, (n + 1) as int)
            } else {
                paragraph_at(gs, i, p + n, Alignment::Left)
            }
        } else if g == seq!['-'] {
            let n = run_of(gs, p, seq!['-']);
            let q = p + n;
            if n == 0 {
                list_at(gs, i, q)
            } else if n == 2 {
                let m = if nl_run(gs, q) < 2 {
                    nl_run(gs, q)
                } else {
                    2
                };
                if m == 2 {
                    Parsed { block: BlockView::Break, start: i, end: i + 5, pos: q + 2 }
                } else {
                    paragraph_at(gs, i, q + m, Alignment::Left)
                }
            } else {
                paragraph_at(gs, i, q, Alignment::Left)
            }
        } else {
            paragraph_at(gs, i, p, Alignment::Left)
        }
    } else {
        paragraph_at(gs, i, p, Alignment::Left)
    }
}

/// The next block from position `p`: clusters holding white space are skipped
/// and the block starts at the first other one.
pub open spec fn next_block(gs: Seq<Seq<char>>, p: int) -> Option<Parsed>
    decreases gs.len() - p,
{
    if p < 0 || p >= gs.len() {
        None
    } else if any_white_space(gs[p]) {
        next_block(gs, p + 1)
    } else {
        Some(block_at(gs, p))
    }
}

/// The first cluster `e` at `e0` or later that is a `-` right after a cluster
/// holding a line break: where the next list item starts.
pub open spec fn first_item_break(gs: Seq<Seq<char>>, e0: int) -> int
    decreases gs.len() - e0,
{
    if e0 < 1 || e0 >= gs.len() {
        gs.len() as int
    } else if nl(gs[e0 - 1]) && gs[e0] == seq!['-'] {
        e0
    } else {
        first_item_break(gs, e0 + 1)
    }
}

/// The next list item from position `pos`, and the position after it: the
/// item runs to the line break before the next `-` that starts a line.
pub open spec fn list_step(gs: Seq<Seq<char>>, pos: int) -> Option<(Seq<char>, int)> {
    let t = gs.flatten();
    if off(gs, pos) >= t.len() {
        None
    } else {
        let k = first_item_break(gs, if pos < 1 {
            1
        } else {
            pos
        });
        if k < gs.len() {
            Some((trimmed(t, off(gs, pos), off(gs, k - 1)), k + 1))
        } else {
            Some((trimmed(t, off(gs, pos), t.len() as int), gs.len() as int))
        }
    }
}

/// The items of a markup list, one line group per `-`.
#[derive(Debug)]
pub struct ListItems<'a> {
    text: &'a str,
    chars: Vec<char>,
    graphemes: PeekableGraphemesPrevious<'a>,
    start: usize,
}

impl<'a> ListItems<'a> {
    /// The text of the list.
    pub closed spec fn text(&self) -> Seq<char> {
        self.text@
    }

    /// How many clusters have been read.
    pub closed spec fn position(&self) -> int {
        self.graphemes.position()
    }

    pub closed spec fn wf(&self) -> bool {
        let gs = grapheme_clusters_of(self.text@);
        let pos = self.graphemes.position();
        &&& self.graphemes.wf()
        &&& self.graphemes.text() == self.text@
        &&& self.chars@ == self.text@
        &&& self.start == off(gs, pos)
        &&& (pos == 0 || pos == gs.len() || gs[pos - 1] == seq!['-'])
    }

    /// A well-formed list has not read past its last cluster.
    pub proof fn lemma_position(&self)
        requires
            self.wf(),
        ensures
            0 <= self.position() <= grapheme_clusters_of(self.text()).len(),
    {
        self.graphemes.lemma_wf();
    }

    pub fn new(text: &'a str) -> (l: Self)
        ensures
            l.wf(),
            l.text() == text@,
            l.position() == 0,
    {
        let graphemes = PeekableGraphemesPrevious::new(text);
        proof {
            let gs = grapheme_clusters_of(text@);
            assert(gs.take(0) =~= Seq::<Seq<char>>::empty());
        }
        ListItems { text, chars: chars_of(text), graphemes, start: 0 }
    }

    /// The next item, without white space at its ends.
    pub fn next(&mut self) -> (r: Option<&'a str>)
        requires
            old(self).wf(),
        ensures
            final(self).wf(),
            final(self).text() == old(self).text(),
            match list_step(grapheme_clusters_of(old(self).text()), old(self).position()) {
                None => r is None && final(self).position() == old(self).position(),
                Some((item, pos)) => r is Some && r.unwrap()@ == item && final(self).position()
                    == pos,
            },
    {
        let ghost gs = grapheme_clusters_of(self.text@);
        let ghost s = self.graphemes.clusters();
        let ghost pos = self.graphemes.position();
        proof {
            self.graphemes.lemma_wf();
            lemma_off_mono(gs, pos, gs.len() as int);
            lemma_off_mono(gs, 0, pos);
        }
        let len = self.chars.len();
        if self.start == len {
            return None;
        }
        proof {
            reveal_strlit("-");
            if pos == gs.len() {
                lemma_off_end(gs, pos);
            }
        }
        let is_break = |a: &str, b: &str| -> (r: bool) ensures r == (a@.contains('\n') && b@ == "-"@) { str_contains(a, '\n') && str_eq(b, "-") };
        let found = self.graphemes.find_pattern_by(is_break);
        let e0: Ghost<int> = Ghost(if pos < 1 {
            1
        } else {
            pos
        });
        let (end, next_start) = match found {
            Some((_, p, n)) => {
                let i = self.graphemes.char_offset_at(self.graphemes.read() - 1);
                proof {
                    let skipped = |k: int| k == 0 || is_break.ensures((s[k - 1], s[k]), false);
                    let k = choose|k: int|
                        #![trigger s[k]]
                        pos <= k < s.len() && k >= 1 && p == s[k - 1]
                            && n == s[k] && is_break.ensures((p, n), true) && (forall|j: int|
                            pos <= j < k ==> #[trigger] skipped(j)) && self.graphemes.position() == k
                            + 1;
                    assert forall|j: int| e0@ <= j < k implies !(nl(#[trigger] gs[j - 1]) && gs[j]
                        == seq!['-']) by {
                        assert(skipped(j));
                        assert(is_break.ensures((s[j - 1], s[j]), false));
                        assert(!(s[j - 1]@.contains('\n') && s[j]@ == "-"@));
                        assert(s[j - 1]@ == gs[j - 1]);
                        assert(s[j]@ == gs[j]);
                        assert("-"@ == seq!['-']);
                    }
                    assert(s[k]@ == gs[k] && s[k - 1]@ == gs[k - 1]);
                    assert(p@.contains('\n') && n@ == "-"@);
                    assert("-"@ == seq!['-']);
                    lemma_first_item_break_is(gs, e0@, k);
                    lemma_cluster_offset(s, k);
                    lemma_off_step(gs, k - 1);
                    lemma_off_step(gs, k);
                    lemma_off_mono(gs, k + 1, gs.len() as int);
                    if k == pos {
                        assert(gs[pos - 1] == seq!['-']);
                        assert(seq!['-'][0] == '-');
                        assert(!gs[pos - 1].contains('\n'));
                    }
                    lemma_off_mono(gs, pos, k - 1);
                }
                (i - p.unicode_len(), i + n.unicode_len())
            },
            None => {
                proof {
                    let skipped = |k: int| k == 0 || is_break.ensures((s[k - 1], s[k]), false);
                    assert forall|j: int| e0@ <= j < gs.len() implies !(nl(#[trigger] gs[j - 1])
                        && gs[j] == seq!['-']) by {
                        assert(skipped(j));
                        assert(is_break.ensures((s[j - 1], s[j]), false));
                        assert(!(s[j - 1]@.contains('\n') && s[j]@ == "-"@));
                        assert(s[j - 1]@ == gs[j - 1]);
                        assert(s[j]@ == gs[j]);
                        assert("-"@ == seq!['-']);
                    }
                    lemma_first_item_break_is(gs, e0@, gs.len() as int);
                    lemma_off_end(gs, 0);
                }
                (len, len)
            },
        };
        let item = trim_slice(self.text, &self.chars, self.start, end);
        self.start = next_start;
        Some(item)
    }
}

/// A block of markup, its text pieces borrowed from the markup.
#[derive(Debug)]
pub enum BlockElement<'a> {
    Paragraph { text: &'a str, alignment: Alignment },
    List { items: ListItems<'a> },
    Code { language: &'a str, text: &'a str },
    Image { description: &'a str, path: &'a str },
    Comment { _text: &'a str },
    Break,
}

impl<'a> BlockElement<'a> {
    pub open spec fn view(&self) -> BlockView {
        match self {
            BlockElement::Paragraph { text, alignment } => BlockView::Paragraph(text@, *alignment),
            BlockElement::List { items } => BlockView::List(items.text()),
            BlockElement::Code { language, text } => BlockView::Code(language@, text@),
            BlockElement::Image { description, path } => BlockView::Image(description@, path@),
            BlockElement::Comment { _text } => BlockView::Comment(_text@),
            BlockElement::Break => BlockView::Break,
        }
    }

    /// A list comes with its items not read yet.
    pub open spec fn fresh(&self) -> bool {
        self matches BlockElement::List { items } ==> items.wf() && items.position() == 0
    }
}

/// Whether a parsed block and its range are `p`.
pub open spec fn is_parsed(b: BlockElement, r: std::ops::Range<usize>, p: Parsed) -> bool {
    &&& b.view() == p.block
    &&& b.fresh()
    &&& r.start == p.start
    &&& r.end == p.end
}

/// Splits markup into blocks.
pub struct BlockParser<'a> {
    input: &'a str,
    chars: Vec<char>,
    graphemes: PeekableGraphemesPrevious<'a>,
}

impl<'a> BlockParser<'a> {
    /// The markup being parsed.
    pub closed spec fn text(&self) -> Seq<char> {
        self.input@
    }

    /// How many grapheme clusters have been read.
    pub closed spec fn position(&self) -> int {
        self.graphemes.position()
    }

    pub closed spec fn wf(&self) -> bool {
        &&& self.graphemes.wf()
        &&& self.graphemes.text() == self.input@
        &&& self.chars@ == self.input@
    }

    /// The clusters of the markup.
    pub open spec fn gs(&self) -> Seq<Seq<char>> {
        grapheme_clusters_of(self.text())
    }

    proof fn lemma_model(&self)
        requires
            self.wf(),
        ensures
            strs_view(self.graphemes.clusters()) == self.gs(),
            self.gs().flatten() == self.text(),
            forall|k: int| 0 <= k < self.gs().len() ==> (#[trigger] self.gs()[k]).len() > 0,
            self.gs().len() == self.graphemes.clusters().len(),
            self.gs().len() <= usize::MAX,
            self.text().len() <= usize::MAX,
            0 <= self.position() <= self.gs().len(),
            off(self.gs(), self.gs().len() as int) == self.text().len(),
    {
        self.graphemes.lemma_wf();
        let s = self.graphemes.clusters();
        assert forall|k: int| 0 <= k < self.gs().len() implies (#[trigger] self.gs()[k]).len() > 0 by {
            assert(self.gs()[k] == s[k]@);
        }
        assert(self.chars.len() == self.chars@.len());
        lemma_off_end(self.gs(), 0);
    }

    pub fn new(input: &'a str) -> (b: Self)
        ensures
            b.wf(),
            b.text() == input@,
            b.position() == 0,
    {
        BlockParser { input, chars: chars_of(input), graphemes: PeekableGraphemesPrevious::new(input) }
    }

    /// Reads one cluster.
    fn read(&mut self) -> (r: Option<(usize, &'a str)>)
        requires
            old(self).wf(),
        ensures
            final(self).wf(),
            final(self).text() == old(self).text(),
            ({
                let gs = old(self).gs();
                let p = old(self).position();
                &&& p < gs.len() ==> (r matches Some((o, g)) && o == off(gs, p) && g@ == gs[p]
                    && final(self).position() == p + 1)
                &&& p >= gs.len() ==> r is None && final(self).position() == p
            }),
    {
        proof {
            self.lemma_model();
            lemma_cluster_offset(self.graphemes.clusters(), self.graphemes.position());
        }
        let p = self.graphemes.read();
        match self.graphemes.next() {
            Some((_, g)) => Some((self.graphemes.char_offset_at(p), g)),
            None => None,
        }
    }

    /// Reads to the end of the line.
    fn to_nl(&mut self) -> (r: Option<(usize, usize)>)
        requires
            old(self).wf(),
        ensures
            final(self).wf(),
            final(self).text() == old(self).text(),
            ({
                let gs = old(self).gs();
                let p = old(self).position();
                let (hi, end, pos) = after_nl(gs, p);
                &&& final(self).position() == pos
                &&& first_nl(gs, p) < gs.len() ==> (r matches Some((a, b)) && a == hi && b == end)
                &&& first_nl(gs, p) >= gs.len() ==> r is None
            }),
    {
        let ghost gs = self.gs();
        let ghost s = self.graphemes.clusters();
        let ghost p = self.position();
        proof {
            self.lemma_model();
        }
        let r = self.graphemes.find_newline();
        match r {
            Some((_, g)) => {
                let o = self.graphemes.char_offset_at(self.graphemes.read() - 1);
                proof {
                    let e = choose|i: int|
                        p <= i < s.len() && g == s[i] && g@.contains('\n')
                            && (forall|k: int| p <= k < i ==> !(#[trigger] s[k])@.contains('\n'))
                            && self.graphemes.position() == i + 1;
                    assert forall|k: int| p <= k < e implies !(|x: Seq<char>| nl(x))(
                        #[trigger] gs[k],
                    ) by {
                        assert(gs[k] == s[k]@);
                    }
                    assert(gs[e] == s[e]@);
                    lemma_first_where_is(gs, p, e, |x: Seq<char>| nl(x));
                    lemma_cluster_offset(s, e);
                    lemma_off_step(gs, e);
                    lemma_off_mono(gs, e + 1, gs.len() as int);
                }
                Some((o, o + g.unicode_len()))
            },
            None => {
                proof {
                    assert forall|k: int| p <= k < gs.len() implies !(|x: Seq<char>| nl(x))(
                        #[trigger] gs[k],
                    ) by {
                        assert(gs[k] == s[k]@);
                    }
                    lemma_first_where_is(gs, p, gs.len() as int, |x: Seq<char>| nl(x));
                }
                None
            },
        }
    }

    /// Reads to the end of an empty line.
    fn to_nl_pair(&mut self) -> (r: Option<(usize, usize)>)
        requires
            old(self).wf(),
        ensures
            final(self).wf(),
            final(self).text() == old(self).text(),
            ({
                let gs = old(self).gs();
                let p = old(self).position();
                let (hi, end, pos) = after_pair(gs, p);
                &&& final(self).position() == pos
                &&& first_nl_pair(gs, p + 1) < gs.len() ==> (r matches Some((a, b)) && a == hi && b
                    == end)
                &&& first_nl_pair(gs, p + 1) >= gs.len() ==> r is None
            }),
    {
        let ghost gs = self.gs();
        let ghost s = self.graphemes.clusters();
        let ghost p = self.position();
        proof {
            self.lemma_model();
        }
        let f = |x: &str| -> (b: bool) ensures b == x@.contains('\n') { str_contains(x, '\n') };
        let r = self.graphemes.find_consecutive_by(f, 2);
        match r {
            Some((_, g)) => {
                let o = self.graphemes.char_offset_at(self.graphemes.read() - 1);
                proof {
                    let e = choose|e: int|
                        p + 2 - 1 <= e < s.len() && crate::graphemes::all_hold_g(
                            s,
                            e - 2 + 1,
                            e + 1,
                            |x: &str| crate::graphemes::holds_g(f, x),
                        ) && g == s[e] && (forall|e2: int|
                            p + 2 - 1 <= e2 < e ==> #[trigger] crate::graphemes::window_fails_g(
                                s,
                                e2,
                                2,
                                f,
                            )) && self.graphemes.position() == e + 1;
                    assert forall|k: int| p + 1 <= k < e implies !(nl(#[trigger] gs[k - 1]) && nl(
                        gs[k],
                    )) by {
                        assert(crate::graphemes::window_fails_g(s, k, 2, f));
                        let j = choose|j: int| k - 2 + 1 <= j <= k && crate::graphemes::fails_g(f, s[j]);
                        assert(gs[j] == s[j]@);
                    }
                    let q = |x: &str| crate::graphemes::holds_g(f, x);
                    assert(q(s[e - 1]) && q(s[e]));
                    assert(gs[e] == s[e]@ && gs[e - 1] == s[e - 1]@);
                    lemma_first_nl_pair_is(gs, p + 1, e);
                    lemma_cluster_offset(s, e);
                    lemma_off_step(gs, e);
                    lemma_off_mono(gs, e + 1, gs.len() as int);
                }
                Some((o, o + g.unicode_len()))
            },
            None => {
                proof {
                    assert forall|k: int| p + 1 <= k < gs.len() implies !(nl(#[trigger] gs[k - 1])
                        && nl(gs[k])) by {
                        assert(crate::graphemes::window_fails_g(s, k, 2, f));
                        let j = choose|j: int| k - 2 + 1 <= j <= k && crate::graphemes::fails_g(f, s[j]);
                        assert(gs[j] == s[j]@);
                    }
                    if p + 1 <= gs.len() {
                        lemma_first_nl_pair_is(gs, p + 1, gs.len() as int);
                    }
                }
                None
            },
        }
    }

    /// Reads on to the first cluster `g`.
    fn find_eq(&mut self, g: &str) -> (r: Option<usize>)
        requires
            old(self).wf(),
        ensures
            final(self).wf(),
            final(self).text() == old(self).text(),
            ({
                let gs = old(self).gs();
                let p = old(self).position();
                let e = first_eq(gs, p, g@);
                &&& e < gs.len() ==> (r matches Some(o) && o == off(gs, e)) && final(self).position()
                    == e + 1
                &&& e >= gs.len() ==> r is None && final(self).position() == gs.len()
            }),
    {
        let ghost gs = self.gs();
        let ghost s = self.graphemes.clusters();
        let ghost p = self.position();
        proof {
            self.lemma_model();
        }
        let r = self.graphemes.find(g);
        match r {
            Some((_, x)) => {
                let o = self.graphemes.char_offset_at(self.graphemes.read() - 1);
                proof {
                    let e = choose|i: int|
                        p <= i < s.len() && x == s[i] && x@ == g@ && (
                        forall|k: int| p <= k < i ==> (#[trigger] s[k])@ != g@) && self.graphemes.position() == i + 1;
                    assert forall|k: int| p <= k < e implies !(|y: Seq<char>| y == g@)(
                        #[trigger] gs[k],
                    ) by {
                        assert(gs[k] == s[k]@);
                    }
                    assert(gs[e] == s[e]@);
                    lemma_first_where_is(gs, p, e, |y: Seq<char>| y == g@);
                    lemma_cluster_offset(s, e);
                }
                Some(o)
            },
            None => {
                proof {
                    assert forall|k: int| p <= k < gs.len() implies !(|y: Seq<char>| y == g@)(
                        #[trigger] gs[k],
                    ) by {
                        assert(gs[k] == s[k]@);
                    }
                    lemma_first_where_is(gs, p, gs.len() as int, |y: Seq<char>| y == g@);
                }
                None
            },
        }
    }

    /// Reads the clusters `g` that come next and counts them.
    fn run(&mut self, g: &str) -> (n: usize)
        requires
            old(self).wf(),
        ensures
            final(self).wf(),
            final(self).text() == old(self).text(),
            n == run_of(old(self).gs(), old(self).position(), g@),
            final(self).position() == old(self).position() + n,
    {
        let ghost gs = self.gs();
        let ghost s = self.graphemes.clusters();
        let ghost p = self.position();
        proof {
            self.lemma_model();
        }
        let n = self.graphemes.count_consecutive(g, usize::MAX);
        proof {
            self.lemma_model();
            assert forall|k: int| p <= k < p + n implies #[trigger] gs[k] == g@ by {
                assert(gs[k] == s[k]@);
            }
            if p + n < gs.len() {
                assert(gs[p + n] == s[p + n]@);
            }
            lemma_run_of_is(gs, p, n as int, g@);
        }
        n
    }

    /// The next block and the char range it was read from.
    pub fn next(&mut self) -> (r: Option<(BlockElement<'a>, std::ops::Range<usize>)>)
        requires
            old(self).wf(),
        ensures
            final(self).wf(),
            final(self).text() == old(self).text(),
            match next_block(old(self).gs(), old(self).position()) {
                None => r is None && final(self).position() == old(self).gs().len(),
                Some(pd) => (r matches Some((b, rg)) && is_parsed(b, rg, pd))
                    && final(self).position() == pd.pos,
            },
    {
        let ghost gs = self.gs();
        let ghost p0 = self.position();
        proof {
            self.lemma_model();
        }
        loop
            invariant
                self.wf(),
                self.text() == old(self).text(),
                gs == self.gs(),
                gs == old(self).gs(),
                p0 == old(self).position(),
                0 <= self.position() <= gs.len(),
                next_block(gs, self.position()) == next_block(gs, p0),
            decreases gs.len() - self.position(),
        {
            proof {
                self.lemma_model();
            }
            let Some((i, g)) = self.read() else {
                return None;
            };
            if str_any_whitespace(g) {
                continue;
            }
            return Some(self.parse_block(i, g));
        }
    }

    /// The block whose first cluster `g`, at char `i`, was just read.
    fn parse_block(&mut self, i: usize, g: &'a str) -> (r: (BlockElement<'a>, std::ops::Range<usize>))
        requires
            old(self).wf(),
            old(self).position() >= 1,
            i == off(old(self).gs(), old(self).position() - 1),
            g@ == old(self).gs()[old(self).position() - 1],
        ensures
            final(self).wf(),
            final(self).text() == old(self).text(),
            is_parsed(r.0, r.1, block_at(old(self).gs(), old(self).position() - 1)),
            final(self).position() == block_at(old(self).gs(), old(self).position() - 1).pos,
    {
        let ghost gs = self.gs();
        let ghost k = self.position() - 1;
        proof {
            self.lemma_model();
            lemma_off_step(gs, k);
            lemma_off_mono(gs, k + 1, gs.len() as int);
            if k >= 1 {
                assert(self.graphemes.clusters()[k - 1]@ == gs[k - 1]);
            }
            reveal_strlit("|");
            reveal_strlit(">");
            reveal_strlit("#");
            reveal_strlit("!");
            reveal_strlit("`");
            reveal_strlit("-");
            reveal_strlit("\n");
            reveal_strlit("\r\n");
            assert("|"@ =~= seq!['|']);
            assert(">"@ =~= seq!['>']);
            assert("#"@ =~= seq!['#']);
            assert("!"@ =~= seq!['!']);
            assert("`"@ =~= seq!['`']);
            assert("-"@ =~= seq!['-']);
            assert("\n"@ =~= seq!['\n']);
            assert("\r\n"@ =~= seq!['\r', '\n']);
        }
        let line_start = match self.graphemes.previous() {
            None => true,
            Some(x) => str_eq(x, "\n") || str_eq(x, "\r\n"),
        };
        if line_start {
            if str_eq(g, "|") {
                return self.parse_paragraph(i, Alignment::Center);
            }
            if str_eq(g, ">") {
                return self.parse_paragraph(i, Alignment::Right);
            }
            if str_eq(g, "#") {
                return self.parse_comment(i);
            }
            if str_eq(g, "!") {
                return self.parse_image(i);
            }
            if str_eq(g, "`") {
                return self.parse_ticks(i);
            }
            if str_eq(g, "-") {
                return self.parse_dashes(i);
            }
        }
        self.parse_paragraph(i, Alignment::Left)
    }

    /// What a backtick at char `i` that starts a line opens.
    fn parse_ticks(&mut self, i: usize) -> (r: (BlockElement<'a>, std::ops::Range<usize>))
        requires
            old(self).wf(),
            old(self).position() >= 1,
            i == off(old(self).gs(), old(self).position() - 1),
            old(self).gs()[old(self).position() - 1] == seq!['`'],
        ensures
            final(self).wf(),
            final(self).text() == old(self).text(),
            ({
                let gs = old(self).gs();
                let p = old(self).position();
                let n = run_of(gs, p, seq!['`']);
                let pd = if n + 1 >= 3 {
                    code_at(gs, i as int, p + n, (n + 1) as int)
                } else {
                    paragraph_at(gs, i as int, p + n, Alignment::Left)
                };
                is_parsed(r.0, r.1, pd) && final(self).position() == pd.pos
            }),
    {
        let ghost gs = self.gs();
        let ghost k = self.position() - 1;
        proof {
            self.lemma_model();
            lemma_off_step(gs, k);
            reveal_strlit("`");
            assert("`"@ =~= seq!['`']);
        }
        let n = self.run("`");
        proof {
            lemma_run_of_bound(gs, k + 1, seq!['`']);
            lemma_off_run(gs, k + 1, n as int, seq!['`']);
            lemma_off_mono(gs, k + 1, k + 1 + n);
        }
        if n + 1 >= 3 {
            return self.parse_code_block(i, n + 1);
        }
        self.parse_paragraph(i, Alignment::Left)
    }

    /// What a dash at char `i` that starts a line opens: a list, a break, or a
    /// paragraph.
    fn parse_dashes(&mut self, i: usize) -> (r: (BlockElement<'a>, std::ops::Range<usize>))
        requires
            old(self).wf(),
            old(self).position() >= 1,
            i == off(old(self).gs(), old(self).position() - 1),
            old(self).gs()[old(self).position() - 1] == seq!['-'],
        ensures
            final(self).wf(),
            final(self).text() == old(self).text(),
            ({
                let gs = old(self).gs();
                let p = old(self).position();
                let n = run_of(gs, p, seq!['-']);
                let q = p + n;
                let m = if nl_run(gs, q) < 2 {
                    nl_run(gs, q)
                } else {
                    2
                };
                let pd = if n == 0 {
                    list_at(gs, i as int, q)
                } else if n == 2 {
                    if m == 2 {
                        Parsed { block: BlockView::Break, start: i as int, end: i + 5, pos: q + 2 }
                    } else {
                        paragraph_at(gs, i as int, q + m, Alignment::Left)
                    }
                } else {
                    paragraph_at(gs, i as int, q, Alignment::Left)
                };
                is_parsed(r.0, r.1, pd) && final(self).position() == pd.pos
            }),
    {
        let ghost gs = self.gs();
        let ghost k = self.position() - 1;
        proof {
            self.lemma_model();
            lemma_off_step(gs, k);
            reveal_strlit("-");
            assert("-"@ =~= seq!['-']);
        }
        let n = self.run("-");
        proof {
            lemma_run_of_bound(gs, k + 1, seq!['-']);
            lemma_off_mono(gs, k + 1, k + 1 + n);
        }
        if n == 0 {
            return self.parse_list(i);
        }
        if n == 2 {
            let m = self.nl_run2();
            proof {
                self.lemma_model();
                lemma_off_mono(gs, k + 1, k + 3 + m);
            }
            if m == 2 {
                proof {
                    lemma_off_mono(gs, k, k + 5);
                }
                let dashes = n + 1;
                return (BlockElement::Break, std::ops::Range { start: i, end: i + dashes + 2 });
            }
            return self.parse_paragraph(i, Alignment::Left);
        }
        self.parse_paragraph(i, Alignment::Left)
    }

    /// A paragraph whose marker is at char `start`.
    fn parse_paragraph(&mut self, start: usize, alignment: Alignment) -> (r: (
        BlockElement<'a>,
        std::ops::Range<usize>,
    ))
        requires
            old(self).wf(),
            start + (if alignment is Left {
                0int
            } else {
                1int
            }) <= off(old(self).gs(), old(self).position()),
        ensures
            final(self).wf(),
            final(self).text() == old(self).text(),
            is_parsed(
                r.0,
                r.1,
                paragraph_at(old(self).gs(), start as int, old(self).position(), alignment),
            ),
            final(self).position() == paragraph_at(
                old(self).gs(),
                start as int,
                old(self).position(),
                alignment,
            ).pos,
    {
        let ghost gs = self.gs();
        let ghost p = self.position();
        proof {
            self.lemma_model();
            lemma_first_nl_pair_bounds(gs, p + 1);
            lemma_off_mono(gs, p, gs.len() as int);
            if first_nl_pair(gs, p + 1) < gs.len() {
                lemma_off_mono(gs, p, first_nl_pair(gs, p + 1));
                lemma_off_mono(gs, p, first_nl_pair(gs, p + 1) + 1);
            }
        }
        let len = self.chars.len();
        let start_offset: usize = match alignment {
            Alignment::Left => 0,
            _ => 1,
        };
        let paragraph_start = start + start_offset;
        let (paragraph_end, end) = match self.to_nl_pair() {
            Some((i, e)) => (i, e),
            None => (len, len),
        };
        let text = trim_slice(self.input, &self.chars, paragraph_start, paragraph_end);
        (BlockElement::Paragraph { text, alignment }, std::ops::Range { start, end })
    }

    /// A list whose `-` is at char `start`.
    fn parse_list(&mut self, start: usize) -> (r: (BlockElement<'a>, std::ops::Range<usize>))
        requires
            old(self).wf(),
            start + 1 <= off(old(self).gs(), old(self).position()),
        ensures
            final(self).wf(),
            final(self).text() == old(self).text(),
            is_parsed(r.0, r.1, list_at(old(self).gs(), start as int, old(self).position())),
            final(self).position() == list_at(old(self).gs(), start as int, old(self).position()).pos,
    {
        let ghost gs = self.gs();
        let ghost p = self.position();
        proof {
            self.lemma_model();
            lemma_first_nl_pair_bounds(gs, p + 1);
            lemma_off_mono(gs, p, gs.len() as int);
            if first_nl_pair(gs, p + 1) < gs.len() {
                lemma_off_mono(gs, p, first_nl_pair(gs, p + 1));
                lemma_off_mono(gs, p, first_nl_pair(gs, p + 1) + 1);
            }
        }
        let len = self.chars.len();
        let (list_end, end) = match self.to_nl_pair() {
            Some((i, e)) => (i, e),
            None => (len, len),
        };
        let text = trim_slice(self.input, &self.chars, start + 1, list_end);
        (BlockElement::List { items: ListItems::new(text) }, std::ops::Range { start, end })
    }

    /// A comment whose `#` is at char `start`.
    fn parse_comment(&mut self, start: usize) -> (r: (BlockElement<'a>, std::ops::Range<usize>))
        requires
            old(self).wf(),
            start + 1 <= off(old(self).gs(), old(self).position()),
        ensures
            final(self).wf(),
            final(self).text() == old(self).text(),
            is_parsed(r.0, r.1, comment_at(old(self).gs(), start as int, old(self).position())),
            final(self).position() == comment_at(
                old(self).gs(),
                start as int,
                old(self).position(),
            ).pos,
    {
        let ghost gs = self.gs();
        let ghost p = self.position();
        proof {
            self.lemma_model();
            lemma_first_where_bounds(gs, p, |x: Seq<char>| nl(x));
            lemma_off_mono(gs, p, gs.len() as int);
            if first_nl(gs, p) < gs.len() {
                lemma_off_mono(gs, p, first_nl(gs, p));
                lemma_off_mono(gs, p, first_nl(gs, p) + 1);
            }
        }
        let len = self.chars.len();
        let (comment_end, end) = match self.to_nl() {
            Some((i, e)) => (i, e),
            None => (len, len),
        };
        let text = trim_slice(self.input, &self.chars, start + 1, comment_end);
        (BlockElement::Comment { _text: text }, std::ops::Range { start, end })
    }

    /// A code block opened by `ticks` backticks at char `start`.
    fn parse_code_block(&mut self, start: usize, ticks: usize) -> (r: (
        BlockElement<'a>,
        std::ops::Range<usize>,
    ))
        requires
            old(self).wf(),
            start + ticks <= off(old(self).gs(), old(self).position()),
        ensures
            final(self).wf(),
            final(self).text() == old(self).text(),
            is_parsed(
                r.0,
                r.1,
                code_at(old(self).gs(), start as int, old(self).position(), ticks as int),
            ),
            final(self).position() == code_at(
                old(self).gs(),
                start as int,
                old(self).position(),
                ticks as int,
            ).pos,
    {
        let ghost gs = self.gs();
        let ghost p = self.position();
        let ghost target = code_at(gs, start as int, p, ticks as int);
        proof {
            self.lemma_model();
            lemma_first_where_bounds(gs, p, |x: Seq<char>| nl(x));
            lemma_off_mono(gs, p, gs.len() as int);
            if first_nl(gs, p) < gs.len() {
                lemma_off_mono(gs, p, first_nl(gs, p));
                lemma_off_mono(gs, p, first_nl(gs, p) + 1);
            }
            reveal_strlit("");
            reveal_strlit("`");
        }
        let len = self.chars.len();
        let lang_start = start + ticks;
        let Some((i, code_start)) = self.to_nl() else {
            let language = trim_slice(self.input, &self.chars, lang_start, len);
            assert(""@ =~= Seq::<char>::empty());
            return (
                BlockElement::Code { language, text: "" },
                std::ops::Range { start, end: len },
            );
        };
        let language = trim_slice(self.input, &self.chars, lang_start, i);
        loop
            invariant
                self.wf(),
                self.text() == old(self).text(),
                gs == self.gs(),
                len == gs.flatten().len(),
                gs.flatten() == self.text(),
                0 <= self.position() <= gs.len(),
                code_start <= off(gs, self.position()),
                code_body(gs, start as int, ticks as int, language@, code_start as int, self.position())
                    == target,
                target == code_at(old(self).gs(), start as int, old(self).position(), ticks as int),
                "`"@ == seq!['`'],
            decreases gs.len() - self.position(),
        {
            let ghost q0 = self.position();
            proof {
                self.lemma_model();
                lemma_first_where_bounds(gs, q0, |x: Seq<char>| nl(x));
                lemma_off_mono(gs, q0, gs.len() as int);
                if first_nl(gs, q0) < gs.len() {
                    lemma_off_mono(gs, q0, first_nl(gs, q0));
                    lemma_off_mono(gs, q0, first_nl(gs, q0) + 1);
                }
            }
            let Some((code_end, after)) = self.to_nl() else {
                let text = self.input.substring_char(code_start, len);
                return (BlockElement::Code { language, text }, std::ops::Range { start, end: len });
            };
            let ghost e = first_nl(gs, q0);
            let end_ticks = self.run("`");
            proof {
                lemma_run_of_bound(gs, e + 1, seq!['`']);
                lemma_off_run(gs, e + 1, end_ticks as int, seq!['`']);
                lemma_off_mono(gs, e + 1 + end_ticks, gs.len() as int);
            }
            if end_ticks == ticks {
                let end = after + end_ticks;
                let suffix = self.input.substring_char(end, len);
                let rest = graphemes_of(suffix);
                let text = self.input.substring_char(code_start, code_end);
                if rest.len() == 0 {
                    return (BlockElement::Code { language, text }, std::ops::Range { start, end });
                }
                let ghost rs = strs_view(rest@);
                proof {
                    assert(rs[0] == rest@[0]@);
                    assert forall|k: int| 0 <= k < rs.len() implies (#[trigger] rs[k]).len() > 0 by {
                        assert(rs[k] == rest@[k]@);
                    }
                    lemma_off_mono(rs, 0, rs.len() as int);
                    lemma_off_step(rs, 0);
                }
                if str_contains(rest[0], '\n') {
                    if rest.len() == 1 {
                        let end = rest[0].unicode_len();
                        return (BlockElement::Code { language, text }, std::ops::Range { start, end });
                    }
                    proof {
                        assert(rs[1] == rest@[1]@);
                        lemma_off_step(rs, 1);
                        lemma_off_mono(rs, 2, rs.len() as int);
                    }
                    if str_contains(rest[1], '\n') {
                        self.read();
                        self.read();
                        let end = rest[0].unicode_len() + rest[1].unicode_len();
                        return (BlockElement::Code { language, text }, std::ops::Range { start, end });
                    }
                }
            }
        }
    }

    /// An image whose `!` is at char `start`, or a paragraph if it is not one.
    fn parse_image(&mut self, start: usize) -> (r: (BlockElement<'a>, std::ops::Range<usize>))
        requires
            old(self).wf(),
            start + 1 <= off(old(self).gs(), old(self).position()),
        ensures
            final(self).wf(),
            final(self).text() == old(self).text(),
            is_parsed(r.0, r.1, image_at(old(self).gs(), start as int, old(self).position())),
            final(self).position() == image_at(old(self).gs(), start as int, old(self).position()).pos,
    {
        let ghost gs = self.gs();
        let ghost p = self.position();
        proof {
            self.lemma_model();
            reveal_strlit("[");
            reveal_strlit("]");
            reveal_strlit("(");
            reveal_strlit(")");
            assert("["@ =~= seq!['[']);
            assert("]"@ =~= seq![']']);
            assert("("@ =~= seq!['(']);
            assert(")"@ =~= seq![')']);
        }
        let len = self.chars.len();
        let Some((descr_start, g)) = self.read() else {
            return self.parse_paragraph(start, Alignment::Left);
        };
        proof {
            lemma_off_mono(gs, p, p + 1);
        }
        if !str_eq(g, "[") {
            return self.parse_paragraph(start, Alignment::Left);
        }
        proof {
            lemma_off_step(gs, p);
            lemma_first_where_bounds(gs, p + 1, |y: Seq<char>| y == seq![']']);
        }
        let ghost d = first_eq(gs, p + 1, seq![']']);
        let Some(descr_end) = self.find_eq("]") else {
            proof {
                lemma_off_mono(gs, p, gs.len() as int);
            }
            return self.parse_paragraph(start, Alignment::Left);
        };
        proof {
            lemma_off_mono(gs, p + 1, d);
            lemma_off_mono(gs, d, d + 1);
        }
        let Some((path_start, g)) = self.read() else {
            return self.parse_paragraph(start, Alignment::Left);
        };
        proof {
            lemma_off_mono(gs, p, d + 2);
        }
        if !str_eq(g, "(") {
            return self.parse_paragraph(start, Alignment::Left);
        }
        proof {
            lemma_off_step(gs, d + 1);
            lemma_first_where_bounds(gs, d + 2, |y: Seq<char>| y == seq![')']);
        }
        let ghost e = first_eq(gs, d + 2, seq![')']);
        let Some(path_end) = self.find_eq(")") else {
            proof {
                lemma_off_mono(gs, p, gs.len() as int);
            }
            return self.parse_paragraph(start, Alignment::Left);
        };
        proof {
            lemma_off_mono(gs, d + 2, e);
            lemma_off_mono(gs, p, e + 1);
        }
        let description = trim_slice(self.input, &self.chars, descr_start + 1, descr_end);
        let path = trim_slice(self.input, &self.chars, path_start + 1, path_end);
        let Some((end, g)) = self.read() else {
            return (BlockElement::Image { description, path }, std::ops::Range { start, end: len });
        };
        proof {
            lemma_off_mono(gs, p, e + 2);
        }
        if !str_contains(g, '\n') {
            return self.parse_paragraph(start, Alignment::Left);
        }
        let Some((_, g)) = self.read() else {
            return (BlockElement::Image { description, path }, std::ops::Range { start, end });
        };
        proof {
            lemma_off_mono(gs, p, e + 3);
        }
        if !str_contains(g, '\n') {
            return self.parse_paragraph(start, Alignment::Left);
        }
        (BlockElement::Image { description, path }, std::ops::Range { start, end })
    }

    /// Reads up to two clusters that hold a line break and counts them.
    fn nl_run2(&mut self) -> (n: usize)
        requires
            old(self).wf(),
        ensures
            final(self).wf(),
            final(self).text() == old(self).text(),
            n == (if nl_run(old(self).gs(), old(self).position()) < 2 {
                nl_run(old(self).gs(), old(self).position())
            } else {
                2
            }),
            final(self).position() == old(self).position() + n,
    {
        let ghost gs = self.gs();
        let ghost s = self.graphemes.clusters();
        let ghost p = self.position();
        proof {
            self.lemma_model();
        }
        let f = |x: &str| -> (b: bool) ensures b == x@.contains('\n') { str_contains(x, '\n') };
        let n = self.graphemes.count_consecutive_by(f, 2);
        proof {
            self.lemma_model();
            assert forall|k: int| p <= k < p + n implies nl(#[trigger] gs[k]) by {
                let q = |x: &str| crate::graphemes::holds_g(f, x);
                assert(q(s[k]));
                assert(gs[k] == s[k]@);
            }
            if p + n < gs.len() {
                assert(gs[p + n] == s[p + n]@);
            }
            lemma_nl_run_is(gs, p, n as int);
        }
        n
    }
}

/// The items of the list text `t`, from position `pos` of its clusters on.
pub open spec fn list_items_from(gs: Seq<Seq<char>>, pos: int) -> Seq<Seq<char>>
    decreases gs.len() - pos,
{
    if pos < 0 || pos >= gs.len() {
        Seq::empty()
    } else {
        proof {
            lemma_list_step_advances(gs, pos);
        }
        match list_step(gs, pos) {
            None => Seq::empty(),
            Some((item, next)) => seq![item] + list_items_from(gs, next),
        }
    }
}

/// The items of a markup list whose text is `t`.
pub open spec fn list_items(t: Seq<char>) -> Seq<Seq<char>> {
    list_items_from(grapheme_clusters_of(t), 0)
}

/// The kinds of item that a block shows, in order.
pub open spec fn block_kinds(b: BlockView) -> Seq<MarkupItem> {
    match b {
        BlockView::Paragraph(_, _) => seq![MarkupItem::Paragraph],
        BlockView::List(t) => Seq::new(list_items(t).len(), |i: int| MarkupItem::ListItem),
        BlockView::Code(_, _) => seq![MarkupItem::Code],
        BlockView::Image(d, _) => if d.len() > 0 {
            seq![MarkupItem::Image, MarkupItem::ImageDescription]
        } else {
            seq![MarkupItem::Image]
        },
        BlockView::Comment(_) => Seq::empty(),
        BlockView::Break => seq![MarkupItem::Break],
    }
}

/// The items a block shows: one paragraph item for a paragraph (of any
/// alignment), one list item per item of a list, one code item for a code
/// block, nothing for a comment, one break item for a break, and for an
/// image its image item, followed by a description item exactly when its
/// description is not empty.
pub proof fn law_block_items(b: BlockView)
    ensures
        b is Paragraph ==> block_kinds(b) == seq![MarkupItem::Paragraph],
        b matches BlockView::List(t) ==> block_kinds(b).len() == list_items(t).len() && (forall|i: int|
            0 <= i < block_kinds(b).len() ==> block_kinds(b)[i] == MarkupItem::ListItem),
        b is Code ==> block_kinds(b) == seq![MarkupItem::Code],
        b is Comment ==> block_kinds(b).len() == 0,
        b is Break ==> block_kinds(b) == seq![MarkupItem::Break],
        b matches BlockView::Image(d, _) ==> {
            &&& block_kinds(b).len() >= 1
            &&& block_kinds(b)[0] == MarkupItem::Image
            &&& (block_kinds(b).contains(MarkupItem::ImageDescription) <==> d.len() > 0)
            &&& block_kinds(b).len() == (if d.len() > 0 {
                2int
            } else {
                1int
            })
        },
{
    if let BlockView::Image(d, _) = b {
        if d.len() > 0 {
            assert(block_kinds(b)[1] == MarkupItem::ImageDescription);
        } else {
            assert(!block_kinds(b).contains(MarkupItem::ImageDescription)) by {
                assert(block_kinds(b) =~= seq![MarkupItem::Image]);
            }
        }
    }
}

/// The items of the blocks from position `p` on, each block but a comment
/// followed by an empty line.
pub open spec fn items_from(gs: Seq<Seq<char>>, p: int) -> Seq<MarkupItem>
    decreases gs.len() - p,
{
    if p < 0 || p >= gs.len() {
        Seq::empty()
    } else {
        proof {
            lemma_next_block_advances(gs, p);
        }
        match next_block(gs, p) {
            None => Seq::empty(),
            Some(pd) => match pd.block {
                BlockView::Comment(_) => items_from(gs, pd.pos),
                _ => block_kinds(pd.block) + seq![MarkupItem::EmptyLine]
                    + items_from(gs, pd.pos),
            },
        }
    }
}

/// The items of markup `t`, without the empty line after the last block.
pub open spec fn markup_items(t: Seq<char>) -> Seq<MarkupItem> {
    let all = items_from(grapheme_clusters_of(t), 0);
    if all.len() == 0 {
        all
    } else {
        all.drop_last()
    }
}

pub proof fn lemma_list_step_advances(gs: Seq<Seq<char>>, pos: int)
    requires
        0 <= pos < gs.len(),
    ensures
        list_step(gs, pos) matches Some((item, next)) ==> pos < next <= gs.len(),
{
    let e0 = if pos < 1 {
        1
    } else {
        pos
    };
    lemma_first_item_break_bounds(gs, e0);
}

proof fn lemma_after_pair_pos(gs: Seq<Seq<char>>, p: int)
    requires
        0 <= p <= gs.len(),
    ensures
        p <= after_pair(gs, p).2 <= gs.len(),
{
    lemma_first_nl_pair_bounds(gs, p + 1);
}

proof fn lemma_after_nl_pos(gs: Seq<Seq<char>>, p: int)
    requires
        0 <= p <= gs.len(),
    ensures
        p <= after_nl(gs, p).2 <= gs.len(),
{
    lemma_first_where_bounds(gs, p, |x: Seq<char>| nl(x));
}

proof fn lemma_code_body_pos(
    gs: Seq<Seq<char>>,
    i: int,
    ticks: int,
    lang: Seq<char>,
    cs: int,
    p: int,
)
    requires
        0 <= p <= gs.len(),
    ensures
        p <= code_body(gs, i, ticks, lang, cs, p).pos <= gs.len(),
    decreases gs.len() - p,
{
    let e = first_nl(gs, p);
    lemma_first_where_bounds(gs, p, |x: Seq<char>| nl(x));
    if e < gs.len() {
        lemma_run_of_bound(gs, e + 1, seq!['`']);
        let q = e + 1 + run_of(gs, e + 1, seq!['`']);
        lemma_code_body_pos(gs, i, ticks, lang, cs, q);
    }
}

proof fn lemma_image_pos(gs: Seq<Seq<char>>, i: int, p: int)
    requires
        0 <= p <= gs.len(),
    ensures
        p <= image_at(gs, i, p).pos <= gs.len(),
{
    lemma_after_pair_pos(gs, p);
    if p < gs.len() {
        lemma_after_pair_pos(gs, p + 1);
        lemma_after_pair_pos(gs, gs.len() as int);
        let d = first_eq(gs, p + 1, seq![']']);
        lemma_first_where_bounds(gs, p + 1, |y: Seq<char>| y == seq![']']);
        if d + 2 <= gs.len() {
            lemma_after_pair_pos(gs, d + 2);
            let e = first_eq(gs, d + 2, seq![')']);
            lemma_first_where_bounds(gs, d + 2, |y: Seq<char>| y == seq![')']);
            if e + 3 <= gs.len() {
                lemma_after_pair_pos(gs, e + 2);
                lemma_after_pair_pos(gs, e + 3);
            } else if e + 2 <= gs.len() {
                lemma_after_pair_pos(gs, e + 2);
            }
        }
    }
}

/// Each block is read past its first cluster.
pub proof fn lemma_block_at_advances(gs: Seq<Seq<char>>, k: int)
    requires
        0 <= k < gs.len(),
    ensures
        k < block_at(gs, k).pos <= gs.len(),
{
    let p = k + 1;
    lemma_after_pair_pos(gs, p);
    lemma_after_nl_pos(gs, p);
    lemma_image_pos(gs, off(gs, k), p);
    lemma_run_of_bound(gs, p, seq!['`']);
    lemma_run_of_bound(gs, p, seq!['-']);
    let n = run_of(gs, p, seq!['`']);
    lemma_after_pair_pos(gs, p + n);
    let e = first_nl(gs, p + n);
    lemma_first_where_bounds(gs, p + n, |x: Seq<char>| nl(x));
    if e < gs.len() {
        lemma_code_body_pos(
            gs,
            off(gs, k),
            (n + 1) as int,
            trimmed(gs.flatten(), off(gs, k) + n + 1, off(gs, e)),
            off(gs, e + 1),
            e + 1,
        );
    }
    let m = run_of(gs, p, seq!['-']);
    lemma_after_pair_pos(gs, p + m);
    if m == 2 {
        let q = p + m;
        lemma_nl_run_bound(gs, q);
        let r = if nl_run(gs, q) < 2 {
            nl_run(gs, q)
        } else {
            2
        };
        lemma_after_pair_pos(gs, q + r);
    }
}

proof fn lemma_nl_run_bound(gs: Seq<Seq<char>>, p: int)
    requires
        0 <= p <= gs.len(),
    ensures
        p + nl_run(gs, p) <= gs.len(),
    decreases gs.len() - p,
{
    if p < gs.len() && nl(gs[p]) {
        lemma_nl_run_bound(gs, p + 1);
    }
}

/// Each block moves the parser forward.
pub proof fn lemma_next_block_advances(gs: Seq<Seq<char>>, p: int)
    requires
        0 <= p < gs.len(),
    ensures
        next_block(gs, p) matches Some(pd) ==> p < pd.pos <= gs.len(),
    decreases gs.len() - p,
{
    if !any_white_space(gs[p]) {
        lemma_block_at_advances(gs, p);
    } else if p + 1 < gs.len() {
        lemma_next_block_advances(gs, p + 1);
    }
}

/// Pushes one `ListItem` to `v` for each item that `items` has left.
fn push_list_items(items: &mut ListItems, v: &mut Vec<MarkupItem>)
    requires
        old(items).wf(),
    ensures
        final(v)@ == old(v)@ + Seq::new(
            list_items_from(grapheme_clusters_of(old(items).text()), old(items).position()).len(),
            |i: int| MarkupItem::ListItem,
        ),
{
    let ghost gs = grapheme_clusters_of(items.text());
    let ghost target = old(v)@ + Seq::new(
        list_items_from(gs, items.position()).len(),
        |i: int| MarkupItem::ListItem,
    );
    loop
        invariant
            items.wf(),
            items.text() == old(items).text(),
            gs == grapheme_clusters_of(items.text()),
            target == old(v)@ + Seq::new(
                list_items_from(gs, old(items).position()).len(),
                |i: int| MarkupItem::ListItem,
            ),
            v@ + Seq::new(
                list_items_from(gs, items.position()).len(),
                |i: int| MarkupItem::ListItem,
            ) == target,
        decreases gs.len() - items.position(),
    {
        let ghost p = items.position();
        proof {
            items.lemma_position();
            if p < gs.len() {
                lemma_list_step_advances(gs, p);
            }
        }
        match items.next() {
            None => {
                proof {
                    assert(list_items_from(gs, p).len() == 0);
                    assert(v@ =~= target);
                }
                return;
            },
            Some(_) => {
                proof {
                    if p >= gs.len() {
                        lemma_off_end(gs, p);
                    }
                    let rest = list_items_from(gs, items.position()).len();
                    assert(list_items_from(gs, p).len() == 1 + rest);
                    assert(v@.push(MarkupItem::ListItem) + Seq::new(rest, |i: int| MarkupItem::ListItem)
                        =~= v@ + Seq::new(1 + rest, |i: int| MarkupItem::ListItem));
                }
                v.push(MarkupItem::ListItem);
            },
        }
    }
}

/// Pushes to `v` the kinds of item that a block is shown as.
fn push_block_kinds(block: BlockElement, v: &mut Vec<MarkupItem>)
    requires
        block.fresh(),
    ensures
        final(v)@ == old(v)@ + block_kinds(block.view()),
{
    match block {
        BlockElement::Paragraph { .. } => v.push(MarkupItem::Paragraph),
        BlockElement::List { items } => {
            let mut items = items;
            push_list_items(&mut items, v);
        },
        BlockElement::Code { .. } => v.push(MarkupItem::Code),
        BlockElement::Image { description, .. } => {
            v.push(MarkupItem::Image);
            if description.unicode_len() > 0 {
                v.push(MarkupItem::ImageDescription);
            }
        },
        BlockElement::Comment { .. } => {},
        BlockElement::Break => v.push(MarkupItem::Break),
    }
    proof {
        assert(final(v)@ =~= old(v)@ + block_kinds(block.view()));
    }
}

/// Pushes to `v` the kinds of item that `markup` is shown as, each block but
/// a comment followed by an empty line, then drops the last item of `v`.
pub fn parse_items(markup: &str, v: &mut Vec<MarkupItem>)
    ensures
        final(v)@ == ({
            let all = old(v)@ + items_from(grapheme_clusters_of(markup@), 0);
            if all.len() == 0 {
                all
            } else {
                all.drop_last()
            }
        }),
{
    let mut parser = BlockParser::new(markup);
    let ghost gs = grapheme_clusters_of(markup@);
    let ghost target = old(v)@ + items_from(gs, 0);
    loop
        invariant
            parser.wf(),
            parser.text() == markup@,
            gs == parser.gs(),
            0 <= parser.position() <= gs.len(),
            v@ + items_from(gs, parser.position()) == target,
            target == old(v)@ + items_from(grapheme_clusters_of(markup@), 0),
        ensures
            v@ == target,
            target == old(v)@ + items_from(grapheme_clusters_of(markup@), 0),
        decreases gs.len() - parser.position(),
    {
        let ghost p = parser.position();
        proof {
            if p < gs.len() {
                lemma_next_block_advances(gs, p);
            }
        }
        let Some((block, _)) = parser.next() else {
            proof {
                assert(items_from(gs, p) =~= Seq::<MarkupItem>::empty());
                assert(v@ =~= target);
            }
            break;
        };
        let ghost pd = next_block(gs, p).unwrap();
        let ghost before = v@;
        if let BlockElement::Comment { .. } = block {
            continue;
        }
        push_block_kinds(block, v);
        v.push(MarkupItem::EmptyLine);
        proof {
            assert(before + (block_kinds(pd.block) + seq![MarkupItem::EmptyLine] + items_from(gs, pd.pos))
                =~= v@ + items_from(gs, pd.pos));
        }
    }
    v.pop();
}

// ---- lemmas on the cluster model ----
pub proof fn lemma_first_item_break_bounds(gs: Seq<Seq<char>>, e0: int)
    requires
        1 <= e0,
    ensures
        e0 <= first_item_break(gs, e0) <= gs.len() || (e0 > gs.len() && first_item_break(gs, e0)
            == gs.len()),
        first_item_break(gs, e0) < gs.len() ==> nl(gs[first_item_break(gs, e0) - 1])
            && gs[first_item_break(gs, e0)] == seq!['-'],
    decreases gs.len() - e0,
{
    if e0 < gs.len() && !(nl(gs[e0 - 1]) && gs[e0] == seq!['-']) {
        lemma_first_item_break_bounds(gs, e0 + 1);
    }
}

pub proof fn lemma_first_item_break_is(gs: Seq<Seq<char>>, e0: int, e: int)
    requires
        1 <= e0 <= e <= gs.len(),
        e < gs.len() ==> nl(gs[e - 1]) && gs[e] == seq!['-'],
        forall|k: int| e0 <= k < e ==> !(nl(#[trigger] gs[k - 1]) && gs[k] == seq!['-']),
    ensures
        first_item_break(gs, e0) == e,
    decreases e - e0,
{
    if e0 < e {
        lemma_first_item_break_is(gs, e0 + 1, e);
    }
}

pub proof fn lemma_first_where_bounds(gs: Seq<Seq<char>>, p: int, pred: spec_fn(Seq<char>) -> bool)
    requires
        0 <= p,
    ensures
        p <= first_where(gs, p, pred) <= gs.len() || (p > gs.len() && first_where(gs, p, pred)
            == gs.len()),
        first_where(gs, p, pred) < gs.len() ==> pred(gs[first_where(gs, p, pred)]),
        forall|k: int| p <= k < first_where(gs, p, pred) ==> !pred(#[trigger] gs[k]),
    decreases gs.len() - p,
{
    if p < gs.len() && !pred(gs[p]) {
        lemma_first_where_bounds(gs, p + 1, pred);
    }
}

/// The first cluster that `pred` accepts is the one that a scan finds.
pub proof fn lemma_first_where_is(gs: Seq<Seq<char>>, p: int, i: int, pred: spec_fn(Seq<char>) -> bool)
    requires
        0 <= p <= i <= gs.len(),
        i < gs.len() ==> pred(gs[i]),
        forall|k: int| p <= k < i ==> !pred(#[trigger] gs[k]),
    ensures
        first_where(gs, p, pred) == i,
    decreases i - p,
{
    if p < i {
        lemma_first_where_is(gs, p + 1, i, pred);
    }
}

pub proof fn lemma_first_nl_pair_bounds(gs: Seq<Seq<char>>, e0: int)
    requires
        1 <= e0,
    ensures
        e0 <= first_nl_pair(gs, e0) <= gs.len() || (e0 > gs.len() && first_nl_pair(gs, e0)
            == gs.len()),
        first_nl_pair(gs, e0) < gs.len() ==> nl(gs[first_nl_pair(gs, e0) - 1]) && nl(
            gs[first_nl_pair(gs, e0)],
        ),
    decreases gs.len() - e0,
{
    if e0 < gs.len() && !(nl(gs[e0 - 1]) && nl(gs[e0])) {
        lemma_first_nl_pair_bounds(gs, e0 + 1);
    }
}

pub proof fn lemma_first_nl_pair_is(gs: Seq<Seq<char>>, e0: int, e: int)
    requires
        1 <= e0 <= e <= gs.len(),
        e < gs.len() ==> nl(gs[e - 1]) && nl(gs[e]),
        forall|k: int| e0 <= k < e ==> !(nl(#[trigger] gs[k - 1]) && nl(gs[k])),
    ensures
        first_nl_pair(gs, e0) == e,
    decreases e - e0,
{
    if e0 < e {
        lemma_first_nl_pair_is(gs, e0 + 1, e);
    }
}

pub proof fn lemma_run_of_bound(gs: Seq<Seq<char>>, p: int, g: Seq<char>)
    requires
        0 <= p,
    ensures
        0 <= run_of(gs, p, g),
        p <= gs.len() ==> p + run_of(gs, p, g) <= gs.len(),
        forall|k: int| p <= k < p + run_of(gs, p, g) ==> #[trigger] gs[k] == g,
        p + run_of(gs, p, g) < gs.len() ==> gs[p + run_of(gs, p, g)] != g,
    decreases gs.len() - p,
{
    if 0 <= p < gs.len() && gs[p] == g {
        lemma_run_of_bound(gs, p + 1, g);
    }
}

/// A run counted by a scan is the run.
pub proof fn lemma_run_of_is(gs: Seq<Seq<char>>, p: int, n: int, g: Seq<char>)
    requires
        0 <= p,
        0 <= n,
        p + n <= gs.len(),
        forall|k: int| p <= k < p + n ==> #[trigger] gs[k] == g,
        p + n == gs.len() || gs[p + n] != g,
    ensures
        run_of(gs, p, g) == n,
    decreases n,
{
    if n > 0 {
        lemma_run_of_is(gs, p + 1, n - 1, g);
    }
}

pub proof fn lemma_nl_run_is(gs: Seq<Seq<char>>, p: int, n: int)
    requires
        0 <= p,
        0 <= n,
        p + n <= gs.len(),
        forall|k: int| p <= k < p + n ==> nl(#[trigger] gs[k]),
    ensures
        n < 2 && (p + n == gs.len() || !nl(gs[p + n])) ==> nl_run(gs, p) == n,
        n == 2 ==> nl_run(gs, p) >= 2,
    decreases n,
{
    if n > 0 {
        assert(nl(gs[p]));
        lemma_nl_run_is(gs, p + 1, n - 1);
        if n == 2 {
            lemma_nl_run_ge(gs, p + 1, 1);
        }
    }
}

proof fn lemma_nl_run_ge(gs: Seq<Seq<char>>, p: int, n: int)
    requires
        0 <= p,
        0 <= n,
        p + n <= gs.len(),
        forall|k: int| p <= k < p + n ==> nl(#[trigger] gs[k]),
    ensures
        nl_run(gs, p) >= n,
    decreases n,
{
    if n > 0 {
        assert(nl(gs[p]));
        lemma_nl_run_ge(gs, p + 1, n - 1);
        assert(nl_run(gs, p) == 1 + nl_run(gs, p + 1));
    }
}

/// The offset of the cluster after `k` is that of `k` and `k`'s length.
pub proof fn lemma_off_step(gs: Seq<Seq<char>>, k: int)
    requires
        0 <= k < gs.len(),
    ensures
        off(gs, k + 1) == off(gs, k) + gs[k].len(),
{
    assert(gs.take(k + 1) =~= gs.take(k).push(gs[k]));
    gs.take(k).lemma_flatten_push(gs[k]);
}

/// Offsets grow by at least one per cluster when no cluster is empty, and the
/// last one is the length of the text.
pub proof fn lemma_off_mono(gs: Seq<Seq<char>>, a: int, b: int)
    requires
        0 <= a <= b <= gs.len(),
        forall|k: int| 0 <= k < gs.len() ==> (#[trigger] gs[k]).len() > 0,
    ensures
        off(gs, a) + (b - a) <= off(gs, b),
        off(gs, b) <= gs.flatten().len(),
        off(gs, 0) == 0,
    decreases b - a,
{
    assert(gs.take(0) =~= Seq::<Seq<char>>::empty());
    if a < b {
        lemma_off_step(gs, a);
        lemma_off_mono(gs, a + 1, b);
    } else {
        lemma_off_end(gs, b);
    }
}

pub proof fn lemma_off_end(gs: Seq<Seq<char>>, k: int)
    requires
        0 <= k <= gs.len(),
    ensures
        off(gs, k) <= gs.flatten().len(),
        off(gs, gs.len() as int) == gs.flatten().len(),
    decreases gs.len() - k,
{
    assert(gs.take(gs.len() as int) =~= gs);
    if k < gs.len() {
        lemma_off_step(gs, k);
        lemma_off_end(gs, k + 1);
    }
}

/// Offsets over a run of one-char clusters advance one per cluster.
pub proof fn lemma_off_run(gs: Seq<Seq<char>>, a: int, n: int, g: Seq<char>)
    requires
        0 <= a,
        0 <= n,
        a + n <= gs.len(),
        g.len() == 1,
        forall|k: int| a <= k < a + n ==> #[trigger] gs[k] == g,
    ensures
        off(gs, a + n) == off(gs, a) + n,
    decreases n,
{
    if n > 0 {
        lemma_off_step(gs, a);
        lemma_off_run(gs, a + 1, n - 1, g);
    }
}

/// The offsets that the grapheme iterator gives are those of the model.
pub proof fn lemma_cluster_offset(s: Seq<&str>, k: int)
    requires
        0 <= k <= s.len(),
    ensures
        cluster_offset(s, k) == off(strs_view(s), k),
{
    assert(strs_view(s.take(k)) =~= strs_view(s).take(k));
}

} // verus!
