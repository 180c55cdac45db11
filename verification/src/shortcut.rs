//! A row of keyboard shortcuts, each shown as its key and then its name.
use vstd::prelude::*;

use crate::byte_pos::{byte_len, byte_offset, char_at, is_char_start, lemma_char_at, lemma_offset_grows, lemma_prefix_char_start};
use crate::formatting::{law_range_reads_back, Formatter};
use crate::markup::Alignment;
use crate::style::{Color, Style};

verus! {

pub struct Shortcut<'a> {
    pub name: &'a str,
    pub key: &'a str,
}

impl<'a> Shortcut<'a> {
    pub fn new(name: &'a str, key: &'a str) -> (s: Self)
        ensures
            s.name == name,
            s.key == key,
    {
        Shortcut { name, key }
    }
}

/// Shortcuts, their names and keys kept in one string.
pub struct Shortcuts {
    formatter: Formatter,
    shortcuts: Vec<(std::ops::Range<usize>, std::ops::Range<usize>)>,
    name_color: Color,
    key_color: Color,
    alignment: Alignment,
}

/// What a byte range of `text` holds.
pub open spec fn range_text(text: Seq<char>, r: std::ops::Range<usize>) -> Seq<char> {
    text.subrange(char_at(text, r.start as int), char_at(text, r.end as int))
}

/// `r` is a range of `text` between two char boundaries.
pub open spec fn is_text_range(text: Seq<char>, r: std::ops::Range<usize>) -> bool {
    &&& r.start <= r.end
    &&& is_char_start(text, r.start as int)
    &&& is_char_start(text, r.end as int)
}

impl Shortcuts {
    pub closed spec fn wf(&self) -> bool {
        forall|i: int|
            0 <= i < self.shortcuts@.len() ==> {
                let (n, k) = #[trigger] self.shortcuts@[i];
                is_text_range(self.formatter@, n) && is_text_range(self.formatter@, k)
            }
    }

    /// The shortcuts, each its name and its key.
    pub closed spec fn entries(&self) -> Seq<(Seq<char>, Seq<char>)> {
        self.shortcuts@.map_values(
            |e: (std::ops::Range<usize>, std::ops::Range<usize>)|
                (range_text(self.formatter@, e.0), range_text(self.formatter@, e.1)),
        )
    }

    /// The colors of the names and of the keys.
    pub closed spec fn colors(&self) -> (Color, Color) {
        (self.name_color, self.key_color)
    }

    /// Where the row of shortcuts is placed.
    pub closed spec fn align(&self) -> Alignment {
        self.alignment
    }

    /// How many chars the names and keys take.
    pub closed spec fn text_len(&self) -> int {
        self.formatter@.len() as int
    }

    pub fn new() -> (s: Self)
        ensures
            s.wf(),
            s.entries() == Seq::<(Seq<char>, Seq<char>)>::empty(),
            s.text_len() == 0,
            s.colors().0 == Color::Reset,
            s.colors().1 == Color::Indexed(240),
            s.align() == Alignment::Center,
    {
        let s = Shortcuts {
            formatter: Formatter::new(),
            shortcuts: Vec::new(),
            name_color: Color::Reset,
            key_color: Color::Indexed(240),
            alignment: Alignment::Center,
        };
        assert(s.entries() =~= Seq::<(Seq<char>, Seq<char>)>::empty());
        s
    }

    pub fn with_alignment(self, align: Alignment) -> (s: Self)
        requires
            self.wf(),
        ensures
            s.wf(),
            s.entries() == self.entries(),
            s.text_len() == self.text_len(),
            s.align() == align,
            s.colors().0 == self.colors().0,
            s.colors().1 == self.colors().1,
    {
        Shortcuts { alignment: align, ..self }
    }

    pub fn with_colors(self, name: Color, key: Color) -> (s: Self)
        requires
            self.wf(),
        ensures
            s.wf(),
            s.entries() == self.entries(),
            s.text_len() == self.text_len(),
            s.align() == self.align(),
            s.colors().0 == name,
            s.colors().1 == key,
    {
        Shortcuts { name_color: name, key_color: key, ..self }
    }

    /// Adds a shortcut at the end.
    pub fn push(&mut self, shortcut: Shortcut<'_>)
        requires
            old(self).wf(),
        ensures
            final(self).wf(),
            final(self).entries() == old(self).entries().push((shortcut.name@, shortcut.key@)),
            final(self).text_len() == old(self).text_len() + shortcut.name@.len()
                + shortcut.key@.len(),
            final(self).colors().0 == old(self).colors().0,
            final(self).colors().1 == old(self).colors().1,
            final(self).align() == old(self).align(),
    {
        let ghost before = self.formatter@;
        let n = self.formatter.push_str(shortcut.name);
        let ghost mid = self.formatter@;
        let k = self.formatter.push_str(shortcut.key);
        let ghost after = self.formatter@;
        self.shortcuts.push((n, k));
        proof {
            lemma_pushed_range(before, shortcut.name@, shortcut.key@);
            lemma_pushed_range(before + shortcut.name@, shortcut.key@, Seq::empty());
            assert(after =~= before + shortcut.name@ + shortcut.key@);
            assert(after + Seq::<char>::empty() =~= after);
            self.lemma_entries_push(*old(self), before, after, n, k);
        }
    }

    /// Pushing a shortcut whose text was appended leaves the earlier entries.
    proof fn lemma_entries_push(
        &self,
        prev: Shortcuts,
        before: Seq<char>,
        after: Seq<char>,
        n: std::ops::Range<usize>,
        k: std::ops::Range<usize>,
    )
        requires
            prev.wf(),
            before == prev.formatter@,
            before.is_prefix_of(after),
            self.formatter@ == after,
            self.shortcuts@ == prev.shortcuts@.push((n, k)),
            is_text_range(after, n),
            is_text_range(after, k),
        ensures
            self.wf(),
            self.entries() == prev.entries().push((range_text(after, n), range_text(after, k))),
    {
        assert forall|i: int| 0 <= i < prev.shortcuts@.len() implies #[trigger] self.entries()[i]
            == prev.entries()[i] && is_text_range(after, self.shortcuts@[i].0) && is_text_range(
            after,
            self.shortcuts@[i].1,
        ) by {
            let (a, b) = prev.shortcuts@[i];
            assert(self.shortcuts@[i] == (a, b));
            lemma_prefix_char_start(before, after, a.start as int);
            lemma_prefix_char_start(before, after, a.end as int);
            lemma_prefix_char_start(before, after, b.start as int);
            lemma_prefix_char_start(before, after, b.end as int);
            if char_at(before, a.end as int) < char_at(before, a.start as int) {
                lemma_offset_grows(before, char_at(before, a.end as int), char_at(before, a.start as int));
            }
            if char_at(before, b.end as int) < char_at(before, b.start as int) {
                lemma_offset_grows(before, char_at(before, b.end as int), char_at(before, b.start as int));
            }
            assert(range_text(after, a) =~= range_text(before, a));
            assert(range_text(after, b) =~= range_text(before, b));
        }
        assert forall|i: int| 0 <= i < self.shortcuts@.len() implies {
            let (n, k) = #[trigger] self.shortcuts@[i];
            is_text_range(self.formatter@, n) && is_text_range(self.formatter@, k)
        } by {
            if i < prev.shortcuts@.len() {
                assert(self.entries()[i] == prev.entries()[i]);
            }
        }
        assert(self.entries() =~= prev.entries().push((range_text(after, n), range_text(after, k))));
    }

    /// Adds a shortcut whose name is made of several pieces.
    pub fn push_iter(&mut self, name: &[&str], key: &str)
        requires
            old(self).wf(),
        ensures
            final(self).wf(),
            final(self).entries() == old(self).entries().push(
                (name@.map_values(|t: &str| t@).flatten(), key@),
            ),
            final(self).text_len() == old(self).text_len() + name@.map_values(|t: &str| t@).flatten().len()
                + key@.len(),
            final(self).colors().0 == old(self).colors().0,
            final(self).colors().1 == old(self).colors().1,
            final(self).align() == old(self).align(),
    {
        self.push_parts(name, key);
    }

    fn push_parts(&mut self, name: &[&str], key: &str)
        requires
            old(self).wf(),
        ensures
            final(self).wf(),
            final(self).entries() == old(self).entries().push(
                (name@.map_values(|t: &str| t@).flatten(), key@),
            ),
            final(self).text_len() == old(self).text_len() + name@.map_values(|t: &str| t@).flatten().len()
                + key@.len(),
            final(self).colors().0 == old(self).colors().0,
            final(self).colors().1 == old(self).colors().1,
            final(self).align() == old(self).align(),
    {
        let ghost before = self.formatter@;
        let n = self.formatter.extend(name);
        let k = self.formatter.push_str(key);
        let ghost after = self.formatter@;
        self.shortcuts.push((n, k));
        proof {
            let nm = name@.map_values(|t: &str| t@).flatten();
            lemma_pushed_range(before, nm, key@);
            lemma_pushed_range(before + nm, key@, Seq::empty());
            assert(after =~= before + nm + key@);
            assert(after + Seq::<char>::empty() =~= after);
            self.lemma_entries_push(*old(self), before, after, n, k);
        }
    }

    /// Adds shortcuts at the end, in order.
    pub fn extend(&mut self, shortcuts: &[Shortcut<'_>])
        requires
            old(self).wf(),
        ensures
            final(self).wf(),
            final(self).entries() == old(self).entries() + shortcuts@.map_values(
                |s: Shortcut<'_>| (s.name@, s.key@),
            ),
            final(self).colors().0 == old(self).colors().0,
            final(self).colors().1 == old(self).colors().1,
            final(self).align() == old(self).align(),
    {
        let mut i: usize = 0;
        assert(shortcuts@.skip(0) =~= shortcuts@);
        while i < shortcuts.len()
            invariant
                self.wf(),
                i <= shortcuts@.len(),
                self.text_len() + shortcuts_len(shortcuts@.skip(i as int)) == old(self).text_len()
                    + shortcuts_len(shortcuts@),
                    self.entries() == old(self).entries() + shortcuts@.take(i as int).map_values(
                    |s: Shortcut<'_>| (s.name@, s.key@),
                ),
                self.colors().0 == old(self).colors().0,
                self.colors().1 == old(self).colors().1,
                self.align() == old(self).align(),
            decreases shortcuts.len() - i,
        {
            let s = &shortcuts[i];
            proof {
                assert(shortcuts@.skip(i as int).drop_first() =~= shortcuts@.skip(i + 1));
                assert(shortcuts@.skip(i as int)[0] == shortcuts@[i as int]);
                lemma_shortcuts_len_nonneg(shortcuts@.skip(i + 1));
            }
            self.push(Shortcut { name: s.name, key: s.key });
            i = i + 1;
            proof {
                assert(shortcuts@.take(i as int).map_values(|s: Shortcut<'_>| (s.name@, s.key@))
                    =~= shortcuts@.take(i - 1).map_values(|s: Shortcut<'_>| (s.name@, s.key@)).push(
                    (shortcuts@[i - 1].name@, shortcuts@[i - 1].key@),
                ));
            }
        }
        assert(shortcuts@.take(i as int) =~= shortcuts@);
    }

    pub fn clear(&mut self)
        ensures
            final(self).wf(),
            final(self).entries() == Seq::<(Seq<char>, Seq<char>)>::empty(),
            final(self).text_len() == 0,
            final(self).colors().0 == old(self).colors().0,
            final(self).colors().1 == old(self).colors().1,
            final(self).align() == old(self).align(),
    {
        self.formatter.clear();
        self.shortcuts = Vec::new();
        assert(self.entries() =~= Seq::<(Seq<char>, Seq<char>)>::empty());
    }

    /// The pieces of text that show the shortcuts, with their styles: for
    /// each, its key, a space, its name, and a space before the next one.
    pub fn pieces(&self) -> (r: Vec<(&str, Style)>)
        requires
            self.wf(),
        ensures
            r@.len() == 4 * self.entries().len(),
            forall|i: int|
                0 <= i < self.entries().len() ==> {
                    &&& (#[trigger] r@[4 * i]).0@ == self.entries()[i].1
                    &&& r@[4 * i].1 == (Style { fg: Some(self.colors().1), ..Style::spec_new() })
                    &&& r@[4 * i + 1].0@ == seq![' ']
                    &&& r@[4 * i + 1].1 == Style::spec_new()
                    &&& r@[4 * i + 2].0@ == self.entries()[i].0
                    &&& r@[4 * i + 2].1 == (Style { fg: Some(self.colors().0), ..Style::spec_new() })
                    &&& r@[4 * i + 3].0@ == (if i + 1 == self.entries().len() {
                        Seq::<char>::empty()
                    } else {
                        seq![' ']
                    })
                    &&& r@[4 * i + 3].1 == Style::spec_new()
                },
    {
        proof {
            reveal_strlit(" ");
            reveal_strlit("");
            assert(" "@ =~= seq![' ']);
            assert(""@ =~= Seq::<char>::empty());
        }
        let mut r: Vec<(&str, Style)> = Vec::new();
        let len = self.shortcuts.len();
        let mut i: usize = 0;
        while i < len
            invariant
                self.wf(),
                len == self.entries().len(),
                i <= len,
                r@.len() == 4 * i,
                " "@ == seq![' '],
                ""@ == Seq::<char>::empty(),
                forall|j: int|
                    0 <= j < i ==> {
                        &&& (#[trigger] r@[4 * j]).0@ == self.entries()[j].1
                        &&& r@[4 * j].1 == (Style { fg: Some(self.colors().1), ..Style::spec_new() })
                        &&& r@[4 * j + 1].0@ == seq![' ']
                        &&& r@[4 * j + 1].1 == Style::spec_new()
                        &&& r@[4 * j + 2].0@ == self.entries()[j].0
                        &&& r@[4 * j + 2].1 == (Style { fg: Some(self.colors().0), ..Style::spec_new() })
                        &&& r@[4 * j + 3].0@ == (if j + 1 == self.entries().len() {
                            Seq::<char>::empty()
                        } else {
                            seq![' ']
                        })
                        &&& r@[4 * j + 3].1 == Style::spec_new()
                    },
            decreases len - i,
        {
            let entry = &self.shortcuts[i];
            let n = std::ops::Range { start: entry.0.start, end: entry.0.end };
            let k = std::ops::Range { start: entry.1.start, end: entry.1.end };
            proof {
                assert(self.shortcuts@[i as int] == (n, k));
            }
            proof {
                assert(is_text_range(self.formatter@, n) && is_text_range(self.formatter@, k));
                lemma_prefix_char_start(self.formatter@, self.formatter@, n.start as int);
                lemma_prefix_char_start(self.formatter@, self.formatter@, n.end as int);
                lemma_prefix_char_start(self.formatter@, self.formatter@, k.start as int);
                lemma_prefix_char_start(self.formatter@, self.formatter@, k.end as int);
            }
            let key = self.formatter.slice(k);
            let name = self.formatter.slice(n);
            let gap = if i + 1 == len {
                ""
            } else {
                " "
            };
            r.push((key, Style::new().fg(self.key_color)));
            r.push((" ", Style::new()));
            r.push((name, Style::new().fg(self.name_color)));
            r.push((gap, Style::new()));
            proof {
                assert forall|j: int| 0 <= j < i + 1 implies (#[trigger] r@[4 * j]).0@
                    == self.entries()[j].1 by {
                    if j < i {
                        assert(r@[4 * j] == r@[4 * j]);
                    }
                }
            }
            i = i + 1;
        }
        r
    }
}

/// The byte range of text pushed after `before`, with `later` pushed after
/// it, is a range of char boundaries that holds the pushed text.
proof fn lemma_pushed_range(before: Seq<char>, pushed: Seq<char>, later: Seq<char>)
    ensures
        is_text_range(
            before + pushed + later,
            std::ops::Range { start: byte_len(before) as usize, end: byte_len(before + pushed) as usize },
        ) || byte_len(before + pushed) > usize::MAX,
        byte_len(before + pushed) <= usize::MAX ==> range_text(
            before + pushed + later,
            std::ops::Range { start: byte_len(before) as usize, end: byte_len(before + pushed) as usize },
        ) == pushed,
{
    let all = before + pushed + later;
    law_range_reads_back(before, pushed, later);
    lemma_char_at(all, before.len() as int);
    lemma_char_at(all, (before + pushed).len() as int);
    lemma_offset_grows(all, before.len() as int, (before + pushed).len() as int);
}

proof fn lemma_shortcuts_len_nonneg(s: Seq<Shortcut<'_>>)
    ensures
        shortcuts_len(s) >= 0,
    decreases s.len(),
{
    if s.len() > 0 {
        lemma_shortcuts_len_nonneg(s.drop_first());
    }
}

/// The chars that the names and keys of `s` take.
pub open spec fn shortcuts_len(s: Seq<Shortcut<'_>>) -> int
    decreases s.len(),
{
    if s.len() == 0 {
        0
    } else {
        s[0].name@.len() + s[0].key@.len() + shortcuts_len(s.drop_first())
    }
}

} // verus!
