//! Turning the text of a markup block into wrapped text with ANSI styles,
//! ready to be drawn line by line.
use vstd::prelude::*;

use crate::ansi::{filled_in_place, tag_sequence, AnsiWriter};
use crate::inline::{
    inline_events, inline_events_from, inline_ok, inline_start, inline_step, tag_ansi, InlineEvent,
    InlineItem, InlineParser, InlineState, lemma_next_tag_bounds,
};
use crate::text::{chars_of, push_range, push_str};

verus! {

/// The lines of `s` as std's `str::lines` gives them: split after each `\n`,
/// with the `\n`, and a `\r` before it, dropped; a last line ending adds no
/// empty line.
pub open spec fn lines_of(s: Seq<char>) -> Seq<Seq<char>>
    decreases s.len(),
{
    if s.len() == 0 {
        Seq::empty()
    } else {
        let i = crate::kitty::first_from(s, '\n', 0);
        if i >= s.len() {
            seq![s]
        } else {
            let line = if i > 0 && s[i - 1] == '\r' {
                s.subrange(0, i - 1)
            } else {
                s.subrange(0, i)
            };
            proof {
                lemma_first_from_bounds(s, '\n', 0);
            }
            seq![line] + lines_of(s.subrange(i + 1, s.len() as int))
        }
    }
}

pub proof fn lemma_first_from_bounds(s: Seq<char>, c: char, i: int)
    requires
        0 <= i,
    ensures
        crate::kitty::first_from(s, c, i) >= i || crate::kitty::first_from(s, c, i) == s.len(),
        crate::kitty::first_from(s, c, i) <= s.len() || i > s.len(),
        crate::kitty::first_from(s, c, i) < s.len() ==> s[crate::kitty::first_from(s, c, i)] == c,
        forall|k: int| i <= k < crate::kitty::first_from(s, c, i) ==> s[k] != c,
    decreases s.len() - i,
{
    if i < s.len() && s[i] != c {
        lemma_first_from_bounds(s, c, i + 1);
    }
}

/// The ANSI text of an inline event: its text, or the escape sequence of its
/// tag.
pub open spec fn item_ansi(e: InlineItem) -> Seq<char> {
    match e {
        InlineItem::Text(t) => t,
        InlineItem::Tag(t) => tag_sequence(tag_ansi(t)),
    }
}

/// The ANSI text of a sequence of inline events.
pub open spec fn items_ansi(es: Seq<InlineItem>) -> Seq<char>
    decreases es.len(),
{
    if es.len() == 0 {
        Seq::empty()
    } else {
        item_ansi(es[0]) + items_ansi(es.drop_first())
    }
}

/// Markup text with its bold and italic spans turned into ANSI styles.
pub open spec fn inline_ansi(markup: Seq<char>) -> Seq<char> {
    items_ansi(inline_events(markup))
}

/// The lines of `lines`, each after its indent and followed by a line break:
/// the first indent for the first line, the other for the rest.
pub open spec fn indented(lines: Seq<Seq<char>>, first: Seq<char>, other: Seq<char>, i: int) -> Seq<
    char,
>
    decreases lines.len() - i,
{
    if i < 0 || i >= lines.len() {
        Seq::empty()
    } else {
        (if i == 0 {
            first
        } else {
            other
        }) + lines[i] + seq!['\n'] + indented(lines, first, other, i + 1)
    }
}

/// The rich text of markup: styled, wrapped to `width` columns, and, for a
/// list item, indented.
pub open spec fn rich_text(markup: Seq<char>, width: u16, indent: Option<(Seq<char>, Seq<char>)>) -> Seq<
    char,
> {
    let wrapped = filled_in_place(inline_ansi(markup), width as nat);
    match indent {
        None => wrapped,
        Some((first, other)) => indented(lines_of(wrapped), first, other, 0),
    }
}

proof fn lemma_items_ansi_cons(e: InlineItem, es: Seq<InlineItem>)
    ensures
        items_ansi(seq![e] + es) == item_ansi(e) + items_ansi(es),
{
    assert((seq![e] + es).drop_first() =~= es);
}

proof fn lemma_inline_ok_step(s: Seq<char>, st: InlineState)
    requires
        inline_ok(s, st),
    ensures
        inline_ok(s, inline_step(s, st).1),
{
    lemma_next_tag_bounds(s, st.pos, st.bold, st.italic);
    match crate::inline::next_tag(s, st.pos, st.bold, st.italic) {
        Some((k, t, b, i)) => {
            assert(crate::inline::char_tag(s, k, st.bold, st.italic) == Some((t, b, i)));
        },
        None => {},
    }
}

/// Appends the ANSI text of the markup's inline events to `writer`.
pub fn push_inline(writer: &mut AnsiWriter, markup: &str)
    ensures
        final(writer)@ == old(writer)@ + inline_ansi(markup@),
{
    let mut parser = InlineParser::new(markup);
    let ghost s = markup@;
    let ghost target = old(writer)@ + inline_ansi(markup@);
    loop
        invariant
            parser.wf(),
            parser.text() == s,
            inline_ok(s, parser.state()),
            writer@ + items_ansi(inline_events_from(s, parser.state())) == target,
            target == old(writer)@ + inline_ansi(markup@),
            s == markup@,
        decreases 2 * (s.len() - parser.state().pos) + (if parser.state().tag is Some {
            1int
        } else {
            0int
        }) + (if parser.state().start < s.len() {
            1int
        } else {
            0int
        }),
    {
        let ghost st = parser.state();
        proof {
            lemma_next_tag_bounds(s, st.pos, st.bold, st.italic);
            lemma_inline_ok_step(s, st);
        }
        match parser.next() {
            None => {
                proof {
                    assert(inline_events_from(s, st) =~= Seq::<InlineItem>::empty());
                    assert(writer@ =~= target);
                }
                return;
            },
            Some(e) => {
                let ghost before = writer@;
                match e {
                    InlineEvent::Text(t) => writer.push_str(t),
                    InlineEvent::Tag(tag) => writer.push_tag(tag.into_ansi()),
                }
                proof {
                    lemma_items_ansi_cons(e.view(), inline_events_from(s, parser.state()));
                    assert(writer@ + items_ansi(inline_events_from(s, parser.state())) =~= before
                        + items_ansi(inline_events_from(s, st)));
                }
            },
        }
    }
}

/// The bounds of each line of `chars`, as `lines_of` cuts them.
pub fn line_bounds(chars: &Vec<char>) -> (r: Vec<(usize, usize)>)
    ensures
        r@.len() == lines_of(chars@).len(),
        forall|i: int|
            0 <= i < r@.len() ==> (#[trigger] r@[i]).0 <= r@[i].1 <= chars@.len() && chars@.subrange(
                r@[i].0 as int,
                r@[i].1 as int,
            ) == lines_of(chars@)[i],
{
    let mut r: Vec<(usize, usize)> = Vec::new();
    let n = chars.len();
    let mut start: usize = 0;
    let ghost s = chars@;
    proof {
        assert(s.subrange(0, n as int) =~= s);
    }
    while start < n
        invariant
            start <= n == s.len(),
            s == chars@,
            lines_of(s) == lines_of_view(r@, s) + lines_of(s.subrange(start as int, n as int)),
            forall|i: int|
                0 <= i < r@.len() ==> (#[trigger] r@[i]).0 <= r@[i].1 <= n,
        decreases n - start,
    {
        let ghost rest = s.subrange(start as int, n as int);
        let mut i = start;
        while i < n && chars[i] != '\n'
            invariant
                start <= i <= n == s.len(),
                s == chars@,
                rest == s.subrange(start as int, n as int),
                crate::kitty::first_from(rest, '\n', 0) == crate::kitty::first_from(
                    rest,
                    '\n',
                    (i - start) as int,
                ),
            decreases n - i,
        {
            i = i + 1;
        }
        let ghost before = r@;
        if i >= n {
            r.push((start, n));
            proof {
                assert(rest.subrange(0, rest.len() as int) =~= rest);
                assert(lines_of(rest) == seq![rest]);
                assert(s.subrange(n as int, n as int) =~= Seq::<char>::empty());
                lemma_lines_view_push(before, s, start, n);
                assert(lines_of_view(r@, s) + lines_of(s.subrange(n as int, n as int)) =~= lines_of_view(
                    before,
                    s,
                ) + lines_of(rest));
            }
            start = n;
        } else {
            let end = if i > start && chars[i - 1] == '\r' {
                i - 1
            } else {
                i
            };
            r.push((start, end));
            proof {
                let k = (i - start) as int;
                assert(rest[k] == '\n');
                assert(rest.subrange(0, k) =~= s.subrange(start as int, i as int));
                assert(k > 0 ==> rest.subrange(0, k - 1) =~= s.subrange(start as int, i - 1));
                assert(rest.subrange(k + 1, rest.len() as int) =~= s.subrange(i + 1, n as int));
                lemma_lines_view_push(before, s, start, end);
                assert(lines_of_view(r@, s) + lines_of(s.subrange(i + 1, n as int)) =~= lines_of_view(
                    before,
                    s,
                ) + lines_of(rest));
            }
            start = i + 1;
        }
    }
    proof {
        assert(s.subrange(n as int, n as int) =~= Seq::<char>::empty());
        assert(lines_of(s) =~= lines_of_view(r@, s));
        assert forall|i: int| 0 <= i < r@.len() implies chars@.subrange(
            r@[i].0 as int,
            r@[i].1 as int,
        ) == lines_of(chars@)[i] by {
            assert(lines_of_view(r@, s)[i] == s.subrange(r@[i].0 as int, r@[i].1 as int));
        }
    }
    r
}

/// The lines that bounds cut out of `s`.
pub open spec fn lines_of_view(r: Seq<(usize, usize)>, s: Seq<char>) -> Seq<Seq<char>> {
    r.map_values(|b: (usize, usize)| s.subrange(b.0 as int, b.1 as int))
}

proof fn lemma_lines_view_push(r: Seq<(usize, usize)>, s: Seq<char>, a: usize, b: usize)
    ensures
        lines_of_view(r.push((a, b)), s) == lines_of_view(r, s).push(s.subrange(a as int, b as int)),
{
    assert(lines_of_view(r.push((a, b)), s) =~= lines_of_view(r, s).push(
        s.subrange(a as int, b as int),
    ));
}

/// The rich text of markup: its bold and italic spans as ANSI styles,
/// wrapped to `width` columns, and, with an indent, each line indented (the
/// first with the first indent) and ended by a line break.
pub fn markup_to_rich_ansi(markup: &str, width: u16, indent: Option<(&str, &str)>) -> (r: String)
    ensures
        r@ == rich_text(
            markup@,
            width,
            match indent {
                Some((a, b)) => Some((a@, b@)),
                None => None,
            },
        ),
{
    let mut writer = AnsiWriter::new();
    push_inline(&mut writer, markup);
    writer.textwrap(width);
    match indent {
        None => {
            let mut out = String::new();
            push_str(&mut out, writer.as_str());
            proof {
                assert(out@ =~= writer@);
            }
            out
        },
        Some((first, other)) => {
            let chars = chars_of(writer.as_str());
            let bounds = line_bounds(&chars);
            let ghost lines = lines_of(chars@);
            let mut out = String::new();
            let mut i: usize = 0;
            proof {
                assert(out@ + indented(lines, first@, other@, 0) =~= indented(
                    lines,
                    first@,
                    other@,
                    0,
                ));
            }
            while i < bounds.len()
                invariant
                    i <= bounds@.len() == lines.len(),
                    lines == lines_of(chars@),
                    forall|j: int|
                        0 <= j < bounds@.len() ==> (#[trigger] bounds@[j]).0 <= bounds@[j].1
                            <= chars@.len() && chars@.subrange(bounds@[j].0 as int, bounds@[j].1 as int)
                            == lines[j],
                    out@ + indented(lines, first@, other@, i as int) == indented(
                        lines,
                        first@,
                        other@,
                        0,
                    ),
                decreases bounds.len() - i,
            {
                let ghost before = out@;
                if i == 0 {
                    push_str(&mut out, first);
                } else {
                    push_str(&mut out, other);
                }
                let (a, b) = bounds[i];
                push_range(&mut out, &chars, a, b);
                crate::text::string_push(&mut out, '\n');
                proof {
                    assert(out@ + indented(lines, first@, other@, i + 1) =~= before + indented(
                        lines,
                        first@,
                        other@,
                        i as int,
                    ));
                }
                i = i + 1;
            }
            proof {
                assert(out@ =~= indented(lines, first@, other@, 0));
            }
            out
        },
    }
}

} // verus!
