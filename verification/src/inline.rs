//! Inline markup: `*bold*` and `_italic_` spans inside a block of text.
use vstd::prelude::*;
use vstd::string::StrSliceExecFns;

use crate::ansi::AnsiTag;
use crate::iter::PeekableCharsPrevious;
use crate::text::{is_white_space, is_whitespace};

verus! {

#[derive(Debug, Clone, Copy, PartialEq, Eq, Structural)]
pub enum InlineTag {
    BoldStart,
    BoldEnd,
    ItalicStart,
    ItalicEnd,
}

impl InlineTag {
    /// The ANSI attribute that the tag turns on or off.
    pub fn into_ansi(self) -> (t: AnsiTag)
        ensures
            t == tag_ansi(self),
    {
        match self {
            InlineTag::BoldStart => AnsiTag::Bold,
            InlineTag::BoldEnd => AnsiTag::NotBold,
            InlineTag::ItalicStart => AnsiTag::Italic,
            InlineTag::ItalicEnd => AnsiTag::NotItalic,
        }
    }
}

pub open spec fn tag_ansi(t: InlineTag) -> AnsiTag {
    match t {
        InlineTag::BoldStart => AnsiTag::Bold,
        InlineTag::BoldEnd => AnsiTag::NotBold,
        InlineTag::ItalicStart => AnsiTag::Italic,
        InlineTag::ItalicEnd => AnsiTag::NotItalic,
    }
}

/// The marker char of a tag.
pub open spec fn tag_marker(t: InlineTag) -> char {
    match t {
        InlineTag::BoldStart | InlineTag::BoldEnd => '*',
        InlineTag::ItalicStart | InlineTag::ItalicEnd => '_',
    }
}

/// What a marker `c` between `prev` and `next` does, given whether its span is
/// open: `Some(true)` opens the span, `Some(false)` closes it. A span opens
/// before a char that is neither white space nor the marker, and closes after
/// such a char.
pub open spec fn marker_effect(c: char, prev: Option<char>, next: Option<char>, open: bool) -> Option<
    bool,
> {
    if open {
        match prev {
            Some(p) => if !is_white_space(p) && p != c {
                Some(false)
            } else {
                None
            },
            None => None,
        }
    } else {
        match next {
            Some(n) => if !is_white_space(n) && n != c {
                Some(true)
            } else {
                None
            },
            None => None,
        }
    }
}

/// The tag that char `k` of `s` stands for, with the bold and italic flags
/// after it.
pub open spec fn char_tag(s: Seq<char>, k: int, bold: bool, italic: bool) -> Option<
    (InlineTag, bool, bool),
> {
    let c = s[k];
    let prev = if k > 0 {
        Some(s[k - 1])
    } else {
        None
    };
    let next = if k + 1 < s.len() {
        Some(s[k + 1])
    } else {
        None
    };
    if c == '*' {
        match marker_effect(c, prev, next, bold) {
            Some(true) => Some((InlineTag::BoldStart, true, italic)),
            Some(false) => Some((InlineTag::BoldEnd, false, italic)),
            None => None,
        }
    } else if c == '_' {
        match marker_effect(c, prev, next, italic) {
            Some(true) => Some((InlineTag::ItalicStart, bold, true)),
            Some(false) => Some((InlineTag::ItalicEnd, bold, false)),
            None => None,
        }
    } else {
        None
    }
}

/// The first char at `k` or later that is a tag, with the tag and the flags
/// after it.
pub open spec fn next_tag(s: Seq<char>, k: int, bold: bool, italic: bool) -> Option<
    (int, InlineTag, bool, bool),
>
    decreases s.len() - k,
{
    if k < 0 || k >= s.len() {
        None
    } else {
        match char_tag(s, k, bold, italic) {
            Some((t, b, i)) => Some((k, t, b, i)),
            None => next_tag(s, k + 1, bold, italic),
        }
    }
}

pub proof fn lemma_next_tag_bounds(s: Seq<char>, k: int, bold: bool, italic: bool)
    requires
        0 <= k,
    ensures
        next_tag(s, k, bold, italic) matches Some((j, t, b, i)) ==> k <= j < s.len() && char_tag(
            s,
            j,
            bold,
            italic,
        ) == Some((t, b, i)),
    decreases s.len() - k,
{
    if k < s.len() && char_tag(s, k, bold, italic) is None {
        lemma_next_tag_bounds(s, k + 1, bold, italic);
    }
}

/// The state of an inline parser: where the pending text starts, how far the
/// chars were read, a tag waiting to be given out, and the open spans.
pub struct InlineState {
    pub start: int,
    pub pos: int,
    pub tag: Option<InlineTag>,
    pub bold: bool,
    pub italic: bool,
}

/// An inline event: some text, or a tag.
pub enum InlineItem {
    Text(Seq<char>),
    Tag(InlineTag),
}

/// One step of the inline parser over `s`: what it gives out and its state after.
pub open spec fn inline_step(s: Seq<char>, st: InlineState) -> (Option<InlineItem>, InlineState) {
    match st.tag {
        Some(t) => (Some(InlineItem::Tag(t)), InlineState { tag: None, ..st }),
        None => match next_tag(s, st.pos, st.bold, st.italic) {
            Some((k, t, b, i)) => {
                let text = s.subrange(st.start, k);
                let after = InlineState { start: k + 1, pos: k + 1, tag: None, bold: b, italic: i };
                if text.len() == 0 {
                    (Some(InlineItem::Tag(t)), after)
                } else {
                    (Some(InlineItem::Text(text)), InlineState { tag: Some(t), ..after })
                }
            },
            None => {
                if st.start >= s.len() {
                    (None, InlineState { pos: s.len() as int, ..st })
                } else {
                    (
                        Some(InlineItem::Text(s.subrange(st.start, s.len() as int))),
                        InlineState { start: s.len() as int, pos: s.len() as int, ..st },
                    )
                }
            },
        },
    }
}

/// The state of a parser that has read nothing.
pub open spec fn inline_start() -> InlineState {
    InlineState { start: 0, pos: 0, tag: None, bold: false, italic: false }
}

/// What the chars of an event were in the text: the text itself, or the
/// marker char of a tag.
pub open spec fn item_chars(e: InlineItem) -> Seq<char> {
    match e {
        InlineItem::Text(t) => t,
        InlineItem::Tag(t) => seq![tag_marker(t)],
    }
}

/// The chars that a sequence of events stands for.
pub open spec fn render_inline(es: Seq<InlineItem>) -> Seq<char>
    decreases es.len(),
{
    if es.len() == 0 {
        Seq::empty()
    } else {
        item_chars(es[0]) + render_inline(es.drop_first())
    }
}

/// A state that the parser can reach over `s`.
pub open spec fn inline_ok(s: Seq<char>, st: InlineState) -> bool {
    &&& 0 <= st.start <= st.pos <= s.len()
    &&& st.tag matches Some(t) ==> st.start >= 1 && s[st.start - 1] == tag_marker(t)
}

/// The events that the parser gives out from state `st` on, to the end.
pub open spec fn inline_events_from(s: Seq<char>, st: InlineState) -> Seq<InlineItem>
    decreases 2 * (s.len() - st.pos) + (if st.tag is Some {
        1int
    } else {
        0int
    }) + (if st.start < s.len() {
        1int
    } else {
        0int
    }),
    when inline_ok(s, st)
{
    proof {
        lemma_next_tag_bounds(s, st.pos, st.bold, st.italic);
    }
    let (item, next) = inline_step(s, st);
    match item {
        None => Seq::empty(),
        Some(e) => seq![e] + inline_events_from(s, next),
    }
}

/// The events that the parser gives out for `s`.
pub open spec fn inline_events(s: Seq<char>) -> Seq<InlineItem> {
    inline_events_from(s, inline_start())
}

proof fn lemma_char_tag_marker(s: Seq<char>, k: int, bold: bool, italic: bool)
    requires
        0 <= k < s.len(),
    ensures
        char_tag(s, k, bold, italic) matches Some((t, b, i)) ==> s[k] == tag_marker(t),
{
}

proof fn lemma_render_cons(e: InlineItem, es: Seq<InlineItem>)
    ensures
        render_inline(seq![e] + es) == item_chars(e) + render_inline(es),
{
    assert((seq![e] + es).drop_first() =~= es);
}

proof fn lemma_inline_render_from(s: Seq<char>, st: InlineState)
    requires
        inline_ok(s, st),
    ensures
        render_inline(inline_events_from(s, st)) == (match st.tag {
            Some(t) => seq![tag_marker(t)],
            None => Seq::empty(),
        }) + s.subrange(st.start, s.len() as int),
    decreases 2 * (s.len() - st.pos) + (if st.tag is Some {
        1int
    } else {
        0int
    }) + (if st.start < s.len() {
        1int
    } else {
        0int
    }),
{
    lemma_next_tag_bounds(s, st.pos, st.bold, st.italic);
    let (item, next) = inline_step(s, st);
    match st.tag {
        Some(t) => {
            lemma_inline_render_from(s, next);
            lemma_render_cons(item.unwrap(), inline_events_from(s, next));
        },
        None => match next_tag(s, st.pos, st.bold, st.italic) {
            Some((k, t, b, i)) => {
                lemma_char_tag_marker(s, k, st.bold, st.italic);
                lemma_inline_render_from(s, next);
                lemma_render_cons(item.unwrap(), inline_events_from(s, next));
                assert(s.subrange(st.start, s.len() as int) =~= s.subrange(st.start, k) + seq![s[k]]
                    + s.subrange(k + 1, s.len() as int));
            },
            None => {
                if st.start < s.len() {
                    lemma_inline_render_from(s, next);
                    lemma_render_cons(item.unwrap(), inline_events_from(s, next));
                    assert(s.subrange(s.len() as int, s.len() as int) =~= Seq::<char>::empty());
                } else {
                    assert(s.subrange(st.start, s.len() as int) =~= Seq::<char>::empty());
                }
            },
        },
    }
}

/// Inline parsing loses nothing: the text of the events, with each tag put
/// back as its marker char, is the text that was parsed.
pub proof fn law_inline_round_trip(s: Seq<char>)
    ensures
        render_inline(inline_events(s)) == s,
{
    lemma_inline_render_from(s, inline_start());
    assert(s.subrange(0, s.len() as int) =~= s);
}

/// The events `es` give no empty text, and their tags open and close the
/// bold and the italic span in turn, from spans open as `bold` and `italic`
/// say: a span is opened only when it is closed, and closed only when open.
pub open spec fn events_alternate(es: Seq<InlineItem>, bold: bool, italic: bool) -> bool
    decreases es.len(),
{
    if es.len() == 0 {
        true
    } else {
        let rest = es.drop_first();
        match es[0] {
            InlineItem::Text(t) => t.len() > 0 && events_alternate(rest, bold, italic),
            InlineItem::Tag(InlineTag::BoldStart) => !bold && events_alternate(rest, true, italic),
            InlineItem::Tag(InlineTag::BoldEnd) => bold && events_alternate(rest, false, italic),
            InlineItem::Tag(InlineTag::ItalicStart) => !italic && events_alternate(rest, bold, true),
            InlineItem::Tag(InlineTag::ItalicEnd) => italic && events_alternate(rest, bold, false),
        }
    }
}

/// The spans that were open before the tag waiting in `st` (if any) took
/// effect.
spec fn flags_before(st: InlineState) -> (bool, bool) {
    match st.tag {
        Some(InlineTag::BoldStart) | Some(InlineTag::BoldEnd) => (!st.bold, st.italic),
        Some(InlineTag::ItalicStart) | Some(InlineTag::ItalicEnd) => (st.bold, !st.italic),
        None => (st.bold, st.italic),
    }
}

/// The tag waiting in `st` has already taken effect on its flags.
spec fn pending_ok(st: InlineState) -> bool {
    match st.tag {
        Some(InlineTag::BoldStart) => st.bold,
        Some(InlineTag::BoldEnd) => !st.bold,
        Some(InlineTag::ItalicStart) => st.italic,
        Some(InlineTag::ItalicEnd) => !st.italic,
        None => true,
    }
}

proof fn lemma_alternate_cons(e: InlineItem, es: Seq<InlineItem>, bold: bool, italic: bool)
    ensures
        events_alternate(seq![e] + es, bold, italic) == match e {
            InlineItem::Text(t) => t.len() > 0 && events_alternate(es, bold, italic),
            InlineItem::Tag(InlineTag::BoldStart) => !bold && events_alternate(es, true, italic),
            InlineItem::Tag(InlineTag::BoldEnd) => bold && events_alternate(es, false, italic),
            InlineItem::Tag(InlineTag::ItalicStart) => !italic && events_alternate(es, bold, true),
            InlineItem::Tag(InlineTag::ItalicEnd) => italic && events_alternate(es, bold, false),
        },
{
    assert((seq![e] + es).drop_first() =~= es);
    assert((seq![e] + es)[0] == e);
}

proof fn lemma_alternate_from(s: Seq<char>, st: InlineState)
    requires
        inline_ok(s, st),
        pending_ok(st),
    ensures
        events_alternate(inline_events_from(s, st), flags_before(st).0, flags_before(st).1),
    decreases 2 * (s.len() - st.pos) + (if st.tag is Some {
        1int
    } else {
        0int
    }) + (if st.start < s.len() {
        1int
    } else {
        0int
    }),
{
    lemma_next_tag_bounds(s, st.pos, st.bold, st.italic);
    let (item, next) = inline_step(s, st);
    match st.tag {
        Some(t) => {
            lemma_alternate_from(s, next);
            lemma_alternate_cons(item.unwrap(), inline_events_from(s, next), flags_before(st).0, flags_before(st).1);
        },
        None => match next_tag(s, st.pos, st.bold, st.italic) {
            Some((k, t, b, i)) => {
                lemma_alternate_from(s, next);
                lemma_alternate_cons(item.unwrap(), inline_events_from(s, next), st.bold, st.italic);
            },
            None => {
                if st.start < s.len() {
                    lemma_alternate_from(s, next);
                    lemma_alternate_cons(item.unwrap(), inline_events_from(s, next), st.bold, st.italic);
                }
            },
        },
    }
}

/// The inline parser gives no empty text, and its tags open and close the
/// bold and the italic span in turn: no span is opened twice or closed
/// before it was opened.
pub proof fn law_inline_events_alternate(s: Seq<char>)
    ensures
        events_alternate(inline_events(s), false, false),
{
    lemma_alternate_from(s, inline_start());
}

/// A marker char with white space or nothing on both sides never stands
/// for a tag, whichever spans are open.
pub proof fn law_lone_marker(s: Seq<char>, k: int, bold: bool, italic: bool)
    requires
        0 <= k < s.len(),
        k == 0 || is_white_space(s[k - 1]),
        k + 1 == s.len() || is_white_space(s[k + 1]),
    ensures
        char_tag(s, k, bold, italic) is None,
{
}

/// What a marker char stands for, by the chars around it. With its span
/// open, a `*` (or `_`) closes it when the char before it is neither white
/// space nor the same marker, whatever follows; it stands for nothing when it
/// starts the text or follows white space or the same marker. With its span
/// closed, it opens the span when the char after it is neither white space
/// nor the same marker, whatever comes before; it stands for nothing when it
/// ends the text or comes before white space or the same marker. Any other
/// char stands for nothing, and a marker leaves the other span's flag alone.
pub proof fn law_marker_chars(s: Seq<char>, k: int, bold: bool, italic: bool)
    requires
        0 <= k < s.len(),
    ensures
        s[k] != '*' && s[k] != '_' ==> char_tag(s, k, bold, italic) is None,
        s[k] == '*' && bold && k > 0 && !is_white_space(s[k - 1]) && s[k - 1] != '*'
            ==> char_tag(s, k, bold, italic) == Some((InlineTag::BoldEnd, false, italic)),
        s[k] == '*' && bold && (k == 0 || is_white_space(s[k - 1]) || s[k - 1] == '*')
            ==> char_tag(s, k, bold, italic) is None,
        s[k] == '*' && !bold && k + 1 < s.len() && !is_white_space(s[k + 1]) && s[k + 1] != '*'
            ==> char_tag(s, k, bold, italic) == Some((InlineTag::BoldStart, true, italic)),
        s[k] == '*' && !bold && (k + 1 == s.len() || is_white_space(s[k + 1]) || s[k + 1] == '*')
            ==> char_tag(s, k, bold, italic) is None,
        s[k] == '_' && italic && k > 0 && !is_white_space(s[k - 1]) && s[k - 1] != '_'
            ==> char_tag(s, k, bold, italic) == Some((InlineTag::ItalicEnd, bold, false)),
        s[k] == '_' && italic && (k == 0 || is_white_space(s[k - 1]) || s[k - 1] == '_')
            ==> char_tag(s, k, bold, italic) is None,
        s[k] == '_' && !italic && k + 1 < s.len() && !is_white_space(s[k + 1]) && s[k + 1] != '_'
            ==> char_tag(s, k, bold, italic) == Some((InlineTag::ItalicStart, bold, true)),
        s[k] == '_' && !italic && (k + 1 == s.len() || is_white_space(s[k + 1]) || s[k + 1] == '_')
            ==> char_tag(s, k, bold, italic) is None,
{
}

proof fn lemma_next_tag_skip(s: Seq<char>, k: int, j: int, bold: bool, italic: bool)
    requires
        0 <= k <= j <= s.len(),
        forall|m: int| k <= m < j ==> s[m] != '*' && s[m] != '_',
    ensures
        next_tag(s, k, bold, italic) == next_tag(s, j, bold, italic),
    decreases j - k,
{
    if k < j {
        lemma_next_tag_skip(s, k + 1, j, bold, italic);
    }
}

/// A bold span `*w*` at the start of a text is read as its opening tag, the
/// text `w` and its closing tag, whatever follows the closing `*`: `w` is not
/// empty, holds no marker, and neither starts nor ends with white space.
pub proof fn law_bold_span_closes(s: Seq<char>, j: int)
    requires
        2 <= j < s.len(),
        s[0] == '*',
        s[j] == '*',
        forall|m: int| 1 <= m < j ==> s[m] != '*' && s[m] != '_',
        !is_white_space(s[1]),
        !is_white_space(s[j - 1]),
    ensures
        inline_events(s).len() >= 3,
        inline_events(s)[0] == InlineItem::Tag(InlineTag::BoldStart),
        inline_events(s)[1] == InlineItem::Text(s.subrange(1, j)),
        inline_events(s)[2] == InlineItem::Tag(InlineTag::BoldEnd),
{
    let st0 = inline_start();
    assert(char_tag(s, 0, false, false) == Some((InlineTag::BoldStart, true, false)));
    assert(next_tag(s, 0, false, false) == Some((0int, InlineTag::BoldStart, true, false)));
    let st1 = InlineState { start: 1, pos: 1, tag: None, bold: true, italic: false };
    assert(inline_step(s, st0) == (Some(InlineItem::Tag(InlineTag::BoldStart)), st1)) by {
        assert(s.subrange(0, 0).len() == 0);
    }
    lemma_next_tag_skip(s, 1, j, true, false);
    assert(char_tag(s, j, true, false) == Some((InlineTag::BoldEnd, false, false)));
    assert(next_tag(s, 1, true, false) == Some((j, InlineTag::BoldEnd, false, false)));
    let st2 = InlineState { start: j + 1, pos: j + 1, tag: Some(InlineTag::BoldEnd), bold: false, italic: false };
    assert(inline_step(s, st1) == (Some(InlineItem::Text(s.subrange(1, j))), st2));
    let st3 = InlineState { tag: None, ..st2 };
    assert(inline_step(s, st2) == (Some(InlineItem::Tag(InlineTag::BoldEnd)), st3));
    assert(inline_ok(s, st0));
    assert(inline_ok(s, st1));
    assert(inline_ok(s, st2));
    assert(inline_ok(s, st3));
    let e3 = inline_events_from(s, st3);
    assert(inline_events_from(s, st2) == seq![InlineItem::Tag(InlineTag::BoldEnd)] + e3);
    assert(inline_events_from(s, st1) == seq![InlineItem::Text(s.subrange(1, j))] + inline_events_from(s, st2));
    assert(inline_events_from(s, st0) == seq![InlineItem::Tag(InlineTag::BoldStart)] + inline_events_from(s, st1));
}

/// What the inline parser gives for `s`: no empty text, bold and italic
/// tags that open and close in turn from closed spans, and texts that, with
/// the marker char of each tag put back, are `s`.
pub proof fn law_inline_structure(s: Seq<char>)
    ensures
        events_alternate(inline_events(s), false, false),
        render_inline(inline_events(s)) == s,
{
    law_inline_events_alternate(s);
    law_inline_round_trip(s);
}

#[derive(Debug, Clone, Copy)]
pub enum InlineEvent<'a> {
    Text(&'a str),
    Tag(InlineTag),
}

impl<'a> InlineEvent<'a> {
    pub open spec fn view(&self) -> InlineItem {
        match self {
            InlineEvent::Text(s) => InlineItem::Text(s@),
            InlineEvent::Tag(t) => InlineItem::Tag(*t),
        }
    }
}

/// Splits text into plain pieces and bold and italic tags.
pub struct InlineParser<'a> {
    input: &'a str,
    chars: PeekableCharsPrevious<'a>,
    start: usize,
    tag: Option<InlineTag>,
    bold: bool,
    italic: bool,
}

impl<'a> InlineParser<'a> {
    /// The text being parsed.
    pub closed spec fn text(&self) -> Seq<char> {
        self.input@
    }

    /// Where the parser stands.
    pub closed spec fn state(&self) -> InlineState {
        InlineState {
            start: self.start as int,
            pos: self.chars.position(),
            tag: self.tag,
            bold: self.bold,
            italic: self.italic,
        }
    }

    pub closed spec fn wf(&self) -> bool {
        &&& self.chars.wf()
        &&& self.chars.text() == self.input@
        &&& self.start <= self.chars.position() <= self.input@.len()
        &&& self.tag matches Some(t) ==> self.start >= 1 && self.input@[self.start - 1] == tag_marker(t)
    }

    pub fn new(input: &'a str) -> (p: Self)
        ensures
            p.wf(),
            p.text() == input@,
            p.state() == inline_start(),
    {
        InlineParser {
            input,
            chars: PeekableCharsPrevious::new(input),
            start: 0,
            tag: None,
            bold: false,
            italic: false,
        }
    }

    /// Looks for `next_tag` from the current position, reading up to and
    /// including the tag char.
    fn scan(&mut self) -> (r: Option<(usize, InlineTag)>)
        requires
            old(self).wf(),
        ensures
            final(self).wf(),
            final(self).text() == old(self).text(),
            final(self).start == old(self).start,
            final(self).tag == old(self).tag,
            ({
                let s = old(self).text();
                let st = old(self).state();
                match next_tag(s, st.pos, st.bold, st.italic) {
                    Some((k, t, b, i)) => r == Some((k as usize, t)) && final(self).chars.position()
                        == k + 1 && final(self).bold == b && final(self).italic == i,
                    None => r is None && final(self).chars.position() == s.len()
                        && final(self).bold == old(self).bold && final(self).italic == old(
                        self).italic,
                }
            }),
    {
        let ghost s = self.input@;
        let ghost b0 = self.bold;
        let ghost i0 = self.italic;
        let ghost p0 = self.chars.position();
        proof {
            self.chars.lemma_len_bound();
        }
        loop
            invariant
                self.wf(),
                self.input@ == s,
                s == old(self).text(),
                self.start == old(self).start,
                self.tag == old(self).tag,
                self.bold == b0,
                self.italic == i0,
                b0 == old(self).bold,
                i0 == old(self).italic,
                p0 == old(self).state().pos,
                p0 <= self.chars.position() <= s.len(),
                s.len() <= usize::MAX,
                next_tag(s, p0, b0, i0) == next_tag(s, self.chars.position(), b0, i0),
            decreases s.len() - self.chars.position(),
        {
            let ghost k = self.chars.position();
            let Some((_, c)) = self.chars.next() else {
                return None;
            };
            let i = self.chars.chars_read() - 1;
            proof {
                assert(next_tag(s, k, b0, i0) == match char_tag(s, k, b0, i0) {
                    Some((t, b, it)) => Some((k, t, b, it)),
                    None => next_tag(s, k + 1, b0, i0),
                });
            }
            let prev = self.chars.previous();
            let next = self.chars.peek();
            if c == '*' {
                if let Some(open) = marker(c, prev, next, self.bold) {
                    self.bold = open;
                    if open {
                        return Some((i, InlineTag::BoldStart));
                    } else {
                        return Some((i, InlineTag::BoldEnd));
                    }
                }
            } else if c == '_' {
                if let Some(open) = marker(c, prev, next, self.italic) {
                    self.italic = open;
                    if open {
                        return Some((i, InlineTag::ItalicStart));
                    } else {
                        return Some((i, InlineTag::ItalicEnd));
                    }
                }
            }
        }
    }

    /// The next piece of text or tag.
    pub fn next(&mut self) -> (r: Option<InlineEvent<'a>>)
        requires
            old(self).wf(),
        ensures
            final(self).wf(),
            final(self).text() == old(self).text(),
            ({
                let (item, st) = inline_step(old(self).text(), old(self).state());
                &&& final(self).state() == st
                &&& match r {
                    Some(e) => item == Some(e.view()),
                    None => item is None,
                }
            }),
    {
        if let Some(tag) = self.tag {
            self.tag = None;
            return Some(InlineEvent::Tag(tag));
        }
        proof {
            lemma_next_tag_bounds(self.input@, self.chars.position(), self.bold, self.italic);
            self.chars.lemma_len_bound();
        }
        match self.scan() {
            Some((i, tag)) => {
                let text = self.input.substring_char(self.start, i);
                self.start = i + 1;
                if text.unicode_len() == 0 {
                    Some(InlineEvent::Tag(tag))
                } else {
                    self.tag = Some(tag);
                    Some(InlineEvent::Text(text))
                }
            },
            None => {
                let len = self.input.unicode_len();
                if self.start >= len {
                    None
                } else {
                    let rest = self.input.substring_char(self.start, len);
                    self.start = len;
                    Some(InlineEvent::Text(rest))
                }
            },
        }
    }

    /// Reads every event still to come, in order.
    pub fn collect(&mut self) -> (v: Vec<InlineEvent<'a>>)
        requires
            old(self).wf(),
        ensures
            final(self).wf(),
            v@.map_values(|e: InlineEvent<'a>| e.view()) == inline_events_from(old(self).text(), old(self).state()),
    {
        let mut v: Vec<InlineEvent<'a>> = Vec::new();
        let ghost s = self.text();
        loop
            invariant
                self.wf(),
                self.text() == s,
                s == old(self).text(),
                inline_ok(s, self.state()),
                v@.map_values(|e: InlineEvent<'a>| e.view()) + inline_events_from(s, self.state())
                    == inline_events_from(s, old(self).state()),
            decreases 2 * (s.len() - self.state().pos) + (if self.state().tag is Some {
                1int
            } else {
                0int
            }) + (if self.state().start < s.len() {
                1int
            } else {
                0int
            }),
        {
            let ghost st = self.state();
            let ghost vb = v@.map_values(|e: InlineEvent<'a>| e.view());
            proof {
                lemma_next_tag_bounds(s, st.pos, st.bold, st.italic);
            }
            match self.next() {
                Some(e) => {
                    v.push(e);
                    proof {
                        let (item, nxt) = inline_step(s, st);
                        assert(inline_events_from(s, st) == seq![e.view()] + inline_events_from(s, nxt));
                        assert(v@.map_values(|e: InlineEvent<'a>| e.view()) =~= vb.push(e.view()));
                        assert(vb.push(e.view()) + inline_events_from(s, nxt) =~= vb + (seq![e.view()]
                            + inline_events_from(s, nxt)));
                    }
                },
                None => {
                    proof {
                        assert(inline_events_from(s, st) == Seq::<InlineItem>::empty());
                        assert(vb + Seq::<InlineItem>::empty() =~= vb);
                    }
                    return v;
                },
            }
        }
    }
}

/// What a marker char does; see [`marker_effect`].
fn marker(c: char, prev: Option<char>, next: Option<char>, open: bool) -> (r: Option<bool>)
    ensures
        r == marker_effect(c, prev, next, open),
{
    if open {
        match prev {
            Some(p) => if !is_whitespace(p) && p != c {
                Some(false)
            } else {
                None
            },
            None => None,
        }
    } else {
        match next {
            Some(n) => if !is_whitespace(n) && n != c {
                Some(true)
            } else {
                None
            },
            None => None,
        }
    }
}

} // verus!
