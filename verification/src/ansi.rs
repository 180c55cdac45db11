//! ANSI writer and parser for most Select Graphic Rendition (SGR) attributes.
//!
//! Positions in text count chars.
use std::fmt::Write;
use vstd::prelude::*;

use crate::byte_pos::{byte_len, byte_offset, byte_slice, char_index_at, is_char_start, lemma_offset_unique, str_byte_len};
use crate::style::{Color, Modifier, Style};
use crate::decimal::{decimal, push_decimal, parse_unsigned, parse_unsigned_range};
use crate::text::{string_push, push_str, chars_of, string_of_range};
use vstd::string::StrSliceExecFns;
use vstd::string::StringExecFns;
use vstd::utf8::encode_utf8;

verus! {

/// The char that opens an escape sequence.
pub const ANSI_START: char = '\x1b';

/// The char that follows [`ANSI_START`] in a control sequence.
pub const ANSI_START2: char = '[';

/// The char that ends an SGR sequence.
pub const ANSI_END: char = 'm';

#[derive(Debug, Clone, Copy, PartialEq, Eq, Structural)]
pub enum AnsiTag {
    // Reset
    Reset,
    // Style on
    Bold,
    Faint,
    Italic,
    Underline,
    SlowBlink,
    RapidBlink,
    Reverse,
    Conceal,
    CrossedOut,
    // Style off
    NotBold,
    NotItalic,
    NotUnderline,
    NotBlink,
    NotReverse,
    Reveal,
    NotCrossedOut,
    // Foreground colors
    FgBlack,
    FgRed,
    FgGreen,
    FgYellow,
    FgBlue,
    FgMagenta,
    FgCyan,
    FgWhite,
    FgBrightBlack,
    FgBrightRed,
    FgBrightGreen,
    FgBrightYellow,
    FgBrightBlue,
    FgBrightMagenta,
    FgBrightCyan,
    FgBrightWhite,
    FgDefault,
    // Background colors
    BgBlack,
    BgRed,
    BgGreen,
    BgYellow,
    BgBlue,
    BgMagenta,
    BgCyan,
    BgWhite,
    BgBrightBlack,
    BgBrightRed,
    BgBrightGreen,
    BgBrightYellow,
    BgBrightBlue,
    BgBrightMagenta,
    BgBrightCyan,
    BgBrightWhite,
    BgDefault,
    // Extended colors
    Fg256(u8),
    Bg256(u8),
    FgTrueColor(u8, u8, u8),
    BgTrueColor(u8, u8, u8),
}

/// The SGR parameter of a tag that is written as a single number; `None` for
/// the extended colors.
pub open spec fn sgr_number(t: AnsiTag) -> Option<nat> {
    match t {
        AnsiTag::Reset => Some(0),
        AnsiTag::Bold => Some(1),
        AnsiTag::Faint => Some(2),
        AnsiTag::Italic => Some(3),
        AnsiTag::Underline => Some(4),
        AnsiTag::SlowBlink => Some(5),
        AnsiTag::RapidBlink => Some(6),
        AnsiTag::Reverse => Some(7),
        AnsiTag::Conceal => Some(8),
        AnsiTag::CrossedOut => Some(9),
        AnsiTag::NotBold => Some(22),
        AnsiTag::NotItalic => Some(23),
        AnsiTag::NotUnderline => Some(24),
        AnsiTag::NotBlink => Some(25),
        AnsiTag::NotReverse => Some(27),
        AnsiTag::Reveal => Some(28),
        AnsiTag::NotCrossedOut => Some(29),
        AnsiTag::FgBlack => Some(30),
        AnsiTag::FgRed => Some(31),
        AnsiTag::FgGreen => Some(32),
        AnsiTag::FgYellow => Some(33),
        AnsiTag::FgBlue => Some(34),
        AnsiTag::FgMagenta => Some(35),
        AnsiTag::FgCyan => Some(36),
        AnsiTag::FgWhite => Some(37),
        AnsiTag::FgDefault => Some(39),
        AnsiTag::BgBlack => Some(40),
        AnsiTag::BgRed => Some(41),
        AnsiTag::BgGreen => Some(42),
        AnsiTag::BgYellow => Some(43),
        AnsiTag::BgBlue => Some(44),
        AnsiTag::BgMagenta => Some(45),
        AnsiTag::BgCyan => Some(46),
        AnsiTag::BgWhite => Some(47),
        AnsiTag::BgDefault => Some(49),
        AnsiTag::FgBrightBlack => Some(90),
        AnsiTag::FgBrightRed => Some(91),
        AnsiTag::FgBrightGreen => Some(92),
        AnsiTag::FgBrightYellow => Some(93),
        AnsiTag::FgBrightBlue => Some(94),
        AnsiTag::FgBrightMagenta => Some(95),
        AnsiTag::FgBrightCyan => Some(96),
        AnsiTag::FgBrightWhite => Some(97),
        AnsiTag::BgBrightBlack => Some(100),
        AnsiTag::BgBrightRed => Some(101),
        AnsiTag::BgBrightGreen => Some(102),
        AnsiTag::BgBrightYellow => Some(103),
        AnsiTag::BgBrightBlue => Some(104),
        AnsiTag::BgBrightMagenta => Some(105),
        AnsiTag::BgBrightCyan => Some(106),
        AnsiTag::BgBrightWhite => Some(107),
        _ => None,
    }
}

/// The tag whose SGR parameter is the single number `n`, if any.
pub open spec fn tag_of_number(n: nat) -> Option<AnsiTag> {
    if exists|t: AnsiTag| sgr_number(t) == Some(n) {
        Some(choose|t: AnsiTag| sgr_number(t) == Some(n))
    } else {
        None
    }
}

/// Each single-number tag has its own number.
pub proof fn lemma_sgr_number_injective(t1: AnsiTag, t2: AnsiTag)
    requires
        sgr_number(t1) is Some,
        sgr_number(t1) == sgr_number(t2),
    ensures
        t1 == t2,
{
}

/// `from_u8` finds, for a number, the tag written with it.
pub proof fn lemma_tag_of_number(t: AnsiTag)
    requires
        sgr_number(t) is Some,
    ensures
        tag_of_number(sgr_number(t).unwrap()) == Some(t),
{
    let n = sgr_number(t).unwrap();
    assert(exists|u: AnsiTag| sgr_number(u) == Some(n));
    let u = choose|u: AnsiTag| sgr_number(u) == Some(n);
    lemma_sgr_number_injective(t, u);
}

/// `from_u8` and the number a tag is written with undo each other: the tag
/// read from a number is written with that number, and a tag written with a
/// single number is read back from it.
pub proof fn law_number_round_trip(n: nat, t: AnsiTag)
    ensures
        tag_of_number(n) == Some(t) ==> sgr_number(t) == Some(n),
        sgr_number(t) == Some(n) ==> tag_of_number(n) == Some(t),
{
    if sgr_number(t) == Some(n) {
        lemma_tag_of_number(t);
    }
}

/// The text between `ESC [` and `m` that selects a tag.
pub open spec fn tag_code(t: AnsiTag) -> Seq<char> {
    match t {
        AnsiTag::Fg256(n) => seq!['3', '8', ';', '5', ';'] + decimal(n as nat),
        AnsiTag::Bg256(n) => seq!['4', '8', ';', '5', ';'] + decimal(n as nat),
        AnsiTag::FgTrueColor(r, g, b) => seq!['3', '8', ';', '2', ';'] + decimal(r as nat) + seq![
            ';',
        ] + decimal(g as nat) + seq![';'] + decimal(b as nat),
        AnsiTag::BgTrueColor(r, g, b) => seq!['4', '8', ';', '2', ';'] + decimal(r as nat) + seq![
            ';',
        ] + decimal(g as nat) + seq![';'] + decimal(b as nat),
        _ => decimal(sgr_number(t).unwrap()),
    }
}

/// The whole escape sequence that selects a tag.
pub open spec fn tag_sequence(t: AnsiTag) -> Seq<char> {
    seq![ANSI_START, ANSI_START2] + tag_code(t) + seq![ANSI_END]
}

/// The single-number value of a tag, which must not be an extended color.
fn simple_number(t: AnsiTag) -> (n: u8)
    requires
        sgr_number(t) is Some,
    ensures
        n as nat == sgr_number(t).unwrap(),
{
    match t {
        AnsiTag::Reset => 0,
        AnsiTag::Bold => 1,
        AnsiTag::Faint => 2,
        AnsiTag::Italic => 3,
        AnsiTag::Underline => 4,
        AnsiTag::SlowBlink => 5,
        AnsiTag::RapidBlink => 6,
        AnsiTag::Reverse => 7,
        AnsiTag::Conceal => 8,
        AnsiTag::CrossedOut => 9,
        AnsiTag::NotBold => 22,
        AnsiTag::NotItalic => 23,
        AnsiTag::NotUnderline => 24,
        AnsiTag::NotBlink => 25,
        AnsiTag::NotReverse => 27,
        AnsiTag::Reveal => 28,
        AnsiTag::NotCrossedOut => 29,
        AnsiTag::FgBlack => 30,
        AnsiTag::FgRed => 31,
        AnsiTag::FgGreen => 32,
        AnsiTag::FgYellow => 33,
        AnsiTag::FgBlue => 34,
        AnsiTag::FgMagenta => 35,
        AnsiTag::FgCyan => 36,
        AnsiTag::FgWhite => 37,
        AnsiTag::FgDefault => 39,
        AnsiTag::BgBlack => 40,
        AnsiTag::BgRed => 41,
        AnsiTag::BgGreen => 42,
        AnsiTag::BgYellow => 43,
        AnsiTag::BgBlue => 44,
        AnsiTag::BgMagenta => 45,
        AnsiTag::BgCyan => 46,
        AnsiTag::BgWhite => 47,
        AnsiTag::BgDefault => 49,
        AnsiTag::FgBrightBlack => 90,
        AnsiTag::FgBrightRed => 91,
        AnsiTag::FgBrightGreen => 92,
        AnsiTag::FgBrightYellow => 93,
        AnsiTag::FgBrightBlue => 94,
        AnsiTag::FgBrightMagenta => 95,
        AnsiTag::FgBrightCyan => 96,
        AnsiTag::FgBrightWhite => 97,
        AnsiTag::BgBrightBlack => 100,
        AnsiTag::BgBrightRed => 101,
        AnsiTag::BgBrightGreen => 102,
        AnsiTag::BgBrightYellow => 103,
        AnsiTag::BgBrightBlue => 104,
        AnsiTag::BgBrightMagenta => 105,
        AnsiTag::BgBrightCyan => 106,
        _ => 107,
    }
}

/// Appends the five chars `a b ; c ;` that start an extended color code.
fn push_prefix(s: &mut String, a: char, b: char, c: char)
    ensures
        final(s)@ == old(s)@ + seq![a, b, ';', c, ';'],
{
    string_push(s, a);
    string_push(s, b);
    string_push(s, ';');
    string_push(s, c);
    string_push(s, ';');
    assert(s@ =~= old(s)@ + seq![a, b, ';', c, ';']);
}

/// Appends the code of three color components `r;g;b`.
fn push_rgb(s: &mut String, r: u8, g: u8, b: u8)
    ensures
        final(s)@ == old(s)@ + decimal(r as nat) + seq![';'] + decimal(g as nat) + seq![';']
            + decimal(b as nat),
{
    push_decimal(s, r as u64);
    string_push(s, ';');
    push_decimal(s, g as u64);
    string_push(s, ';');
    push_decimal(s, b as u64);
    assert(s@ =~= old(s)@ + decimal(r as nat) + seq![';'] + decimal(g as nat) + seq![';']
        + decimal(b as nat));
}

impl AnsiTag {
    /// The tag whose SGR parameter is the number `value`, if there is one.
    pub fn from_u8(value: u8) -> (r: Option<AnsiTag>)
        ensures
            r == tag_of_number(value as nat),
    {
        let tag = match value {
            0 => AnsiTag::Reset,
            1 => AnsiTag::Bold,
            2 => AnsiTag::Faint,
            3 => AnsiTag::Italic,
            4 => AnsiTag::Underline,
            5 => AnsiTag::SlowBlink,
            6 => AnsiTag::RapidBlink,
            7 => AnsiTag::Reverse,
            8 => AnsiTag::Conceal,
            9 => AnsiTag::CrossedOut,
            22 => AnsiTag::NotBold,
            23 => AnsiTag::NotItalic,
            24 => AnsiTag::NotUnderline,
            25 => AnsiTag::NotBlink,
            27 => AnsiTag::NotReverse,
            28 => AnsiTag::Reveal,
            29 => AnsiTag::NotCrossedOut,
            30 => AnsiTag::FgBlack,
            31 => AnsiTag::FgRed,
            32 => AnsiTag::FgGreen,
            33 => AnsiTag::FgYellow,
            34 => AnsiTag::FgBlue,
            35 => AnsiTag::FgMagenta,
            36 => AnsiTag::FgCyan,
            37 => AnsiTag::FgWhite,
            39 => AnsiTag::FgDefault,
            40 => AnsiTag::BgBlack,
            41 => AnsiTag::BgRed,
            42 => AnsiTag::BgGreen,
            43 => AnsiTag::BgYellow,
            44 => AnsiTag::BgBlue,
            45 => AnsiTag::BgMagenta,
            46 => AnsiTag::BgCyan,
            47 => AnsiTag::BgWhite,
            49 => AnsiTag::BgDefault,
            90 => AnsiTag::FgBrightBlack,
            91 => AnsiTag::FgBrightRed,
            92 => AnsiTag::FgBrightGreen,
            93 => AnsiTag::FgBrightYellow,
            94 => AnsiTag::FgBrightBlue,
            95 => AnsiTag::FgBrightMagenta,
            96 => AnsiTag::FgBrightCyan,
            97 => AnsiTag::FgBrightWhite,
            100 => AnsiTag::BgBrightBlack,
            101 => AnsiTag::BgBrightRed,
            102 => AnsiTag::BgBrightGreen,
            103 => AnsiTag::BgBrightYellow,
            104 => AnsiTag::BgBrightBlue,
            105 => AnsiTag::BgBrightMagenta,
            106 => AnsiTag::BgBrightCyan,
            107 => AnsiTag::BgBrightWhite,
            _ => {
                proof {
                    if exists|t: AnsiTag| sgr_number(t) == Some(value as nat) {
                        let t = choose|t: AnsiTag| sgr_number(t) == Some(value as nat);
                        assert(sgr_number(t) == Some(value as nat));
                    }
                }
                return None;
            },
        };
        proof {
            lemma_tag_of_number(tag);
        }
        Some(tag)
    }

    /// The SGR parameter text of this tag, as the `Display` of a tag writes it.
    pub fn to_string(&self) -> (s: String)
        ensures
            s@ == tag_code(*self),
    {
        let mut s = String::new();
        push_code(&mut s, *self);
        assert(s@ =~= tag_code(*self));
        s
    }
}

/// Appends the SGR parameter text of `t` to `s`.
pub fn push_code(s: &mut String, t: AnsiTag)
    ensures
        final(s)@ == old(s)@ + tag_code(t),
{
    match t {
        AnsiTag::Fg256(n) => {
            push_prefix(s, '3', '8', '5');
            push_decimal(s, n as u64);
        },
        AnsiTag::Bg256(n) => {
            push_prefix(s, '4', '8', '5');
            push_decimal(s, n as u64);
        },
        AnsiTag::FgTrueColor(r, g, b) => {
            push_prefix(s, '3', '8', '2');
            push_rgb(s, r, g, b);
        },
        AnsiTag::BgTrueColor(r, g, b) => {
            push_prefix(s, '4', '8', '2');
            push_rgb(s, r, g, b);
        },
        _ => {
            let n = simple_number(t);
            push_decimal(s, n as u64);
        },
    }
    assert(s@ =~= old(s)@ + tag_code(t));
}

/// Appends the whole escape sequence of `t` to `s`.
pub fn push_sequence(s: &mut String, t: AnsiTag)
    ensures
        final(s)@ == old(s)@ + tag_sequence(t),
{
    string_push(s, ANSI_START);
    string_push(s, ANSI_START2);
    push_code(s, t);
    string_push(s, ANSI_END);
    assert(s@ =~= old(s)@ + tag_sequence(t));
}

} // verus!

verus! {

/// Text with ANSI escape sequences, built up piece by piece.
pub struct AnsiWriter {
    inner: String,
}

impl View for AnsiWriter {
    type V = Seq<char>;

    closed spec fn view(&self) -> Seq<char> {
        self.inner@
    }
}

/// What textwrap's `fill_inplace` makes of `text` for a line width of `width`.
pub uninterp spec fn filled_in_place(text: Seq<char>, width: nat) -> Seq<char>;

/// textwrap's `fill_inplace`. Its source turns some of the spaces of the text
/// into line breaks, so that the lines fit `width` columns where the words
/// allow it, and touches nothing else. Which spaces it picks is its line
/// breaking algorithm, which is not stated here: the result is named
/// `filled_in_place`, of the text and the width alone.
#[verifier::external_body]
fn fill_in_place(text: &mut String, width: usize)
    ensures
        final(text)@ == filled_in_place(old(text)@, width as nat),
        final(text)@.len() == old(text)@.len(),
        forall|i: int|
            0 <= i < old(text)@.len() ==> final(text)@[i] == old(text)@[i] || (old(text)@[i] == ' '
                && final(text)@[i] == '\n'),
{
    textwrap::fill_inplace(text, width);
}

/// std's `fmt::Write::write_fmt` on a `String`. What the arguments format to
/// depends on their `Display` impls, so only that the text before stays in
/// front is stated.
#[verifier::external_body]
pub fn write_args(s: &mut String, args: std::fmt::Arguments<'_>)
    ensures
        old(s)@.is_prefix_of(final(s)@),
{
    let _ = s.write_fmt(args);
}

#[verifier::external_type_specification]
#[verifier::external_body]
pub struct ExArguments<'a>(std::fmt::Arguments<'a>);

impl AnsiWriter {
    pub fn new() -> (w: Self)
        ensures
            w@ == Seq::<char>::empty(),
    {
        AnsiWriter { inner: String::new() }
    }

    /// The number of bytes written so far.
    pub fn len(&self) -> (n: usize)
        ensures
            n == byte_len(self@),
    {
        str_byte_len(self.inner.as_str())
    }

    pub fn as_str(&self) -> (s: &str)
        ensures
            s@ == self@,
    {
        self.inner.as_str()
    }

    pub fn is_empty(&self) -> (b: bool)
        ensures
            b == (self@.len() == 0),
    {
        self.inner.as_str().is_empty()
    }

    pub fn inner(&self) -> (s: &String)
        ensures
            s@ == self@,
    {
        &self.inner
    }

    pub fn inner_mut(&mut self) -> (s: &mut String)
        ensures
            s@ == old(self)@,
            final(self)@ == final(s)@,
    {
        &mut self.inner
    }

    /// The text between byte offsets `range.start` and `range.end`, both
    /// char boundaries.
    pub fn slice(&self, range: std::ops::Range<usize>) -> (s: &str)
        requires
            range.start <= range.end,
            is_char_start(self@, range.start as int),
            is_char_start(self@, range.end as int),
        ensures
            forall|i: int, j: int|
                0 <= i <= self@.len() && 0 <= j <= self@.len() && byte_offset(self@, i) == range.start
                    && byte_offset(self@, j) == range.end ==> s@ == self@.subrange(i, j),
            encode_utf8(s@) == encode_utf8(self@).subrange(range.start as int, range.end as int),
    {
        byte_slice(self.inner.as_str(), range.start, range.end)
    }

    pub fn push_char(&mut self, c: char)
        ensures
            final(self)@ == old(self)@.push(c),
    {
        string_push(&mut self.inner, c);
    }

    pub fn push_str(&mut self, s: &str)
        ensures
            final(self)@ == old(self)@ + s@,
    {
        push_str(&mut self.inner, s);
    }

    /// Appends formatted text; only that the earlier text stays is stated.
    pub fn push_fmt(&mut self, args: std::fmt::Arguments<'_>)
        ensures
            old(self)@.is_prefix_of(final(self)@),
    {
        write_args(&mut self.inner, args);
    }

    /// Appends the escape sequence that selects `tag`.
    pub fn push_tag(&mut self, tag: AnsiTag)
        ensures
            final(self)@ == old(self)@ + tag_sequence(tag),
    {
        push_sequence(&mut self.inner, tag);
    }

    /// Inserts `ch` at byte offset `i`, a char boundary.
    pub fn insert_char(&mut self, i: usize, ch: char)
        requires
            is_char_start(old(self)@, i as int),
        ensures
            forall|k: int|
                0 <= k <= old(self)@.len() && byte_offset(old(self)@, k) == i ==> final(self)@ == old(
                    self,
                )@.insert(k, ch),
    {
        let k = char_index_at(self.inner.as_str(), i);
        let mut s = String::new();
        s.append(self.inner.as_str().substring_char(0, k));
        string_push(&mut s, ch);
        let n = self.inner.as_str().unicode_len();
        s.append(self.inner.as_str().substring_char(k, n));
        proof {
            assert(s@ =~= old(self)@.insert(k as int, ch));
            assert forall|k2: int| 0 <= k2 <= old(self)@.len() && byte_offset(old(self)@, k2) == i implies k2
                == k by {
                lemma_offset_unique(old(self)@, k as int, k2);
            }
        }
        self.inner = s;
    }

    /// Inserts `t` at byte offset `i`, a char boundary.
    pub fn insert_str(&mut self, i: usize, t: &str)
        requires
            is_char_start(old(self)@, i as int),
        ensures
            forall|k: int|
                0 <= k <= old(self)@.len() && byte_offset(old(self)@, k) == i ==> final(self)@ == old(
                    self,
                )@.subrange(0, k) + t@ + old(self)@.subrange(k, old(self)@.len() as int),
    {
        let k = char_index_at(self.inner.as_str(), i);
        let mut s = String::new();
        s.append(self.inner.as_str().substring_char(0, k));
        s.append(t);
        let n = self.inner.as_str().unicode_len();
        s.append(self.inner.as_str().substring_char(k, n));
        proof {
            assert forall|k2: int| 0 <= k2 <= old(self)@.len() && byte_offset(old(self)@, k2) == i implies k2
                == k by {
                lemma_offset_unique(old(self)@, k as int, k2);
            }
        }
        self.inner = s;
    }

    /// Inserts the escape sequence of `tag` at byte offset `i`, a char
    /// boundary.
    pub fn insert_tag(&mut self, i: usize, tag: AnsiTag)
        requires
            is_char_start(old(self)@, i as int),
        ensures
            forall|k: int|
                0 <= k <= old(self)@.len() && byte_offset(old(self)@, k) == i ==> final(self)@ == old(
                    self,
                )@.subrange(0, k) + tag_sequence(tag) + old(self)@.subrange(k, old(self)@.len() as int),
    {
        let k = char_index_at(self.inner.as_str(), i);
        let mut s = String::new();
        s.append(self.inner.as_str().substring_char(0, k));
        push_sequence(&mut s, tag);
        let n = self.inner.as_str().unicode_len();
        s.append(self.inner.as_str().substring_char(k, n));
        proof {
            assert forall|k2: int| 0 <= k2 <= old(self)@.len() && byte_offset(old(self)@, k2) == i implies k2
                == k by {
                lemma_offset_unique(old(self)@, k as int, k2);
            }
        }
        self.inner = s;
    }

    /// Appends each of `items` in turn.
    pub fn extend(&mut self, items: &[&str])
        ensures
            final(self)@ == old(self)@ + items@.map_values(|t: &str| t@).flatten(),
    {
        let mut i: usize = 0;
        while i < items.len()
            invariant
                i <= items@.len(),
                self@ == old(self)@ + items@.subrange(0, i as int).map_values(|t: &str| t@).flatten(),
            decreases items.len() - i,
        {
            let ghost before = items@.subrange(0, i as int).map_values(|t: &str| t@);
            push_str(&mut self.inner, items[i]);
            i = i + 1;
            proof {
                let after = items@.subrange(0, i as int).map_values(|t: &str| t@);
                assert(after =~= before.push(items@[i - 1]@));
                before.lemma_flatten_push(items@[i - 1]@);
                assert(self@ =~= old(self)@ + after.flatten());
            }
        }
        assert(items@.subrange(0, i as int) =~= items@);
    }

    /// Breaks the lines of the text at spaces so that they fit `width` columns.
    pub fn textwrap(&mut self, width: u16)
        ensures
            final(self)@ == filled_in_place(old(self)@, width as nat),
            final(self)@.len() == old(self)@.len(),
            forall|i: int|
                0 <= i < old(self)@.len() ==> final(self)@[i] == old(self)@[i] || (old(self)@[i]
                    == ' ' && final(self)@[i] == '\n'),
    {
        fill_in_place(&mut self.inner, width as usize);
    }

    pub fn clear(&mut self)
        ensures
            final(self)@ == Seq::<char>::empty(),
    {
        self.inner = String::new();
    }
}

} // verus!

verus! {

/// The pieces of `s` between its `;` chars, as std's `str::split(";")` gives them.
pub open spec fn split_semi(s: Seq<char>) -> Seq<Seq<char>>
    decreases s.len(),
{
    if s.len() == 0 {
        seq![Seq::<char>::empty()]
    } else {
        let prev = split_semi(s.drop_last());
        if s.last() == ';' {
            prev.push(Seq::<char>::empty())
        } else {
            prev.update(prev.len() - 1, prev.last().push(s.last()))
        }
    }
}

pub proof fn lemma_split_semi_len(s: Seq<char>)
    ensures
        split_semi(s).len() >= 1,
    decreases s.len(),
{
    if s.len() > 0 {
        lemma_split_semi_len(s.drop_last());
    }
}

/// The tag that an SGR code selects, as a parser reads it: a code
/// with `;` is an extended color of three or five parts, any other code is a
/// single number.
pub open spec fn code_tag(code: Seq<char>) -> Option<AnsiTag> {
    if code.contains(';') {
        let parts = split_semi(code);
        if parts.len() == 3 {
            match parse_unsigned(parts[2], 255) {
                Some(n) => if parts[0] == seq!['3', '8'] && parts[1] == seq!['5'] {
                    Some(AnsiTag::Fg256(n as u8))
                } else if parts[0] == seq!['4', '8'] && parts[1] == seq!['5'] {
                    Some(AnsiTag::Bg256(n as u8))
                } else {
                    None
                },
                None => None,
            }
        } else if parts.len() == 5 {
            match (
                parse_unsigned(parts[2], 255),
                parse_unsigned(parts[3], 255),
                parse_unsigned(parts[4], 255),
            ) {
                (Some(r), Some(g), Some(b)) => if parts[0] == seq!['3', '8'] && parts[1] == seq![
                    '2',
                ] {
                    Some(AnsiTag::FgTrueColor(r as u8, g as u8, b as u8))
                } else if parts[0] == seq!['4', '8'] && parts[1] == seq!['2'] {
                    Some(AnsiTag::BgTrueColor(r as u8, g as u8, b as u8))
                } else {
                    None
                },
                _ => None,
            }
        } else {
            None
        }
    } else {
        match parse_unsigned(code, 255) {
            Some(n) => tag_of_number(n),
            None => None,
        }
    }
}

/// The first `m` in `s[from..limit]`.
pub open spec fn find_end(s: Seq<char>, from: int, limit: int) -> Option<int>
    decreases limit - from,
{
    if from >= limit {
        None
    } else if s[from] == ANSI_END {
        Some(from)
    } else {
        find_end(s, from + 1, limit)
    }
}

/// How far the search for the `m` of a code that starts at `from` reaches: the
/// parser looks at no more than 17 chars.
pub open spec fn code_limit(s: Seq<char>, from: int) -> int {
    if from + 17 <= s.len() {
        from + 17
    } else {
        s.len() as int
    }
}

/// Reading a code at the escape char at `p`: the position after the code and
/// its tag, or, where no tag is read, the position where reading stopped.
pub open spec fn try_code(s: Seq<char>, p: int) -> Result<(int, AnsiTag), int> {
    if p + 1 >= s.len() {
        Err(s.len() as int)
    } else if s[p + 1] != ANSI_START2 {
        Err(p + 2)
    } else {
        match find_end(s, p + 2, code_limit(s, p + 2)) {
            None => Err(code_limit(s, p + 2)),
            Some(e) => match code_tag(s.subrange(p + 2, e)) {
                Some(t) => Ok((e + 1, t)),
                None => Err(e + 1),
            },
        }
    }
}

pub proof fn lemma_find_end(s: Seq<char>, from: int, limit: int)
    requires
        0 <= from <= limit <= s.len(),
    ensures
        find_end(s, from, limit) matches Some(e) ==> from <= e < limit && s[e] == ANSI_END && (
        forall|k: int| from <= k < e ==> s[k] != ANSI_END),
        find_end(s, from, limit) is None ==> forall|k: int| from <= k < limit ==> s[k] != ANSI_END,
    decreases limit - from,
{
    if from < limit {
        lemma_find_end(s, from + 1, limit);
    }
}

pub proof fn lemma_try_code(s: Seq<char>, p: int)
    requires
        0 <= p < s.len(),
    ensures
        try_code(s, p) matches Ok((e, t)) ==> p + 3 <= e <= s.len(),
        try_code(s, p) matches Err(q) ==> p < q <= s.len(),
{
    if p + 1 < s.len() && s[p + 1] == ANSI_START2 {
        lemma_find_end(s, p + 2, code_limit(s, p + 2));
    }
}

/// The next code found scanning from `p`: where its escape char is, the
/// position after it, and its tag.
pub open spec fn scan(s: Seq<char>, p: int) -> Option<(int, int, AnsiTag)>
    decreases s.len() - p,
{
    if p < 0 || p >= s.len() {
        None
    } else if s[p] != ANSI_START {
        scan(s, p + 1)
    } else {
        match try_code(s, p) {
            Ok((e, t)) => Some((p, e, t)),
            Err(q) => {
                proof {
                    lemma_try_code(s, p);
                }
                scan(s, q)
            },
        }
    }
}

pub proof fn lemma_scan(s: Seq<char>, p: int)
    requires
        0 <= p <= s.len(),
    ensures
        scan(s, p) matches Some((i, e, t)) ==> p <= i && i + 3 <= e <= s.len() && s[i]
            == ANSI_START && try_code(s, i) == Ok::<(int, AnsiTag), int>((e, t)),
    decreases s.len() - p,
{
    if p < s.len() {
        if s[p] != ANSI_START {
            lemma_scan(s, p + 1);
        } else {
            lemma_try_code(s, p);
            match try_code(s, p) {
                Ok(_) => {},
                Err(q) => lemma_scan(s, q),
            }
        }
    }
}

/// A parsed piece: `(Some(tag), empty)` for a tag, `(None, text)` for text.
pub open spec fn tag_item(t: AnsiTag) -> (Option<AnsiTag>, Seq<char>) {
    (Some(t), Seq::<char>::empty())
}

/// A parsed piece of text.
pub open spec fn text_item(text: Seq<char>) -> (Option<AnsiTag>, Seq<char>) {
    (None, text)
}

/// The pieces the parser gives for `s` when its text so far starts at `start`
/// and it goes on scanning at `p`.
pub open spec fn events_from(s: Seq<char>, start: int, p: int) -> Seq<(Option<AnsiTag>, Seq<char>)>
    decreases s.len() - p,
{
    if p < 0 || p > s.len() {
        Seq::empty()
    } else {
        match scan(s, p) {
            Some((i, e, t)) => {
                proof {
                    lemma_scan(s, p);
                }
                (if start < i {
                    seq![text_item(s.subrange(start, i))]
                } else {
                    Seq::empty()
                }) + seq![tag_item(t)] + events_from(s, e, e)
            },
            None => if start < s.len() {
                seq![text_item(s.subrange(start, s.len() as int))]
            } else {
                Seq::empty()
            },
        }
    }
}

/// All pieces of text and tags that the parser reads from `s`, in order.
pub open spec fn ansi_events(s: Seq<char>) -> Seq<(Option<AnsiTag>, Seq<char>)> {
    events_from(s, 0, 0)
}

/// A piece read by [`AnsiParser`].
#[derive(Debug)]
pub enum AnsiEvent<'a> {
    Text(&'a str),
    Tag(AnsiTag),
}

impl<'a> View for AnsiEvent<'a> {
    type V = (Option<AnsiTag>, Seq<char>);

    open spec fn view(&self) -> (Option<AnsiTag>, Seq<char>) {
        match self {
            AnsiEvent::Text(s) => text_item(s@),
            AnsiEvent::Tag(t) => tag_item(*t),
        }
    }
}

/// The chars of each of `v`.
pub open spec fn pieces_view(v: Seq<Vec<char>>) -> Seq<Seq<char>> {
    v.map_values(|x: Vec<char>| x@)
}

/// Splits `chars[lo..hi]` at its `;` chars.
pub fn split_semicolons(chars: &Vec<char>, lo: usize, hi: usize) -> (r: Vec<Vec<char>>)
    requires
        lo <= hi <= chars@.len(),
    ensures
        pieces_view(r@) == split_semi(chars@.subrange(lo as int, hi as int)),
{
    let mut pieces: Vec<Vec<char>> = Vec::new();
    let mut cur: Vec<char> = Vec::new();
    let mut i = lo;
    proof {
        assert(chars@.subrange(lo as int, lo as int) =~= Seq::<char>::empty());
        assert(pieces_view(pieces@).push(cur@) =~= seq![Seq::<char>::empty()]);
    }
    while i < hi
        invariant
            lo <= i <= hi <= chars@.len(),
            split_semi(chars@.subrange(lo as int, i as int)) == pieces_view(pieces@).push(cur@),
        decreases hi - i,
    {
        let c = chars[i];
        let ghost before = chars@.subrange(lo as int, i as int);
        let ghost old_pieces = pieces_view(pieces@);
        let ghost old_cur = cur@;
        i = i + 1;
        let ghost after = chars@.subrange(lo as int, i as int);
        assert(after.drop_last() =~= before);
        if c == ';' {
            pieces.push(cur);
            cur = Vec::new();
            assert(pieces_view(pieces@) =~= old_pieces.push(old_cur));
            assert(pieces_view(pieces@).push(cur@) =~= old_pieces.push(old_cur).push(
                Seq::<char>::empty(),
            ));
        } else {
            cur.push(c);
            assert(pieces_view(pieces@).push(cur@) =~= old_pieces.push(old_cur).update(
                old_pieces.len() as int,
                old_cur.push(c),
            ));
        }
    }
    pieces.push(cur);
    pieces
}

/// Whether `v` holds exactly the chars `a` and `b`.
fn is_two(v: &Vec<char>, a: char, b: char) -> (r: bool)
    ensures
        r == (v@ == seq![a, b]),
{
    let r = v.len() == 2 && v[0] == a && v[1] == b;
    proof {
        if r {
            assert(v@ =~= seq![a, b]);
        }
    }
    r
}

/// Whether `v` holds exactly the char `a`.
fn is_one(v: &Vec<char>, a: char) -> (r: bool)
    ensures
        r == (v@ == seq![a]),
{
    let r = v.len() == 1 && v[0] == a;
    proof {
        if r {
            assert(v@ =~= seq![a]);
        }
    }
    r
}

/// Reads a color component, a number up to 255.
fn parse_component(v: &Vec<char>) -> (r: Option<u8>)
    ensures
        match parse_unsigned(v@, 255) {
            Some(n) => r == Some(n as u8),
            None => r is None,
        },
{
    assert(v@.subrange(0, v@.len() as int) =~= v@);
    match parse_unsigned_range(v, 0, v.len(), 255) {
        Some(n) => Some(n as u8),
        None => None,
    }
}

/// Whether `chars[lo..hi]` holds `c`.
fn range_contains(chars: &Vec<char>, lo: usize, hi: usize, c: char) -> (r: bool)
    requires
        lo <= hi <= chars@.len(),
    ensures
        r == chars@.subrange(lo as int, hi as int).contains(c),
{
    let mut i = lo;
    while i < hi
        invariant
            lo <= i <= hi <= chars@.len(),
            forall|j: int| lo <= j < i ==> chars@[j] != c,
        decreases hi - i,
    {
        if chars[i] == c {
            assert(chars@.subrange(lo as int, hi as int)[i - lo] == c);
            return true;
        }
        i = i + 1;
    }
    proof {
        let sub = chars@.subrange(lo as int, hi as int);
        if sub.contains(c) {
            let k = choose|k: int| 0 <= k < sub.len() && sub[k] == c;
            assert(chars@[lo + k] == c);
        }
    }
    false
}

/// The tag that the code `chars[lo..hi]` selects, if any.
fn code_to_tag(chars: &Vec<char>, lo: usize, hi: usize) -> (r: Option<AnsiTag>)
    requires
        lo <= hi <= chars@.len(),
    ensures
        r == code_tag(chars@.subrange(lo as int, hi as int)),
{
    let ghost code = chars@.subrange(lo as int, hi as int);
    if range_contains(chars, lo, hi, ';') {
        let parts = split_semicolons(chars, lo, hi);
        assert(pieces_view(parts@).len() == parts@.len());
        if parts.len() == 3 {
            assert(parts[0]@ == pieces_view(parts@)[0]);
            assert(parts[1]@ == pieces_view(parts@)[1]);
            assert(parts[2]@ == pieces_view(parts@)[2]);
            match parse_component(&parts[2]) {
                Some(n) => {
                    if is_two(&parts[0], '3', '8') && is_one(&parts[1], '5') {
                        Some(AnsiTag::Fg256(n))
                    } else if is_two(&parts[0], '4', '8') && is_one(&parts[1], '5') {
                        Some(AnsiTag::Bg256(n))
                    } else {
                        None
                    }
                },
                None => None,
            }
        } else if parts.len() == 5 {
            assert(parts[0]@ == pieces_view(parts@)[0]);
            assert(parts[1]@ == pieces_view(parts@)[1]);
            assert(parts[2]@ == pieces_view(parts@)[2]);
            assert(parts[3]@ == pieces_view(parts@)[3]);
            assert(parts[4]@ == pieces_view(parts@)[4]);
            match (parse_component(&parts[2]), parse_component(&parts[3]), parse_component(&parts[4])) {
                (Some(r), Some(g), Some(b)) => {
                    if is_two(&parts[0], '3', '8') && is_one(&parts[1], '2') {
                        Some(AnsiTag::FgTrueColor(r, g, b))
                    } else if is_two(&parts[0], '4', '8') && is_one(&parts[1], '2') {
                        Some(AnsiTag::BgTrueColor(r, g, b))
                    } else {
                        None
                    }
                },
                _ => None,
            }
        } else {
            None
        }
    } else {
        match parse_unsigned_range(chars, lo, hi, 255) {
            Some(n) => AnsiTag::from_u8(n as u8),
            None => None,
        }
    }
}

} // verus!

verus! {

/// Reads text with ANSI escape sequences as pieces of text and tags.
pub struct AnsiParser<'a> {
    input: &'a str,
    chars: Vec<char>,
    pos: usize,
    start: usize,
    tag: Option<AnsiTag>,
}

impl<'a> AnsiParser<'a> {
    /// The text being read.
    pub closed spec fn text(&self) -> Seq<char> {
        self.input@
    }

    /// The parser's state is consistent.
    pub closed spec fn wf(&self) -> bool {
        &&& self.chars@ == self.input@
        &&& self.start <= self.pos <= self.chars@.len()
    }

    /// The pieces that are still to come.
    pub closed spec fn remaining(&self) -> Seq<(Option<AnsiTag>, Seq<char>)> {
        (match self.tag {
            Some(t) => seq![tag_item(t)],
            None => Seq::empty(),
        }) + events_from(self.chars@, self.start as int, self.pos as int)
    }

    pub fn new(input: &'a str) -> (p: Self)
        ensures
            p.wf(),
            p.text() == input@,
            p.remaining() == ansi_events(input@),
    {
        let p = AnsiParser { input, chars: chars_of(input), pos: 0, start: 0, tag: None };
        assert(p.remaining() =~= ansi_events(input@));
        p
    }

    /// Looks for the `m` that ends a code, at most 17 chars on.
    fn find_ansi_end(&mut self) -> (r: Option<usize>)
        requires
            old(self).wf(),
        ensures
            final(self).wf(),
            final(self).input == old(self).input,
            final(self).chars == old(self).chars,
            final(self).start == old(self).start,
            final(self).tag == old(self).tag,
            match find_end(
                old(self).chars@,
                old(self).pos as int,
                code_limit(old(self).chars@, old(self).pos as int),
            ) {
                Some(e) => r == Some(e as usize) && final(self).pos == e + 1,
                None => r is None && final(self).pos == code_limit(
                    old(self).chars@,
                    old(self).pos as int,
                ),
            },
    {
        let ghost s = self.chars@;
        let ghost from = self.pos as int;
        let ghost limit = code_limit(s, from);
        let max_code_len: usize = 17;
        let mut k: usize = 0;
        while k < max_code_len
            invariant
                self.wf(),
                self.input == old(self).input,
                self.chars == old(self).chars,
                self.start == old(self).start,
                self.tag == old(self).tag,
                s == self.chars@,
                limit == code_limit(s, from),
                from == old(self).pos,
                s == old(self).chars@,
                0 <= from <= self.pos <= limit,
                k <= 17,
                max_code_len == 17,
                self.pos == (if from + k <= s.len() {
                    from + k
                } else {
                    s.len() as int
                }),
                find_end(s, from, limit) == find_end(s, self.pos as int, limit),
            decreases 17 - k,
        {
            if self.pos < self.chars.len() {
                let i = self.pos;
                let c = self.chars[i];
                self.pos = i + 1;
                if c == ANSI_END {
                    assert(find_end(s, i as int, limit) == Some(i as int));
                    return Some(i);
                }
            }
            k = k + 1;
        }
        None
    }

    /// Reads the code after an escape char, which the parser has just passed.
    fn parse_ansi_code(&mut self) -> (r: Option<(usize, AnsiTag)>)
        requires
            old(self).wf(),
            old(self).pos >= 1,
            old(self).chars@[old(self).pos - 1] == ANSI_START,
        ensures
            final(self).wf(),
            final(self).input == old(self).input,
            final(self).chars == old(self).chars,
            final(self).start == old(self).start,
            final(self).tag == old(self).tag,
            match try_code(old(self).chars@, old(self).pos - 1) {
                Ok((e, t)) => r == Some((e as usize, t)) && final(self).pos == e,
                Err(q) => r is None && final(self).pos == q,
            },
    {
        if self.pos >= self.chars.len() {
            return None;
        }
        let c = self.chars[self.pos];
        self.pos = self.pos + 1;
        if c != ANSI_START2 {
            return None;
        }
        let code_start = self.pos;
        let code_end = match self.find_ansi_end() {
            Some(e) => e,
            None => {
                return None;
            },
        };
        proof {
            lemma_find_end(self.chars@, code_start as int, code_limit(self.chars@, code_start as int));
        }
        match code_to_tag(&self.chars, code_start, code_end) {
            Some(tag) => Some((code_end + 1, tag)),
            None => None,
        }
    }

    /// The next piece of text or tag, or `None` once the text is read.
    pub fn next(&mut self) -> (r: Option<AnsiEvent<'a>>)
        requires
            old(self).wf(),
        ensures
            final(self).wf(),
            final(self).text() == old(self).text(),
            match r {
                Some(e) => old(self).remaining() == seq![e@] + final(self).remaining(),
                None => old(self).remaining() == Seq::<(Option<AnsiTag>, Seq<char>)>::empty()
                    && final(self).remaining() == Seq::<(Option<AnsiTag>, Seq<char>)>::empty(),
            },
    {
        if let Some(tag) = self.tag {
            self.tag = None;
            assert(old(self).remaining() =~= seq![tag_item(tag)] + self.remaining());
            return Some(AnsiEvent::Tag(tag));
        }
        let ghost s = self.chars@;
        assert(old(self).remaining() =~= events_from(s, self.start as int, self.pos as int));
        let n = self.chars.len();
        while self.pos < n
            invariant
                self.wf(),
                self.input == old(self).input,
                s == self.chars@,
                n == s.len(),
                self.tag is None,
                old(self).remaining() == events_from(s, self.start as int, self.pos as int),
            decreases n - self.pos,
        {
            let i = self.pos;
            let c = self.chars[i];
            self.pos = i + 1;
            if c == ANSI_START {
                proof {
                    lemma_try_code(s, i as int);
                }
                match self.parse_ansi_code() {
                    Some((end, tag)) => {
                        proof {
                            lemma_try_code(s, i as int);
                            assert(scan(s, i as int) == Some((i as int, end as int, tag)));
                        }
                        let event = if self.start < i {
                            self.tag = Some(tag);
                            AnsiEvent::Text(self.input.substring_char(self.start, i))
                        } else {
                            AnsiEvent::Tag(tag)
                        };
                        let ghost old_start = self.start;
                        self.start = end;
                        proof {
                            lemma_scan(s, i as int);
                            assert(old(self).remaining() =~= seq![event@] + self.remaining());
                        }
                        return Some(event);
                    },
                    None => {},
                }
            }
        }
        let start = self.start;
        self.start = n;
        if start == n {
            assert(self.remaining() =~= Seq::<(Option<AnsiTag>, Seq<char>)>::empty());
            None
        } else {
            let remaining = self.input.substring_char(start, n);
            assert(self.remaining() =~= Seq::<(Option<AnsiTag>, Seq<char>)>::empty());
            assert(old(self).remaining() =~= seq![text_item(remaining@)]);
            Some(AnsiEvent::Text(remaining))
        }
    }

    /// Reads every piece still to come, in order: from a new parser, what
    /// [`ansi_events`] says the text reads as.
    pub fn collect(&mut self) -> (v: Vec<AnsiEvent<'a>>)
        requires
            old(self).wf(),
        ensures
            final(self).wf(),
            final(self).text() == old(self).text(),
            v@.map_values(|e: AnsiEvent<'a>| e@) == old(self).remaining(),
    {
        let mut v: Vec<AnsiEvent<'a>> = Vec::new();
        loop
            invariant
                self.wf(),
                self.text() == old(self).text(),
                v@.map_values(|e: AnsiEvent<'a>| e@) + self.remaining() == old(self).remaining(),
            decreases self.remaining().len(),
        {
            let ghost before = v@.map_values(|e: AnsiEvent<'a>| e@);
            match self.next() {
                Some(e) => {
                    v.push(e);
                    assert(v@.map_values(|e: AnsiEvent<'a>| e@) =~= before.push(e@));
                    assert(before.push(e@) + self.remaining() =~= before + (seq![e@] + self.remaining()));
                },
                None => {
                    assert(before + self.remaining() =~= before);
                    return v;
                },
            }
        }
    }
}

} // verus!

verus! {

/// The style after reading `tag` in text whose style so far is `style`: a
/// reset clears all, a modifier tag switches its modifier on or off, a color
/// tag sets the foreground or background color.
pub open spec fn tag_style(style: Style, tag: AnsiTag) -> Style {
    match tag {
        AnsiTag::Reset => Style::spec_new(),
        AnsiTag::Bold => Style { add_modifier: Modifier { bold: true, ..style.add_modifier }, ..style },
        AnsiTag::Faint => Style { add_modifier: Modifier { dim: true, ..style.add_modifier }, ..style },
        AnsiTag::Italic => Style { add_modifier: Modifier { italic: true, ..style.add_modifier }, ..style },
        AnsiTag::Underline => Style { add_modifier: Modifier { underlined: true, ..style.add_modifier }, ..style },
        AnsiTag::SlowBlink => Style { add_modifier: Modifier { slow_blink: true, ..style.add_modifier }, ..style },
        AnsiTag::RapidBlink => Style { add_modifier: Modifier { rapid_blink: true, ..style.add_modifier }, ..style },
        AnsiTag::Reverse => Style { add_modifier: Modifier { reversed: true, ..style.add_modifier }, ..style },
        AnsiTag::Conceal => Style { add_modifier: Modifier { hidden: true, ..style.add_modifier }, ..style },
        AnsiTag::CrossedOut => Style { add_modifier: Modifier { crossed_out: true, ..style.add_modifier }, ..style },
        AnsiTag::NotBold => Style { add_modifier: Modifier { bold: false, ..style.add_modifier }, ..style },
        AnsiTag::NotItalic => Style { add_modifier: Modifier { italic: false, ..style.add_modifier }, ..style },
        AnsiTag::NotUnderline => Style { add_modifier: Modifier { underlined: false, ..style.add_modifier }, ..style },
        AnsiTag::NotReverse => Style { add_modifier: Modifier { reversed: false, ..style.add_modifier }, ..style },
        AnsiTag::Reveal => Style { add_modifier: Modifier { hidden: false, ..style.add_modifier }, ..style },
        AnsiTag::NotCrossedOut => Style { add_modifier: Modifier { crossed_out: false, ..style.add_modifier }, ..style },
        AnsiTag::NotBlink => Style { add_modifier: Modifier { slow_blink: false, rapid_blink: false, ..style.add_modifier }, ..style },
        AnsiTag::FgBlack => Style { fg: Some(Color::Black), ..style },
        AnsiTag::BgBlack => Style { bg: Some(Color::Black), ..style },
        AnsiTag::FgRed => Style { fg: Some(Color::Red), ..style },
        AnsiTag::BgRed => Style { bg: Some(Color::Red), ..style },
        AnsiTag::FgGreen => Style { fg: Some(Color::Green), ..style },
        AnsiTag::BgGreen => Style { bg: Some(Color::Green), ..style },
        AnsiTag::FgYellow => Style { fg: Some(Color::Yellow), ..style },
        AnsiTag::BgYellow => Style { bg: Some(Color::Yellow), ..style },
        AnsiTag::FgBlue => Style { fg: Some(Color::Blue), ..style },
        AnsiTag::BgBlue => Style { bg: Some(Color::Blue), ..style },
        AnsiTag::FgMagenta => Style { fg: Some(Color::Magenta), ..style },
        AnsiTag::BgMagenta => Style { bg: Some(Color::Magenta), ..style },
        AnsiTag::FgCyan => Style { fg: Some(Color::Cyan), ..style },
        AnsiTag::BgCyan => Style { bg: Some(Color::Cyan), ..style },
        AnsiTag::FgWhite => Style { fg: Some(Color::Gray), ..style },
        AnsiTag::BgWhite => Style { bg: Some(Color::Gray), ..style },
        AnsiTag::FgBrightBlack => Style { fg: Some(Color::DarkGray), ..style },
        AnsiTag::BgBrightBlack => Style { bg: Some(Color::DarkGray), ..style },
        AnsiTag::FgBrightRed => Style { fg: Some(Color::LightRed), ..style },
        AnsiTag::BgBrightRed => Style { bg: Some(Color::LightRed), ..style },
        AnsiTag::FgBrightGreen => Style { fg: Some(Color::LightGreen), ..style },
        AnsiTag::BgBrightGreen => Style { bg: Some(Color::LightGreen), ..style },
        AnsiTag::FgBrightYellow => Style { fg: Some(Color::LightYellow), ..style },
        AnsiTag::BgBrightYellow => Style { bg: Some(Color::LightYellow), ..style },
        AnsiTag::FgBrightBlue => Style { fg: Some(Color::LightBlue), ..style },
        AnsiTag::BgBrightBlue => Style { bg: Some(Color::LightBlue), ..style },
        AnsiTag::FgBrightMagenta => Style { fg: Some(Color::LightMagenta), ..style },
        AnsiTag::BgBrightMagenta => Style { bg: Some(Color::LightMagenta), ..style },
        AnsiTag::FgBrightCyan => Style { fg: Some(Color::LightCyan), ..style },
        AnsiTag::BgBrightCyan => Style { bg: Some(Color::LightCyan), ..style },
        AnsiTag::FgBrightWhite => Style { fg: Some(Color::White), ..style },
        AnsiTag::BgBrightWhite => Style { bg: Some(Color::White), ..style },
        AnsiTag::FgDefault => Style { fg: Some(Color::Reset), ..style },
        AnsiTag::BgDefault => Style { bg: Some(Color::Reset), ..style },
        AnsiTag::Fg256(i) => Style { fg: Some(Color::Indexed(i)), ..style },
        AnsiTag::Bg256(i) => Style { bg: Some(Color::Indexed(i)), ..style },
        AnsiTag::FgTrueColor(r, g, b) => Style { fg: Some(Color::Rgb(r, g, b)), ..style },
        AnsiTag::BgTrueColor(r, g, b) => Style { bg: Some(Color::Rgb(r, g, b)), ..style },
    }
}

/// The style after reading `tag`.
pub fn apply_tag(style: Style, tag: AnsiTag) -> (s: Style)
    ensures
        s == tag_style(style, tag),
{
    match tag {
        AnsiTag::Reset => Style::new(),
        AnsiTag::Bold => Style { add_modifier: Modifier { bold: true, ..style.add_modifier }, ..style },
        AnsiTag::Faint => Style { add_modifier: Modifier { dim: true, ..style.add_modifier }, ..style },
        AnsiTag::Italic => Style { add_modifier: Modifier { italic: true, ..style.add_modifier }, ..style },
        AnsiTag::Underline => Style { add_modifier: Modifier { underlined: true, ..style.add_modifier }, ..style },
        AnsiTag::SlowBlink => Style { add_modifier: Modifier { slow_blink: true, ..style.add_modifier }, ..style },
        AnsiTag::RapidBlink => Style { add_modifier: Modifier { rapid_blink: true, ..style.add_modifier }, ..style },
        AnsiTag::Reverse => Style { add_modifier: Modifier { reversed: true, ..style.add_modifier }, ..style },
        AnsiTag::Conceal => Style { add_modifier: Modifier { hidden: true, ..style.add_modifier }, ..style },
        AnsiTag::CrossedOut => Style { add_modifier: Modifier { crossed_out: true, ..style.add_modifier }, ..style },
        AnsiTag::NotBold => Style { add_modifier: Modifier { bold: false, ..style.add_modifier }, ..style },
        AnsiTag::NotItalic => Style { add_modifier: Modifier { italic: false, ..style.add_modifier }, ..style },
        AnsiTag::NotUnderline => Style { add_modifier: Modifier { underlined: false, ..style.add_modifier }, ..style },
        AnsiTag::NotReverse => Style { add_modifier: Modifier { reversed: false, ..style.add_modifier }, ..style },
        AnsiTag::Reveal => Style { add_modifier: Modifier { hidden: false, ..style.add_modifier }, ..style },
        AnsiTag::NotCrossedOut => Style { add_modifier: Modifier { crossed_out: false, ..style.add_modifier }, ..style },
        AnsiTag::NotBlink => Style { add_modifier: Modifier { slow_blink: false, rapid_blink: false, ..style.add_modifier }, ..style },
        AnsiTag::FgBlack => Style { fg: Some(Color::Black), ..style },
        AnsiTag::BgBlack => Style { bg: Some(Color::Black), ..style },
        AnsiTag::FgRed => Style { fg: Some(Color::Red), ..style },
        AnsiTag::BgRed => Style { bg: Some(Color::Red), ..style },
        AnsiTag::FgGreen => Style { fg: Some(Color::Green), ..style },
        AnsiTag::BgGreen => Style { bg: Some(Color::Green), ..style },
        AnsiTag::FgYellow => Style { fg: Some(Color::Yellow), ..style },
        AnsiTag::BgYellow => Style { bg: Some(Color::Yellow), ..style },
        AnsiTag::FgBlue => Style { fg: Some(Color::Blue), ..style },
        AnsiTag::BgBlue => Style { bg: Some(Color::Blue), ..style },
        AnsiTag::FgMagenta => Style { fg: Some(Color::Magenta), ..style },
        AnsiTag::BgMagenta => Style { bg: Some(Color::Magenta), ..style },
        AnsiTag::FgCyan => Style { fg: Some(Color::Cyan), ..style },
        AnsiTag::BgCyan => Style { bg: Some(Color::Cyan), ..style },
        AnsiTag::FgWhite => Style { fg: Some(Color::Gray), ..style },
        AnsiTag::BgWhite => Style { bg: Some(Color::Gray), ..style },
        AnsiTag::FgBrightBlack => Style { fg: Some(Color::DarkGray), ..style },
        AnsiTag::BgBrightBlack => Style { bg: Some(Color::DarkGray), ..style },
        AnsiTag::FgBrightRed => Style { fg: Some(Color::LightRed), ..style },
        AnsiTag::BgBrightRed => Style { bg: Some(Color::LightRed), ..style },
        AnsiTag::FgBrightGreen => Style { fg: Some(Color::LightGreen), ..style },
        AnsiTag::BgBrightGreen => Style { bg: Some(Color::LightGreen), ..style },
        AnsiTag::FgBrightYellow => Style { fg: Some(Color::LightYellow), ..style },
        AnsiTag::BgBrightYellow => Style { bg: Some(Color::LightYellow), ..style },
        AnsiTag::FgBrightBlue => Style { fg: Some(Color::LightBlue), ..style },
        AnsiTag::BgBrightBlue => Style { bg: Some(Color::LightBlue), ..style },
        AnsiTag::FgBrightMagenta => Style { fg: Some(Color::LightMagenta), ..style },
        AnsiTag::BgBrightMagenta => Style { bg: Some(Color::LightMagenta), ..style },
        AnsiTag::FgBrightCyan => Style { fg: Some(Color::LightCyan), ..style },
        AnsiTag::BgBrightCyan => Style { bg: Some(Color::LightCyan), ..style },
        AnsiTag::FgBrightWhite => Style { fg: Some(Color::White), ..style },
        AnsiTag::BgBrightWhite => Style { bg: Some(Color::White), ..style },
        AnsiTag::FgDefault => Style { fg: Some(Color::Reset), ..style },
        AnsiTag::BgDefault => Style { bg: Some(Color::Reset), ..style },
        AnsiTag::Fg256(i) => Style { fg: Some(Color::Indexed(i)), ..style },
        AnsiTag::Bg256(i) => Style { bg: Some(Color::Indexed(i)), ..style },
        AnsiTag::FgTrueColor(r, g, b) => Style { fg: Some(Color::Rgb(r, g, b)), ..style },
        AnsiTag::BgTrueColor(r, g, b) => Style { bg: Some(Color::Rgb(r, g, b)), ..style },
    }
}

} // verus!

verus! {

/// The pieces of text of `events`, each with the style that the tags before it
/// set, starting from `style`.
pub open spec fn styled(events: Seq<(Option<AnsiTag>, Seq<char>)>, style: Style) -> Seq<
    (Seq<char>, Style),
>
    decreases events.len(),
{
    if events.len() == 0 {
        Seq::empty()
    } else {
        match events[0].0 {
            None => seq![(events[0].1, style)] + styled(events.drop_first(), style),
            Some(t) => styled(events.drop_first(), tag_style(style, t)),
        }
    }
}

/// The style after all tags of `events`, starting from `style`.
pub open spec fn final_style(events: Seq<(Option<AnsiTag>, Seq<char>)>, style: Style) -> Style
    decreases events.len(),
{
    if events.len() == 0 {
        style
    } else {
        match events[0].0 {
            None => final_style(events.drop_first(), style),
            Some(t) => final_style(events.drop_first(), tag_style(style, t)),
        }
    }
}

/// Reads text with ANSI escape sequences as pieces of text, each with the style
/// that the sequences before it select.
pub struct AnsiParserWithStyle<'a> {
    parser: AnsiParser<'a>,
    style: Style,
}

impl<'a> AnsiParserWithStyle<'a> {
    pub closed spec fn wf(&self) -> bool {
        self.parser.wf()
    }

    /// The style that the tags read so far select.
    pub closed spec fn current_style(&self) -> Style {
        self.style
    }

    /// The pieces of text still to come, with their styles.
    pub closed spec fn remaining(&self) -> Seq<(Seq<char>, Style)> {
        styled(self.parser.remaining(), self.style)
    }

    /// The style once everything is read.
    pub closed spec fn end_style(&self) -> Style {
        final_style(self.parser.remaining(), self.style)
    }

    pub fn new(input: &'a str) -> (p: Self)
        ensures
            p.wf(),
            p.current_style() == Style::spec_new(),
            p.remaining() == styled(ansi_events(input@), Style::spec_new()),
            p.end_style() == final_style(ansi_events(input@), Style::spec_new()),
    {
        AnsiParserWithStyle { parser: AnsiParser::new(input), style: Style::new() }
    }

    pub fn from_parser(parser: AnsiParser<'a>) -> (p: Self)
        requires
            parser.wf(),
        ensures
            p.wf(),
            p.remaining() == styled(parser.remaining(), Style::spec_new()),
            p.end_style() == final_style(parser.remaining(), Style::spec_new()),
    {
        AnsiParserWithStyle { parser, style: Style::new() }
    }

    /// Goes on reading `input`, keeping the style that the text before selected.
    pub fn continue_with(&mut self, input: &'a str) -> (r: &mut Self)
        ensures
            r.wf(),
            r.current_style() == old(self).current_style(),
            r.remaining() == styled(ansi_events(input@), old(self).current_style()),
            r.end_style() == final_style(ansi_events(input@), old(self).current_style()),
            *final(self) == *final(r),
    {
        self.parser = AnsiParser::new(input);
        self
    }

    /// The next piece of text with its style, or `None` once the text is read.
    pub fn next(&mut self) -> (r: Option<(&'a str, Style)>)
        requires
            old(self).wf(),
        ensures
            final(self).wf(),
            match r {
                Some((s, st)) => old(self).remaining() == seq![(s@, st)] + final(self).remaining()
                    && final(self).end_style() == old(self).end_style(),
                None => old(self).remaining() == Seq::<(Seq<char>, Style)>::empty()
                    && final(self).current_style() == old(self).end_style()
                    && final(self).remaining() == Seq::<(Seq<char>, Style)>::empty(),
            },
    {
        loop
            invariant
                self.wf(),
                old(self).remaining() == self.remaining(),
                old(self).end_style() == self.end_style(),
            decreases self.parser.remaining().len(),
        {
            let ghost before = self.parser.remaining();
            match self.parser.next() {
                Some(event) => {
                    let ghost after = self.parser.remaining();
                    assert(after =~= before.drop_first());
                    match event {
                        AnsiEvent::Text(s) => {
                            return Some((s, self.style));
                        },
                        AnsiEvent::Tag(tag) => {
                            self.style = apply_tag(self.style, tag);
                        },
                    }
                },
                None => {
                    return None;
                },
            }
        }
    }
}

} // verus!
