//! A string that pieces of text are appended to, each piece handed back as the
//! byte range it took.
use vstd::prelude::*;

use vstd::utf8::encode_utf8;

use crate::ansi::write_args;
use crate::byte_pos::{byte_len, byte_offset, byte_slice, is_char_start, lemma_encode_concat, str_byte_len};
use crate::decimal::{decimal, digit_to_char};
use crate::text::{push_str, string_push};

verus! {

/// The decimal text of `i`: its digits, after a minus sign when it is
/// negative.
pub open spec fn signed_decimal(i: int) -> Seq<char> {
    if i < 0 {
        seq!['-'] + decimal((-i) as nat)
    } else {
        decimal(i as nat)
    }
}

/// Appends the decimal digits of `n`.
fn push_decimal_wide(s: &mut String, n: u128)
    ensures
        final(s)@ == old(s)@ + decimal(n as nat),
    decreases n,
{
    if n >= 10 {
        push_decimal_wide(s, n / 10);
    }
    let c = digit_to_char((n % 10) as u64);
    string_push(s, c);
    proof {
        if n < 10 {
            assert(old(s)@ + decimal(n as nat) =~= old(s)@.push(c));
        } else {
            assert(old(s)@ + decimal(n as nat) =~= (old(s)@ + decimal((n / 10) as nat)).push(c));
        }
    }
}

/// The decimal text of `i`, with a minus sign when it is negative.
pub fn format_int(i: i128) -> (s: String)
    ensures
        s@ == signed_decimal(i as int),
{
    let mut s = String::new();
    if i < 0 {
        string_push(&mut s, '-');
        let m: u128 = ((-(i + 1)) as u128) + 1;
        push_decimal_wide(&mut s, m);
    } else {
        push_decimal_wide(&mut s, i as u128);
    }
    assert(s@ =~= signed_decimal(i as int));
    s
}

/// The decimal text of `i1` and of `i2`, each with a minus sign when it is
/// negative.
pub fn format_int2(i1: i128, i2: i128) -> (r: (String, String))
    ensures
        r.0@ == signed_decimal(i1 as int),
        r.1@ == signed_decimal(i2 as int),
{
    (format_int(i1), format_int(i2))
}

pub struct Formatter {
    text: String,
}

impl View for Formatter {
    type V = Seq<char>;

    closed spec fn view(&self) -> Seq<char> {
        self.text@
    }
}

impl Formatter {
    pub fn new() -> (f: Self)
        ensures
            f@ == Seq::<char>::empty(),
    {
        Formatter { text: String::new() }
    }

    /// The number of bytes held.
    pub fn len(&self) -> (n: usize)
        ensures
            n == byte_len(self@),
    {
        str_byte_len(self.text.as_str())
    }

    pub fn as_str(&self) -> (s: &str)
        ensures
            s@ == self@,
    {
        self.text.as_str()
    }

    /// The text between byte offsets `range.start` and `range.end`, both
    /// char boundaries.
    pub fn slice(&self, range: std::ops::Range<usize>) -> (s: &str)
        requires
            range.start <= range.end,
            is_char_start(self@, range.start as int),
            is_char_start(self@, range.end as int),
        ensures
            forall|i: int, j: int|
                0 <= i <= self@.len() && 0 <= j <= self@.len() && byte_offset(self@, i) == range.start
                    && byte_offset(self@, j) == range.end ==> s@ == self@.subrange(i, j),
            encode_utf8(s@) == encode_utf8(self@).subrange(range.start as int, range.end as int),
    {
        byte_slice(self.text.as_str(), range.start, range.end)
    }

    /// Appends `s` and gives the byte range it took.
    pub fn push_str(&mut self, s: &str) -> (r: std::ops::Range<usize>)
        ensures
            final(self)@ == old(self)@ + s@,
            r.start == byte_len(old(self)@),
            r.end == byte_len(final(self)@),
            r.end == r.start + byte_len(s@),
    {
        let start = str_byte_len(self.text.as_str());
        push_str(&mut self.text, s);
        let end = str_byte_len(self.text.as_str());
        proof {
            lemma_encode_concat(old(self)@, s@);
        }
        std::ops::Range { start, end }
    }

    /// Appends each of `items` in turn and gives the byte range they took.
    pub fn extend(&mut self, items: &[&str]) -> (r: std::ops::Range<usize>)
        ensures
            final(self)@ == old(self)@ + items@.map_values(|t: &str| t@).flatten(),
            r.start == byte_len(old(self)@),
            r.end == byte_len(final(self)@),
    {
        let start = str_byte_len(self.text.as_str());
        let mut i: usize = 0;
        while i < items.len()
            invariant
                i <= items@.len(),
                self@ == old(self)@ + items@.subrange(0, i as int).map_values(|t: &str| t@).flatten(),
            decreases items.len() - i,
        {
            let ghost before = items@.subrange(0, i as int).map_values(|t: &str| t@);
            proof {
                let after = items@.subrange(0, i + 1).map_values(|t: &str| t@);
                assert(after =~= before.push(items@[i as int]@));
                before.lemma_flatten_push(items@[i as int]@);
            }
            self.push_str(items[i]);
            i = i + 1;
            proof {
                let after = items@.subrange(0, i as int).map_values(|t: &str| t@);
                assert(self@ =~= old(self)@ + after.flatten());
            }
        }
        assert(items@.subrange(0, i as int) =~= items@);
        let end = str_byte_len(self.text.as_str());
        std::ops::Range { start, end }
    }

    /// Appends formatted text and gives the byte range it took. What the
    /// arguments format to is up to their `Display` impls: only that the
    /// earlier text stays is stated.
    pub fn push_fmt(&mut self, args: std::fmt::Arguments<'_>) -> (r: std::ops::Range<usize>)
        ensures
            old(self)@.is_prefix_of(final(self)@),
            r.start == byte_len(old(self)@),
            r.end == byte_len(final(self)@),
    {
        let start = str_byte_len(self.text.as_str());
        write_args(&mut self.text, args);
        let end = str_byte_len(self.text.as_str());
        std::ops::Range { start, end }
    }

    /// Appends two pieces of formatted text and gives the byte range of each.
    pub fn push_fmt2(
        &mut self,
        args1: std::fmt::Arguments<'_>,
        args2: std::fmt::Arguments<'_>,
    ) -> (r: (std::ops::Range<usize>, std::ops::Range<usize>))
        ensures
            old(self)@.is_prefix_of(final(self)@),
            r.0.start == byte_len(old(self)@),
            r.0.end == r.1.start,
            r.1.end == byte_len(final(self)@),
    {
        let first = self.push_fmt(args1);
        let second = self.push_fmt(args2);
        proof {
            assert(old(self)@.is_prefix_of(final(self)@)) by {
                assert forall|k: int| 0 <= k < old(self)@.len() implies old(self)@[k] == final(self)@[k] by {}
            }
        }
        (first, second)
    }

    pub fn clear(&mut self)
        ensures
            final(self)@ == Seq::<char>::empty(),
    {
        self.text = String::new();
    }
}

/// The byte range that `push_str` hands out is a pair of char boundaries
/// that reads back the pushed text through `slice`, and keeps doing so after
/// more text is pushed.
pub proof fn law_range_reads_back(before: Seq<char>, pushed: Seq<char>, later: Seq<char>)
    ensures
        byte_offset(before + pushed + later, before.len() as int) == byte_len(before),
        byte_offset(before + pushed + later, (before + pushed).len() as int) == byte_len(before + pushed),
        (before + pushed + later).subrange(before.len() as int, (before + pushed).len() as int) == pushed,
{
    let all = before + pushed + later;
    assert(all.take(before.len() as int) =~= before);
    assert(all.take((before + pushed).len() as int) =~= before + pushed);
    assert(all.subrange(before.len() as int, (before + pushed).len() as int) =~= pushed);
}

} // verus!
