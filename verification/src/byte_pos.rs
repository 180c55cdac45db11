//! Byte offsets into UTF-8 text: where each char of a text starts, counted
//! in bytes of its UTF-8 encoding, as `str` indices count.
use vstd::prelude::*;
use vstd::string::StrSliceExecFns;
use vstd::utf8::{char_is_scalar, encode_scalar, encode_utf8};

use crate::text::chars_of;

verus! {

/// The number of bytes of `c` in UTF-8.
pub open spec fn utf8_width(c: char) -> nat {
    encode_scalar(c as u32).len()
}

/// The number of bytes of `s` in UTF-8.
pub open spec fn byte_len(s: Seq<char>) -> nat {
    encode_utf8(s).len()
}

/// The byte offset at which the char at index `k` of `s` starts (the byte
/// length of `s` for `k` at its end).
pub open spec fn byte_offset(s: Seq<char>, k: int) -> nat {
    encode_utf8(s.take(k)).len()
}

/// `b` is a char boundary of `s`: the start of one of its chars, or its end.
pub open spec fn is_char_start(s: Seq<char>, b: int) -> bool {
    exists|k: int| 0 <= k <= s.len() && byte_offset(s, k) == b
}

/// The index of the char of `s` that starts at byte `b`, for a char
/// boundary `b`.
pub open spec fn char_at(s: Seq<char>, b: int) -> int {
    choose|k: int| 0 <= k <= s.len() && byte_offset(s, k) == b
}

/// The UTF-8 encoding of two texts one after the other is the encoding of
/// the first followed by that of the second.
pub proof fn lemma_encode_concat(a: Seq<char>, b: Seq<char>)
    ensures
        encode_utf8(a + b) == encode_utf8(a) + encode_utf8(b),
    decreases a.len(),
{
    if a.len() == 0 {
        assert(a + b =~= b);
        assert(encode_utf8(a) + encode_utf8(b) =~= encode_utf8(b));
    } else {
        assert((a + b).drop_first() =~= a.drop_first() + b);
        assert((a + b)[0] == a[0]);
        lemma_encode_concat(a.drop_first(), b);
        assert(encode_utf8(a + b) =~= encode_utf8(a) + encode_utf8(b));
    }
}

/// A char takes one byte below 0x80, two below 0x800, three below 0x10000
/// and four above.
pub proof fn lemma_width(c: char)
    ensures
        utf8_width(c) == (if (c as u32) <= 0x7F {
            1nat
        } else if (c as u32) <= 0x7FF {
            2nat
        } else if (c as u32) <= 0xFFFF {
            3nat
        } else {
            4nat
        }),
{
    char_is_scalar(c);
}

/// The next char starts as many bytes later as the char before takes.
pub proof fn lemma_offset_step(s: Seq<char>, k: int)
    requires
        0 <= k < s.len(),
    ensures
        byte_offset(s, k + 1) == byte_offset(s, k) + utf8_width(s[k]),
{
    let one = seq![s[k]];
    assert(s.take(k + 1) =~= s.take(k) + one);
    lemma_encode_concat(s.take(k), one);
    assert(one.drop_first() =~= Seq::<char>::empty());
    assert(encode_utf8(one) =~= encode_scalar(s[k] as u32) + encode_utf8(Seq::<char>::empty()));
}

/// Offsets grow by at least one byte per char.
pub proof fn lemma_offset_grows(s: Seq<char>, i: int, j: int)
    requires
        0 <= i <= j <= s.len(),
    ensures
        byte_offset(s, i) + (j - i) <= byte_offset(s, j),
    decreases j - i,
{
    if i < j {
        lemma_offset_grows(s, i, j - 1);
        lemma_offset_step(s, j - 1);
        lemma_width(s[j - 1]);
    }
}

/// The offset at the end is the byte length, and the offset at the start is
/// zero.
pub proof fn lemma_offset_ends(s: Seq<char>)
    ensures
        byte_offset(s, s.len() as int) == byte_len(s),
        byte_offset(s, 0) == 0,
{
    assert(s.take(s.len() as int) =~= s);
    assert(s.take(0) =~= Seq::<char>::empty());
}

/// Two chars start at the same byte only if they are the same char.
pub proof fn lemma_offset_unique(s: Seq<char>, i: int, j: int)
    requires
        0 <= i <= s.len(),
        0 <= j <= s.len(),
        byte_offset(s, i) == byte_offset(s, j),
    ensures
        i == j,
{
    if i < j {
        lemma_offset_grows(s, i, j);
    } else if j < i {
        lemma_offset_grows(s, j, i);
    }
}

/// The char that starts at the offset of char `k` is char `k`.
pub proof fn lemma_char_at(s: Seq<char>, k: int)
    requires
        0 <= k <= s.len(),
    ensures
        is_char_start(s, byte_offset(s, k) as int),
        char_at(s, byte_offset(s, k) as int) == k,
{
    let b = byte_offset(s, k) as int;
    assert(0 <= k <= s.len() && byte_offset(s, k) == b);
    let k2 = char_at(s, b);
    lemma_offset_unique(s, k, k2);
}

/// A char boundary of a text is one of every text that it begins, at the
/// same char.
pub proof fn lemma_prefix_char_start(before: Seq<char>, after: Seq<char>, b: int)
    requires
        before.is_prefix_of(after),
        is_char_start(before, b),
    ensures
        0 <= char_at(before, b) <= before.len(),
        byte_offset(before, char_at(before, b)) == b,
        is_char_start(after, b),
        char_at(after, b) == char_at(before, b),
{
    let k = char_at(before, b);
    assert(after.take(k) =~= before.take(k));
    lemma_char_at(after, k);
}

/// The encoding of the chars `i..j` is the bytes between their offsets.
pub proof fn lemma_encode_range(s: Seq<char>, i: int, j: int)
    requires
        0 <= i <= j <= s.len(),
    ensures
        byte_offset(s, i) <= byte_offset(s, j) <= byte_len(s),
        encode_utf8(s.subrange(i, j)) == encode_utf8(s).subrange(byte_offset(s, i) as int, byte_offset(s, j) as int),
{
    let a = s.take(i);
    let b = s.subrange(i, j);
    let c = s.subrange(j, s.len() as int);
    assert(s.take(j) =~= a + b);
    assert(s =~= (a + b) + c);
    lemma_encode_concat(a, b);
    lemma_encode_concat(a + b, c);
    assert(encode_utf8(s).subrange(byte_offset(s, i) as int, byte_offset(s, j) as int) =~= encode_utf8(b));
}

/// The number of bytes of `c` in UTF-8.
pub fn char_utf8_len(c: char) -> (n: usize)
    ensures
        n == utf8_width(c),
        1 <= n <= 4,
{
    proof {
        lemma_width(c);
    }
    let u = c as u32;
    if u <= 0x7F {
        1
    } else if u <= 0x7FF {
        2
    } else if u <= 0xFFFF {
        3
    } else {
        4
    }
}

/// The number of bytes of `s`.
pub fn str_byte_len(s: &str) -> (n: usize)
    ensures
        n == byte_len(s@),
{
    s.as_bytes().len()
}

/// The index of the char of `s` that starts at byte `b` (the char count of
/// `s` for its byte length).
pub fn char_index_at(s: &str, b: usize) -> (k: usize)
    requires
        is_char_start(s@, b as int),
    ensures
        k <= s@.len(),
        byte_offset(s@, k as int) == b,
{
    let chars = chars_of(s);
    let ghost kb = choose|k: int| 0 <= k <= s@.len() && byte_offset(s@, k) == b;
    let mut k: usize = 0;
    let mut acc: usize = 0;
    proof {
        lemma_offset_ends(s@);
    }
    while acc < b
        invariant
            chars@ == s@,
            0 <= kb <= s@.len(),
            byte_offset(s@, kb) == b,
            k <= s@.len(),
            acc == byte_offset(s@, k as int),
            acc <= b,
        decreases b - acc,
    {
        proof {
            if kb <= k {
                lemma_offset_grows(s@, kb, k as int);
            }
            lemma_offset_step(s@, k as int);
            assert(k < kb);
            lemma_offset_grows(s@, k + 1, kb);
            assert(chars.len() == chars@.len());
        }
        acc = acc + char_utf8_len(chars[k]);
        k = k + 1;
    }
    k
}

/// The chars of `s` between byte offsets `start` and `end`, both char
/// boundaries: `&s[start..end]`.
pub fn byte_slice(s: &str, start: usize, end: usize) -> (r: &str)
    requires
        start <= end,
        is_char_start(s@, start as int),
        is_char_start(s@, end as int),
    ensures
        forall|i: int, j: int|
            0 <= i <= s@.len() && 0 <= j <= s@.len() && byte_offset(s@, i) == start && byte_offset(s@, j)
                == end ==> r@ == s@.subrange(i, j),
        encode_utf8(r@) == encode_utf8(s@).subrange(start as int, end as int),
{
    let i = char_index_at(s, start);
    let j = char_index_at(s, end);
    proof {
        if j < i {
            lemma_offset_grows(s@, j as int, i as int);
        }
        lemma_encode_range(s@, i as int, j as int);
        assert forall|i2: int, j2: int|
            0 <= i2 <= s@.len() && 0 <= j2 <= s@.len() && byte_offset(s@, i2) == start && byte_offset(s@, j2)
                == end implies s@.subrange(i as int, j as int) == s@.subrange(i2, j2) by {
            lemma_offset_unique(s@, i as int, i2);
            lemma_offset_unique(s@, j as int, j2);
        }
    }
    s.substring_char(i, j)
}

} // verus!
