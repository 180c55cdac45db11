//! Chars of strings: reading them out, building strings from them, and
//! classifying them.
use vstd::prelude::*;
use vstd::std_specs::iter::IteratorSpec;
use vstd::string::StrSliceExecFns;

verus! {

broadcast use vstd::string::group_string_axioms;

/// std's `String::push`: appends one char at the end.
#[verifier::external_body]
pub fn string_push(s: &mut String, c: char)
    ensures
        final(s)@ == old(s)@.push(c),
{
    s.push(c);
}

/// The chars of `s`, in order.
pub fn chars_of(s: &str) -> (v: Vec<char>)
    ensures
        v@ == s@,
{
    let mut it = s.chars();
    let mut v: Vec<char> = Vec::new();
    loop
        invariant
            it.obeys_prophetic_iter_laws(),
            it.remaining() == s@.skip(v@.len() as int),
            v@ == s@.take(v@.len() as int),
            v@.len() <= s@.len(),
        ensures
            v@ == s@,
        decreases s@.len() - v@.len(),
    {
        let ghost before = it.remaining();
        match it.next() {
            Some(c) => {
                proof {
                    assert(before.len() > 0);
                    assert(s@.skip(v@.len() as int)[0] == s@[v@.len() as int]);
                }
                v.push(c);
                proof {
                    assert(v@ =~= s@.take(v@.len() as int));
                    assert(s@.skip(v@.len() - 1).drop_first() =~= s@.skip(v@.len() as int));
                }
            },
            None => {
                proof {
                    assert(before.len() == 0);
                    assert(s@.take(v@.len() as int) =~= s@);
                }
                return v;
            },
        }
    }
}

/// A new string holding `chars[lo..hi]`.
pub fn string_of_range(chars: &Vec<char>, lo: usize, hi: usize) -> (s: String)
    requires
        lo <= hi <= chars@.len(),
    ensures
        s@ == chars@.subrange(lo as int, hi as int),
{
    let mut s = String::new();
    let mut i = lo;
    while i < hi
        invariant
            lo <= i <= hi <= chars@.len(),
            s@ == chars@.subrange(lo as int, i as int),
        decreases hi - i,
    {
        string_push(&mut s, chars[i]);
        i = i + 1;
        assert(s@ =~= chars@.subrange(lo as int, i as int));
    }
    s
}

/// Appends all chars of `chars` to `s`.
pub fn push_chars(s: &mut String, chars: &Vec<char>)
    ensures
        final(s)@ == old(s)@ + chars@,
{
    let mut i: usize = 0;
    while i < chars.len()
        invariant
            i <= chars@.len(),
            s@ == old(s)@ + chars@.subrange(0, i as int),
        decreases chars.len() - i,
    {
        string_push(s, chars[i]);
        i = i + 1;
        assert(s@ =~= old(s)@ + chars@.subrange(0, i as int));
    }
    assert(chars@.subrange(0, i as int) =~= chars@);
}

/// Appends `chars[lo..hi]` to `s`.
pub fn push_range(s: &mut String, chars: &Vec<char>, lo: usize, hi: usize)
    requires
        lo <= hi <= chars@.len(),
    ensures
        final(s)@ == old(s)@ + chars@.subrange(lo as int, hi as int),
{
    let mut i = lo;
    while i < hi
        invariant
            lo <= i <= hi <= chars@.len(),
            s@ == old(s)@ + chars@.subrange(lo as int, i as int),
        decreases hi - i,
    {
        string_push(s, chars[i]);
        i = i + 1;
        assert(s@ =~= old(s)@ + chars@.subrange(lo as int, i as int));
    }
}

/// `s` with its chars `lo..hi` replaced by `t`.
pub fn splice(s: &str, lo: usize, hi: usize, t: &str) -> (r: String)
    requires
        lo <= hi <= s@.len(),
    ensures
        r@ == s@.subrange(0, lo as int) + t@ + s@.subrange(hi as int, s@.len() as int),
{
    let chars = chars_of(s);
    let mut r = String::new();
    push_range(&mut r, &chars, 0, lo);
    push_str(&mut r, t);
    let n = chars.len();
    push_range(&mut r, &chars, hi, n);
    r
}

/// Appends all chars of `t` to `s`.
pub fn push_str(s: &mut String, t: &str)
    ensures
        final(s)@ == old(s)@ + t@,
{
    let v = chars_of(t);
    push_chars(s, &v);
}

/// The chars that Unicode gives the `White_Space` property, which is what
/// std's `char::is_whitespace` tests.
pub open spec fn is_white_space(c: char) -> bool {
    ||| ('\u{9}' <= c && c <= '\u{d}')
    ||| c == ' '
    ||| c == '\u{85}'
    ||| c == '\u{a0}'
    ||| c == '\u{1680}'
    ||| ('\u{2000}' <= c && c <= '\u{200a}')
    ||| c == '\u{2028}'
    ||| c == '\u{2029}'
    ||| c == '\u{202f}'
    ||| c == '\u{205f}'
    ||| c == '\u{3000}'
}

/// Whether `c` has the Unicode `White_Space` property.
pub fn is_whitespace(c: char) -> (b: bool)
    ensures
        b == is_white_space(c),
{
    ('\u{9}' <= c && c <= '\u{d}') || c == ' ' || c == '\u{85}' || c == '\u{a0}' || c
        == '\u{1680}' || ('\u{2000}' <= c && c <= '\u{200a}') || c == '\u{2028}' || c
        == '\u{2029}' || c == '\u{202f}' || c == '\u{205f}' || c == '\u{3000}'
}

/// Whether every char of `s` is white space.
pub open spec fn all_white_space(s: Seq<char>) -> bool {
    forall|i: int| 0 <= i < s.len() ==> #[trigger] is_white_space(s[i])
}

/// Whether some char of `s` is white space.
pub open spec fn any_white_space(s: Seq<char>) -> bool {
    exists|i: int| 0 <= i < s.len() && #[trigger] is_white_space(s[i])
}

/// The first position at or after `lo` in `s[..hi]` that is not white space, or `hi`.
pub open spec fn skip_ws_forward(s: Seq<char>, lo: int, hi: int) -> int
    decreases hi - lo,
{
    if lo >= hi {
        hi
    } else if is_white_space(s[lo]) {
        skip_ws_forward(s, lo + 1, hi)
    } else {
        lo
    }
}

/// The end of `s[lo..hi]` once the white space at its end is dropped.
pub open spec fn skip_ws_backward(s: Seq<char>, lo: int, hi: int) -> int
    decreases hi - lo,
{
    if lo >= hi {
        lo
    } else if is_white_space(s[hi - 1]) {
        skip_ws_backward(s, lo, hi - 1)
    } else {
        hi
    }
}

/// The bounds of `s[lo..hi]` without the white space at both ends, as std's
/// `str::trim` cuts it.
pub open spec fn trim_bounds(s: Seq<char>, lo: int, hi: int) -> (int, int) {
    let a = skip_ws_forward(s, lo, hi);
    (a, skip_ws_backward(s, a, hi))
}

/// `s[lo..hi]` without the white space at both ends.
pub open spec fn trimmed(s: Seq<char>, lo: int, hi: int) -> Seq<char> {
    s.subrange(trim_bounds(s, lo, hi).0, trim_bounds(s, lo, hi).1)
}

pub proof fn lemma_skip_ws_bounds(s: Seq<char>, lo: int, hi: int)
    requires
        lo <= hi,
    ensures
        lo <= skip_ws_forward(s, lo, hi) <= hi,
        lo <= skip_ws_backward(s, lo, hi) <= hi,
    decreases hi - lo,
{
    if lo < hi {
        lemma_skip_ws_bounds(s, lo + 1, hi);
        lemma_skip_ws_bounds(s, lo, hi - 1);
    }
}

/// The bounds of `chars[lo..hi]` without the white space at both ends.
pub fn trim_range(chars: &Vec<char>, lo: usize, hi: usize) -> (r: (usize, usize))
    requires
        lo <= hi <= chars@.len(),
    ensures
        r.0 == trim_bounds(chars@, lo as int, hi as int).0,
        r.1 == trim_bounds(chars@, lo as int, hi as int).1,
        lo <= r.0 <= r.1 <= hi,
{
    let mut a = lo;
    while a < hi && is_whitespace(chars[a])
        invariant
            lo <= a <= hi <= chars@.len(),
            skip_ws_forward(chars@, lo as int, hi as int) == skip_ws_forward(
                chars@,
                a as int,
                hi as int,
            ),
        decreases hi - a,
    {
        a = a + 1;
    }
    let mut b = hi;
    while b > a && is_whitespace(chars[b - 1])
        invariant
            lo <= a <= b <= hi <= chars@.len(),
            skip_ws_forward(chars@, lo as int, hi as int) == a,
            skip_ws_backward(chars@, a as int, hi as int) == skip_ws_backward(
                chars@,
                a as int,
                b as int,
            ),
        decreases b - a,
    {
        b = b - 1;
    }
    (a, b)
}

/// `input[lo..hi]` without the white space at both ends, where `chars` are
/// the chars of `input`.
pub fn trim_slice<'a>(input: &'a str, chars: &Vec<char>, lo: usize, hi: usize) -> (r: &'a str)
    requires
        chars@ == input@,
        lo <= hi <= chars@.len(),
    ensures
        r@ == trimmed(input@, lo as int, hi as int),
{
    let (a, b) = trim_range(chars, lo, hi);
    input.substring_char(a, b)
}

/// Whether `s` holds `c`.
pub fn contains_char(s: &Vec<char>, c: char) -> (b: bool)
    ensures
        b == s@.contains(c),
{
    let mut i: usize = 0;
    while i < s.len()
        invariant
            i <= s@.len(),
            forall|j: int| 0 <= j < i ==> s@[j] != c,
        decreases s.len() - i,
    {
        if s[i] == c {
            assert(s@[i as int] == c);
            return true;
        }
        i = i + 1;
    }
    false
}

} // verus!

verus! {

/// Whether `a` and `b` hold the same chars.
pub fn str_eq(a: &str, b: &str) -> (r: bool)
    ensures
        r == (a@ == b@),
{
    let x = chars_of(a);
    let y = chars_of(b);
    if x.len() != y.len() {
        return false;
    }
    let mut i: usize = 0;
    while i < x.len()
        invariant
            i <= x@.len(),
            x@.len() == y@.len(),
            x@ == a@,
            y@ == b@,
            forall|j: int| 0 <= j < i ==> x@[j] == y@[j],
        decreases x.len() - i,
    {
        if x[i] != y[i] {
            assert(x@[i as int] != y@[i as int]);
            return false;
        }
        i = i + 1;
    }
    assert(x@ =~= y@);
    true
}

/// Whether `s` holds the char `c`.
pub fn str_contains(s: &str, c: char) -> (r: bool)
    ensures
        r == s@.contains(c),
{
    let v = chars_of(s);
    contains_char(&v, c)
}

/// Whether `s` holds a white space char.
pub fn str_any_whitespace(s: &str) -> (r: bool)
    ensures
        r == any_white_space(s@),
{
    let v = chars_of(s);
    let mut i: usize = 0;
    while i < v.len()
        invariant
            i <= v@.len(),
            v@ == s@,
            forall|j: int| 0 <= j < i ==> !is_white_space(#[trigger] v@[j]),
        decreases v.len() - i,
    {
        if is_whitespace(v[i]) {
            return true;
        }
        i = i + 1;
    }
    false
}

/// Whether every char of `s` is white space.
pub fn str_all_whitespace(s: &str) -> (r: bool)
    ensures
        r == all_white_space(s@),
{
    let v = chars_of(s);
    let mut i: usize = 0;
    while i < v.len()
        invariant
            i <= v@.len(),
            v@ == s@,
            forall|j: int| 0 <= j < i ==> is_white_space(#[trigger] v@[j]),
        decreases v.len() - i,
    {
        if !is_whitespace(v[i]) {
            return false;
        }
        i = i + 1;
    }
    true
}

/// The number of terminal columns that unicode-width gives `s`.
pub uninterp spec fn display_width(s: Seq<char>) -> nat;

/// unicode-width's `UnicodeWidthStr::width`: the columns that `s` takes in
/// a terminal. Its source adds up widths from the Unicode tables, which are
/// not stated here: the result is named `display_width`, of the text alone.
#[verifier::external_body]
pub fn str_width(s: &str) -> (w: usize)
    ensures
        w == display_width(s@),
{
    unicode_width::UnicodeWidthStr::width(s)
}

/// The chars of each of `v`.
pub open spec fn strs_view(v: Seq<&str>) -> Seq<Seq<char>> {
    v.map_values(|g: &str| g@)
}

/// The grapheme clusters of `text`, as unicode-segmentation's extended
/// grapheme segmentation cuts it.
pub uninterp spec fn grapheme_clusters(text: Seq<char>) -> Seq<Seq<char>>;

/// unicode-segmentation's `graphemes(true)`, collected. Its source hands out,
/// from the start of the text on, each slice up to the next grapheme boundary,
/// which lies after it, until the text ends: so the clusters are not empty and
/// make up the text. Where the boundaries lie (the Unicode segmentation rules)
/// is named `grapheme_clusters`, of the text alone.
#[verifier::external_body]
pub fn graphemes_of<'a>(s: &'a str) -> (r: Vec<&'a str>)
    ensures
        strs_view(r@) == grapheme_clusters(s@),
        strs_view(r@).flatten() == s@,
        forall|i: int| 0 <= i < r@.len() ==> (#[trigger] r@[i])@.len() > 0,
{
    unicode_segmentation::UnicodeSegmentation::graphemes(s, true).collect()
}

} // verus!
