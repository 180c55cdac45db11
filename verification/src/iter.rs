//! Char iteration that can peek at the next char and remembers the one
//! before the last. Each char read comes with the byte offset at which it
//! starts, as `str::char_indices` gives it.
use vstd::prelude::*;

use crate::byte_pos::{
    byte_len, byte_offset, char_utf8_len, lemma_offset_ends, lemma_offset_grows, lemma_offset_step, str_byte_len,
};
use crate::text::chars_of;

verus! {

/// `f` answers `true` for `c`.
pub open spec fn holds<F: Fn(char) -> bool>(f: F, c: char) -> bool {
    f.ensures((c,), true)
}

/// `f` answers `false` for `c`.
pub open spec fn fails<F: Fn(char) -> bool>(f: F, c: char) -> bool {
    f.ensures((c,), false)
}

/// `f` can be called on every char and never answers both ways for one char.
pub open spec fn decides<F: Fn(char) -> bool>(f: F) -> bool {
    &&& forall|c: char| #[trigger] f.requires((c,))
    &&& forall|c: char| !(#[trigger] holds(f, c) && fails(f, c))
}

/// Every char of `s[lo..hi]` satisfies `p`.
pub open spec fn all_hold(s: Seq<char>, lo: int, hi: int, p: spec_fn(char) -> bool) -> bool {
    forall|k: int| lo <= k < hi ==> #[trigger] p(s[k])
}

/// The first position at or after `from` where `n` consecutive chars that
/// satisfy `p` end, scanning no further back than `from`.
pub open spec fn run_end(s: Seq<char>, from: int, n: int, p: spec_fn(char) -> bool, e: int) -> bool {
    &&& from + n - 1 <= e < s.len()
    &&& all_hold(s, e - n + 1, e + 1, p)
}

/// Some char of the `n` chars that end at `e` is not `c`.
pub open spec fn window_differs(s: Seq<char>, e: int, n: int, c: char) -> bool {
    exists|k: int| e - n + 1 <= k <= e && s[k] != c
}

/// Some char of the `n` chars that end at `e` is one that `f` rejects.
pub open spec fn window_fails<F: Fn(char) -> bool>(s: Seq<char>, e: int, n: int, f: F) -> bool {
    exists|k: int| e - n + 1 <= k <= e && fails(f, s[k])
}

/// The chars of `s` with the byte offsets at which they start, in order:
/// what `str::char_indices` gives.
pub open spec fn char_indices(s: Seq<char>) -> Seq<(usize, char)> {
    Seq::new(s.len(), |k: int| (byte_offset(s, k) as usize, s[k]))
}

#[derive(Debug)]
pub struct PeekableCharsPrevious<'a> {
    input: &'a str,
    chars: Vec<char>,
    pos: usize,
    byte: usize,
    previous: Option<char>,
}

impl<'a> PeekableCharsPrevious<'a> {
    /// The chars being read.
    pub closed spec fn text(&self) -> Seq<char> {
        self.chars@
    }

    /// How many chars have been read.
    pub closed spec fn position(&self) -> int {
        self.pos as int
    }

    pub closed spec fn wf(&self) -> bool {
        &&& self.chars@ == self.input@
        &&& self.pos <= self.chars@.len()
        &&& byte_len(self.chars@) <= usize::MAX
        &&& self.byte == byte_offset(self.chars@, self.pos as int)
        &&& self.previous == (if self.pos >= 2 {
            Some(self.chars@[self.pos - 2])
        } else {
            None::<char>
        })
    }

    /// The text is no longer than a `usize` can count.
    pub proof fn lemma_len_bound(&self)
        requires
            self.wf(),
        ensures
            self.text().len() <= usize::MAX,
    {
        assert(self.chars.len() == self.chars@.len());
    }

    pub fn new(input: &'a str) -> (it: Self)
        ensures
            it.wf(),
            it.text() == input@,
            it.position() == 0,
    {
        let _total = str_byte_len(input);
        proof {
            lemma_offset_ends(input@);
        }
        PeekableCharsPrevious { input, chars: chars_of(input), pos: 0, byte: 0, previous: None }
    }

    /// Reads every char still to come, each with its byte offset: from a
    /// new iterator, what `str::char_indices` gives.
    pub fn collect(&mut self) -> (v: Vec<(usize, char)>)
        requires
            old(self).wf(),
        ensures
            final(self).wf(),
            final(self).text() == old(self).text(),
            final(self).position() == old(self).text().len(),
            v@ == char_indices(old(self).text()).subrange(old(self).position(), old(self).text().len() as int),
    {
        let ghost s = self.text();
        let ghost p = self.position();
        let mut v: Vec<(usize, char)> = Vec::new();
        loop
            invariant
                self.wf(),
                self.text() == s,
                s == old(self).text(),
                p == old(self).position(),
                p <= self.position() <= s.len(),
                v@ == char_indices(s).subrange(p, self.position()),
            decreases s.len() - self.position(),
        {
            let ghost k = self.position();
            match self.next() {
                Some(x) => {
                    v.push(x);
                    assert(v@ =~= char_indices(s).subrange(p, self.position()));
                },
                None => {
                    return v;
                },
            }
        }
    }

    /// How many chars have been read.
    pub fn chars_read(&self) -> (n: usize)
        ensures
            n == self.position(),
    {
        self.pos
    }

    /// Moves on to char `to`, as reading the chars up to it does.
    fn advance_to(&mut self, to: usize)
        requires
            old(self).wf(),
            old(self).position() <= to <= old(self).text().len(),
        ensures
            final(self).wf(),
            final(self).text() == old(self).text(),
            final(self).chars == old(self).chars,
            final(self).position() == to,
    {
        let ghost s = self.chars@;
        while self.pos < to
            invariant
                self.chars@ == s,
                s == self.input@,
                self.chars == old(self).chars,
                self.input == old(self).input,
                byte_len(s) <= usize::MAX,
                self.byte == byte_offset(s, self.pos as int),
                self.pos <= to <= s.len(),
            decreases to - self.pos,
        {
            let i = self.pos;
            proof {
                lemma_offset_step(s, i as int);
                lemma_offset_grows(s, i + 1, s.len() as int);
                lemma_offset_ends(s);
            }
            self.byte = self.byte + char_utf8_len(self.chars[i]);
            self.pos = i + 1;
        }
        self.previous = if to >= 2 {
            Some(self.chars[to - 2])
        } else {
            None
        };
    }

    /// The char before the last one read.
    pub fn previous(&self) -> (r: Option<char>)
        requires
            self.wf(),
        ensures
            r == (if self.position() >= 2 {
                Some(self.text()[self.position() - 2])
            } else {
                None::<char>
            }),
    {
        self.previous
    }

    /// The next char, without reading it.
    pub fn peek(&mut self) -> (r: Option<char>)
        requires
            old(self).wf(),
        ensures
            *final(self) == *old(self),
            r == (if old(self).position() < old(self).text().len() {
                Some(old(self).text()[old(self).position()])
            } else {
                None::<char>
            }),
    {
        if self.pos < self.chars.len() {
            Some(self.chars[self.pos])
        } else {
            None
        }
    }

    /// Reads the next char, with the byte offset at which it starts.
    pub fn next(&mut self) -> (r: Option<(usize, char)>)
        requires
            old(self).wf(),
        ensures
            final(self).wf(),
            final(self).text() == old(self).text(),
            old(self).position() < old(self).text().len() ==> r == Some(
                (
                    byte_offset(old(self).text(), old(self).position()) as usize,
                    old(self).text()[old(self).position()],
                ),
            ) && final(self).position() == old(self).position() + 1,
            old(self).position() >= old(self).text().len() ==> r is None && final(self).position()
                == old(self).position(),
    {
        if self.pos < self.chars.len() {
            let i = self.pos;
            let b = self.byte;
            if i >= 1 {
                self.previous = Some(self.chars[i - 1]);
            }
            proof {
                lemma_offset_step(self.chars@, i as int);
                lemma_offset_grows(self.chars@, i + 1, self.chars@.len() as int);
                lemma_offset_ends(self.chars@);
            }
            self.byte = b + char_utf8_len(self.chars[i]);
            self.pos = i + 1;
            Some((b, self.chars[i]))
        } else {
            None
        }
    }

    /// Reads the next char if `f` accepts it.
    pub fn next_if<F: Fn(char) -> bool>(&mut self, f: F) -> (r: Option<(usize, char)>)
        requires
            old(self).wf(),
            decides(f),
        ensures
            final(self).wf(),
            final(self).text() == old(self).text(),
            ({
                let s = old(self).text();
                let p = old(self).position();
                &&& p < s.len() && r is Some ==> r == Some((byte_offset(s, p) as usize, s[p])) && holds(
                    f,
                    s[p],
                ) && final(self).position() == p + 1
                &&& p < s.len() && r is None ==> fails(f, s[p]) && final(self).position() == p
                &&& p >= s.len() ==> r is None && final(self).position() == p
            }),
    {
        if let Some(p) = self.peek() {
            if f(p) {
                return self.next();
            }
        }
        None
    }

    /// Reads the next char if it is `c`.
    pub fn next_if_eq(&mut self, c: char) -> (r: Option<(usize, char)>)
        requires
            old(self).wf(),
        ensures
            final(self).wf(),
            final(self).text() == old(self).text(),
            ({
                let s = old(self).text();
                let p = old(self).position();
                if p < s.len() && s[p] == c {
                    r == Some((byte_offset(s, p) as usize, c)) && final(self).position() == p + 1
                } else {
                    r is None && final(self).position() == p
                }
            }),
    {
        self.next_if(|n: char| -> (b: bool) ensures b == (n == c) { n == c })
    }

    /// Reads on to the first char that `f` accepts and gives it with its byte
    /// offset.
    pub fn find_by<F: Fn(char) -> bool>(&mut self, f: F) -> (r: Option<(usize, char)>)
        requires
            old(self).wf(),
            decides(f),
        ensures
            final(self).wf(),
            final(self).text() == old(self).text(),
            ({
                let s = old(self).text();
                let p = old(self).position();
                let q = final(self).position() - 1;
                match r {
                    Some((i, c)) => p <= q < s.len() && i == byte_offset(s, q) && c == s[q] && holds(f, c)
                        && all_hold(s, p, q, |x: char| fails(f, x)),
                    None => all_hold(s, p, s.len() as int, |x: char| fails(f, x))
                        && final(self).position() == s.len(),
                }
            }),
    {
        let ghost s = self.chars@;
        let ghost p = self.pos as int;
        loop
            invariant
                self.wf(),
                self.chars@ == s,
                s == old(self).text(),
                p == old(self).position(),
                p <= self.pos <= s.len(),
                decides(f),
                all_hold(s, p, self.pos as int, |x: char| fails(f, x)),
            decreases s.len() - self.pos,
        {
            let Some((i, n)) = self.next() else {
                return None;
            };
            if f(n) {
                return Some((i, n));
            }
        }
    }

    /// Reads on to the first `c`.
    pub fn find(&mut self, c: char) -> (r: Option<(usize, char)>)
        requires
            old(self).wf(),
        ensures
            final(self).wf(),
            final(self).text() == old(self).text(),
            ({
                let s = old(self).text();
                let p = old(self).position();
                let q = final(self).position() - 1;
                match r {
                    Some((i, x)) => p <= q < s.len() && i == byte_offset(s, q) && x == c && s[q] == c
                        && (forall|k: int| p <= k < q ==> s[k] != c),
                    None => (forall|k: int| p <= k < s.len() ==> s[k] != c) && final(self).position()
                        == s.len(),
                }
            }),
    {
        let f = |n: char| -> (b: bool) ensures b == (n == c) { n == c };
        let r = self.find_by(f);
        proof {
            let s = old(self).text();
            let p = old(self).position();
            let q = self.position() - 1;
            match r {
                Some((i, x)) => {
                    assert forall|k: int| p <= k < q implies s[k] != c by {
                        let q = |x: char| fails(f, x);
                        assert(q(s[k]));
                    }
                },
                None => {
                    assert forall|k: int| p <= k < s.len() implies s[k] != c by {
                        let q = |x: char| fails(f, x);
                        assert(q(s[k]));
                    }
                },
            }
        }
        r
    }

    /// Reads on to the first char that `next_func` accepts and whose char before
    /// it `prev_func` accepts.
    pub fn find_by_with_previous<F: Fn(char) -> bool, G: Fn(char) -> bool>(
        &mut self,
        next_func: F,
        prev_func: G,
    ) -> (r: Option<(usize, char)>)
        requires
            old(self).wf(),
            decides(next_func),
            decides(prev_func),
        ensures
            final(self).wf(),
            final(self).text() == old(self).text(),
            ({
                let s = old(self).text();
                let p = old(self).position();
                let q = final(self).position() - 1;
                match r {
                    Some((i, c)) => p <= q < s.len() && i == byte_offset(s, q) && c == s[q] && holds(
                        next_func,
                        c,
                    ) && q >= 1 && holds(prev_func, s[q - 1]) && (forall|k: int|
                        p <= k < q ==> fails(next_func, #[trigger] s[k]) || k == 0 || fails(
                            prev_func,
                            s[k - 1],
                        )),
                    None => (forall|k: int|
                        p <= k < s.len() ==> fails(next_func, #[trigger] s[k]) || k == 0 || fails(
                            prev_func,
                            s[k - 1],
                        )) && final(self).position() == s.len(),
                }
            }),
    {
        let ghost s = self.chars@;
        let ghost p = self.pos as int;
        loop
            invariant
                self.wf(),
                self.chars@ == s,
                s == old(self).text(),
                p == old(self).position(),
                p <= self.pos <= s.len(),
                decides(next_func),
                decides(prev_func),
                forall|k: int|
                    p <= k < self.pos ==> fails(next_func, #[trigger] s[k]) || k == 0 || fails(
                        prev_func,
                        s[k - 1],
                    ),
            decreases s.len() - self.pos,
        {
            let Some((i, n)) = self.next() else {
                return None;
            };
            if next_func(n) {
                if let Some(c) = self.previous {
                    if prev_func(c) {
                        return Some((i, n));
                    }
                }
            }
        }
    }

    /// Reads on to the first `c` whose char before it `prev_func` accepts.
    pub fn find_with_previous<G: Fn(char) -> bool>(&mut self, c: char, prev_func: G) -> (r: Option<
        (usize, char),
    >)
        requires
            old(self).wf(),
            decides(prev_func),
        ensures
            final(self).wf(),
            final(self).text() == old(self).text(),
            ({
                let s = old(self).text();
                let p = old(self).position();
                let q = final(self).position() - 1;
                match r {
                    Some((i, x)) => p <= q < s.len() && i == byte_offset(s, q) && x == c && s[q] == c && q
                        >= 1 && holds(prev_func, s[q - 1]) && (forall|k: int|
                        p <= k < q ==> #[trigger] s[k] != c || k == 0 || fails(prev_func, s[k - 1])),
                    None => (forall|k: int|
                        p <= k < s.len() ==> #[trigger] s[k] != c || k == 0 || fails(
                            prev_func,
                            s[k - 1],
                        )) && final(self).position() == s.len(),
                }
            }),
    {
        let f = |n: char| -> (b: bool) ensures b == (n == c) { n == c };
        self.find_by_with_previous(f, prev_func)
    }

    /// Reads on to where `n` consecutive chars that `f` accepts end, and gives
    /// the last of them; for `n` of zero it reads nothing.
    pub fn find_consecutive_by<F: Fn(char) -> bool>(&mut self, f: F, n: usize) -> (r: Option<
        (usize, char),
    >)
        requires
            old(self).wf(),
            decides(f),
        ensures
            final(self).wf(),
            final(self).text() == old(self).text(),
            ({
                let s = old(self).text();
                let p = old(self).position();
                if n == 0 {
                    r is None && final(self).position() == p
                } else {
                    let q = final(self).position() - 1;
                    match r {
                        Some((e, c)) => run_end(s, p, n as int, |x: char| holds(f, x), q) && e == byte_offset(
                            s,
                            q,
                        ) && c == s[q] && (forall|e2: int|
                            p + n - 1 <= e2 < q ==> #[trigger] window_fails(s, e2, n as int, f)),
                        None => (forall|e2: int|
                            p + n - 1 <= e2 < s.len() ==> #[trigger] window_fails(
                                s,
                                e2,
                                n as int,
                                f,
                            )) && final(self).position() == s.len(),
                    }
                }
            }),
    {
        if n == 0 {
            return None;
        }
        let ghost s = self.chars@;
        let ghost p = self.pos as int;
        let len = self.chars.len();
        loop
            invariant
                self.wf(),
                self.chars@ == s,
                s == old(self).text(),
                p == old(self).position(),
                len == s.len(),
                n >= 1,
                p <= self.pos <= s.len(),
                decides(f),
                self.pos == p || self.pos == s.len() || fails(f, s[self.pos as int]),
                forall|e2: int|
                    p + n - 1 <= e2 < s.len() && e2 - n + 1 < self.pos ==> #[trigger] window_fails(
                        s,
                        e2,
                        n as int,
                        f,
                    ),
            decreases s.len() - self.pos,
        {
            let q = self.pos;
            // Look for the first accepted char.
            let mut i = q;
            while i < len && !f(self.chars[i])
                invariant
                    q <= i <= len,
                    len == s.len(),
                    self.chars@ == s,
                    decides(f),
                    forall|k: int| q <= k < i ==> fails(f, #[trigger] s[k]),
                decreases len - i,
            {
                i = i + 1;
            }
            if i == len {
                self.advance_to(len);
                proof {
                    assert forall|e2: int| p + n - 1 <= e2 < s.len() implies #[trigger] window_fails(
                        s,
                        e2,
                        n as int,
                        f,
                    ) by {
                        if e2 - n + 1 >= q {
                            assert(fails(f, s[e2 - n + 1]));
                        }
                    }
                }
                return None;
            }
            proof {
                assert(holds(f, s[i as int]));
                assert forall|e2: int|
                    p + n - 1 <= e2 < s.len() && e2 - n + 1 < i implies #[trigger] window_fails(
                    s,
                    e2,
                    n as int,
                    f,
                ) by {
                    if e2 - n + 1 >= q {
                        assert(fails(f, s[e2 - n + 1]));
                    }
                }
            }
            // Count the run that starts there.
            let mut count: usize = 1;
            let mut j = i + 1;
            while j < len && count < n && f(self.chars[j])
                invariant
                    q <= i < j <= len,
                    len == s.len(),
                    self.chars@ == s,
                    decides(f),
                    1 <= count <= n,
                    j == i + count,
                    all_hold(s, i as int, j as int, |x: char| holds(f, x)),
                decreases len - j,
            {
                j = j + 1;
                count = count + 1;
            }
            self.advance_to(j);
            if count == n {
                proof {
                    assert forall|e2: int| p + n - 1 <= e2 < j - 1 implies #[trigger] window_fails(
                        s,
                        e2,
                        n as int,
                        f,
                    ) by {}
                    lemma_offset_step(s, j - 1);
                }
                let w = char_utf8_len(self.chars[j - 1]);
                return Some((self.byte - w, self.chars[j - 1]));
            }
            proof {
                if j < len {
                    assert(fails(f, s[j as int]));
                }
                assert forall|e2: int|
                    p + n - 1 <= e2 < s.len() && e2 - n + 1 < j implies #[trigger] window_fails(
                    s,
                    e2,
                    n as int,
                    f,
                ) by {
                    if e2 - n + 1 >= i {
                        assert(e2 >= j);
                        assert(fails(f, s[j as int]));
                    }
                }
            }
        }
    }

    /// Reads on to where `n` consecutive `c` end.
    pub fn find_consecutive(&mut self, c: char, n: usize) -> (r: Option<(usize, char)>)
        requires
            old(self).wf(),
        ensures
            final(self).wf(),
            final(self).text() == old(self).text(),
            ({
                let s = old(self).text();
                let p = old(self).position();
                if n == 0 {
                    r is None && final(self).position() == p
                } else {
                    let q = final(self).position() - 1;
                    match r {
                        Some((e, x)) => p + n - 1 <= q < s.len() && e == byte_offset(s, q) && x == c && (forall|
                            k: int,
                        | q - n + 1 <= k <= q ==> #[trigger] s[k] == c) && (forall|e2: int|
                            p + n - 1 <= e2 < q ==> #[trigger] window_differs(s, e2, n as int, c)),
                        None => (forall|e2: int|
                            p + n - 1 <= e2 < s.len() ==> #[trigger] window_differs(s, e2, n as int, c))
                            && final(self).position() == s.len(),
                    }
                }
            }),
    {
        let f = |x: char| -> (b: bool) ensures b == (x == c) { x == c };
        let r = self.find_consecutive_by(f, n);
        proof {
            let s = old(self).text();
            let p = old(self).position();
            if n > 0 {
                let e = self.position() - 1;
                match r {
                    Some(_) => {
                        assert forall|k: int| e - n + 1 <= k <= e implies #[trigger] s[k] == c by {
                            let q = |x: char| holds(f, x);
                            assert(q(s[k]));
                        }
                        assert forall|e2: int| p + n - 1 <= e2 < e implies #[trigger] window_differs(s, e2, n as int, c) by {
                            assert(window_fails(s, e2, n as int, f));
                        }
                    },
                    None => {
                        assert forall|e2: int| p + n - 1 <= e2 < s.len() implies #[trigger] window_differs(s, e2, n as int, c) by {
                            assert(window_fails(s, e2, n as int, f));
                        }
                    },
                }
            }
        }
        r
    }

    /// Reads the chars that `f` accepts that come next, at most `max` of them,
    /// and gives how many it read.
    pub fn count_consecutive_by<F: Fn(char) -> bool>(&mut self, f: F, max: usize) -> (count: usize)
        requires
            old(self).wf(),
            decides(f),
        ensures
            final(self).wf(),
            final(self).text() == old(self).text(),
            ({
                let s = old(self).text();
                let p = old(self).position();
                &&& count <= max
                &&& all_hold(s, p, p + count, |x: char| holds(f, x))
                &&& count < max ==> p + count == s.len() || fails(f, s[p + count])
                &&& final(self).position() == p + count
            }),
    {
        if max == 0 {
            return 0;
        }
        let ghost s = self.chars@;
        let ghost p = self.pos as int;
        let mut count: usize = 0;
        loop
            invariant_except_break
                count < max,
            invariant
                self.wf(),
                self.chars@ == s,
                s == old(self).text(),
                p == old(self).position(),
                decides(f),
                count <= max,
                self.pos == p + count,
                all_hold(s, p, p + count, |x: char| holds(f, x)),
            ensures
                self.wf(),
                self.chars@ == s,
                count <= max,
                self.pos == p + count,
                all_hold(s, p, p + count, |x: char| holds(f, x)),
                count < max ==> p + count == s.len() || fails(f, s[p + count]),
            decreases s.len() - self.pos,
        {
            if self.pos >= self.chars.len() {
                break;
            }
            let c = self.chars[self.pos];
            if !f(c) {
                break;
            }
            self.next();
            count = count + 1;
            if count == max {
                break;
            }
        }
        count
    }

    /// Reads the `c` that come next, at most `max` of them, and gives how many.
    pub fn count_consecutive(&mut self, c: char, max: usize) -> (count: usize)
        requires
            old(self).wf(),
        ensures
            final(self).wf(),
            final(self).text() == old(self).text(),
            ({
                let s = old(self).text();
                let p = old(self).position();
                &&& count <= max
                &&& forall|k: int| p <= k < p + count ==> #[trigger] s[k] == c
                &&& count < max ==> p + count == s.len() || s[p + count] != c
                &&& final(self).position() == p + count
            }),
    {
        let f = |x: char| -> (b: bool) ensures b == (x == c) { x == c };
        let count = self.count_consecutive_by(f, max);
        proof {
            let s = old(self).text();
            let p = old(self).position();
            assert forall|k: int| p <= k < p + count implies #[trigger] s[k] == c by {
                let q = |x: char| holds(f, x);
                assert(q(s[k]));
            }
        }
        count
    }
}

} // verus!
