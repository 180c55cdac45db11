//! Grapheme iteration that can peek at the next grapheme cluster and
//! remembers the one before the last. Positions count grapheme clusters; the
//! offsets that come with them are byte offsets, as
//! `str::grapheme_indices` gives them.
use vstd::prelude::*;
use vstd::string::StrSliceExecFns;

use crate::byte_pos::{byte_len, byte_offset, lemma_encode_concat, lemma_offset_ends, lemma_offset_grows, str_byte_len};
use crate::text::{graphemes_of, str_eq, str_contains, strs_view};

verus! {

/// `f` answers `true` for `g`.
pub open spec fn holds_g<F: Fn(&str) -> bool>(f: F, g: &str) -> bool {
    f.ensures((g,), true)
}

/// `f` answers `false` for `g`.
pub open spec fn fails_g<F: Fn(&str) -> bool>(f: F, g: &str) -> bool {
    f.ensures((g,), false)
}

/// `f` can be called on every string and never answers both ways for one.
pub open spec fn decides_g<F: Fn(&str) -> bool>(f: F) -> bool {
    &&& forall|g: &str| #[trigger] f.requires((g,))
    &&& forall|g: &str| !(#[trigger] holds_g(f, g) && fails_g(f, g))
}

/// Every cluster of `s[lo..hi]` satisfies `p`.
pub open spec fn all_hold_g(s: Seq<&str>, lo: int, hi: int, p: spec_fn(&str) -> bool) -> bool {
    forall|k: int| lo <= k < hi ==> #[trigger] p(s[k])
}

/// Some cluster of the `n` that end at `e` is one that `f` rejects.
pub open spec fn window_fails_g<F: Fn(&str) -> bool>(s: Seq<&str>, e: int, n: int, f: F) -> bool {
    exists|k: int| e - n + 1 <= k <= e && fails_g(f, s[k])
}

/// The char offset where cluster `k` of `gs` starts.
pub open spec fn cluster_offset(gs: Seq<&str>, k: int) -> int {
    strs_view(gs.take(k)).flatten().len() as int
}

#[derive(Debug)]
pub struct PeekableGraphemesPrevious<'a> {
    input: &'a str,
    graphemes: Vec<&'a str>,
    offsets: Vec<usize>,
    char_offsets: Vec<usize>,
    pos: usize,
    previous: Option<&'a str>,
}

impl<'a> PeekableGraphemesPrevious<'a> {
    /// The text being read.
    pub closed spec fn text(&self) -> Seq<char> {
        self.input@
    }

    /// The grapheme clusters being read.
    pub closed spec fn clusters(&self) -> Seq<&'a str> {
        self.graphemes@
    }

    /// How many clusters have been read.
    pub closed spec fn position(&self) -> int {
        self.pos as int
    }

    pub closed spec fn wf(&self) -> bool {
        &&& strs_view(self.graphemes@) == grapheme_clusters_of(self.input@)
        &&& strs_view(self.graphemes@).flatten() == self.input@
        &&& forall|i: int| 0 <= i < self.graphemes@.len() ==> (#[trigger] self.graphemes@[i])@.len() > 0
        &&& self.offsets@.len() == self.graphemes@.len()
        &&& self.char_offsets@.len() == self.graphemes@.len()
        &&& forall|i: int|
            0 <= i < self.offsets@.len() ==> #[trigger] self.offsets@[i] == byte_offset(
                self.input@,
                cluster_offset(self.graphemes@, i),
            )
        &&& forall|i: int|
            0 <= i < self.char_offsets@.len() ==> #[trigger] self.char_offsets@[i] == cluster_offset(
                self.graphemes@,
                i,
            )
        &&& self.pos <= self.graphemes@.len()
        &&& self.previous == (if self.pos >= 2 {
            Some(self.graphemes@[self.pos - 2])
        } else {
            None::<&'a str>
        })
    }

    /// The byte offset of cluster `k`.
    pub open spec fn offset(&self, k: int) -> int {
        byte_offset(self.text(), cluster_offset(self.clusters(), k)) as int
    }

    /// The char offset of cluster `k`.
    pub open spec fn char_offset(&self, k: int) -> int {
        cluster_offset(self.clusters(), k)
    }

    /// How many clusters have been read.
    pub fn read(&self) -> (n: usize)
        ensures
            n == self.position(),
    {
        self.pos
    }

    /// The char offset of cluster `k`.
    pub fn char_offset_at(&self, k: usize) -> (o: usize)
        requires
            self.wf(),
            k < self.clusters().len(),
        ensures
            o == self.char_offset(k as int),
    {
        self.char_offsets[k]
    }

    /// What a well-formed iterator keeps: its clusters are the text's, none is
    /// empty, and it has not read past the end.
    pub proof fn lemma_wf(&self)
        requires
            self.wf(),
        ensures
            strs_view(self.clusters()) == grapheme_clusters_of(self.text()),
            strs_view(self.clusters()).flatten() == self.text(),
            forall|i: int|
                0 <= i < self.clusters().len() ==> (#[trigger] self.clusters()[i])@.len() > 0,
            self.clusters().len() <= usize::MAX,
            0 <= self.position() <= self.clusters().len(),
    {
        assert(self.graphemes.len() == self.graphemes@.len());
    }

    pub fn new(input: &'a str) -> (it: Self)
        ensures
            it.wf(),
            it.text() == input@,
            strs_view(it.clusters()) == grapheme_clusters_of(input@),
            it.position() == 0,
    {
        let graphemes = graphemes_of(input);
        let text_len = input.unicode_len();
        let text_bytes = str_byte_len(input);
        let mut offsets: Vec<usize> = Vec::new();
        let mut char_offsets: Vec<usize> = Vec::new();
        let mut total: usize = 0;
        let mut total_bytes: usize = 0;
        let mut k: usize = 0;
        proof {
            lemma_offset_ends(input@);
        }
        while k < graphemes.len()
            invariant
                k <= graphemes@.len(),
                offsets@.len() == k,
                char_offsets@.len() == k,
                strs_view(graphemes@).flatten() == input@,
                text_len == input@.len(),
                text_bytes == byte_len(input@),
                total == cluster_offset(graphemes@, k as int),
                total_bytes == byte_offset(input@, total as int),
                forall|i: int| 0 <= i < k ==> #[trigger] char_offsets@[i] == cluster_offset(graphemes@, i),
                forall|i: int|
                    0 <= i < k ==> #[trigger] offsets@[i] == byte_offset(input@, cluster_offset(graphemes@, i)),
            decreases graphemes.len() - k,
        {
            char_offsets.push(total);
            offsets.push(total_bytes);
            let ghost before = strs_view(graphemes@.take(k as int));
            proof {
                let after = strs_view(graphemes@.take(k + 1));
                assert(after =~= before.push(graphemes@[k as int]@));
                before.lemma_flatten_push(graphemes@[k as int]@);
                lemma_offset_bound(graphemes@, (k + 1) as int);
                assert(cluster_offset(graphemes@, (k + 1) as int) == total + graphemes@[k as int]@.len());
                lemma_cluster_bytes(graphemes@, k as int);
                lemma_offset_grows(input@, cluster_offset(graphemes@, (k + 1) as int), input@.len() as int);
            }
            let len = graphemes[k].unicode_len();
            let blen = str_byte_len(graphemes[k]);
            proof {
                let co1 = cluster_offset(graphemes@, (k + 1) as int);
                assert(byte_offset(input@, co1) == total_bytes + blen);
                assert(byte_offset(input@, co1) <= byte_offset(input@, input@.len() as int));
                lemma_offset_ends(input@);
            }
            total = total + len;
            total_bytes = total_bytes + blen;
            k = k + 1;
        }
        PeekableGraphemesPrevious { input, graphemes, offsets, char_offsets, pos: 0, previous: None }
    }

    /// The cluster before the last one read.
    pub fn previous(&self) -> (r: Option<&'a str>)
        requires
            self.wf(),
        ensures
            r == (if self.position() >= 2 {
                Some(self.clusters()[self.position() - 2])
            } else {
                None::<&'a str>
            }),
    {
        self.previous
    }

    /// The next cluster, without reading it.
    pub fn peek(&mut self) -> (r: Option<&'a str>)
        requires
            old(self).wf(),
        ensures
            *final(self) == *old(self),
            r == (if old(self).position() < old(self).clusters().len() {
                Some(old(self).clusters()[old(self).position()])
            } else {
                None::<&'a str>
            }),
    {
        if self.pos < self.graphemes.len() {
            Some(self.graphemes[self.pos])
        } else {
            None
        }
    }

    /// Reads the next cluster, with its char offset.
    pub fn next(&mut self) -> (r: Option<(usize, &'a str)>)
        requires
            old(self).wf(),
        ensures
            final(self).wf(),
            final(self).text() == old(self).text(),
            final(self).clusters() == old(self).clusters(),
            old(self).position() < old(self).clusters().len() ==> r is Some && r.unwrap().0
                == old(self).offset(old(self).position()) && r.unwrap().1 == old(self).clusters()[old(self).position()] && final(self).position() == old(self).position() + 1,
            old(self).position() >= old(self).clusters().len() ==> r is None && final(self).position() == old(self).position(),
    {
        if self.pos < self.graphemes.len() {
            let i = self.pos;
            if i >= 1 {
                self.previous = Some(self.graphemes[i - 1]);
            }
            self.pos = i + 1;
            Some((self.offsets[i], self.graphemes[i]))
        } else {
            None
        }
    }

    /// Reads the next cluster if `f` accepts it.
    pub fn next_if<F: Fn(&str) -> bool>(&mut self, f: F) -> (r: Option<(usize, &'a str)>)
        requires
            old(self).wf(),
            decides_g(f),
        ensures
            final(self).wf(),
            final(self).text() == old(self).text(),
            final(self).clusters() == old(self).clusters(),
            ({
                let s = old(self).clusters();
                let p = old(self).position();
                &&& p < s.len() && r is Some ==> r.unwrap().0 == old(self).offset(p) && r.unwrap().1
                    == s[p] && holds_g(f, s[p]) && final(self).position() == p + 1
                &&& p < s.len() && r is None ==> fails_g(f, s[p]) && final(self).position() == p
                &&& p >= s.len() ==> r is None && final(self).position() == p
            }),
    {
        if let Some(p) = self.peek() {
            if f(p) {
                return self.next();
            }
        }
        None
    }

    /// Reads the next cluster if it is `g`.
    pub fn next_if_eq(&mut self, g: &str) -> (r: Option<(usize, &'a str)>)
        requires
            old(self).wf(),
        ensures
            final(self).wf(),
            final(self).text() == old(self).text(),
            final(self).clusters() == old(self).clusters(),
            ({
                let s = old(self).clusters();
                let p = old(self).position();
                if p < s.len() && s[p]@ == g@ {
                    r is Some && r.unwrap().0 == old(self).offset(p) && r.unwrap().1 == s[p] && final(self).position() == p + 1
                } else {
                    r is None && final(self).position() == p
                }
            }),
    {
        self.next_if(|n: &str| -> (b: bool) ensures b == (n@ == g@) { str_eq(n, g) })
    }

    /// Reads the next cluster if it holds a line break.
    pub fn next_if_newline(&mut self) -> (r: Option<(usize, &'a str)>)
        requires
            old(self).wf(),
        ensures
            final(self).wf(),
            final(self).text() == old(self).text(),
            final(self).clusters() == old(self).clusters(),
            ({
                let s = old(self).clusters();
                let p = old(self).position();
                if p < s.len() && s[p]@.contains('\n') {
                    r is Some && r.unwrap().0 == old(self).offset(p) && r.unwrap().1 == s[p] && final(self).position() == p + 1
                } else {
                    r is None && final(self).position() == p
                }
            }),
    {
        self.next_if(|n: &str| -> (b: bool) ensures b == n@.contains('\n') { str_contains(n, '\n') })
    }

    /// Reads on to the first cluster that `f` accepts and gives it with its offset.
    pub fn find_by<F: Fn(&str) -> bool>(&mut self, f: F) -> (r: Option<(usize, &'a str)>)
        requires
            old(self).wf(),
            decides_g(f),
        ensures
            final(self).wf(),
            final(self).text() == old(self).text(),
            final(self).clusters() == old(self).clusters(),
            ({
                let s = old(self).clusters();
                let p = old(self).position();
                match r {
                    Some((o, g)) => exists|i: int|
                        p <= i < s.len() && o == old(self).offset(i) && g == s[i] && holds_g(f, g)
                            && all_hold_g(s, p, i, |x: &str| fails_g(f, x)) && final(self).position()
                            == i + 1,
                    None => all_hold_g(s, p, s.len() as int, |x: &str| fails_g(f, x)) && final(self).position() == s.len(),
                }
            }),
    {
        let ghost s = self.graphemes@;
        let ghost p = self.pos as int;
        loop
            invariant
                self.wf(),
                self.graphemes@ == s,
                s == old(self).clusters(),
                self.text() == old(self).text(),
                p == old(self).position(),
                p <= self.pos <= s.len(),
                decides_g(f),
                all_hold_g(s, p, self.pos as int, |x: &str| fails_g(f, x)),
            decreases s.len() - self.pos,
        {
            let ghost i = self.pos as int;
            let Some((o, n)) = self.next() else {
                return None;
            };
            if f(n) {
                assert(p <= i < s.len() && o == old(self).offset(i) && n == s[i]);
                return Some((o, n));
            }
        }
    }

    /// Reads on to the first cluster `g`.
    pub fn find(&mut self, g: &str) -> (r: Option<(usize, &'a str)>)
        requires
            old(self).wf(),
        ensures
            final(self).wf(),
            final(self).text() == old(self).text(),
            final(self).clusters() == old(self).clusters(),
            ({
                let s = old(self).clusters();
                let p = old(self).position();
                match r {
                    Some((o, x)) => exists|i: int|
                        p <= i < s.len() && o == old(self).offset(i) && x == s[i] && x@ == g@ && (
                        forall|k: int| p <= k < i ==> (#[trigger] s[k])@ != g@) && final(self).position() == i + 1,
                    None => (forall|k: int| p <= k < s.len() ==> (#[trigger] s[k])@ != g@)
                        && final(self).position() == s.len(),
                }
            }),
    {
        let f = |n: &str| -> (b: bool) ensures b == (n@ == g@) { str_eq(n, g) };
        let r = self.find_by(f);
        proof {
            let s = old(self).clusters();
            let p = old(self).position();
            match r {
                Some((o, x)) => {
                    let i = choose|i: int|
                        p <= i < s.len() && o == old(self).offset(i) && x == s[i] && holds_g(f, x)
                            && all_hold_g(s, p, i, |x: &str| fails_g(f, x)) && final(self).position()
                            == i + 1;
                    assert forall|k: int| p <= k < i implies (#[trigger] s[k])@ != g@ by {
                        let q = |x: &str| fails_g(f, x);
                        assert(q(s[k]));
                    }
                },
                None => {
                    assert forall|k: int| p <= k < s.len() implies (#[trigger] s[k])@ != g@ by {
                        let q = |x: &str| fails_g(f, x);
                        assert(q(s[k]));
                    }
                },
            }
        }
        r
    }

    /// Reads on to the first cluster that holds a line break.
    pub fn find_newline(&mut self) -> (r: Option<(usize, &'a str)>)
        requires
            old(self).wf(),
        ensures
            final(self).wf(),
            final(self).text() == old(self).text(),
            final(self).clusters() == old(self).clusters(),
            ({
                let s = old(self).clusters();
                let p = old(self).position();
                match r {
                    Some((o, x)) => exists|i: int|
                        p <= i < s.len() && o == old(self).offset(i) && x == s[i] && x@.contains('\n')
                            && (forall|k: int| p <= k < i ==> !(#[trigger] s[k])@.contains('\n'))
                            && final(self).position() == i + 1,
                    None => (forall|k: int| p <= k < s.len() ==> !(#[trigger] s[k])@.contains('\n'))
                        && final(self).position() == s.len(),
                }
            }),
    {
        let f = |n: &str| -> (b: bool) ensures b == n@.contains('\n') { str_contains(n, '\n') };
        let r = self.find_by(f);
        proof {
            let s = old(self).clusters();
            let p = old(self).position();
            match r {
                Some((o, x)) => {
                    let i = choose|i: int|
                        p <= i < s.len() && o == old(self).offset(i) && x == s[i] && holds_g(f, x)
                            && all_hold_g(s, p, i, |x: &str| fails_g(f, x)) && final(self).position()
                            == i + 1;
                    assert forall|k: int| p <= k < i implies !(#[trigger] s[k])@.contains('\n') by {
                        let q = |x: &str| fails_g(f, x);
                        assert(q(s[k]));
                    }
                },
                None => {
                    assert forall|k: int| p <= k < s.len() implies !(
                    #[trigger] s[k])@.contains('\n') by {
                        let q = |x: &str| fails_g(f, x);
                        assert(q(s[k]));
                    }
                },
            }
        }
        r
    }

    /// Reads on to the first cluster that `next_func` accepts and whose cluster
    /// before it `prev_func` accepts.
    pub fn find_by_with_previous<F: Fn(&str) -> bool, G: Fn(&str) -> bool>(
        &mut self,
        next_func: F,
        prev_func: G,
    ) -> (r: Option<(usize, &'a str)>)
        requires
            old(self).wf(),
            decides_g(next_func),
            decides_g(prev_func),
        ensures
            final(self).wf(),
            final(self).text() == old(self).text(),
            final(self).clusters() == old(self).clusters(),
            ({
                let s = old(self).clusters();
                let p = old(self).position();
                let skipped = |k: int|
                    fails_g(next_func, s[k]) || k == 0 || fails_g(prev_func, s[k - 1]);
                match r {
                    Some((o, g)) => exists|i: int|
                        p <= i < s.len() && o == old(self).offset(i) && g == s[i] && holds_g(
                            next_func,
                            g,
                        ) && i >= 1 && holds_g(prev_func, s[i - 1]) && (forall|k: int|
                            p <= k < i ==> #[trigger] skipped(k)) && final(self).position() == i + 1,
                    None => (forall|k: int| p <= k < s.len() ==> #[trigger] skipped(k)) && final(
                        self).position() == s.len(),
                }
            }),
    {
        let ghost s = self.graphemes@;
        let ghost p = self.pos as int;
        let ghost skipped = |k: int|
            fails_g(next_func, s[k]) || k == 0 || fails_g(prev_func, s[k - 1]);
        loop
            invariant
                self.wf(),
                self.graphemes@ == s,
                s == old(self).clusters(),
                self.text() == old(self).text(),
                p == old(self).position(),
                p <= self.pos <= s.len(),
                decides_g(next_func),
                decides_g(prev_func),
                skipped == (|k: int|
                    fails_g(next_func, s[k]) || k == 0 || fails_g(prev_func, s[k - 1])),
                forall|k: int| p <= k < self.pos ==> #[trigger] skipped(k),
            decreases s.len() - self.pos,
        {
            let ghost i = self.pos as int;
            let Some((o, n)) = self.next() else {
                return None;
            };
            if next_func(n) {
                if let Some(c) = self.previous {
                    if prev_func(c) {
                        assert(p <= i < s.len() && o == old(self).offset(i) && n == s[i]);
                        return Some((o, n));
                    }
                }
            }
        }
    }

    /// Reads on to the first pair of clusters that `func` accepts, the one read
    /// before and the one read now, and gives the offset of the second and both.
    pub fn find_pattern_by<F: Fn(&str, &str) -> bool>(&mut self, func: F) -> (r: Option<
        (usize, &'a str, &'a str),
    >)
        requires
            old(self).wf(),
            forall|a: &str, b: &str| #[trigger] func.requires((a, b)),
            forall|a: &str, b: &str| !(#[trigger] func.ensures((a, b), true) && func.ensures((a, b), false)),
        ensures
            final(self).wf(),
            final(self).text() == old(self).text(),
            final(self).clusters() == old(self).clusters(),
            ({
                let s = old(self).clusters();
                let p = old(self).position();
                let skipped = |k: int| k == 0 || func.ensures((s[k - 1], s[k]), false);
                match r {
                    Some((o, a, b)) => exists|i: int|
                        p <= i < s.len() && i >= 1 && o == old(self).offset(i) && a == s[i - 1] && b
                            == s[i] && func.ensures((a, b), true) && (forall|k: int|
                            p <= k < i ==> #[trigger] skipped(k)) && final(self).position() == i + 1,
                    None => (forall|k: int| p <= k < s.len() ==> #[trigger] skipped(k)) && final(
                        self).position() == s.len(),
                }
            }),
    {
        let ghost s = self.graphemes@;
        let ghost p = self.pos as int;
        let ghost skipped = |k: int| k == 0 || func.ensures((s[k - 1], s[k]), false);
        loop
            invariant
                self.wf(),
                self.graphemes@ == s,
                s == old(self).clusters(),
                self.text() == old(self).text(),
                p == old(self).position(),
                p <= self.pos <= s.len(),
                forall|a: &str, b: &str| #[trigger] func.requires((a, b)),
                skipped == (|k: int| k == 0 || func.ensures((s[k - 1], s[k]), false)),
                forall|k: int| p <= k < self.pos ==> #[trigger] skipped(k),
            decreases s.len() - self.pos,
        {
            let ghost i = self.pos as int;
            let Some((o, n)) = self.next() else {
                return None;
            };
            if let Some(prev) = self.previous {
                if func(prev, n) {
                    assert(p <= i < s.len() && o == old(self).offset(i) && n == s[i]);
                    return Some((o, prev, n));
                }
            }
        }
    }

    /// Reads on to where `n` consecutive clusters that `f` accepts end, and gives
    /// the last of them with its offset; for `n` of zero it reads nothing.
    pub fn find_consecutive_by<F: Fn(&str) -> bool>(&mut self, f: F, n: usize) -> (r: Option<
        (usize, &'a str),
    >)
        requires
            old(self).wf(),
            decides_g(f),
        ensures
            final(self).wf(),
            final(self).text() == old(self).text(),
            final(self).clusters() == old(self).clusters(),
            ({
                let s = old(self).clusters();
                let p = old(self).position();
                if n == 0 {
                    r is None && final(self).position() == p
                } else {
                    match r {
                        Some((o, g)) => exists|e: int|
                            p + n - 1 <= e < s.len() && all_hold_g(
                                s,
                                e - n + 1,
                                e + 1,
                                |x: &str| holds_g(f, x),
                            ) && o == old(self).offset(e) && g == s[e] && (forall|e2: int|
                                p + n - 1 <= e2 < e ==> #[trigger] window_fails_g(s, e2, n as int, f))
                                && final(self).position() == e + 1,
                        None => (forall|e2: int|
                            p + n - 1 <= e2 < s.len() ==> #[trigger] window_fails_g(
                                s,
                                e2,
                                n as int,
                                f,
                            )) && final(self).position() == s.len(),
                    }
                }
            }),
    {
        if n == 0 {
            return None;
        }
        let ghost s = self.graphemes@;
        let ghost p = self.pos as int;
        let len = self.graphemes.len();
        loop
            invariant
                self.wf(),
                self.graphemes@ == s,
                s == old(self).clusters(),
                self.text() == old(self).text(),
                p == old(self).position(),
                len == s.len(),
                n >= 1,
                p <= self.pos <= s.len(),
                decides_g(f),
                self.pos == p || self.pos == s.len() || fails_g(f, s[self.pos as int]),
                forall|e2: int|
                    p + n - 1 <= e2 < s.len() && e2 - n + 1 < self.pos ==> #[trigger] window_fails_g(
                        s,
                        e2,
                        n as int,
                        f,
                    ),
            decreases s.len() - self.pos,
        {
            let q = self.pos;
            let mut i = q;
            while i < len && !f(self.graphemes[i])
                invariant
                    q <= i <= len,
                    len == s.len(),
                    self.graphemes@ == s,
                    decides_g(f),
                    forall|k: int| q <= k < i ==> fails_g(f, #[trigger] s[k]),
                decreases len - i,
            {
                i = i + 1;
            }
            if i == len {
                self.pos = len;
                self.previous = if len >= 2 { Some(self.graphemes[len - 2]) } else { None };
                proof {
                    assert forall|e2: int| p + n - 1 <= e2 < s.len() implies #[trigger] window_fails_g(
                        s,
                        e2,
                        n as int,
                        f,
                    ) by {
                        if e2 - n + 1 >= q {
                            assert(fails_g(f, s[e2 - n + 1]));
                        }
                    }
                }
                return None;
            }
            proof {
                assert(holds_g(f, s[i as int]));
                assert forall|e2: int|
                    p + n - 1 <= e2 < s.len() && e2 - n + 1 < i implies #[trigger] window_fails_g(
                    s,
                    e2,
                    n as int,
                    f,
                ) by {
                    if e2 - n + 1 >= q {
                        assert(fails_g(f, s[e2 - n + 1]));
                    }
                }
            }
            let mut count: usize = 1;
            let mut j = i + 1;
            while j < len && count < n && f(self.graphemes[j])
                invariant
                    q <= i < j <= len,
                    len == s.len(),
                    self.graphemes@ == s,
                    decides_g(f),
                    1 <= count <= n,
                    j == i + count,
                    all_hold_g(s, i as int, j as int, |x: &str| holds_g(f, x)),
                decreases len - j,
            {
                j = j + 1;
                count = count + 1;
            }
            self.pos = j;
            self.previous = if j >= 2 { Some(self.graphemes[j - 2]) } else { None };
            if count == n {
                let e = j - 1;
                proof {
                    assert forall|e2: int| p + n - 1 <= e2 < e implies #[trigger] window_fails_g(
                        s,
                        e2,
                        n as int,
                        f,
                    ) by {}
                    assert(p + n - 1 <= e < s.len());
                }
                return Some((self.offsets[e], self.graphemes[e]));
            }
            proof {
                if j < len {
                    assert(fails_g(f, s[j as int]));
                }
                assert forall|e2: int|
                    p + n - 1 <= e2 < s.len() && e2 - n + 1 < j implies #[trigger] window_fails_g(
                    s,
                    e2,
                    n as int,
                    f,
                ) by {
                    if e2 - n + 1 >= i {
                        assert(e2 >= j);
                        assert(fails_g(f, s[j as int]));
                    }
                }
            }
        }
    }

    /// Reads the clusters that `f` accepts that come next, at most `max` of
    /// them, and gives how many it read.
    pub fn count_consecutive_by<F: Fn(&str) -> bool>(&mut self, f: F, max: usize) -> (count: usize)
        requires
            old(self).wf(),
            decides_g(f),
        ensures
            final(self).wf(),
            final(self).text() == old(self).text(),
            final(self).clusters() == old(self).clusters(),
            ({
                let s = old(self).clusters();
                let p = old(self).position();
                &&& count <= max
                &&& all_hold_g(s, p, p + count, |x: &str| holds_g(f, x))
                &&& count < max ==> p + count == s.len() || fails_g(f, s[p + count])
                &&& final(self).position() == p + count
            }),
    {
        if max == 0 {
            return 0;
        }
        let ghost s = self.graphemes@;
        let ghost p = self.pos as int;
        let mut count: usize = 0;
        loop
            invariant_except_break
                count < max,
            invariant
                self.wf(),
                self.graphemes@ == s,
                s == old(self).clusters(),
                self.text() == old(self).text(),
                p == old(self).position(),
                decides_g(f),
                count <= max,
                self.pos == p + count,
                all_hold_g(s, p, p + count, |x: &str| holds_g(f, x)),
            ensures
                self.wf(),
                self.graphemes@ == s,
                self.text() == old(self).text(),
                count <= max,
                self.pos == p + count,
                all_hold_g(s, p, p + count, |x: &str| holds_g(f, x)),
                count < max ==> p + count == s.len() || fails_g(f, s[p + count]),
            decreases s.len() - self.pos,
        {
            if self.pos >= self.graphemes.len() {
                break;
            }
            let c = self.graphemes[self.pos];
            if !f(c) {
                break;
            }
            self.next();
            count = count + 1;
            if count == max {
                break;
            }
        }
        count
    }

    /// Reads the clusters `g` that come next, at most `max` of them, and gives
    /// how many.
    pub fn count_consecutive(&mut self, g: &str, max: usize) -> (count: usize)
        requires
            old(self).wf(),
        ensures
            final(self).wf(),
            final(self).text() == old(self).text(),
            final(self).clusters() == old(self).clusters(),
            ({
                let s = old(self).clusters();
                let p = old(self).position();
                &&& count <= max
                &&& forall|k: int| p <= k < p + count ==> (#[trigger] s[k])@ == g@
                &&& count < max ==> p + count == s.len() || s[p + count]@ != g@
                &&& final(self).position() == p + count
            }),
    {
        let f = |n: &str| -> (b: bool) ensures b == (n@ == g@) { str_eq(n, g) };
        let count = self.count_consecutive_by(f, max);
        proof {
            let s = old(self).clusters();
            let p = old(self).position();
            assert forall|k: int| p <= k < p + count implies (#[trigger] s[k])@ == g@ by {
                let q = |x: &str| holds_g(f, x);
                assert(q(s[k]));
            }
        }
        count
    }

    /// Reads on to the first cluster `g` whose cluster before it `prev_func` accepts.
    pub fn find_with_previous<G: Fn(&str) -> bool>(&mut self, g: &str, prev_func: G) -> (r: Option<
        (usize, &'a str),
    >)
        requires
            old(self).wf(),
            decides_g(prev_func),
        ensures
            final(self).wf(),
            final(self).text() == old(self).text(),
            final(self).clusters() == old(self).clusters(),
            ({
                let s = old(self).clusters();
                let p = old(self).position();
                let skipped = |k: int| s[k]@ != g@ || k == 0 || fails_g(prev_func, s[k - 1]);
                match r {
                    Some((o, x)) => exists|i: int|
                        p <= i < s.len() && o == old(self).offset(i) && x == s[i] && x@ == g@ && i
                            >= 1 && holds_g(prev_func, s[i - 1]) && (forall|k: int|
                            p <= k < i ==> #[trigger] skipped(k)) && final(self).position() == i + 1,
                    None => (forall|k: int| p <= k < s.len() ==> #[trigger] skipped(k)) && final(
                        self).position() == s.len(),
                }
            }),
    {
        let f = |n: &str| -> (b: bool) ensures b == (n@ == g@) { str_eq(n, g) };
        let r = self.find_by_with_previous(f, prev_func);
        proof {
            let s = old(self).clusters();
            let p = old(self).position();
            let sk1 = |k: int| fails_g(f, s[k]) || k == 0 || fails_g(prev_func, s[k - 1]);
            let sk2 = |k: int| s[k]@ != g@ || k == 0 || fails_g(prev_func, s[k - 1]);
            match r {
                Some((o, x)) => {
                    let i = choose|i: int|
                        p <= i < s.len() && o == old(self).offset(i) && x == s[i] && holds_g(f, x) && i
                            >= 1 && holds_g(prev_func, s[i - 1]) && (forall|k: int|
                            p <= k < i ==> #[trigger] sk1(k)) && final(self).position() == i + 1;
                    assert forall|k: int| p <= k < i implies #[trigger] sk2(k) by {
                        assert(sk1(k));
                    }
                },
                None => {
                    assert forall|k: int| p <= k < s.len() implies #[trigger] sk2(k) by {
                        assert(sk1(k));
                    }
                },
            }
        }
        r
    }

    /// Reads on to the first cluster `next` that follows a cluster `prev`.
    pub fn find_pattern(&mut self, prev: &str, next: &str) -> (r: Option<(usize, &'a str, &'a str)>)
        requires
            old(self).wf(),
        ensures
            final(self).wf(),
            final(self).text() == old(self).text(),
            final(self).clusters() == old(self).clusters(),
            ({
                let s = old(self).clusters();
                let p = old(self).position();
                let skipped = |k: int| k == 0 || s[k - 1]@ != prev@ || s[k]@ != next@;
                match r {
                    Some((o, a, b)) => exists|i: int|
                        p <= i < s.len() && i >= 1 && o == old(self).offset(i) && a == s[i - 1] && b
                            == s[i] && a@ == prev@ && b@ == next@ && (forall|k: int|
                            p <= k < i ==> #[trigger] skipped(k)) && final(self).position() == i + 1,
                    None => (forall|k: int| p <= k < s.len() ==> #[trigger] skipped(k)) && final(
                        self).position() == s.len(),
                }
            }),
    {
        let func = |a: &str, b: &str| -> (r: bool)
            ensures
                r == (a@ == prev@ && b@ == next@),
            { str_eq(a, prev) && str_eq(b, next) };
        let r = self.find_pattern_by(func);
        proof {
            let s = old(self).clusters();
            let p = old(self).position();
            let sk1 = |k: int| k == 0 || func.ensures((s[k - 1], s[k]), false);
            let sk2 = |k: int| k == 0 || s[k - 1]@ != prev@ || s[k]@ != next@;
            match r {
                Some((o, a, b)) => {
                    let i = choose|i: int|
                        p <= i < s.len() && i >= 1 && o == old(self).offset(i) && a == s[i - 1] && b
                            == s[i] && func.ensures((a, b), true) && (forall|k: int|
                            p <= k < i ==> #[trigger] sk1(k)) && final(self).position() == i + 1;
                    assert forall|k: int| p <= k < i implies #[trigger] sk2(k) by {
                        assert(sk1(k));
                    }
                },
                None => {
                    assert forall|k: int| p <= k < s.len() implies #[trigger] sk2(k) by {
                        assert(sk1(k));
                    }
                },
            }
        }
        r
    }

    /// Reads on to where `n` consecutive clusters `g` end.
    pub fn find_consecutive(&mut self, g: &str, n: usize) -> (r: Option<(usize, &'a str)>)
        requires
            old(self).wf(),
        ensures
            final(self).wf(),
            final(self).text() == old(self).text(),
            final(self).clusters() == old(self).clusters(),
            ({
                let s = old(self).clusters();
                let p = old(self).position();
                let differs = |e2: int| exists|k: int| e2 - n + 1 <= k <= e2 && s[k]@ != g@;
                if n == 0 {
                    r is None && final(self).position() == p
                } else {
                    match r {
                        Some((o, x)) => exists|e: int|
                            p + n - 1 <= e < s.len() && (forall|k: int|
                                e - n + 1 <= k <= e ==> (#[trigger] s[k])@ == g@) && o == old(
                                self).offset(e) && x == s[e] && (forall|e2: int|
                                p + n - 1 <= e2 < e ==> #[trigger] differs(e2)) && final(self).position()
                                == e + 1,
                        None => (forall|e2: int| p + n - 1 <= e2 < s.len() ==> #[trigger] differs(e2))
                            && final(self).position() == s.len(),
                    }
                }
            }),
    {
        let f = |x: &str| -> (b: bool) ensures b == (x@ == g@) { str_eq(x, g) };
        let r = self.find_consecutive_by(f, n);
        proof {
            let s = old(self).clusters();
            let p = old(self).position();
            let differs = |e2: int| exists|k: int| e2 - n + 1 <= k <= e2 && s[k]@ != g@;
            assert forall|e2: int| 0 <= e2 - n + 1 && e2 < s.len() && #[trigger] window_fails_g(s, e2, n as int, f) implies differs(e2) by {
                let k = choose|k: int| e2 - n + 1 <= k <= e2 && fails_g(f, s[k]);
                assert(s[k]@ != g@);
            }
            if n > 0 {
                if r is None {
                    assert forall|e2: int| p + n - 1 <= e2 < s.len() implies #[trigger] differs(e2) by {
                        assert(window_fails_g(s, e2, n as int, f));
                    }
                }
                if let Some((o, x)) = r {
                    let e = choose|e: int|
                        p + n - 1 <= e < s.len() && all_hold_g(
                            s,
                            e - n + 1,
                            e + 1,
                            |x: &str| holds_g(f, x),
                        ) && o == old(self).offset(e) && x == s[e] && (forall|e2: int|
                            p + n - 1 <= e2 < e ==> #[trigger] window_fails_g(s, e2, n as int, f))
                            && final(self).position() == e + 1;
                    assert forall|k: int| e - n + 1 <= k <= e implies (#[trigger] s[k])@ == g@ by {
                        let q = |x: &str| holds_g(f, x);
                        assert(q(s[k]));
                    }
                    assert forall|e2: int| p + n - 1 <= e2 < e implies #[trigger] differs(e2) by {
                        assert(window_fails_g(s, e2, n as int, f));
                    }
                }
            }
        }
        r
    }
}

/// The char offset of a cluster is at most the length of the text.
pub proof fn lemma_offset_bound(gs: Seq<&str>, k: int)
    requires
        0 <= k <= gs.len(),
    ensures
        cluster_offset(gs, k) <= cluster_offset(gs, gs.len() as int),
        cluster_offset(gs, gs.len() as int) == strs_view(gs).flatten().len(),
    decreases gs.len() - k,
{
    assert(gs.take(gs.len() as int) =~= gs);
    if k < gs.len() {
        lemma_offset_bound(gs, k + 1);
        let a = strs_view(gs.take(k));
        assert(strs_view(gs.take(k + 1)) =~= a.push(gs[k]@));
        a.lemma_flatten_push(gs[k]@);
    }
}

/// Cluster `k` of `gs` takes as many bytes of their text as it has.
pub proof fn lemma_cluster_bytes(gs: Seq<&str>, k: int)
    requires
        0 <= k < gs.len(),
    ensures
        byte_offset(strs_view(gs).flatten(), cluster_offset(gs, k + 1)) == byte_offset(
            strs_view(gs).flatten(),
            cluster_offset(gs, k),
        ) + byte_len(gs[k]@),
{
    let a = strs_view(gs.take(k));
    let piece = gs[k]@;
    let rest = strs_view(gs.skip(k + 1));
    let text = strs_view(gs).flatten();
    assert(strs_view(gs.take(k + 1)) =~= a.push(piece));
    a.lemma_flatten_push(piece);
    assert(strs_view(gs) =~= a.push(piece) + rest);
    vstd::seq_lib::lemma_flatten_concat(a.push(piece), rest);
    assert(text.take(cluster_offset(gs, k)) =~= a.flatten());
    assert(text.take(cluster_offset(gs, k + 1)) =~= a.flatten() + piece);
    lemma_encode_concat(a.flatten(), piece);
}

/// The clusters that unicode-segmentation cuts `text` into.
pub open spec fn grapheme_clusters_of(text: Seq<char>) -> Seq<Seq<char>> {
    crate::text::grapheme_clusters(text)
}

} // verus!
