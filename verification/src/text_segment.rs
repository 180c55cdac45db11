//! A line of text made of styled pieces, aligned in its area when drawn.
use vstd::prelude::*;
use vstd::string::StrSliceExecFns;

use crate::ansi::write_args;
use crate::formatting::{format_int, signed_decimal};
use crate::geometry::Rect;
use crate::markup::{sat_sub, Alignment};
use crate::style::Style;
use crate::text::{display_width, push_str, str_width, string_push};

verus! {

/// What unicode-width's `UnicodeWidthChar::width` gives `c`.
pub uninterp spec fn char_display_width(c: char) -> Option<usize>;

/// unicode-width's `UnicodeWidthChar::width`: the columns that `c` takes, or
/// nothing for a control char. The tables are not stated here: the result is
/// named `char_display_width`, of the char alone.
#[verifier::external_body]
fn char_width(c: char) -> (w: Option<usize>)
    ensures
        w == char_display_width(c),
{
    unicode_width::UnicodeWidthChar::width(c)
}

/// The columns a char adds to a segment: its width, or none.
pub open spec fn char_columns(c: char) -> int {
    match char_display_width(c) {
        Some(w) => w as int,
        None => 0,
    }
}

/// `a + b`, at most `usize::MAX`.
pub open spec fn sat_add(a: int, b: int) -> int {
    if a + b <= usize::MAX {
        a + b
    } else {
        usize::MAX as int
    }
}

/// The text of pieces, one after the other.
pub open spec fn pieces_text(p: Seq<(Seq<char>, Style)>) -> Seq<char>
    decreases p.len(),
{
    if p.len() == 0 {
        Seq::empty()
    } else {
        pieces_text(p.drop_last()) + p.last().0
    }
}

/// The text of the pieces from the `i`-th on.
pub open spec fn pieces_text_from(p: Seq<(Seq<char>, Style)>, i: int) -> Seq<char> {
    pieces_text(p.subrange(i, p.len() as int))
}

proof fn lemma_pieces_text_concat(a: Seq<(Seq<char>, Style)>, b: Seq<(Seq<char>, Style)>)
    ensures
        pieces_text(a + b) == pieces_text(a) + pieces_text(b),
    decreases b.len(),
{
    if b.len() == 0 {
        assert(a + b =~= a);
        assert(pieces_text(a) + pieces_text(b) =~= pieces_text(a));
    } else {
        lemma_pieces_text_concat(a, b.drop_last());
        assert((a + b).drop_last() =~= a + b.drop_last());
        assert((a + b).last() == b.last());
        assert(pieces_text(a + b) =~= pieces_text(a) + pieces_text(b));
    }
}

proof fn lemma_pieces_text_from(p: Seq<(Seq<char>, Style)>, i: int)
    requires
        0 <= i < p.len(),
    ensures
        pieces_text(p) == pieces_text(p.subrange(0, i)) + p[i].0 + pieces_text_from(p, i + 1),
        pieces_text(p.subrange(0, i + 1)) == pieces_text(p.subrange(0, i)) + p[i].0,
{
    let a = p.subrange(0, i);
    let b = p.subrange(i + 1, p.len() as int);
    let one = seq![p[i]];
    assert(p =~= (a + one) + b);
    lemma_pieces_text_concat(a + one, b);
    lemma_pieces_text_concat(a, one);
    assert(one.drop_last() =~= Seq::<(Seq<char>, Style)>::empty());
    assert(one.last() == p[i]);
    assert(pieces_text(Seq::<(Seq<char>, Style)>::empty()) == Seq::<char>::empty());
    assert(pieces_text(one) == pieces_text(one.drop_last()) + one.last().0);
    assert(pieces_text(one) =~= p[i].0);
    assert(p.subrange(0, i + 1) =~= a + one);
}

/// The pieces of `items` whose text is not empty.
pub open spec fn nonempty_items(items: Seq<(&str, Style)>) -> Seq<(Seq<char>, Style)>
    decreases items.len(),
{
    if items.len() == 0 {
        Seq::empty()
    } else {
        let last = items.last();
        nonempty_items(items.drop_last()) + if last.0@.len() > 0 {
            seq![(last.0@, last.1)]
        } else {
            Seq::empty()
        }
    }
}

/// The columns of the texts of `items` that are not empty.
pub open spec fn items_columns(items: Seq<(&str, Style)>) -> int
    decreases items.len(),
{
    if items.len() == 0 {
        0
    } else {
        let last = items.last();
        items_columns(items.drop_last()) + if last.0@.len() > 0 {
            display_width(last.0@) as int
        } else {
            0
        }
    }
}

proof fn lemma_items_columns_nonneg(items: Seq<(&str, Style)>)
    ensures
        items_columns(items) >= 0,
    decreases items.len(),
{
    if items.len() > 0 {
        lemma_items_columns_nonneg(items.drop_last());
    }
}

/// A line of styled pieces of text, with the columns they take and how the
/// line is aligned. Empty pieces are not kept.
pub struct TextSegment {
    text: String,
    segments: Vec<(usize, Style)>,
    alignment: Alignment,
    total_width: usize,
    pieces: Ghost<Seq<(Seq<char>, Style)>>,
}

impl TextSegment {
    /// The pieces, each with its style.
    pub closed spec fn pieces(&self) -> Seq<(Seq<char>, Style)> {
        self.pieces@
    }

    /// The columns the pieces take, as they were counted when added.
    pub closed spec fn columns(&self) -> int {
        self.total_width as int
    }

    pub closed spec fn alignment(&self) -> Alignment {
        self.alignment
    }

    pub closed spec fn wf(&self) -> bool {
        &&& self.text@ == pieces_text(self.pieces@)
        &&& self.seg_wf()
    }

    /// The lengths and styles of the segments are those of the pieces, and
    /// no piece is empty.
    closed spec fn seg_wf(&self) -> bool {
        &&& self.segments@.len() == self.pieces@.len()
        &&& forall|i: int|
            0 <= i < self.pieces@.len() ==> (#[trigger] self.segments@[i]).0 == self.pieces@[i].0.len()
                && self.segments@[i].1 == self.pieces@[i].1 && self.pieces@[i].0.len() > 0
    }

    pub fn new() -> (s: Self)
        ensures
            s.wf(),
            s.pieces() == Seq::<(Seq<char>, Style)>::empty(),
            s.columns() == 0,
            s.alignment() == Alignment::Left,
    {
        TextSegment {
            text: String::new(),
            segments: Vec::new(),
            alignment: Alignment::Left,
            total_width: 0,
            pieces: Ghost(Seq::empty()),
        }
    }

    pub fn with_alignment(self, alignment: Alignment) -> (s: Self)
        requires
            self.wf(),
        ensures
            s.wf(),
            s.pieces() == self.pieces(),
            s.columns() == self.columns(),
            s.alignment() == alignment,
    {
        let mut s = self;
        s.alignment = alignment;
        s
    }

    pub fn set_alignment(&mut self, alignment: Alignment) -> (r: &mut Self)
        requires
            old(self).wf(),
        ensures
            r.wf(),
            r.pieces() == old(self).pieces(),
            r.columns() == old(self).columns(),
            r.alignment() == alignment,
            *final(self) == *final(r),
    {
        self.alignment = alignment;
        self
    }

    pub fn is_empty(&self) -> (b: bool)
        requires
            self.wf(),
        ensures
            b == (pieces_text(self.pieces()).len() == 0),
    {
        self.text.unicode_len() == 0
    }

    /// The text of all pieces.
    pub fn as_str(&self) -> (s: &str)
        requires
            self.wf(),
        ensures
            s@ == pieces_text(self.pieces()),
    {
        self.text.as_str()
    }

    /// The columns the pieces take, cut to 16 bits.
    pub fn width(&self) -> (w: u16)
        ensures
            w == self.columns() as u16,
    {
        #[verifier::truncate]
        (self.total_width as u16)
    }

    /// Adds the text written since `start` as one piece, when there is any.
    fn push_segment(&mut self, start: usize, style: Style)
        requires
            old(self).seg_wf(),
            start <= old(self).text@.len(),
            old(self).text@.subrange(0, start as int) == pieces_text(old(self).pieces@),
        ensures
            final(self).wf(),
            final(self).alignment() == old(self).alignment(),
            start == old(self).text@.len() ==> final(self).pieces() == old(self).pieces() && final(self).columns() == old(self).columns() && final(self).text@ == old(self).text@,
            start < old(self).text@.len() ==> {
                let piece = old(self).text@.subrange(start as int, old(self).text@.len() as int);
                &&& final(self).pieces() == old(self).pieces().push((piece, style))
                &&& final(self).columns() == sat_add(old(self).columns(), display_width(piece) as int)
            },
    {
        let len = self.text.unicode_len();
        if start >= len {
            proof {
                assert(self.text@ =~= self.text@.subrange(0, start as int));
            }
            return;
        }
        let piece = self.text.as_str().substring_char(start, len);
        let w = str_width(piece);
        let ghost p = piece@;
        self.segments.push((len - start, style));
        self.total_width = self.total_width.saturating_add(w);
        proof {
            let np = self.pieces@.push((p, style));
            assert(np.drop_last() =~= self.pieces@);
            assert(self.text@ =~= self.text@.subrange(0, start as int) + p);
            self.pieces@ = np;
        }
    }

    /// Adds `text` as a piece in `style`; nothing when it is empty.
    pub fn push_str(&mut self, text: &str, style: Style)
        requires
            old(self).wf(),
        ensures
            final(self).wf(),
            final(self).alignment() == old(self).alignment(),
            text@.len() == 0 ==> final(self).pieces() == old(self).pieces() && final(self).columns() == old(self).columns(),
            text@.len() > 0 ==> final(self).pieces() == old(self).pieces().push((text@, style))
                && final(self).columns() == sat_add(old(self).columns(), display_width(text@) as int),
    {
        if text.unicode_len() == 0 {
            return;
        }
        let start = self.text.unicode_len();
        push_str(&mut self.text, text);
        proof {
            assert(self.text@.subrange(0, start as int) =~= old(self).text@);
            assert(self.text@.subrange(start as int, self.text@.len() as int) =~= text@);
        }
        self.push_segment(start, style);
    }

    /// Adds one char as a piece in `style`; it adds its width, or nothing
    /// for a control char.
    pub fn push_char(&mut self, ch: char, style: Style)
        requires
            old(self).wf(),
        ensures
            final(self).wf(),
            final(self).alignment() == old(self).alignment(),
            final(self).pieces() == old(self).pieces().push((seq![ch], style)),
            final(self).columns() == sat_add(old(self).columns(), char_columns(ch)),
    {
        string_push(&mut self.text, ch);
        self.segments.push((1, style));
        let w = match char_width(ch) {
            Some(w) => w,
            None => 0,
        };
        self.total_width = self.total_width.saturating_add(w);
        proof {
            let np = self.pieces@.push((seq![ch], style));
            assert(np.drop_last() =~= self.pieces@);
            assert(pieces_text(np) == pieces_text(np.drop_last()) + np.last().0);
            assert(pieces_text(np) =~= self.text@);
            self.pieces@ = np;
        }
    }

    /// Adds the chars as one piece in `style`; nothing when there are none.
    pub fn push_chars(&mut self, chars: &[char], style: Style)
        requires
            old(self).wf(),
        ensures
            final(self).wf(),
            final(self).alignment() == old(self).alignment(),
            chars@.len() == 0 ==> final(self).pieces() == old(self).pieces() && final(self).columns() == old(self).columns(),
            chars@.len() > 0 ==> final(self).pieces() == old(self).pieces().push((chars@, style))
                && final(self).columns() == sat_add(old(self).columns(), display_width(chars@) as int),
    {
        let start = self.text.unicode_len();
        let mut i: usize = 0;
        while i < chars.len()
            invariant
                start == old(self).text@.len(),
                i <= chars@.len(),
                self.text@ == old(self).text@ + chars@.subrange(0, i as int),
                self.segments == old(self).segments,
                self.pieces == old(self).pieces,
                self.total_width == old(self).total_width,
                self.alignment == old(self).alignment,
            decreases chars@.len() - i,
        {
            string_push(&mut self.text, chars[i]);
            proof {
                assert(chars@.subrange(0, i + 1) =~= chars@.subrange(0, i as int).push(chars@[i as int]));
            }
            i = i + 1;
        }
        proof {
            assert(chars@.subrange(0, i as int) =~= chars@);
            assert(self.text@.subrange(0, start as int) =~= old(self).text@);
            assert(self.text@.subrange(start as int, self.text@.len() as int) =~= chars@);
        }
        self.push_segment(start, style);
    }

    /// Adds `ch` `n` times as one piece in `style`; nothing when `n` is zero.
    /// It adds `n` times the char's width.
    pub fn repeat_char(&mut self, ch: char, n: usize, style: Style)
        requires
            old(self).wf(),
        ensures
            final(self).wf(),
            final(self).alignment() == old(self).alignment(),
            n == 0 ==> final(self).pieces() == old(self).pieces() && final(self).columns() == old(self).columns(),
            n > 0 ==> final(self).pieces() == old(self).pieces().push((Seq::new(n as nat, |i: int| ch), style))
                && final(self).columns() == sat_add(old(self).columns(), n * char_columns(ch)),
    {
        if n == 0 {
            return;
        }
        let mut i: usize = 0;
        let ghost rep = Seq::new(n as nat, |i: int| ch);
        while i < n
            invariant
                i <= n,
                rep == Seq::new(n as nat, |i: int| ch),
                self.text@ == old(self).text@ + rep.subrange(0, i as int),
                self.segments == old(self).segments,
                self.pieces == old(self).pieces,
                self.total_width == old(self).total_width,
                self.alignment == old(self).alignment,
            decreases n - i,
        {
            string_push(&mut self.text, ch);
            proof {
                assert(rep.subrange(0, i + 1) =~= rep.subrange(0, i as int).push(ch));
            }
            i = i + 1;
        }
        proof {
            assert(rep.subrange(0, n as int) =~= rep);
            assert(self.text@.drop_last() == old(self).text@ + rep.drop_last()) by {
                assert(self.text@.drop_last() =~= old(self).text@ + rep.drop_last());
            }
        }
        self.segments.push((n, style));
        let w = match char_width(ch) {
            Some(w) => w,
            None => 0,
        };
        let add = match n.checked_mul(w) {
            Some(m) => m,
            None => usize::MAX,
        };
        proof {
            assert(0 <= n * char_columns(ch)) by (nonlinear_arith)
                requires
                    0 <= char_columns(ch),
            ;
            assert(n * w == n * char_columns(ch));
        }
        self.total_width = self.total_width.saturating_add(add);
        proof {
            let np = self.pieces@.push((rep, style));
            assert(np.drop_last() =~= self.pieces@);
            assert(self.text@ =~= pieces_text(self.pieces@) + rep);
            self.pieces@ = np;
        }
    }

    /// Adds the slices, one after the other, as one piece in `style`; nothing
    /// when they are all empty.
    pub fn push_str_iter(&mut self, slices: &[&str], style: Style)
        requires
            old(self).wf(),
        ensures
            final(self).wf(),
            final(self).alignment() == old(self).alignment(),
            ({
                let all = slices@.map_values(|s: &str| s@).flatten();
                &&& all.len() == 0 ==> final(self).pieces() == old(self).pieces() && final(self).columns()
                    == old(self).columns()
                &&& all.len() > 0 ==> final(self).pieces() == old(self).pieces().push((all, style))
                    && final(self).columns() == sat_add(old(self).columns(), display_width(all) as int)
            }),
    {
        let start = self.text.unicode_len();
        let ghost views = slices@.map_values(|s: &str| s@);
        let mut i: usize = 0;
        while i < slices.len()
            invariant
                start == old(self).text@.len(),
                i <= slices@.len(),
                views == slices@.map_values(|s: &str| s@),
                self.text@ == old(self).text@ + views.subrange(0, i as int).flatten(),
                self.segments == old(self).segments,
                self.pieces == old(self).pieces,
                self.total_width == old(self).total_width,
                self.alignment == old(self).alignment,
            decreases slices@.len() - i,
        {
            push_str(&mut self.text, slices[i]);
            proof {
                let a = views.subrange(0, i as int);
                assert(views.subrange(0, i + 1) =~= a.push(slices@[i as int]@));
                a.lemma_flatten_push(slices@[i as int]@);
            }
            i = i + 1;
        }
        proof {
            assert(views.subrange(0, i as int) =~= views);
            assert(self.text@.subrange(0, start as int) =~= old(self).text@);
            assert(self.text@.subrange(start as int, self.text@.len() as int) =~= views.flatten());
        }
        self.push_segment(start, style);
    }

    /// Adds the decimal text of `n`, with a minus sign when it is negative,
    /// as a piece in `style`.
    pub fn push_int(&mut self, n: i128, style: Style)
        requires
            old(self).wf(),
        ensures
            final(self).wf(),
            final(self).alignment() == old(self).alignment(),
            final(self).pieces() == old(self).pieces().push((signed_decimal(n as int), style)),
            final(self).columns() == sat_add(old(self).columns(), display_width(signed_decimal(n as int)) as int),
    {
        let digits = format_int(n);
        proof {
            if n < 0 {
                crate::decimal::lemma_decimal((-n) as nat);
            } else {
                crate::decimal::lemma_decimal(n as nat);
            }
        }
        self.push_str(digits.as_str(), style);
    }

    /// Adds what `args` formats to as a piece in `style`, when it is not
    /// empty, with the columns it takes (the count stays at `usize::MAX` at
    /// most). What it formats to depends on the `Display` impls of the
    /// arguments and is not stated.
    pub fn push_fmt(&mut self, args: std::fmt::Arguments<'_>, style: Style)
        requires
            old(self).wf(),
        ensures
            final(self).wf(),
            final(self).alignment() == old(self).alignment(),
            pieces_text(old(self).pieces()).is_prefix_of(pieces_text(final(self).pieces())),
            ({
                let before = pieces_text(old(self).pieces());
                let after = pieces_text(final(self).pieces());
                let added = after.subrange(before.len() as int, after.len() as int);
                &&& added.len() == 0 ==> final(self).pieces() == old(self).pieces() && final(self).columns()
                    == old(self).columns()
                &&& added.len() > 0 ==> final(self).pieces() == old(self).pieces().push((added, style))
                    && final(self).columns() == sat_add(old(self).columns(), display_width(added) as int)
            }),
    {
        let start = self.text.unicode_len();
        write_args(&mut self.text, args);
        let len = self.text.unicode_len();
        if start >= len {
            proof {
                assert(self.text@ =~= old(self).text@);
                assert(pieces_text(self.pieces@).subrange(
                    pieces_text(old(self).pieces()).len() as int,
                    pieces_text(self.pieces@).len() as int,
                ).len() == 0);
            }
            return;
        }
        let piece = self.text.as_str().substring_char(start, len);
        let w = str_width(piece);
        let ghost q = piece@;
        self.segments.push((len - start, style));
        self.total_width = self.total_width.saturating_add(w);
        proof {
            let np = self.pieces@.push((q, style));
            assert(np.drop_last() =~= self.pieces@);
            assert(self.text@.subrange(0, start as int) =~= old(self).text@);
            assert(self.text@ =~= self.text@.subrange(0, start as int) + q);
            self.pieces@ = np;
            assert(pieces_text(np) == old(self).text@ + q);
            assert(pieces_text(np).subrange(old(self).text@.len() as int, pieces_text(np).len() as int) =~= q);
        }
    }

    /// Adds each text as a piece in its style, skipping empty ones.
    pub fn extend(&mut self, items: &[(&str, Style)])
        requires
            old(self).wf(),
        ensures
            final(self).wf(),
            final(self).alignment() == old(self).alignment(),
            final(self).pieces() == old(self).pieces() + nonempty_items(items@),
            final(self).columns() == sat_add(old(self).columns(), items_columns(items@)),
    {
        let mut i: usize = 0;
        while i < items.len()
            invariant
                self.wf(),
                i <= items@.len(),
                self.alignment() == old(self).alignment(),
                self.pieces() == old(self).pieces() + nonempty_items(items@.subrange(0, i as int)),
                self.columns() == sat_add(old(self).columns(), items_columns(items@.subrange(0, i as int))),
                0 <= old(self).columns(),
            decreases items@.len() - i,
        {
            let (t, st) = items[i];
            proof {
                let a = items@.subrange(0, i as int);
                assert(items@.subrange(0, i + 1).drop_last() =~= a);
                lemma_items_columns_nonneg(a);
            }
            self.push_str(t, st);
            proof {
                let a = items@.subrange(0, i + 1);
                assert(a.last() == items@[i as int]);
                assert(a.drop_last() =~= items@.subrange(0, i as int));
            }
            i = i + 1;
        }
        proof {
            assert(items@.subrange(0, i as int) =~= items@);
        }
    }

    /// Drops the last piece and the columns its text takes.
    pub fn pop(&mut self)
        requires
            old(self).wf(),
        ensures
            final(self).wf(),
            final(self).alignment() == old(self).alignment(),
            old(self).pieces().len() == 0 ==> final(self).pieces() == old(self).pieces() && final(self).columns()
                == old(self).columns(),
            old(self).pieces().len() > 0 ==> final(self).pieces() == old(self).pieces().drop_last()
                && final(self).columns() == sat_sub(old(self).columns(), display_width(old(self).pieces().last().0) as int),
    {
        if let Some((len, _)) = self.segments.pop() {
            let n = self.text.unicode_len();
            proof {
                let p = old(self).pieces@;
                assert(old(self).segments@[p.len() - 1].0 == p.last().0.len());
                assert(pieces_text(p) == pieces_text(p.drop_last()) + p.last().0);
            }
            let start = n - len;
            let piece = self.text.as_str().substring_char(start, n);
            let w = str_width(piece);
            proof {
                let p = old(self).pieces@;
                assert(piece@ =~= p.last().0);
            }
            self.total_width = self.total_width.saturating_sub(w);
            let kept = self.text.as_str().substring_char(0, start);
            let mut text = String::new();
            push_str(&mut text, kept);
            self.text = text;
            proof {
                let p = old(self).pieces@;
                assert(piece@ =~= p.last().0);
                assert(self.text@ =~= pieces_text(p.drop_last()));
                self.pieces@ = p.drop_last();
            }
        }
    }

    /// Drops all pieces; the alignment stays.
    pub fn clear(&mut self)
        ensures
            final(self).wf(),
            final(self).alignment() == old(self).alignment(),
            final(self).pieces() == Seq::<(Seq<char>, Style)>::empty(),
            final(self).columns() == 0,
    {
        self.text = String::new();
        self.segments = Vec::new();
        self.total_width = 0;
        self.pieces = Ghost(Seq::empty());
    }

    /// Where the line starts when drawn in `line`: at its left edge, or moved
    /// right so that the text is centred or ends at the right edge.
    pub fn aligned(&self, line: Rect) -> (r: Rect)
        requires
            line.x + line.width <= u16::MAX,
        ensures
            r == (Rect {
                x: (line.x + match self.alignment() {
                    Alignment::Left => 0,
                    Alignment::Center => sat_sub(line.width as int, self.columns() as u16 as int) / 2,
                    Alignment::Right => sat_sub(line.width as int, self.columns() as u16 as int),
                }) as u16,
                ..line
            }),
    {
        let w = self.width();
        match self.alignment {
            Alignment::Left => line,
            Alignment::Center => Rect { x: line.x + line.width.saturating_sub(w) / 2, ..line },
            Alignment::Right => Rect { x: line.x + line.width.saturating_sub(w), ..line },
        }
    }

    /// The pieces, each with its style, to be drawn one after the other.
    pub fn segments(&self) -> (r: Vec<(&str, Style)>)
        requires
            self.wf(),
        ensures
            r@.map_values(|p: (&str, Style)| (p.0@, p.1)) == self.pieces(),
    {
        let mut r: Vec<(&str, Style)> = Vec::new();
        let mut start: usize = 0;
        let mut i: usize = 0;
        let total = self.text.unicode_len();
        let ghost p = self.pieces@;
        proof {
            assert(p.subrange(0, 0) =~= Seq::<(Seq<char>, Style)>::empty());
        }
        while i < self.segments.len()
            invariant
                self.wf(),
                p == self.pieces@,
                total == self.text@.len(),
                i <= p.len(),
                r@.len() == i,
                start == pieces_text(p.subrange(0, i as int)).len(),
                forall|j: int| 0 <= j < i ==> (#[trigger] r@[j]).0@ == p[j].0 && r@[j].1 == p[j].1,
            decreases p.len() - i,
        {
            let (len, st) = self.segments[i];
            proof {
                lemma_pieces_text_from(p, i as int);
                assert(self.segments@[i as int].0 == p[i as int].0.len());
                assert(self.text@.subrange(start as int, start + len) =~= p[i as int].0);
            }
            let piece = self.text.as_str().substring_char(start, start + len);
            r.push((piece, st));
            start = start + len;
            i = i + 1;
        }
        proof {
            assert(r@.map_values(|q: (&str, Style)| (q.0@, q.1)) =~= p);
        }
        r
    }
}

} // verus!
