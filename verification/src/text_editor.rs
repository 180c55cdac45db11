//! A text editor of several lines: editing with a cursor and a selection,
//! and the text laid out in visual lines that wrap at the width of the view.
//! Positions count chars.
use vstd::prelude::*;
use vstd::string::StrSliceExecFns;

use crate::ansi::{filled_in_place, AnsiWriter};
use crate::blocks::nl;
use crate::geometry::{Rect, Size};
use crate::hash::hash_fast;
use crate::keys::Key;
use crate::markup::{min_of, sat_sub};
use crate::scroll::{scroll_with_margins, Scrollbar};
use crate::style::Color;
use crate::text::{display_width, grapheme_clusters, graphemes_of, splice, str_contains, str_eq, str_width, strs_view, string_push};
use crate::text_input::{
    deleted, deleted_selection, lemma_clusters_fit, moved_selector, next_len, prev_len, sel_range, CursorDelete,
    CursorMove, InputState,
};

verus! {

/// The columns a grapheme cluster takes: four for a tab, else its display
/// width (cut to 16 bits).
pub open spec fn gwidth(g: Seq<char>) -> int {
    if g == seq!['\t'] {
        4
    } else {
        (display_width(g) as u16) as int
    }
}

/// The columns of clusters, one after the other.
pub open spec fn widths_sum(gs: Seq<Seq<char>>) -> int
    decreases gs.len(),
{
    if gs.len() == 0 {
        0
    } else {
        widths_sum(gs.drop_last()) + gwidth(gs.last())
    }
}

/// The columns of a text: those of its grapheme clusters, at most `u16::MAX`.
pub open spec fn text_width(s: Seq<char>) -> int {
    min_of(widths_sum(grapheme_clusters(s)), u16::MAX as int)
}

proof fn lemma_widths_sum_nonneg(gs: Seq<Seq<char>>)
    ensures
        widths_sum(gs) >= 0,
    decreases gs.len(),
{
    if gs.len() > 0 {
        lemma_widths_sum_nonneg(gs.drop_last());
    }
}

/// The columns of one grapheme cluster; see `gwidth`.
fn grapheme_width(g: &str) -> (w: u16)
    ensures
        w == gwidth(g@),
{
    proof {
        reveal_strlit("\t");
        assert("\t"@ =~= seq!['\t']);
    }
    if str_eq(g, "\t") {
        4
    } else {
        #[verifier::truncate]
        (str_width(g) as u16)
    }
}

/// Clusters as drawn.
pub open spec fn rendered_clusters(gs: Seq<Seq<char>>) -> Seq<Seq<char>> {
    gs.map_values(|g: Seq<char>| grapheme_render(g))
}

/// What a grapheme cluster is drawn as: a tab as four spaces.
pub open spec fn grapheme_render(g: Seq<char>) -> Seq<char> {
    if g == seq!['\t'] {
        seq![' ', ' ', ' ', ' ']
    } else {
        g
    }
}

fn render_grapheme<'a>(g: &'a str) -> (r: &'a str)
    ensures
        r@ == grapheme_render(g@),
{
    proof {
        reveal_strlit("\t");
        reveal_strlit("    ");
        assert("\t"@ =~= seq!['\t']);
        assert("    "@ =~= seq![' ', ' ', ' ', ' ']);
    }
    if str_eq(g, "\t") {
        "    "
    } else {
        g
    }
}

/// The columns of a text; see `text_width`.
fn text_width_of(s: &str) -> (w: u16)
    ensures
        w == text_width(s@),
{
    let gs = graphemes_of(s);
    let ghost v = strs_view(gs@);
    let mut total: u32 = 0;
    let mut i: usize = 0;
    while i < gs.len()
        invariant
            v == strs_view(gs@),
            v == grapheme_clusters(s@),
            i <= gs@.len(),
            total == min_of(widths_sum(v.take(i as int)), u16::MAX as int),
        decreases gs@.len() - i,
    {
        let w = grapheme_width(gs[i]);
        proof {
            assert(v.take(i + 1).drop_last() =~= v.take(i as int));
            assert(v.take(i + 1).last() == gs@[i as int]@);
            lemma_widths_sum_nonneg(v.take(i as int));
        }
        let sum = total + w as u32;
        total = if sum > u16::MAX as u32 {
            u16::MAX as u32
        } else {
            sum
        };
        i = i + 1;
    }
    proof {
        assert(v.take(i as int) =~= v);
    }
    total as u16
}

/// The visual lines of the clusters from `gs[k]` on, the `k`-th starting at
/// char `off`, the line being laid out starting at `start` with `column`
/// columns taken; each line is the range of chars it holds. A line ends
/// after a line break, or before a cluster that would take it past
/// `max_width` columns; the last line ends with the text.
pub open spec fn lines_from(gs: Seq<Seq<char>>, k: int, off: int, start: int, column: int, max_width: int) -> Seq<
    (int, int),
>
    decreases gs.len() - k,
{
    if k < 0 || k >= gs.len() {
        seq![(start, off)]
    } else {
        let g = gs[k];
        let next = off + g.len();
        if nl(g) {
            seq![(start, next)] + lines_from(gs, k + 1, next, next, 0, max_width)
        } else if column + gwidth(g) > max_width {
            seq![(start, off)] + lines_from(gs, k + 1, next, off, gwidth(g), max_width)
        } else {
            lines_from(gs, k + 1, next, start, column + gwidth(g), max_width)
        }
    }
}

/// The visual lines of a text at a width of `max_width` columns, each as its
/// range of chars and its columns.
pub open spec fn layout_lines(text: Seq<char>, max_width: int) -> Seq<(int, int, int)> {
    lines_from(grapheme_clusters(text), 0, 0, 0, 0, max_width).map_values(
        |r: (int, int)| (r.0, r.1, text_width(text.subrange(r.0, r.1))),
    )
}

/// The first line from the `k`-th on that ends after `index`, or the number
/// of lines.
pub open spec fn first_after(lines: Seq<(int, int, int)>, index: int, k: int) -> int
    decreases lines.len() - k,
{
    if k < 0 || k >= lines.len() {
        lines.len() as int
    } else if lines[k].1 > index {
        k
    } else {
        first_after(lines, index, k + 1)
    }
}

/// The line that holds `index`: the first that ends after it, or the last.
pub open spec fn row_of_index(lines: Seq<(int, int, int)>, index: int) -> int {
    min_of(first_after(lines, index, 0), sat_sub(lines.len() as int, 1))
}

/// The column and line of `index` in the laid-out text: the columns of its
/// line's text before it (the index kept within the line), and the line; at
/// the origin while nothing is laid out.
pub open spec fn position_of(ansi: Seq<char>, lines: Seq<(int, int, int)>, index: int) -> (int, int) {
    if lines.len() == 0 {
        (0, 0)
    } else {
        let row = row_of_index(lines, index);
        let line = lines[row];
        let to = if index < line.0 {
            line.0
        } else if index > line.1 {
            line.1
        } else {
            index
        };
        (text_width(ansi.subrange(line.0, to)), row)
    }
}

/// The index that the clusters from `gs[k]` on (the `k`-th at char `off`)
/// reach from column `column` without passing column `target` nor a line
/// break; `index` when the next one does not fit.
pub open spec fn index_at_column(gs: Seq<Seq<char>>, k: int, off: int, column: int, index: int, target: int) -> int
    decreases gs.len() - k,
{
    if k < 0 || k >= gs.len() {
        index
    } else {
        let g = gs[k];
        if nl(g) || column + gwidth(g) > target {
            index
        } else {
            index_at_column(gs, k + 1, off + g.len(), column + gwidth(g), off + g.len(), target)
        }
    }
}

/// The index in line `row` that column `target` comes to: the end of the
/// last cluster that fits before it.
pub open spec fn column_index(ansi: Seq<char>, lines: Seq<(int, int, int)>, row: int, target: int) -> int {
    let line = lines[row];
    index_at_column(grapheme_clusters(ansi.subrange(line.0, line.1)), 0, line.0, 0, line.0, target)
}

/// A visual line: the range of chars it holds and its columns.
#[derive(Debug, Clone, Copy, PartialEq, Eq, Structural)]
pub struct VisualLine {
    pub start: usize,
    pub end: usize,
    pub width: u16,
}

/// The views of visual lines.
pub open spec fn lines_view(v: Seq<VisualLine>) -> Seq<(int, int, int)> {
    v.map_values(|l: VisualLine| (l.start as int, l.end as int, l.width as int))
}

proof fn lemma_lines_push(v: Seq<VisualLine>, l: VisualLine)
    ensures
        lines_view(v.push(l)) == lines_view(v).push((l.start as int, l.end as int, l.width as int)),
{
    assert(lines_view(v.push(l)) =~= lines_view(v).push((l.start as int, l.end as int, l.width as int)));
}

/// The length of the grapheme cluster of `s` after `cursor`; see `next_len`.
pub fn next_len_of(s: &str, cursor: usize) -> (n: usize)
    requires
        cursor <= s@.len(),
    ensures
        n == next_len(s@, cursor as int),
        cursor + n <= s@.len(),
        cursor < s@.len() ==> n >= 1,
{
    let len = s.unicode_len();
    if cursor < len {
        let suffix = s.substring_char(cursor, len);
        let gs = graphemes_of(suffix);
        proof {
            let v = strs_view(gs@);
            assert forall|i: int| 0 <= i < v.len() implies (#[trigger] v[i]).len() > 0 by {
                assert(v[i] == gs@[i]@);
            }
            lemma_clusters_fit(suffix@, v);
            assert(v[0] == gs@[0]@);
        }
        gs[0].unicode_len()
    } else {
        0
    }
}

/// The length of the grapheme cluster of `s` before `cursor`; see `prev_len`.
pub fn prev_len_of(s: &str, cursor: usize) -> (n: usize)
    requires
        cursor <= s@.len(),
    ensures
        n == prev_len(s@, cursor as int),
        n <= cursor,
        cursor > 0 ==> n >= 1,
{
    if cursor > 0 {
        let prefix = s.substring_char(0, cursor);
        let gs = graphemes_of(prefix);
        proof {
            let v = strs_view(gs@);
            assert forall|i: int| 0 <= i < v.len() implies (#[trigger] v[i]).len() > 0 by {
                assert(v[i] == gs@[i]@);
            }
            lemma_clusters_fit(prefix@, v);
            assert(v.last() == gs@[gs@.len() - 1]@);
        }
        let k = gs.len() - 1;
        gs[k].unicode_len()
    } else {
        0
    }
}

/// The visual lines of `text` at `max_width` columns; see `layout_lines`.
fn lay_out(text: &str, max_width: u16) -> (r: Vec<VisualLine>)
    ensures
        lines_view(r@) == layout_lines(text@, max_width as int),
        forall|i: int| 0 <= i < r@.len() ==> (#[trigger] r@[i]).start <= r@[i].end <= text@.len(),
{
    let gs = graphemes_of(text);
    let ghost v = strs_view(gs@);
    let ghost mw = max_width as int;
    let ghost whole = lines_from(v, 0, 0, 0, 0, mw);
    let ghost ranges = Seq::<(int, int)>::empty();
    let len = text.unicode_len();
    let mut out: Vec<VisualLine> = Vec::new();
    let mut start: usize = 0;
    let mut off: usize = 0;
    let mut column: u64 = 0;
    let mut k: usize = 0;
    proof {
        assert(v.take(0).flatten() =~= Seq::<char>::empty());
    }
    while k < gs.len()
        invariant
            v == strs_view(gs@),
            v == grapheme_clusters(text@),
            v.flatten() == text@,
            forall|i: int| 0 <= i < gs@.len() ==> (#[trigger] gs@[i])@.len() > 0,
            len == text@.len(),
            mw == max_width,
            k <= gs@.len(),
            off == v.take(k as int).flatten().len(),
            start <= off <= len,
            column <= u16::MAX as u64 * 2,
            whole == lines_from(v, 0, 0, 0, 0, mw),
            ranges + lines_from(v, k as int, off as int, start as int, column as int, mw) == whole,
            lines_view(out@) == ranges.map_values(
                |r: (int, int)| (r.0, r.1, text_width(text@.subrange(r.0, r.1))),
            ),
            forall|i: int| 0 <= i < ranges.len() ==> 0 <= (#[trigger] ranges[i]).0 <= ranges[i].1 <= len,
            out@.len() == ranges.len(),
            forall|i: int| 0 <= i < out@.len() ==> (#[trigger] out@[i]).start <= out@[i].end <= len,
        decreases gs@.len() - k,
    {
        let g = gs[k];
        proof {
            v.take(k as int).lemma_flatten_push(v[k as int]);
            assert(v.take(k + 1) =~= v.take(k as int).push(v[k as int]));
            crate::graphemes::lemma_offset_bound(gs@, k + 1);
            assert(v[k as int] == g@);
            assert(strs_view(gs@.take(k + 1)) =~= v.take(k + 1));
            assert(crate::graphemes::cluster_offset(gs@, k + 1) == off + g@.len());
            assert(crate::graphemes::cluster_offset(gs@, gs@.len() as int) == len);
        }
        let glen = g.unicode_len();
        let next = off + glen;
        if str_contains(g, '\n') {
            let piece = text.substring_char(start, next);
            let l = VisualLine { start, end: next, width: text_width_of(piece) };
            proof {
                lemma_lines_push(out@, l);
                let nr = ranges.push((start as int, next as int));
                assert(nr.map_values(|r: (int, int)| (r.0, r.1, text_width(text@.subrange(r.0, r.1))))
                    =~= ranges.map_values(|r: (int, int)| (r.0, r.1, text_width(text@.subrange(r.0, r.1)))).push(
                    (start as int, next as int, text_width(text@.subrange(start as int, next as int))),
                ));
                assert(nr + lines_from(v, k + 1, next as int, next as int, 0, mw) =~= ranges + lines_from(
                    v,
                    k as int,
                    off as int,
                    start as int,
                    column as int,
                    mw,
                ));
                ranges = nr;
            }
            out.push(l);
            start = next;
            column = 0;
        } else {
            let w = grapheme_width(g) as u64;
            if column + w > max_width as u64 {
                let piece = text.substring_char(start, off);
                let l = VisualLine { start, end: off, width: text_width_of(piece) };
                proof {
                    lemma_lines_push(out@, l);
                    let nr = ranges.push((start as int, off as int));
                    assert(nr.map_values(|r: (int, int)| (r.0, r.1, text_width(text@.subrange(r.0, r.1))))
                        =~= ranges.map_values(|r: (int, int)| (r.0, r.1, text_width(text@.subrange(r.0, r.1)))).push(
                        (start as int, off as int, text_width(text@.subrange(start as int, off as int))),
                    ));
                    assert(nr + lines_from(v, k + 1, next as int, off as int, w as int, mw) =~= ranges + lines_from(
                        v,
                        k as int,
                        off as int,
                        start as int,
                        column as int,
                        mw,
                    ));
                    ranges = nr;
                }
                out.push(l);
                start = off;
                column = w;
            } else {
                column = column + w;
            }
        }
        off = next;
        k = k + 1;
    }
    let piece = text.substring_char(start, len);
    let l = VisualLine { start, end: len, width: text_width_of(piece) };
    proof {
        assert(v.take(k as int) =~= v);
        lemma_lines_push(out@, l);
        let nr = ranges.push((start as int, len as int));
        assert(nr.map_values(|r: (int, int)| (r.0, r.1, text_width(text@.subrange(r.0, r.1)))) =~= ranges.map_values(
            |r: (int, int)| (r.0, r.1, text_width(text@.subrange(r.0, r.1))),
        ).push((start as int, len as int, text_width(text@.subrange(start as int, len as int)))));
        assert(nr =~= whole);
    }
    out.push(l);
    out
}

} // verus!

verus! {

/// The colors of a text editor.
#[derive(Debug, Clone, Copy, PartialEq, Eq, Structural)]
pub struct TextEditorColors {
    pub normal: Color,
    pub cursor: Color,
    pub selector: Color,
    pub placeholder: Color,
    pub disabled: Color,
}

/// The colors an editor starts with.
pub open spec fn default_editor_colors() -> TextEditorColors {
    TextEditorColors {
        normal: Color::Reset,
        cursor: Color::White,
        selector: Color::DarkGray,
        placeholder: Color::DarkGray,
        disabled: Color::DarkGray,
    }
}

impl TextEditorColors {
    pub fn new() -> (c: Self)
        ensures
            c == default_editor_colors(),
    {
        TextEditorColors {
            normal: Color::Reset,
            cursor: Color::White,
            selector: Color::DarkGray,
            placeholder: Color::DarkGray,
            disabled: Color::DarkGray,
        }
    }

    /// The same color for everything.
    pub fn all(color: Color) -> (c: Self)
        ensures
            c == (TextEditorColors {
                normal: color,
                cursor: color,
                selector: color,
                placeholder: color,
                disabled: color,
            }),
    {
        TextEditorColors { normal: color, cursor: color, selector: color, placeholder: color, disabled: color }
    }
}

impl Default for TextEditorColors {
    fn default() -> (c: Self)
        ensures
            c == default_editor_colors(),
    {
        TextEditorColors::new()
    }
}

/// Everything a text editor holds: the text, cursor and selector, the text
/// as laid out and its visual lines, the column that moves up and down aim
/// for, the first line shown, whether it is disabled, its margins, colors and
/// placeholder, and the size and text hash of the last layout.
pub struct EditorView {
    pub text: Seq<char>,
    pub cursor: int,
    pub selector: Option<int>,
    pub ansi: Seq<char>,
    pub lines: Seq<(int, int, int)>,
    pub preferred: int,
    pub scroll: int,
    pub disabled: bool,
    pub margins: (int, int),
    pub colors: TextEditorColors,
    pub placeholder: Seq<char>,
    pub last_size: Size,
    pub last_hash: u64,
}

/// The state after deleting with the editor: with a selection (or with
/// `Selection`), the selection is deleted when it is not empty; without one,
/// the grapheme cluster after or before the cursor, if any.
pub open spec fn editor_deleted(st: InputState, cd: CursorDelete) -> (InputState, bool) {
    match cd {
        CursorDelete::Selection => deleted_selection(st),
        CursorDelete::Forward => match st.selector {
            Some(_) => deleted_selection(st),
            None => if st.cursor < st.text.len() {
                let n = next_len(st.text, st.cursor);
                (
                    InputState {
                        text: st.text.subrange(0, st.cursor) + st.text.subrange(st.cursor + n, st.text.len() as int),
                        ..st
                    },
                    true,
                )
            } else {
                (st, false)
            },
        },
        CursorDelete::Back => match st.selector {
            Some(_) => deleted_selection(st),
            None => if st.cursor > 0 {
                let n = prev_len(st.text, st.cursor);
                (
                    InputState {
                        text: st.text.subrange(0, st.cursor - n) + st.text.subrange(st.cursor, st.text.len() as int),
                        cursor: st.cursor - n,
                        ..st
                    },
                    true,
                )
            } else {
                (st, false)
            },
        },
    }
}

/// The state after inserting `t` at the cursor, in place of the selection.
pub open spec fn inserted(st: InputState, t: Seq<char>) -> InputState {
    let d = deleted_selection(st).0;
    InputState {
        text: d.text.subrange(0, d.cursor) + t + d.text.subrange(d.cursor, d.text.len() as int),
        cursor: d.cursor + t.len(),
        selector: None,
    }
}

/// A text editor of several lines.
pub struct TextEditor {
    input: String,
    cursor: usize,
    selector: Option<usize>,
    placeholder: &'static str,
    ansi: AnsiWriter,
    lines: Vec<VisualLine>,
    preferred_column: u16,
    scroll: u16,
    disabled: bool,
    margin_top: usize,
    margin_bottom: usize,
    colors: TextEditorColors,
    last_size: Size,
    last_hash: u64,
}

impl View for TextEditor {
    type V = InputState;

    closed spec fn view(&self) -> InputState {
        InputState {
            text: self.input@,
            cursor: self.cursor as int,
            selector: match self.selector {
                Some(s) => Some(s as int),
                None => None,
            },
        }
    }
}

impl TextEditor {
    pub closed spec fn state(&self) -> EditorView {
        EditorView {
            text: self.input@,
            cursor: self.cursor as int,
            selector: match self.selector {
                Some(s) => Some(s as int),
                None => None,
            },
            ansi: self.ansi@,
            lines: lines_view(self.lines@),
            preferred: self.preferred_column as int,
            scroll: self.scroll as int,
            disabled: self.disabled,
            margins: (self.margin_top as int, self.margin_bottom as int),
            colors: self.colors,
            placeholder: self.placeholder@,
            last_size: self.last_size,
            last_hash: self.last_hash,
        }
    }

    /// The cursor and the selector lie within the text.
    pub closed spec fn wf(&self) -> bool {
        &&& self.cursor <= self.input@.len()
        &&& self.selector matches Some(s) ==> s <= self.input@.len()
        &&& forall|i: int|
            0 <= i < self.lines@.len() ==> (#[trigger] self.lines@[i]).start <= self.lines@[i].end
                <= self.ansi@.len()
    }

    /// The cursor and the selection's other end of every editor that the
    /// methods here make or keep well formed lie within its text; its view
    /// and its full state agree on the text, the cursor and the selection.
    pub proof fn law_cursor_within_text(&self)
        ensures
            self@.text == self.state().text,
            self@.cursor == self.state().cursor,
            self@.selector == self.state().selector,
            self.wf() ==> self.state().cursor <= self.state().text.len() && (self.state().selector matches Some(
                s,
            ) ==> s <= self.state().text.len()),
    {
    }

    pub fn new() -> (e: Self)
        ensures
            e.wf(),
            e.state() == (EditorView {
                text: Seq::empty(),
                cursor: 0,
                selector: None,
                ansi: Seq::empty(),
                lines: Seq::empty(),
                preferred: 0,
                scroll: 0,
                disabled: false,
                margins: (0, 0),
                colors: default_editor_colors(),
                placeholder: Seq::empty(),
                last_size: Size { width: 0, height: 0 },
                last_hash: 0,
            }),
    {
        let e = TextEditor {
            input: String::new(),
            cursor: 0,
            selector: None,
            placeholder: "",
            ansi: AnsiWriter::new(),
            lines: Vec::new(),
            preferred_column: 0,
            scroll: 0,
            disabled: false,
            margin_top: 0,
            margin_bottom: 0,
            colors: TextEditorColors::new(),
            last_size: Size { width: 0, height: 0 },
            last_hash: 0,
        };
        proof {
            reveal_strlit("");
            assert(""@ =~= Seq::<char>::empty());
            assert(e.input@ =~= Seq::<char>::empty());
            assert(e.ansi@ =~= Seq::<char>::empty());
            assert(e.lines@ =~= Seq::<VisualLine>::empty());
            assert(lines_view(e.lines@) =~= Seq::<(int, int, int)>::empty());
        }
        e
    }

    pub fn with_placeholder(self, s: &'static str) -> (e: Self)
        requires
            self.wf(),
        ensures
            e.wf(),
            e.state() == (EditorView { placeholder: s@, ..self.state() }),
    {
        TextEditor { placeholder: s, ..self }
    }

    pub fn with_colors(self, colors: TextEditorColors) -> (e: Self)
        requires
            self.wf(),
        ensures
            e.wf(),
            e.state() == (EditorView { colors, ..self.state() }),
    {
        TextEditor { colors, ..self }
    }

    pub fn with_margins(self, top: usize, bottom: usize) -> (e: Self)
        requires
            self.wf(),
        ensures
            e.wf(),
            e.state() == (EditorView { margins: (top as int, bottom as int), ..self.state() }),
    {
        TextEditor { margin_top: top, margin_bottom: bottom, ..self }
    }

    pub fn with_disabled(self) -> (e: Self)
        requires
            self.wf(),
        ensures
            e.wf(),
            e.state() == (EditorView { disabled: true, ..self.state() }),
    {
        TextEditor { disabled: true, ..self }
    }

    pub fn set_colors(&mut self, colors: TextEditorColors) -> (r: &mut Self)
        requires
            old(self).wf(),
        ensures
            r.wf(),
            r.state() == (EditorView { colors, ..old(self).state() }),
            *final(self) == *final(r),
    {
        self.colors = colors;
        self
    }

    pub fn set_disabled(&mut self, value: bool) -> (r: &mut Self)
        requires
            old(self).wf(),
        ensures
            r.wf(),
            r.state() == (EditorView { disabled: value, ..old(self).state() }),
            *final(self) == *final(r),
    {
        self.disabled = value;
        self
    }

    pub fn toggle_disabled(&mut self) -> (r: &mut Self)
        requires
            old(self).wf(),
        ensures
            r.wf(),
            r.state() == (EditorView { disabled: !old(self).state().disabled, ..old(self).state() }),
            *final(self) == *final(r),
    {
        let d = !self.disabled;
        self.set_disabled(d)
    }

    pub fn is_disabled(&self) -> (b: bool)
        ensures
            b == self.state().disabled,
    {
        self.disabled
    }

    pub fn is_empty(&self) -> (b: bool)
        ensures
            b == (self.state().text.len() == 0),
    {
        self.input.as_str().unicode_len() == 0
    }

    pub fn as_str(&self) -> (s: &str)
        ensures
            s@ == self.state().text,
    {
        self.input.as_str()
    }

    /// Deletes the chars between the cursor and `selector`, the cursor going
    /// to the first of them; tells whether there were any.
    fn delete_selection(&mut self, selector: usize)
        -> (did: bool)
        requires
            old(self).wf(),
            selector <= old(self)@.text.len(),
        ensures
            final(self).wf(),
            (final(self)@, did) == deleted_selection(InputState { selector: Some(selector as int), ..old(self)@ }),
            final(self).state() == (EditorView {
                text: final(self)@.text,
                cursor: final(self)@.cursor,
                selector: None,
                ..old(self).state()
            }),
    {
        self.selector = None;
        if self.cursor < selector {
            let ghost before = self@;
            self.input = splice(self.input.as_str(), self.cursor, selector, "");
            proof {
                reveal_strlit("");
                assert(self@.text =~= before.text.subrange(0, before.cursor) + before.text.subrange(
                    selector as int,
                    before.text.len() as int,
                ));
            }
            true
        } else if self.cursor > selector {
            let ghost before = self@;
            self.input = splice(self.input.as_str(), selector, self.cursor, "");
            self.cursor = selector;
            proof {
                reveal_strlit("");
                assert(self@.text =~= before.text.subrange(0, selector as int) + before.text.subrange(
                    before.cursor,
                    before.text.len() as int,
                ));
            }
            true
        } else {
            false
        }
    }

    /// Drops the selection, deleting its chars.
    fn take_selection(&mut self)
        requires
            old(self).wf(),
        ensures
            final(self).wf(),
            final(self)@ == deleted_selection(old(self)@).0,
            final(self).state() == (EditorView {
                text: final(self)@.text,
                cursor: final(self)@.cursor,
                selector: None,
                ..old(self).state()
            }),
    {
        if let Some(s) = self.selector {
            self.delete_selection(s);
        }
    }

    /// Types `c` at the cursor, in place of the selection.
    pub fn push_char(&mut self, c: char)
        requires
            old(self).wf(),
        ensures
            final(self).wf(),
            final(self)@ == inserted(old(self)@, seq![c]),
            final(self).state() == (EditorView {
                text: final(self)@.text,
                cursor: final(self)@.cursor,
                selector: None,
                ..old(self).state()
            }),
    {
        let mut t = String::new();
        string_push(&mut t, c);
        self.push_str(t.as_str());
    }

    /// Types `s` at the cursor, in place of the selection.
    pub fn push_str(&mut self, s: &str)
        requires
            old(self).wf(),
        ensures
            final(self).wf(),
            final(self)@ == inserted(old(self)@, s@),
            final(self).state() == (EditorView {
                text: final(self)@.text,
                cursor: final(self)@.cursor,
                selector: None,
                ..old(self).state()
            }),
    {
        self.take_selection();
        let ghost before = self@;
        self.input = splice(self.input.as_str(), self.cursor, self.cursor, s);
        let n = s.unicode_len();
        let _len = self.input.as_str().unicode_len();
        self.cursor = self.cursor + n;
        proof {
            assert(self@.text =~= before.text.subrange(0, before.cursor) + s@ + before.text.subrange(
                before.cursor,
                before.text.len() as int,
            ));
        }
    }

    /// Types a line break.
    pub fn push_newline(&mut self)
        requires
            old(self).wf(),
        ensures
            final(self).wf(),
            final(self)@ == inserted(old(self)@, seq!['\n']),
            final(self).state() == (EditorView {
                text: final(self)@.text,
                cursor: final(self)@.cursor,
                selector: None,
                ..old(self).state()
            }),
    {
        self.push_char('\n');
    }

    /// Deletes the selection, or the grapheme cluster after or before the
    /// cursor; tells whether anything was deleted.
    pub fn delete(&mut self, cd: CursorDelete) -> (did: bool)
        requires
            old(self).wf(),
        ensures
            final(self).wf(),
            (final(self)@, did) == editor_deleted(old(self)@, cd),
            final(self).state() == (EditorView {
                text: final(self)@.text,
                cursor: final(self)@.cursor,
                selector: final(self)@.selector,
                ..old(self).state()
            }),
    {
        match cd {
            CursorDelete::Selection => match self.selector {
                Some(s) => self.delete_selection(s),
                None => false,
            },
            CursorDelete::Forward => match self.selector {
                Some(s) => self.delete_selection(s),
                None => {
                    let n = next_len_of(self.input.as_str(), self.cursor);
                    let _len = self.input.as_str().unicode_len();
                    if n == 0 {
                        return false;
                    }
                    let ghost before = self@;
                    self.input = splice(self.input.as_str(), self.cursor, self.cursor + n, "");
                    proof {
                        reveal_strlit("");
                        assert(self@.text =~= before.text.subrange(0, before.cursor) + before.text.subrange(
                            before.cursor + n,
                            before.text.len() as int,
                        ));
                    }
                    true
                },
            },
            CursorDelete::Back => match self.selector {
                Some(s) => self.delete_selection(s),
                None => {
                    let n = prev_len_of(self.input.as_str(), self.cursor);
                    if n == 0 {
                        return false;
                    }
                    let ghost before = self@;
                    let c = self.cursor - n;
                    self.input = splice(self.input.as_str(), c, self.cursor, "");
                    self.cursor = c;
                    proof {
                        reveal_strlit("");
                        assert(self@.text =~= before.text.subrange(0, before.cursor - n) + before.text.subrange(
                            before.cursor,
                            before.text.len() as int,
                        ));
                    }
                    true
                },
            },
        }
    }

    /// The line that holds `index`; see `row_of_index`.
    fn index_to_row(&self, index: usize) -> (r: usize)
        ensures
            r == row_of_index(self.state().lines, index as int),
            self.lines@.len() > 0 ==> r < self.lines@.len(),
            self.lines@.len() == 0 ==> r == 0,
    {
        let n = self.lines.len();
        let ghost lv = lines_view(self.lines@);
        let mut k: usize = 0;
        while k < n && self.lines[k].end <= index
            invariant
                k <= n == self.lines@.len() == lv.len(),
                lv == lines_view(self.lines@),
                first_after(lv, index as int, 0) == first_after(lv, index as int, k as int),
            decreases n - k,
        {
            proof {
                assert(lv[k as int].1 == self.lines@[k as int].end);
            }
            k = k + 1;
        }
        proof {
            if k < n {
                assert(lv[k as int].1 == self.lines@[k as int].end);
            }
        }
        let last = n.saturating_sub(1);
        if k < last {
            k
        } else {
            last
        }
    }

    /// The column and line of `index`; see `position_of`.
    fn index_to_position(&self, index: usize) -> (p: (u16, usize))
        requires
            self.wf(),
        ensures
            p.0 == position_of(self.state().ansi, self.state().lines, index as int).0,
            p.1 == position_of(self.state().ansi, self.state().lines, index as int).1,
    {
        if self.lines.len() == 0 {
            return (0, 0);
        }
        let row = self.index_to_row(index);
        let line = self.lines[row];
        let to = if index < line.start {
            line.start
        } else if index > line.end {
            line.end
        } else {
            index
        };
        let text = self.ansi.as_str().substring_char(line.start, to);
        (text_width_of(text), row)
    }

    /// The index in line `row` that column `target` comes to; see
    /// `column_index`.
    fn column_to_index(&self, row: usize, target: u16) -> (r: usize)
        requires
            self.wf(),
            row < self.lines@.len(),
        ensures
            r == column_index(self.state().ansi, self.state().lines, row as int, target as int),
    {
        let line = self.lines[row];
        let text = self.ansi.as_str().substring_char(line.start, line.end);
        let gs = graphemes_of(text);
        let ghost v = strs_view(gs@);
        let ghost whole = index_at_column(v, 0, line.start as int, 0, line.start as int, target as int);
        proof {
            assert(lines_view(self.lines@)[row as int] == (line.start as int, line.end as int, line.width as int));
            assert(v.take(0).flatten() =~= Seq::<char>::empty());
            assert(whole == column_index(self.state().ansi, self.state().lines, row as int, target as int));
        }
        let mut column: u64 = 0;
        let mut index: usize = line.start;
        let mut off: usize = line.start;
        let mut k: usize = 0;
        while k < gs.len()
            invariant
                v == strs_view(gs@),
                v == grapheme_clusters(text@),
                v.flatten() == text@,
                text@.len() == line.end - line.start,
                line.end <= usize::MAX,
                k <= gs@.len(),
                off == line.start + v.take(k as int).flatten().len(),
                off <= line.end,
                column <= u16::MAX as u64,
                whole == index_at_column(v, k as int, off as int, column as int, index as int, target as int),
                whole == column_index(self.state().ansi, self.state().lines, row as int, target as int),
            decreases gs@.len() - k,
        {
            let g = gs[k];
            proof {
                v.take(k as int).lemma_flatten_push(v[k as int]);
                assert(v.take(k + 1) =~= v.take(k as int).push(v[k as int]));
                crate::graphemes::lemma_offset_bound(gs@, k + 1);
                assert(v[k as int] == g@);
                assert(strs_view(gs@.take(k + 1)) =~= v.take(k + 1));
                assert(crate::graphemes::cluster_offset(gs@, gs@.len() as int) == text@.len());
            }
            if str_contains(g, '\n') {
                return index;
            }
            let w = grapheme_width(g) as u64;
            if column + w > target as u64 {
                return index;
            }
            column = column + w;
            off = off + g.unicode_len();
            index = off;
            k = k + 1;
        }
        index
    }

    /// Lays the text out again at `max_width` columns: wraps it at spaces,
    /// cuts the wrapped text into visual lines, and aims moves up and down at
    /// the cursor's column.
    fn relayout(&mut self, max_width: u16)
        requires
            old(self).wf(),
        ensures
            final(self).wf(),
            ({
                let ansi = filled_in_place(old(self).state().text, max_width as nat);
                let lines = layout_lines(ansi, max_width as int);
                final(self).state() == EditorView {
                    ansi,
                    lines,
                    preferred: position_of(ansi, lines, old(self).state().cursor).0,
                    ..old(self).state()
                }
            }),
    {
        let mut w = AnsiWriter::new();
        w.push_str(self.input.as_str());
        w.textwrap(max_width);
        proof {
            assert(w@ == filled_in_place(self.input@, max_width as nat));
        }
        let lines = lay_out(w.as_str(), max_width);
        self.ansi = w;
        self.lines = lines;
        let (x, _) = self.index_to_position(self.cursor);
        self.preferred_column = x;
    }

    /// Selects all the text, with the cursor at its end; tells whether the
    /// cursor or the selection changed.
    pub fn select_all(&mut self) -> (changed: bool)
        requires
            old(self).wf(),
        ensures
            final(self).wf(),
            ({
                let o = old(self).state();
                final(self).state() == EditorView {
                    cursor: o.text.len() as int,
                    selector: Some(0),
                    preferred: position_of(o.ansi, o.lines, o.text.len() as int).0,
                    ..o
                }
            }),
            changed == (final(self).state().cursor != old(self).state().cursor || final(self).state().selector
                != old(self).state().selector),
    {
        let (old_cursor, old_selector) = (self.cursor, self.selector);
        self.cursor = self.input.as_str().unicode_len();
        self.selector = Some(0);
        let (x, _) = self.index_to_position(self.cursor);
        self.preferred_column = x;
        self.cursor != old_cursor || !same_option(self.selector, old_selector)
    }
}

/// Whether two optional indices are the same.
fn same_option(a: Option<usize>, b: Option<usize>) -> (r: bool)
    ensures
        r == (a == b),
{
    match (a, b) {
        (Some(x), Some(y)) => x == y,
        (None, None) => true,
        _ => false,
    }
}

/// The editor after a cursor move: Forward and Back go by a grapheme
/// cluster, Up and Down to the line above or below at the column aimed at
/// (to the start from the first line, to the end from the last), Start and
/// End to the ends of the text. Moves other than Up and Down aim at the new
/// column; `shift` extends the selection, else it is dropped, and it is
/// dropped when it lands on the cursor.
pub open spec fn editor_moved(st: EditorView, cm: CursorMove, shift: bool) -> EditorView {
    let len = st.text.len() as int;
    let sel = if shift {
        if st.selector is None {
            Some(st.cursor)
        } else {
            st.selector
        }
    } else {
        None
    };
    let row = row_of_index(st.lines, st.cursor);
    let (cursor, preferred) = match cm {
        CursorMove::Forward => if st.cursor < len {
            let c = st.cursor + next_len(st.text, st.cursor);
            (c, position_of(st.ansi, st.lines, c).0)
        } else {
            (st.cursor, st.preferred)
        },
        CursorMove::Back => if st.cursor > 0 {
            let c = st.cursor - prev_len(st.text, st.cursor);
            (c, position_of(st.ansi, st.lines, c).0)
        } else {
            (st.cursor, st.preferred)
        },
        CursorMove::Up => if row == 0 {
            (0, 0)
        } else {
            (min_of(column_index(st.ansi, st.lines, row - 1, st.preferred), len), st.preferred)
        },
        CursorMove::Down => if row + 1 >= st.lines.len() {
            (len, position_of(st.ansi, st.lines, len).0)
        } else {
            (min_of(column_index(st.ansi, st.lines, row + 1, st.preferred), len), st.preferred)
        },
        CursorMove::Start => (0, 0),
        CursorMove::End => (len, position_of(st.ansi, st.lines, len).0),
    };
    EditorView {
        cursor,
        preferred,
        selector: if sel == Some(cursor) {
            None
        } else {
            sel
        },
        ..st
    }
}

/// Moving the cursor keeps the text and everything but the cursor, the
/// column aimed at and the selection. Start (Home) goes to the start of the
/// text and End to its end, from anywhere; Forward stays at the end and Back
/// at the start; Up from the first line goes to the start and Down from the
/// last line to the end. Without shift nothing is selected after a move;
/// with shift, a selection starts where the cursor was, or keeps its other
/// end, unless that is where the cursor lands.
pub proof fn law_editor_moves(st: EditorView, cm: CursorMove, shift: bool)
    ensures
        ({
            let m = editor_moved(st, cm, shift);
            &&& m.text == st.text
            &&& m.lines == st.lines
            &&& m.ansi == st.ansi
            &&& m.scroll == st.scroll
            &&& m.disabled == st.disabled
            &&& cm == CursorMove::Start ==> m.cursor == 0 && m.preferred == 0
            &&& cm == CursorMove::End ==> m.cursor == st.text.len()
            &&& cm == CursorMove::Forward && st.cursor >= st.text.len() ==> m.cursor == st.cursor
            &&& cm == CursorMove::Back && st.cursor <= 0 ==> m.cursor == st.cursor
            &&& cm == CursorMove::Up && row_of_index(st.lines, st.cursor) == 0 ==> m.cursor == 0
            &&& cm == CursorMove::Down && row_of_index(st.lines, st.cursor) + 1 >= st.lines.len()
                ==> m.cursor == st.text.len()
            &&& !shift ==> m.selector is None
            &&& shift && st.selector is None && m.cursor != st.cursor ==> m.selector == Some(st.cursor)
            &&& shift ==> (st.selector matches Some(a) ==> m.selector == (if a == m.cursor {
                None
            } else {
                Some(a)
            }))
        }),
{
}

/// On an editor that takes input, Home puts the cursor at the start of the
/// text and End at its end; the text stays, and the key reports a change
/// exactly when the cursor or the selection moved.
pub proof fn law_editor_home_end(st: EditorView, ctrl: bool, shift: bool)
    requires
        !st.disabled,
    ensures
        editor_key(st, Key::Home, ctrl, shift).0.cursor == 0,
        editor_key(st, Key::End, ctrl, shift).0.cursor == st.text.len(),
        editor_key(st, Key::Home, ctrl, shift).0.text == st.text,
        editor_key(st, Key::End, ctrl, shift).0.text == st.text,
        !shift && st.selector is None ==> editor_key(st, Key::End, ctrl, shift).1 == (st.cursor
            != st.text.len()),
        !shift && st.selector is None ==> editor_key(st, Key::Home, ctrl, shift).1 == (st.cursor != 0),
{
}

/// Typing in an editor that takes input: with nothing selected, a char (or
/// Enter, a line break) goes in at the cursor and the cursor moves past it;
/// with a selection, it takes the selection's place. Control-a selects the
/// whole text. Backspace at the start and Delete at the end of a text with
/// nothing selected change nothing.
pub proof fn law_editor_typing(st: EditorView, c: char, ctrl: bool)
    requires
        !st.disabled,
        0 <= st.cursor <= st.text.len(),
        st.selector matches Some(s) ==> 0 <= s <= st.text.len(),
    ensures
        !(c == 'a' && ctrl) && st.selector is None ==> {
            let r = editor_key(st, Key::Char(c), ctrl, false);
            &&& r.0.text == st.text.subrange(0, st.cursor) + seq![c] + st.text.subrange(st.cursor, st.text.len() as int)
            &&& r.0.cursor == st.cursor + 1
            &&& r.0.selector is None
            &&& r.1
        },
        st.selector is None ==> {
            let r = editor_key(st, Key::Enter, ctrl, false);
            &&& r.0.text == st.text.subrange(0, st.cursor) + seq!['\n'] + st.text.subrange(st.cursor, st.text.len() as int)
            &&& r.0.cursor == st.cursor + 1
        },
        !(c == 'a' && ctrl) && st.selector is Some && st.selector.unwrap() != st.cursor ==> {
            let s = st.selector.unwrap();
            let a = if s < st.cursor {
                s
            } else {
                st.cursor
            };
            let b = if s < st.cursor {
                st.cursor
            } else {
                s
            };
            let r = editor_key(st, Key::Char(c), ctrl, false);
            &&& r.0.text == st.text.subrange(0, a) + seq![c] + st.text.subrange(b, st.text.len() as int)
            &&& r.0.cursor == a + 1
            &&& r.0.selector is None
        },
        editor_key(st, Key::Char('a'), true, false).0.cursor == st.text.len(),
        editor_key(st, Key::Char('a'), true, false).0.selector == Some(0int),
        editor_key(st, Key::Char('a'), true, false).0.text == st.text,
        st.selector is None && st.cursor == 0 ==> editor_key(st, Key::Backspace, ctrl, false) == (st, false),
        st.selector is None && st.cursor == st.text.len() ==> editor_key(st, Key::Delete, ctrl, false) == (
            st,
            false,
        ),
{
    if st.selector is None && st.cursor == 0 {
        assert(with_input(st, InputState { text: st.text, cursor: st.cursor, selector: st.selector }) == st);
    }
    if st.selector is None && st.cursor == st.text.len() {
        assert(with_input(st, InputState { text: st.text, cursor: st.cursor, selector: st.selector }) == st);
    }
}

impl TextEditor {
    /// Moves the cursor; see `editor_moved`. Tells whether the cursor or the
    /// selection changed.
    #[verifier::rlimit(60)]
    pub fn move_cursor(&mut self, cm: CursorMove, shift: bool) -> (changed: bool)
        requires
            old(self).wf(),
        ensures
            final(self).wf(),
            final(self).state() == editor_moved(old(self).state(), cm, shift),
            changed == (final(self).state().cursor != old(self).state().cursor || final(self).state().selector
                != old(self).state().selector),
    {
        let (old_cursor, old_selector) = (self.cursor, self.selector);
        let len = self.input.as_str().unicode_len();
        if shift {
            if self.selector.is_none() {
                self.selector = Some(self.cursor);
            }
        } else {
            self.selector = None;
        }
        match cm {
            CursorMove::Forward => {
                let n = next_len_of(self.input.as_str(), self.cursor);
                if n > 0 {
                    self.cursor = self.cursor + n;
                    let (x, _) = self.index_to_position(self.cursor);
                    self.preferred_column = x;
                }
            },
            CursorMove::Back => {
                let n = prev_len_of(self.input.as_str(), self.cursor);
                if n > 0 {
                    self.cursor = self.cursor - n;
                    let (x, _) = self.index_to_position(self.cursor);
                    self.preferred_column = x;
                }
            },
            CursorMove::Up => {
                let row = self.index_to_row(self.cursor);
                if row == 0 {
                    self.cursor = 0;
                    self.preferred_column = 0;
                } else {
                    let i = self.column_to_index(row - 1, self.preferred_column);
                    self.cursor = if i < len {
                        i
                    } else {
                        len
                    };
                }
            },
            CursorMove::Down => {
                let row = self.index_to_row(self.cursor);
                if row >= self.lines.len().saturating_sub(1) {
                    self.cursor = len;
                    let (x, _) = self.index_to_position(self.cursor);
                    self.preferred_column = x;
                } else {
                    let i = self.column_to_index(row + 1, self.preferred_column);
                    self.cursor = if i < len {
                        i
                    } else {
                        len
                    };
                }
            },
            CursorMove::Start => {
                self.cursor = 0;
                self.preferred_column = 0;
            },
            CursorMove::End => {
                self.cursor = len;
                let (x, _) = self.index_to_position(self.cursor);
                self.preferred_column = x;
            },
        }
        if let Some(s) = self.selector {
            if s == self.cursor {
                self.selector = None;
            }
        }
        self.cursor != old_cursor || !same_option(self.selector, old_selector)
    }
}

/// The editor with a new text, cursor and selector.
pub open spec fn with_input(st: EditorView, i: InputState) -> EditorView {
    EditorView { text: i.text, cursor: i.cursor, selector: i.selector, ..st }
}

/// Whether the cursor or the selector differ.
pub open spec fn cursor_changed(a: EditorView, b: EditorView) -> bool {
    a.cursor != b.cursor || a.selector != b.selector
}

/// The editor and whether it changed after a key, with the state of the
/// control and shift keys: nothing when disabled; the arrows, Home and End
/// move the cursor, Backspace and Delete delete, Enter types a line break,
/// control-a selects all, other chars are typed.
pub open spec fn editor_key(st: EditorView, key: Key, ctrl: bool, shift: bool) -> (EditorView, bool) {
    let i = InputState { text: st.text, cursor: st.cursor, selector: st.selector };
    let mv = |cm: CursorMove| (editor_moved(st, cm, shift), cursor_changed(st, editor_moved(st, cm, shift)));
    let del = |cd: CursorDelete| (with_input(st, editor_deleted(i, cd).0), editor_deleted(i, cd).1);
    if st.disabled {
        (st, false)
    } else {
        match key {
            Key::Right => mv(CursorMove::Forward),
            Key::Left => mv(CursorMove::Back),
            Key::Up => mv(CursorMove::Up),
            Key::Down => mv(CursorMove::Down),
            Key::Home => mv(CursorMove::Start),
            Key::End => mv(CursorMove::End),
            Key::Backspace => del(CursorDelete::Back),
            Key::Delete => del(CursorDelete::Forward),
            Key::Enter => (with_input(st, inserted(i, seq!['\n'])), true),
            Key::Char(c) => if c == 'a' && ctrl {
                let all = EditorView {
                    cursor: st.text.len() as int,
                    selector: Some(0),
                    preferred: position_of(st.ansi, st.lines, st.text.len() as int).0,
                    ..st
                };
                (all, cursor_changed(st, all))
            } else {
                (with_input(st, inserted(i, seq![c])), true)
            },
            _ => (st, false),
        }
    }
}

/// The editor laid out again at `max_width` columns; see `relayout`.
pub open spec fn relaid(st: EditorView, max_width: u16) -> EditorView {
    let ansi = filled_in_place(st.text, max_width as nat);
    let lines = layout_lines(ansi, max_width as int);
    EditorView { ansi, lines, preferred: position_of(ansi, lines, st.cursor).0, ..st }
}

/// A visual line drawn in a frame: where it starts, the columns it may take,
/// and its grapheme clusters as drawn.
pub struct EditorLine<'a> {
    pub x: u16,
    pub y: u16,
    pub width: u16,
    pub graphemes: Vec<&'a str>,
}

/// What a frame of the editor draws: nothing; the placeholder in a color,
/// with the cursor on its first cell in a color; or the visual lines in view
/// in a color, with the runs of selected cells (row, first and end column
/// from the left of the area) in the selection's color and the cursor's
/// cell in the cursor's color.
pub enum EditorFrame<'a> {
    Empty,
    Placeholder { text: &'a str, color: Color, cursor_color: Option<Color> },
    Text {
        lines: Vec<EditorLine<'a>>,
        color: Color,
        selection: Vec<(u16, u16, u16)>,
        selection_color: Color,
        cursor: Option<((u64, u64), Color)>,
    },
}

/// How many visual lines are in view.
pub open spec fn shown_lines(st: EditorView, height: int) -> int {
    min_of(height, sat_sub(st.lines.len() as int, st.scroll))
}

/// The `i`-th visual line in view: its start, row, columns and clusters.
pub open spec fn line_in_view(st: EditorView, area: Rect, i: int) -> (int, int, int, Seq<Seq<char>>) {
    let l = st.lines[st.scroll + i];
    (
        area.x as int,
        area.y + i,
        l.2,
        rendered_clusters(grapheme_clusters(st.ansi.subrange(l.0, l.1))),
    )
}

/// The view of a line drawn.
pub open spec fn editor_line_view(l: EditorLine) -> (int, int, int, Seq<Seq<char>>) {
    (l.x as int, l.y as int, l.width as int, strs_view(l.graphemes@))
}

/// The run of selected cells in the `i`-th line in view, when the selection
/// from `a` to `b` (as columns and rows) reaches it: from the selection's
/// start column on its first row, to its end column on its last row.
pub open spec fn selection_run(st: EditorView, area: Rect, a: (int, int), b: (int, int), i: int) -> Option<(int, int, int)> {
    let row = st.scroll + i;
    if row < a.1 || row > b.1 {
        None
    } else {
        Some(
            (
                area.y + i,
                if row == a.1 {
                    a.0
                } else {
                    0
                },
                if row == b.1 {
                    b.0
                } else {
                    st.lines[row].2
                },
            ),
        )
    }
}

/// The runs of selected cells in the lines in view from the `i`-th on.
pub open spec fn selection_runs(st: EditorView, area: Rect, a: (int, int), b: (int, int), i: int) -> Seq<(int, int, int)>
    decreases shown_lines(st, area.height as int) - i,
{
    if i < 0 || i >= shown_lines(st, area.height as int) {
        Seq::empty()
    } else {
        let here = match selection_run(st, area, a, b, i) {
            Some(r) => seq![r],
            None => Seq::<(int, int, int)>::empty(),
        };
        here + selection_runs(st, area, a, b, i + 1)
    }
}

/// The selected cells in view, when there is a selection.
pub open spec fn selected_cells(st: EditorView, area: Rect) -> Seq<(int, int, int)> {
    match st.selector {
        None => Seq::empty(),
        Some(s) => match sel_range(st.cursor, s) {
            None => Seq::empty(),
            Some((lo, hi)) => selection_runs(
                st,
                area,
                position_of(st.ansi, st.lines, lo),
                position_of(st.ansi, st.lines, hi),
                0,
            ),
        },
    }
}

/// The cell of the cursor: its column and row in the area, moved up by the
/// scroll.
pub open spec fn cursor_cell(st: EditorView, area: Rect) -> (int, int) {
    let p = position_of(st.ansi, st.lines, st.cursor);
    (area.x + p.0, sat_sub(area.y + p.1, st.scroll))
}

/// What a frame shows of the editor, as it is after the frame's layout.
pub open spec fn frame_shows(st: EditorView, area: Rect, f: EditorFrame) -> bool {
    match f {
        EditorFrame::Empty => false,
        EditorFrame::Placeholder { text, color, cursor_color } => {
            &&& st.text.len() == 0
            &&& text@ == st.placeholder
            &&& color == if st.disabled {
                st.colors.disabled
            } else {
                st.colors.placeholder
            }
            &&& cursor_color == if st.disabled {
                None
            } else {
                Some(st.colors.cursor)
            }
        },
        EditorFrame::Text { lines, color, selection, selection_color, cursor } => {
            &&& st.text.len() > 0
            &&& lines@.len() == shown_lines(st, area.height as int)
            &&& forall|i: int| 0 <= i < lines@.len() ==> editor_line_view(#[trigger] lines@[i]) == line_in_view(st, area, i)
            &&& color == if st.disabled {
                st.colors.disabled
            } else {
                st.colors.normal
            }
            &&& selection_color == st.colors.selector
            &&& selection@.map_values(|r: (u16, u16, u16)| (r.0 as int, r.1 as int, r.2 as int)) == if st.disabled {
                Seq::empty()
            } else {
                selected_cells(st, area)
            }
            &&& cursor == if st.disabled {
                None
            } else {
                let c = cursor_cell(st, area);
                Some(((c.0 as u64, c.1 as u64), st.colors.cursor))
            }
        },
    }
}

impl TextEditor {
    /// Reacts to a key; see `editor_key`.
    pub fn input(&mut self, key: Key, ctrl: bool, shift: bool) -> (changed: bool)
        requires
            old(self).wf(),
        ensures
            final(self).wf(),
            (final(self).state(), changed) == editor_key(old(self).state(), key, ctrl, shift),
    {
        if self.disabled {
            return false;
        }
        match key {
            Key::Right => self.move_cursor(CursorMove::Forward, shift),
            Key::Left => self.move_cursor(CursorMove::Back, shift),
            Key::Up => self.move_cursor(CursorMove::Up, shift),
            Key::Down => self.move_cursor(CursorMove::Down, shift),
            Key::Home => self.move_cursor(CursorMove::Start, shift),
            Key::End => self.move_cursor(CursorMove::End, shift),
            Key::Backspace => self.delete(CursorDelete::Back),
            Key::Delete => self.delete(CursorDelete::Forward),
            Key::Enter => {
                self.push_newline();
                true
            },
            Key::Char(c) => {
                if c == 'a' && ctrl {
                    self.select_all()
                } else {
                    self.push_char(c);
                    true
                }
            },
            _ => false,
        }
    }

    /// Forgets the text and its layout; the settings stay.
    pub fn clear(&mut self)
        requires
            old(self).wf(),
        ensures
            final(self).wf(),
            final(self).state() == (EditorView {
                text: Seq::empty(),
                cursor: 0,
                selector: None,
                ansi: Seq::empty(),
                lines: Seq::empty(),
                preferred: 0,
                scroll: 0,
                last_size: Size { width: 0, height: 0 },
                last_hash: 0,
                ..old(self).state()
            }),
    {
        self.input = String::new();
        self.cursor = 0;
        self.selector = None;
        self.ansi.clear();
        self.lines = Vec::new();
        self.preferred_column = 0;
        self.scroll = 0;
        self.last_size = Size { width: 0, height: 0 };
        self.last_hash = 0;
        proof {
            assert(self.input@ =~= Seq::<char>::empty());
            assert(lines_view(self.lines@) =~= Seq::<(int, int, int)>::empty());
        }
    }

    /// Lays the text out again when the width or the text changed since the
    /// last layout (the text is compared by a hash made in this process).
    fn process_input(&mut self, last_size: Size, size: Size)
        requires
            old(self).wf(),
        ensures
            final(self).wf(),
            ({
                let h = final(self).state().last_hash;
                if last_size.width != size.width || old(self).state().last_hash != h {
                    final(self).state() == EditorView {
                        last_size: size,
                        last_hash: h,
                        ..relaid(old(self).state(), size.width)
                    }
                } else {
                    final(self).state() == old(self).state()
                }
            }),
    {
        let hash = hash_fast(self.input.as_str());
        if last_size.width != size.width || self.last_hash != hash {
            self.last_size = size;
            self.last_hash = hash;
            self.relayout(size.width);
        }
    }

    /// Scrolls so that the cursor's line is in view with the margins, from
    /// the top again when the height changed.
    fn update_scroll(&mut self, last_height: u16, height: u16)
        requires
            old(self).wf(),
        ensures
            final(self).wf(),
            ({
                let st = old(self).state();
                let start = if last_height != height {
                    0
                } else {
                    st.scroll
                };
                final(self).state() == EditorView {
                    scroll: scroll_with_margins(
                        st.lines.len() as int,
                        height as int,
                        row_of_index(st.lines, st.cursor),
                        start,
                        st.margins.0,
                        st.margins.1,
                        0,
                    ) as u16 as int,
                    ..st
                }
            }),
    {
        let start = if last_height != height {
            0
        } else {
            self.scroll
        };
        let row = self.index_to_row(self.cursor);
        let s = Scrollbar::calculate_scroll_with_margins(
            self.lines.len(),
            height,
            row,
            start as usize,
            self.margin_top,
            self.margin_bottom,
            0,
        );
        self.scroll = #[verifier::truncate] (s as u16);
    }

    /// Draws a frame in `area`: the placeholder while the text is empty;
    /// else lays the text out again if needed, scrolls the cursor's line
    /// into view, and gives the lines in view, the selected cells and the
    /// cursor's cell (the last two not while disabled).
    #[verifier::rlimit(40)]
    pub fn frame(&mut self, area: Rect) -> (f: EditorFrame<'_>)
        requires
            old(self).wf(),
            area.y + area.height <= u16::MAX,
        ensures
            final(self).wf(),
            (area.width == 0 || area.height == 0) ==> f is Empty && final(self).state() == old(self).state(),
            !(area.width == 0 || area.height == 0) ==> {
                let o = old(self).state();
                let h = final(self).state().last_hash;
                let laid = if o.last_size.width != area.width || o.last_hash != h {
                    EditorView {
                        last_size: Size { width: area.width, height: area.height },
                        last_hash: h,
                        ..relaid(o, area.width)
                    }
                } else {
                    o
                };
                let start = if o.last_size.height != area.height {
                    0
                } else {
                    laid.scroll
                };
                let st = EditorView {
                    scroll: scroll_with_margins(
                        laid.lines.len() as int,
                        area.height as int,
                        row_of_index(laid.lines, laid.cursor),
                        start,
                        laid.margins.0,
                        laid.margins.1,
                        0,
                    ) as u16 as int,
                    ..laid
                };
                &&& o.text.len() == 0 ==> final(self).state() == o && frame_shows(o, area, f)
                &&& o.text.len() > 0 ==> final(self).state() == st && frame_shows(st, area, f)
            },
    {
        if area.width == 0 || area.height == 0 {
            return EditorFrame::Empty;
        }
        if self.input.as_str().unicode_len() == 0 {
            let color = if self.disabled {
                self.colors.disabled
            } else {
                self.colors.placeholder
            };
            let cursor_color = if self.disabled {
                None
            } else {
                Some(self.colors.cursor)
            };
            return EditorFrame::Placeholder { text: self.placeholder, color, cursor_color };
        }
        let last_size = self.last_size;
        let ghost o = self.state();
        self.process_input(last_size, Size { width: area.width, height: area.height });
        let ghost laid = self.state();
        proof {
            let h = self.state().last_hash;
            assert(laid == if o.last_size.width != area.width || o.last_hash != h {
                EditorView {
                    last_size: Size { width: area.width, height: area.height },
                    last_hash: h,
                    ..relaid(o, area.width)
                }
            } else {
                o
            });
        }
        self.update_scroll(last_size.height, area.height);
        proof {
            let start = if o.last_size.height != area.height {
                0
            } else {
                laid.scroll
            };
            assert(self.state() == EditorView {
                scroll: scroll_with_margins(
                    laid.lines.len() as int,
                    area.height as int,
                    row_of_index(laid.lines, laid.cursor),
                    start,
                    laid.margins.0,
                    laid.margins.1,
                    0,
                ) as u16 as int,
                ..laid
            });
        }
        let color = if self.disabled {
            self.colors.disabled
        } else {
            self.colors.normal
        };
        let lines = self.lines_in_view(area);
        if self.disabled {
            let selection: Vec<(u16, u16, u16)> = Vec::new();
            proof {
                assert(selection@.map_values(|r: (u16, u16, u16)| (r.0 as int, r.1 as int, r.2 as int))
                    =~= Seq::<(int, int, int)>::empty());
            }
            return EditorFrame::Text { lines, color, selection, selection_color: self.colors.selector, cursor: None };
        }
        let selection = self.selection_in_view(area);
        let (col, row) = self.index_to_position(self.cursor);
        let y = area.y as u128 + row as u128;
        let s = self.scroll as u128;
        let cy: u128 = if y >= s {
            y - s
        } else {
            0
        };
        let cursor = Some(((area.x as u64 + col as u64, #[verifier::truncate] (cy as u64)), self.colors.cursor));
        proof {
            assert(selection@.map_values(|r: (u16, u16, u16)| (r.0 as int, r.1 as int, r.2 as int))
                =~= selected_cells(self.state(), area));
        }
        let f = EditorFrame::Text { lines, color, selection, selection_color: self.colors.selector, cursor };
        proof {
            assert(frame_shows(self.state(), area, f));
        }
        f
    }

    /// The visual lines in view, as drawn.
    fn lines_in_view(&self, area: Rect) -> (r: Vec<EditorLine<'_>>)
        requires
            self.wf(),
            area.y + area.height <= u16::MAX,
        ensures
            r@.len() == shown_lines(self.state(), area.height as int),
            forall|i: int| 0 <= i < r@.len() ==> editor_line_view(#[trigger] r@[i]) == line_in_view(self.state(), area, i),
    {
        let n_lines = self.lines.len();
        let rest = n_lines.saturating_sub(self.scroll as usize);
        let n = if (area.height as usize) < rest {
            area.height as usize
        } else {
            rest
        };
        let mut out: Vec<EditorLine<'_>> = Vec::new();
        let mut i: usize = 0;
        while i < n
            invariant
                self.wf(),
                n == shown_lines(self.state(), area.height as int),
                n <= area.height,
                n_lines == self.lines@.len(),
                n == 0 || self.scroll + n <= n_lines,
                area.y + area.height <= u16::MAX,
                i <= n,
                out@.len() == i,
                forall|j: int| 0 <= j < i ==> editor_line_view(#[trigger] out@[j]) == line_in_view(self.state(), area, j),
            decreases n - i,
        {
            let l = self.lines[self.scroll as usize + i];
            let text = self.ansi.as_str().substring_char(l.start, l.end);
            let graphemes = rendered_graphemes(text);
            let line = EditorLine { x: area.x, y: area.y + i as u16, width: l.width, graphemes };
            proof {
                assert(lines_view(self.lines@)[self.scroll + i] == (l.start as int, l.end as int, l.width as int));
            }
            out.push(line);
            i = i + 1;
        }
        out
    }

    /// The runs of selected cells in view.
    fn selection_in_view(&self, area: Rect) -> (r: Vec<(u16, u16, u16)>)
        requires
            self.wf(),
            area.y + area.height <= u16::MAX,
        ensures
            r@.map_values(|x: (u16, u16, u16)| (x.0 as int, x.1 as int, x.2 as int)) == selected_cells(self.state(), area),
    {
        let mut out: Vec<(u16, u16, u16)> = Vec::new();
        let (lo, hi) = match self.selector {
            None => {
                proof {
                    assert(out@.map_values(|x: (u16, u16, u16)| (x.0 as int, x.1 as int, x.2 as int)) =~= Seq::<(int, int, int)>::empty());
                }
                return out;
            },
            Some(s) => if self.cursor < s {
                (self.cursor, s)
            } else if self.cursor > s {
                (s, self.cursor)
            } else {
                proof {
                    assert(out@.map_values(|x: (u16, u16, u16)| (x.0 as int, x.1 as int, x.2 as int)) =~= Seq::<(int, int, int)>::empty());
                }
                return out;
            },
        };
        let a = self.index_to_position(lo);
        let b = self.index_to_position(hi);
        let ghost st = self.state();
        let ghost ga = (a.0 as int, a.1 as int);
        let ghost gb = (b.0 as int, b.1 as int);
        let ghost whole = selection_runs(st, area, ga, gb, 0);
        let n_lines = self.lines.len();
        let rest = n_lines.saturating_sub(self.scroll as usize);
        let n = if (area.height as usize) < rest {
            area.height as usize
        } else {
            rest
        };
        let mut i: usize = 0;
        while i < n
            invariant
                self.wf(),
                st == self.state(),
                n == shown_lines(st, area.height as int),
                n <= area.height,
                n_lines == self.lines@.len(),
                n == 0 || self.scroll + n <= n_lines,
                area.y + area.height <= u16::MAX,
                i <= n,
                whole == selection_runs(st, area, ga, gb, 0),
                ga == (a.0 as int, a.1 as int),
                gb == (b.0 as int, b.1 as int),
                out@.map_values(|x: (u16, u16, u16)| (x.0 as int, x.1 as int, x.2 as int)) + selection_runs(
                    st,
                    area,
                    ga,
                    gb,
                    i as int,
                ) == whole,
            decreases n - i,
        {
            let row = self.scroll as usize + i;
            let ghost before = out@.map_values(|x: (u16, u16, u16)| (x.0 as int, x.1 as int, x.2 as int));
            proof {
                assert(lines_view(self.lines@)[row as int].2 == self.lines@[row as int].width);
            }
            proof {
                assert(i < shown_lines(st, area.height as int));
                assert(selection_runs(st, area, ga, gb, i as int) == (match selection_run(st, area, ga, gb, i as int) {
                    Some(r) => seq![r],
                    None => Seq::<(int, int, int)>::empty(),
                }) + selection_runs(st, area, ga, gb, i + 1));
            }
            if !(row < a.1 || row > b.1) {
                let from = if row == a.1 {
                    a.0
                } else {
                    0
                };
                let to = if row == b.1 {
                    b.0
                } else {
                    self.lines[row].width
                };
                proof {
                    assert(st.lines[row as int].2 == self.lines@[row as int].width);
                    assert(selection_run(st, area, ga, gb, i as int) == Some(((area.y + i) as int, from as int, to as int)));
                }
                out.push((area.y + i as u16, from, to));
                proof {
                    assert(out@.map_values(|x: (u16, u16, u16)| (x.0 as int, x.1 as int, x.2 as int)) =~= before.push(
                        ((area.y + i) as int, from as int, to as int),
                    ));
                }
            } else {
                proof {
                    assert(selection_run(st, area, ga, gb, i as int) is None);
                }
            }
            proof {
                assert(out@.map_values(|x: (u16, u16, u16)| (x.0 as int, x.1 as int, x.2 as int)) + selection_runs(
                    st,
                    area,
                    ga,
                    gb,
                    i + 1,
                ) =~= before + selection_runs(st, area, ga, gb, i as int));
            }
            i = i + 1;
        }
        proof {
            assert(selection_runs(st, area, ga, gb, i as int) =~= Seq::<(int, int, int)>::empty());
            assert(out@.map_values(|x: (u16, u16, u16)| (x.0 as int, x.1 as int, x.2 as int)) =~= whole);
        }
        out
    }
}

/// The grapheme clusters of `text` as drawn.
fn rendered_graphemes<'a>(text: &'a str) -> (r: Vec<&'a str>)
    ensures
        strs_view(r@) == rendered_clusters(grapheme_clusters(text@)),
{
    let gs = graphemes_of(text);
    let mut out: Vec<&'a str> = Vec::new();
    let mut i: usize = 0;
    while i < gs.len()
        invariant
            strs_view(gs@) == grapheme_clusters(text@),
            i <= gs@.len(),
            out@.len() == i,
            forall|j: int| 0 <= j < i ==> (#[trigger] out@[j])@ == grapheme_render(gs@[j]@),
        decreases gs@.len() - i,
    {
        out.push(render_grapheme(gs[i]));
        i = i + 1;
    }
    proof {
        assert(strs_view(out@) =~= rendered_clusters(grapheme_clusters(text@))) by {
            assert forall|j: int| 0 <= j < out@.len() implies #[trigger] strs_view(out@)[j] == rendered_clusters(grapheme_clusters(text@))[j] by {
                assert(strs_view(gs@)[j] == gs@[j]@);
            }
        }
    }
    out
}

} // verus!
