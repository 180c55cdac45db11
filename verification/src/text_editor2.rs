//! A simpler text editor that wraps its text at word boundaries as it draws
//! it, and keeps track of how the wrapping moves the cursor. Positions count
//! chars.
use vstd::prelude::*;
use vstd::string::StrSliceExecFns;

use crate::blocks::nl;
use crate::geometry::Rect;
use crate::keys::Key;
use crate::text::{any_white_space, display_width, grapheme_clusters, graphemes_of, push_str, splice, str_any_whitespace, str_contains, str_width, strs_view, string_push};
use crate::text_editor::{next_len_of, prev_len_of};
use crate::text_input::{next_len, prev_len, CursorMove};

verus! {

/// Where wrapping stands: the wrapped text so far, the columns taken on its
/// last line, where the word being read started, and how many line breaks
/// were put in before the cursor.
pub struct WrapState {
    pub lines: Seq<char>,
    pub width: int,
    pub word: Option<int>,
    pub offset: int,
}

/// Puts the word being read, which ends at `end`, on the current line, or on
/// a new line when it would pass `line_width` columns (a break that counts
/// when `before` the cursor).
pub open spec fn take_word(text: Seq<char>, st: WrapState, end: int, line_width: int, before: bool) -> WrapState {
    match st.word {
        None => st,
        Some(start) => {
            let word = text.subrange(start, end);
            let ww = display_width(word) as int;
            if st.width + ww > line_width {
                WrapState {
                    lines: st.lines.push('\n') + word,
                    width: ww,
                    word: None,
                    offset: if before {
                        st.offset + 1
                    } else {
                        st.offset
                    },
                }
            } else {
                WrapState { lines: st.lines + word, width: st.width + ww, word: None, ..st }
            }
        },
    }
}

/// Wraps the clusters from `gs[k]` on (the `k`-th at char `off` of `text`)
/// at `line_width` columns: a line break ends the word and the line; other
/// white space ends the word and starts a new line when it does not fit;
/// other clusters make up words. A cluster is before the cursor when it
/// starts before `cursor` moved by the breaks put in so far.
pub open spec fn wrap_from(
    text: Seq<char>,
    gs: Seq<Seq<char>>,
    k: int,
    off: int,
    st: WrapState,
    cursor: int,
    line_width: int,
) -> WrapState
    decreases gs.len() - k,
{
    if k < 0 || k >= gs.len() {
        take_word(text, st, text.len() as int, line_width, false)
    } else {
        let g = gs[k];
        let before = off < cursor + st.offset;
        let next = off + g.len();
        if nl(g) {
            let t = take_word(text, st, off, line_width, before);
            wrap_from(text, gs, k + 1, next, WrapState { lines: t.lines + g, width: 0, ..t }, cursor, line_width)
        } else if any_white_space(g) {
            let t = take_word(text, st, off, line_width, before);
            let gw = display_width(g) as int;
            let t2 = if t.width + gw > line_width {
                WrapState {
                    lines: t.lines.push('\n'),
                    width: 0,
                    offset: if before {
                        t.offset + 1
                    } else {
                        t.offset
                    },
                    ..t
                }
            } else {
                t
            };
            wrap_from(
                text,
                gs,
                k + 1,
                next,
                WrapState { lines: t2.lines + g, width: t2.width + gw, ..t2 },
                cursor,
                line_width,
            )
        } else {
            wrap_from(
                text,
                gs,
                k + 1,
                next,
                if st.word is None {
                    WrapState { word: Some(off), ..st }
                } else {
                    st
                },
                cursor,
                line_width,
            )
        }
    }
}

/// The text wrapped at `line_width` columns, and the line breaks put in
/// before the cursor.
pub open spec fn wrapped(text: Seq<char>, cursor: int, line_width: int) -> (Seq<char>, int) {
    let st = wrap_from(
        text,
        grapheme_clusters(text),
        0,
        0,
        WrapState { lines: Seq::empty(), width: 0, word: None, offset: 0 },
        cursor,
        line_width,
    );
    (st.lines, st.offset)
}

/// A cell a frame sets: a line break's cell, styled only, or a cluster's
/// cell with its symbol; either marked when the cursor is on it.
pub enum CellView {
    Mark(int, int, bool),
    Symbol(int, int, Seq<char>, bool),
}

/// The cells set for the wrapped clusters from `gs[k]` on (the `k`-th at
/// char `off`), the next one at `x`, `y`; a line break moves to the start of
/// the next row, and drawing stops at the bottom of `area`. Gives the cells
/// and where drawing ended.
pub open spec fn draw_from(gs: Seq<Seq<char>>, k: int, off: int, x: int, y: int, area: Rect, cursor: int) -> (
    Seq<CellView>,
    int,
    int,
)
    decreases gs.len() - k,
{
    if k < 0 || k >= gs.len() {
        (Seq::empty(), x, y)
    } else {
        let g = gs[k];
        let here = off == cursor;
        if nl(g) {
            if y + 1 >= area.y + area.height {
                (seq![CellView::Mark(x, y, here)], area.x as int, y + 1)
            } else {
                let rest = draw_from(gs, k + 1, off + g.len(), area.x as int, y + 1, area, cursor);
                (seq![CellView::Mark(x, y, here)] + rest.0, rest.1, rest.2)
            }
        } else {
            let rest = draw_from(gs, k + 1, off + g.len(), x + (display_width(g) as u16) as int, y, area, cursor);
            (seq![CellView::Symbol(x, y, g, here)] + rest.0, rest.1, rest.2)
        }
    }
}

/// A cell a frame sets; see `CellView`.
pub enum EditorCell {
    Mark { x: u128, y: u128, cursor: bool },
    Symbol { x: u128, y: u128, symbol: String, cursor: bool },
}

impl EditorCell {
    pub open spec fn view(&self) -> CellView {
        match self {
            EditorCell::Mark { x, y, cursor } => CellView::Mark(*x as int, *y as int, *cursor),
            EditorCell::Symbol { x, y, symbol, cursor } => CellView::Symbol(*x as int, *y as int, symbol@, *cursor),
        }
    }
}

/// The views of cells.
pub open spec fn cells_view(v: Seq<EditorCell>) -> Seq<CellView> {
    v.map_values(|c: EditorCell| c.view())
}

/// What a frame draws: the cells, and the cell where the cursor is drawn
/// when it stands at the end of the text.
pub struct Editor2Frame {
    pub cells: Vec<EditorCell>,
    pub end_cursor: Option<(u128, u128)>,
}

/// A text editor that wraps its text at word boundaries when drawn.
pub struct TextEditor2 {
    input: String,
    cursor: usize,
    lines: String,
    cursor_offset: usize,
}

impl TextEditor2 {
    pub closed spec fn text(&self) -> Seq<char> {
        self.input@
    }

    pub closed spec fn cursor(&self) -> int {
        self.cursor as int
    }

    /// The text as wrapped by the last frame.
    pub closed spec fn wrapped_text(&self) -> Seq<char> {
        self.lines@
    }

    /// The line breaks that the last frame put in before the cursor.
    pub closed spec fn cursor_offset(&self) -> int {
        self.cursor_offset as int
    }

    pub closed spec fn wf(&self) -> bool {
        self.cursor <= self.input@.len()
    }

    /// An editor that starts with a few lines of sample text, the cursor at
    /// its start.
    pub fn new() -> (e: Self)
        ensures
            e.wf(),
            e.text() == "this is test text\na new line comes here\nand another one\nlast one that is very long and should wrap around at the end because why not huh this is getting     tedious      why not some more text or ok done\n"@,
            e.cursor() == 0,
            e.wrapped_text() == Seq::<char>::empty(),
            e.cursor_offset() == 0,
    {
        let mut input = String::new();
        push_str(
            &mut input,
            "this is test text\na new line comes here\nand another one\nlast one that is very long and should wrap around at the end because why not huh this is getting     tedious      why not some more text or ok done\n",
        );
        let e = TextEditor2 { input, cursor: 0, lines: String::new(), cursor_offset: 0 };
        proof {
            assert(e.lines@ =~= Seq::<char>::empty());
        }
        e
    }

    pub fn is_empty(&self) -> (b: bool)
        ensures
            b == (self.text().len() == 0),
    {
        self.input.as_str().unicode_len() == 0
    }

    pub fn as_str(&self) -> (s: &str)
        ensures
            s@ == self.text(),
    {
        self.input.as_str()
    }

    /// Types `c` at the cursor.
    pub fn push_char(&mut self, c: char)
        requires
            old(self).wf(),
        ensures
            final(self).wf(),
            final(self).text() == old(self).text().insert(old(self).cursor(), c),
            final(self).cursor() == old(self).cursor() + 1,
            final(self).wrapped_text() == old(self).wrapped_text(),
            final(self).cursor_offset() == old(self).cursor_offset(),
    {
        let mut t = String::new();
        string_push(&mut t, c);
        self.push_str(t.as_str());
        proof {
            assert(self.text() =~= old(self).text().insert(old(self).cursor(), c));
        }
    }

    /// Types `s` at the cursor.
    pub fn push_str(&mut self, s: &str)
        requires
            old(self).wf(),
        ensures
            final(self).wf(),
            final(self).text() == old(self).text().subrange(0, old(self).cursor()) + s@ + old(self).text().subrange(
                old(self).cursor(),
                old(self).text().len() as int,
            ),
            final(self).cursor() == old(self).cursor() + s@.len(),
            final(self).wrapped_text() == old(self).wrapped_text(),
            final(self).cursor_offset() == old(self).cursor_offset(),
    {
        self.input = splice(self.input.as_str(), self.cursor, self.cursor, s);
        let _len = self.input.as_str().unicode_len();
        self.cursor = self.cursor + s.unicode_len();
    }

    /// Moves the cursor by a grapheme cluster, or to the start or the end;
    /// always tells that something may have changed. Moves up and down are
    /// not there.
    pub fn move_cursor(&mut self, cm: CursorMove) -> (changed: bool)
        requires
            old(self).wf(),
            !(cm is Up),
            !(cm is Down),
        ensures
            final(self).wf(),
            final(self).text() == old(self).text(),
            final(self).wrapped_text() == old(self).wrapped_text(),
            final(self).cursor_offset() == old(self).cursor_offset(),
            final(self).cursor() == match cm {
                CursorMove::Forward => old(self).cursor() + next_len(old(self).text(), old(self).cursor()),
                CursorMove::Back => old(self).cursor() - prev_len(old(self).text(), old(self).cursor()),
                CursorMove::Start => 0,
                _ => old(self).text().len() as int,
            },
            changed,
    {
        match cm {
            CursorMove::Forward => {
                let n = next_len_of(self.input.as_str(), self.cursor);
                let _len = self.input.as_str().unicode_len();
                self.cursor = self.cursor + n;
            },
            CursorMove::Back => {
                let n = prev_len_of(self.input.as_str(), self.cursor);
                self.cursor = self.cursor - n;
            },
            CursorMove::Start => {
                self.cursor = 0;
            },
            _ => {
                self.cursor = self.input.as_str().unicode_len();
            },
        }
        true
    }

    /// Reacts to a key: the arrows right and left, Home and End move the
    /// cursor, Enter types a line break; always tells that something may
    /// have changed. The arrows up and down are not there.
    pub fn input(&mut self, key: Key) -> (changed: bool)
        requires
            old(self).wf(),
            !(key is Up),
            !(key is Down),
        ensures
            final(self).wf(),
            final(self).wrapped_text() == old(self).wrapped_text(),
            final(self).cursor_offset() == old(self).cursor_offset(),
            match key {
                Key::Right => final(self).text() == old(self).text() && final(self).cursor() == old(self).cursor()
                    + next_len(old(self).text(), old(self).cursor()),
                Key::Left => final(self).text() == old(self).text() && final(self).cursor() == old(self).cursor()
                    - prev_len(old(self).text(), old(self).cursor()),
                Key::Home => final(self).text() == old(self).text() && final(self).cursor() == 0,
                Key::End => final(self).text() == old(self).text() && final(self).cursor() == old(self).text().len(),
                Key::Enter => final(self).text() == old(self).text().insert(old(self).cursor(), '\n')
                    && final(self).cursor() == old(self).cursor() + 1,
                _ => final(self).text() == old(self).text() && final(self).cursor() == old(self).cursor(),
            },
            changed,
    {
        match key {
            Key::Right => self.move_cursor(CursorMove::Forward),
            Key::Left => self.move_cursor(CursorMove::Back),
            Key::Home => self.move_cursor(CursorMove::Start),
            Key::End => self.move_cursor(CursorMove::End),
            Key::Enter => {
                self.push_char('\n');
                true
            },
            _ => true,
        }
    }

    pub fn clear(&mut self)
        ensures
            final(self).wf(),
            final(self).text() == Seq::<char>::empty(),
            final(self).cursor() == 0,
            final(self).wrapped_text() == old(self).wrapped_text(),
            final(self).cursor_offset() == old(self).cursor_offset(),
    {
        self.input = String::new();
        self.cursor = 0;
        proof {
            assert(self.input@ =~= Seq::<char>::empty());
        }
    }
}

/// Puts the word being read on the wrapped text; see `take_word`.
fn take_word_into(
    text: &str,
    lines: &mut String,
    width: &mut u128,
    word: &mut Option<usize>,
    offset: &mut usize,
    end: usize,
    line_width: u16,
    before: bool,
)
    requires
        end <= text@.len(),
        *old(word) matches Some(s) ==> s < end && *old(offset) <= s,
        *old(width) <= u64::MAX,
    ensures
        ({
            let st = WrapState {
                lines: old(lines)@,
                width: *old(width) as int,
                word: match *old(word) {
                    Some(s) => Some(s as int),
                    None => None,
                },
                offset: *old(offset) as int,
            };
            let t = take_word(text@, st, end as int, line_width as int, before);
            &&& final(lines)@ == t.lines
            &&& *final(width) == t.width
            &&& *final(word) == None::<usize>
            &&& *final(offset) == t.offset
        }),
        *final(width) <= u64::MAX,
        *final(offset) <= *old(offset) + 1,
        *old(word) is None ==> *final(offset) == *old(offset),
        *old(word) matches Some(s) ==> *final(offset) <= s + 1,
{
    if let Some(start) = *word {
        let w = text.substring_char(start, end);
        let ww = str_width(w) as u128;
        if *width + ww > line_width as u128 {
            *width = ww;
            string_push(lines, '\n');
            push_str(lines, w);
            if before {
                *offset = *offset + 1;
            }
        } else {
            *width = *width + ww;
            push_str(lines, w);
        }
        *word = None;
    }
}

impl TextEditor2 {
    /// Wraps the text at the width of `area`, noting the line breaks put in
    /// before the cursor, and gives the cells to set: each cluster of the
    /// wrapped text from the top left of `area` on, the cursor's cell
    /// marked, down to the bottom of `area`.
    #[verifier::rlimit(40)]
    pub fn frame(&mut self, area: Rect) -> (f: Editor2Frame)
        requires
            old(self).wf(),
        ensures
            final(self).wf(),
            final(self).text() == old(self).text(),
            final(self).cursor() == old(self).cursor(),
            ({
                let (lines, offset) = wrapped(old(self).text(), old(self).cursor(), area.width as int);
                let d = draw_from(
                    grapheme_clusters(lines),
                    0,
                    0,
                    area.x as int,
                    area.y as int,
                    area,
                    old(self).cursor() + offset,
                );
                &&& final(self).wrapped_text() == lines
                &&& final(self).cursor_offset() == offset
                &&& cells_view(f.cells@) == d.0
                &&& f.end_cursor == if old(self).cursor() == old(self).text().len() {
                    Some((d.1 as u128, d.2 as u128))
                } else {
                    None
                }
            }),
    {
        let text = self.input.as_str();
        let gs = graphemes_of(text);
        let ghost v = strs_view(gs@);
        let ghost lw = area.width as int;
        let ghost init = WrapState { lines: Seq::empty(), width: 0, word: None, offset: 0 };
        let ghost whole = wrap_from(text@, v, 0, 0, init, self.cursor as int, lw);
        let mut lines = String::new();
        let mut width: u128 = 0;
        let mut word: Option<usize> = None;
        let mut offset: usize = 0;
        let mut off: usize = 0;
        let mut k: usize = 0;
        let cursor = self.cursor;
        let len = text.unicode_len();
        proof {
            assert(lines@ =~= Seq::<char>::empty());
            assert(v.take(0).flatten() =~= Seq::<char>::empty());
        }
        while k < gs.len()
            invariant
                len == text@.len(),
                forall|i: int| 0 <= i < gs@.len() ==> (#[trigger] gs@[i])@.len() > 0,
                v == strs_view(gs@),
                v == grapheme_clusters(text@),
                v.flatten() == text@,
                text@ == self.input@,
                cursor == self.cursor,
                cursor <= text@.len(),
                lw == area.width,
                k <= gs@.len(),
                off == v.take(k as int).flatten().len(),
                off <= text@.len(),
                width <= u64::MAX,
                word matches Some(s) ==> s < off && offset <= s,
                word is None ==> offset <= off,
                whole == wrap_from(text@, v, 0, 0, init, cursor as int, lw),
                whole == wrap_from(
                    text@,
                    v,
                    k as int,
                    off as int,
                    WrapState {
                        lines: lines@,
                        width: width as int,
                        word: match word {
                            Some(s) => Some(s as int),
                            None => None,
                        },
                        offset: offset as int,
                    },
                    cursor as int,
                    lw,
                ),
            decreases gs@.len() - k,
        {
            let g = gs[k];
            proof {
                v.take(k as int).lemma_flatten_push(v[k as int]);
                assert(v.take(k + 1) =~= v.take(k as int).push(v[k as int]));
                crate::graphemes::lemma_offset_bound(gs@, k + 1);
                assert(v[k as int] == g@);
                assert(strs_view(gs@.take(k + 1)) =~= v.take(k + 1));
                assert(crate::graphemes::cluster_offset(gs@, gs@.len() as int) == text@.len());
                assert(crate::graphemes::cluster_offset(gs@, k + 1) == off + g@.len());
                assert(g@.len() > 0) by {
                    assert(gs@[k as int]@.len() > 0);
                }
            }
            let before = (off as u128) < (cursor as u128) + (offset as u128);
            let next = off + g.unicode_len();
            if str_contains(g, '\n') {
                take_word_into(text, &mut lines, &mut width, &mut word, &mut offset, off, area.width, before);
                width = 0;
                push_str(&mut lines, g);
            } else if str_any_whitespace(g) {
                take_word_into(text, &mut lines, &mut width, &mut word, &mut offset, off, area.width, before);
                let gw = str_width(g) as u128;
                if width + gw > area.width as u128 {
                    width = 0;
                    string_push(&mut lines, '\n');
                    if before {
                        offset = offset + 1;
                    }
                }
                width = width + gw;
                push_str(&mut lines, g);
            } else {
                if word.is_none() {
                    word = Some(off);
                }
            }
            off = next;
            k = k + 1;
        }
        proof {
            assert(v.take(k as int) =~= v);
        }
        take_word_into(text, &mut lines, &mut width, &mut word, &mut offset, len, area.width, false);
        let ghost wl = lines@;
        let at_end = self.cursor == len;
        self.lines = lines;
        self.cursor_offset = offset;
        let (cells, x, y) = draw_cells(self.lines.as_str(), area, cursor as u128 + offset as u128);
        let end_cursor = if at_end {
            Some((x, y))
        } else {
            None
        };
        Editor2Frame { cells, end_cursor }
    }
}

/// The cells for the wrapped text; see `draw_from`.
fn draw_cells(lines: &str, area: Rect, cursor: u128) -> (r: (Vec<EditorCell>, u128, u128))
    ensures
        ({
            let d = draw_from(grapheme_clusters(lines@), 0, 0, area.x as int, area.y as int, area, cursor as int);
            &&& cells_view(r.0@) == d.0
            &&& r.1 == d.1
            &&& r.2 == d.2
        }),
{
    let gs = graphemes_of(lines);
    let ghost v = strs_view(gs@);
    let ghost whole = draw_from(v, 0, 0, area.x as int, area.y as int, area, cursor as int);
    let mut cells: Vec<EditorCell> = Vec::new();
    let mut x: u128 = area.x as u128;
    let mut y: u128 = area.y as u128;
    let mut off: usize = 0;
    let mut k: usize = 0;
    let bottom = area.y as u128 + area.height as u128;
    let len = lines.unicode_len();
    proof {
        assert(v.take(0).flatten() =~= Seq::<char>::empty());
    }
    while k < gs.len()
        invariant
            len == lines@.len(),
            v == strs_view(gs@),
            v == grapheme_clusters(lines@),
            v.flatten() == lines@,
            k <= gs@.len(),
            off == v.take(k as int).flatten().len(),
            off <= lines@.len(),
            x <= u16::MAX as u128 * (k as u128 + 1),
            y <= u16::MAX as u128 + k as u128,
            bottom == area.y + area.height,
            whole == draw_from(v, 0, 0, area.x as int, area.y as int, area, cursor as int),
            ({
                let rest = draw_from(v, k as int, off as int, x as int, y as int, area, cursor as int);
                &&& cells_view(cells@) + rest.0 == whole.0
                &&& rest.1 == whole.1
                &&& rest.2 == whole.2
            }),
        decreases gs@.len() - k,
    {
        let g = gs[k];
        proof {
            v.take(k as int).lemma_flatten_push(v[k as int]);
            assert(v.take(k + 1) =~= v.take(k as int).push(v[k as int]));
            crate::graphemes::lemma_offset_bound(gs@, k + 1);
            assert(v[k as int] == g@);
            assert(strs_view(gs@.take(k + 1)) =~= v.take(k + 1));
            assert(crate::graphemes::cluster_offset(gs@, gs@.len() as int) == lines@.len());
            assert(crate::graphemes::cluster_offset(gs@, k + 1) == off + g@.len());
        }
        let ghost x0 = x;
        let ghost y0 = y;
        let here = off as u128 == cursor;
        let ghost before = cells_view(cells@);
        let next = off + g.unicode_len();
        if str_contains(g, '\n') {
            let c = EditorCell::Mark { x, y, cursor: here };
            cells.push(c);
            proof {
                assert(cells_view(cells@) =~= before.push(c.view()));
            }
            if y + 1 >= bottom {
                proof {
                    assert(cells_view(cells@) =~= whole.0);
                }
                return (cells, area.x as u128, y + 1);
            }
            x = area.x as u128;
            y = y + 1;
            proof {
                assert(draw_from(v, k as int, off as int, x0 as int, y0 as int, area, cursor as int) == (seq![
                    c.view(),
                ] + draw_from(v, k + 1, next as int, x as int, y as int, area, cursor as int).0, draw_from(v, k + 1, next as int, x as int, y as int, area, cursor as int).1, draw_from(v, k + 1, next as int, x as int, y as int, area, cursor as int).2));
                assert(cells_view(cells@) + draw_from(v, k + 1, next as int, x as int, y as int, area, cursor as int).0
                    =~= before + draw_from(v, k as int, off as int, x0 as int, y0 as int, area, cursor as int).0);
            }
        } else {
            let mut symbol = String::new();
            push_str(&mut symbol, g);
            let c = EditorCell::Symbol { x, y, symbol, cursor: here };
            cells.push(c);
            let w = #[verifier::truncate] (str_width(g) as u16);
            proof {
                assert(cells_view(cells@) =~= before.push(c.view()));
            }
            x = x + w as u128;
        }
        off = next;
        k = k + 1;
    }
    proof {
        assert(cells_view(cells@) =~= cells_view(cells@) + draw_from(v, k as int, off as int, x as int, y as int, area, cursor as int).0);
    }
    (cells, x, y)
}

} // verus!
