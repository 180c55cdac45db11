//! A list of tokens laid out in rows, left to right, wrapping when a row is
//! full, with one of them selected.
use vstd::prelude::*;

use crate::geometry::{Rect, Size};
use crate::keys::Key;
use crate::markup::{min_of, sat_sub};
use crate::scroll::{scroll_with_margins, Scrollbar, ScrollbarColors};

verus! {

/// Something shown in a token list: it tells how many columns it takes.
pub trait TokenItem {
    fn width(&self) -> u16;
}

/// The widths of the items, in order.
pub fn item_widths<T: TokenItem>(items: &[T]) -> (w: Vec<u16>)
    ensures
        w@.len() == items@.len(),
{
    let mut w: Vec<u16> = Vec::new();
    let mut i: usize = 0;
    while i < items.len()
        invariant
            i <= items@.len(),
            w@.len() == i,
        decreases items@.len() - i,
    {
        w.push(items[i].width());
        i = i + 1;
    }
    w
}

/// Where the `k`-th item goes, and where the one after it would start, when
/// items of `widths` are put in rows of `max_width` columns with `gap`
/// columns between them: an item that does not fit in what is left of a row
/// starts the next one (the first item stays in the first row).
pub open spec fn place(widths: Seq<u16>, max_width: int, gap: int, k: int) -> (int, int, int)
    decreases k,
{
    let (x, y) = if k <= 0 {
        (0int, 0int)
    } else {
        let prev = place(widths, max_width, gap, k - 1);
        (prev.2, prev.1)
    };
    let w = widths[k] as int;
    if k <= 0 {
        (0, 0, w + gap)
    } else if x + w > max_width {
        (0, y + 1, w + gap)
    } else {
        (x, y, x + w + gap)
    }
}

/// The column of the `k`-th item.
pub open spec fn col_of(widths: Seq<u16>, max_width: int, gap: int, k: int) -> int {
    place(widths, max_width, gap, k).0
}

/// The row of the `k`-th item.
pub open spec fn row_of(widths: Seq<u16>, max_width: int, gap: int, k: int) -> int {
    place(widths, max_width, gap, k).1
}

proof fn lemma_place(widths: Seq<u16>, max_width: int, gap: int, k: int)
    requires
        0 <= k,
        0 <= max_width,
        0 <= gap,
    ensures
        0 <= row_of(widths, max_width, gap, k) <= k,
        0 <= col_of(widths, max_width, gap, k) <= max_width || col_of(widths, max_width, gap, k) == 0,
        col_of(widths, max_width, gap, k) > 0 ==> col_of(widths, max_width, gap, k) + widths[k] <= max_width,
        place(widths, max_width, gap, k).2 == col_of(widths, max_width, gap, k) + widths[k] + gap,
        k > 0 ==> row_of(widths, max_width, gap, k - 1) <= row_of(widths, max_width, gap, k) <= row_of(
            widths,
            max_width,
            gap,
            k - 1,
        ) + 1,
    decreases k,
{
    if k > 0 {
        lemma_place(widths, max_width, gap, k - 1);
    }
}

proof fn lemma_rows_ordered(widths: Seq<u16>, max_width: int, gap: int, i: int, j: int)
    requires
        0 <= i <= j,
        0 <= max_width,
        0 <= gap,
    ensures
        row_of(widths, max_width, gap, i) <= row_of(widths, max_width, gap, j),
    decreases j - i,
{
    if i < j {
        lemma_rows_ordered(widths, max_width, gap, i, j - 1);
        lemma_place(widths, max_width, gap, j);
    }
}

/// The distance between two columns.
pub open spec fn dist(a: int, b: int) -> int {
    if a >= b {
        a - b
    } else {
        b - a
    }
}

/// Whether `r` is the item nearest to column `col` among the items of the
/// first `n` from `from` on that lie in row `row` (the later one of two
/// equally near), when there is one such item; 0 otherwise.
pub open spec fn is_nearest(
    widths: Seq<u16>,
    max_width: int,
    gap: int,
    n: int,
    from: int,
    row: int,
    col: int,
    r: int,
) -> bool {
    if exists|i: int| from <= i < n && row_of(widths, max_width, gap, i) == row {
        &&& from <= r < n
        &&& row_of(widths, max_width, gap, r) == row
        &&& forall|j: int|
            from <= j < n && row_of(widths, max_width, gap, j) == row ==> dist(
                col,
                col_of(widths, max_width, gap, j),
            ) >= dist(col, col_of(widths, max_width, gap, r)) && (dist(
                col,
                col_of(widths, max_width, gap, j),
            ) == dist(col, col_of(widths, max_width, gap, r)) ==> j <= r)
    } else {
        r == 0
    }
}

/// An item drawn in a frame: its index, where it goes, and whether it is
/// the selected one.
pub struct TokenDraw {
    pub index: usize,
    pub area: Rect,
    pub selected: bool,
}

/// What a frame of a token list shows: the items in view, and the scrollbar's
/// area and colors with the scroll and the number of rows.
pub struct TokenFrame {
    pub items: Vec<TokenDraw>,
    pub scrollbar: Option<(Rect, ScrollbarColors, usize, usize)>,
}

/// A list of tokens laid out in rows with one of them selected, scrolled so
/// that the selected one is in view.
pub struct TokenList {
    pub index: usize,
    pub index_col: u16,
    pub index_row: u16,
    pub scroll: u16,
    pub total_lines: u16,
    pub total_items: usize,
    pub size: Size,
    pub gap: u16,
    pub scrollbar: Option<ScrollbarColors>,
}

/// Where the row and column of the item nearest to `col` in `row` are
/// found, one item after the other: the best so far and its distance.
fn nearest_in_row(widths: &[u16], max_width: u16, gap: u16, from: usize, row: u32, col: u16) -> (r: usize)
    requires
        widths@.len() <= u16::MAX,
    ensures
        is_nearest(widths@, max_width as int, gap as int, widths@.len() as int, from as int, row as int, col as int, r as int),
{
    let n = widths.len();
    let ghost ws = widths@;
    let ghost mw = max_width as int;
    let ghost g = gap as int;
    let mut best: usize = 0;
    let mut best_d: u32 = u16::MAX as u32 + 1;
    let mut found = false;
    let mut x: u64 = 0;
    let mut y: u64 = 0;
    let mut i: usize = 0;
    while i < n
        invariant
            n == ws.len() <= u16::MAX,
            ws == widths@,
            mw == max_width,
            g == gap,
            i <= n,
            i > 0 ==> x == place(ws, mw, g, i - 1).2 && y == row_of(ws, mw, g, i - 1),
            i == 0 ==> x == 0 && y == 0,
            x <= u16::MAX as u64 * 3,
            y <= i,
            found == exists|j: int| from <= j < i && row_of(ws, mw, g, j) == row,
            found ==> best_d == dist(col as int, col_of(ws, mw, g, best as int)) && from <= best < i
                && row_of(ws, mw, g, best as int) == row,
            !found ==> best == 0 && best_d == u16::MAX as u32 + 1,
            forall|j: int|
                from <= j < i && row_of(ws, mw, g, j) == row ==> dist(col as int, col_of(ws, mw, g, j))
                    >= best_d && (dist(col as int, col_of(ws, mw, g, j)) == best_d ==> j <= best),
        decreases n - i,
    {
        proof {
            lemma_place(ws, mw, g, i as int);
            if i > 0 {
                lemma_place(ws, mw, g, i - 1);
            }
        }
        let w = widths[i] as u64;
        let (cx, cy) = if x + w > max_width as u64 {
            if i > 0 {
                (0u64, y + 1)
            } else {
                (0u64, y)
            }
        } else {
            (x, y)
        };
        proof {
            assert(cx == col_of(ws, mw, g, i as int));
            assert(cy == row_of(ws, mw, g, i as int));
        }
        if i >= from && cy == row as u64 {
            let d: u32 = if (col as u64) >= cx {
                (col as u64 - cx) as u32
            } else {
                (cx - col as u64) as u32
            };
            if d <= best_d {
                best = i;
                best_d = d;
            }
            found = true;
        }
        x = cx + w + gap as u64;
        y = cy;
        i = i + 1;
    }
    best
}

/// A key moved the selection of a token list from `o` to `f`, with
/// `changed` telling whether it moved; see `TokenList::input`.
pub open spec fn token_input(o: TokenList, key: Key, widths: Seq<u16>, f: TokenList, changed: bool) -> bool {
    let last = sat_sub(o.total_items as int, 1);
    let mw = o.size.width as int;
    let g = o.gap as int;
    let n = widths.len() as int;
    let i = f.index as int;
    &&& match key {
        Key::Right => i == min_of(o.index + 1, last),
        Key::Left => i == sat_sub(o.index as int, 1),
        Key::Down => if o.index_row == sat_sub(o.total_lines as int, 1) {
            i == last
        } else {
            is_nearest(widths, mw, g, n, o.index + 1, o.index_row + 1, o.index_col as int, i)
        },
        Key::Up => if o.index_row == 0 {
            i == 0
        } else {
            is_nearest(widths, mw, g, n, 0, o.index_row - 1, o.index_col as int, i)
        },
        Key::Home => i == 0,
        Key::End => i == last,
        _ => i == o.index,
    }
    &&& f == (TokenList { index: f.index, ..o })
    &&& changed == (f.index != o.index)
}

impl TokenList {
    pub fn new() -> (t: Self)
        ensures
            t == (TokenList {
                index: 0,
                index_col: 0,
                index_row: 0,
                scroll: 0,
                total_lines: 0,
                total_items: 0,
                size: Size { width: 0, height: 0 },
                gap: 2,
                scrollbar: None,
            }),
    {
        TokenList {
            index: 0,
            index_col: 0,
            index_row: 0,
            scroll: 0,
            total_lines: 0,
            total_items: 0,
            size: Size { width: 0, height: 0 },
            gap: 2,
            scrollbar: None,
        }
    }

    pub fn with_gap(self, gap: u16) -> (t: Self)
        ensures
            t == (TokenList { gap, ..self }),
    {
        TokenList { gap, ..self }
    }

    pub fn index(&self) -> (i: usize)
        ensures
            i == self.index,
    {
        self.index
    }

    pub fn set_index(&mut self, i: usize) -> (r: &mut Self)
        ensures
            *r == (TokenList { index: i, ..*old(self) }),
            *final(self) == *final(r),
    {
        self.index = i;
        self
    }

    pub fn set_scrollbar(&mut self, colors: ScrollbarColors) -> (r: &mut Self)
        ensures
            *r == (TokenList { scrollbar: Some(colors), ..*old(self) }),
            *final(self) == *final(r),
    {
        self.scrollbar = Some(colors);
        self
    }

    /// Lays the items of `widths` out in `width` columns: counts them and
    /// their rows, and notes the row and column of the selected one.
    pub fn process_items(&mut self, width: u16, widths: &[u16]) -> (r: &mut Self)
        requires
            widths@.len() <= u16::MAX,
        ensures
            ({
                let n = widths@.len() as int;
                let o = *old(self);
                &&& r.total_items == n
                &&& r.total_lines == if n > 0 {
                    (row_of(widths@, width as int, o.gap as int, n - 1) + 1) as u16
                } else {
                    o.total_lines
                }
                &&& r.index_col == if o.index < n {
                    col_of(widths@, width as int, o.gap as int, o.index as int) as u16
                } else {
                    o.index_col
                }
                &&& r.index_row == if o.index < n {
                    row_of(widths@, width as int, o.gap as int, o.index as int) as u16
                } else {
                    o.index_row
                }
                &&& *r == (TokenList {
                    total_items: r.total_items,
                    total_lines: r.total_lines,
                    index_col: r.index_col,
                    index_row: r.index_row,
                    ..o
                })
            }),
            *final(self) == *final(r),
    {
        let n = widths.len();
        let ghost ws = widths@;
        let ghost mw = width as int;
        let ghost g = self.gap as int;
        let ghost o = *self;
        self.total_items = 0;
        let mut x: u64 = 0;
        let mut y: u64 = 0;
        let mut i: usize = 0;
        while i < n
            invariant
                n == ws.len() <= u16::MAX,
                ws == widths@,
                g == self.gap,
                mw == width,
                i <= n,
                i > 0 ==> x == place(ws, mw, g, i - 1).2 && y == row_of(ws, mw, g, i - 1),
                i == 0 ==> x == 0 && y == 0,
                x <= u16::MAX as u64 * 3,
                y <= i,
                self.total_items == i,
                self.total_lines == if i > 0 {
                    (row_of(ws, mw, g, i - 1) + 1) as u16
                } else {
                    o.total_lines
                },
                self.index_col == if o.index < i {
                    col_of(ws, mw, g, o.index as int) as u16
                } else {
                    o.index_col
                },
                self.index_row == if o.index < i {
                    row_of(ws, mw, g, o.index as int) as u16
                } else {
                    o.index_row
                },
                *self == (TokenList {
                    total_items: self.total_items,
                    total_lines: self.total_lines,
                    index_col: self.index_col,
                    index_row: self.index_row,
                    ..o
                }),
            decreases n - i,
        {
            proof {
                lemma_place(ws, mw, g, i as int);
                if i > 0 {
                    lemma_place(ws, mw, g, i - 1);
                }
            }
            let w = widths[i] as u64;
            let (cx, cy) = if x + w > width as u64 {
                if i > 0 {
                    (0u64, y + 1)
                } else {
                    (0u64, y)
                }
            } else {
                (x, y)
            };
            proof {
                assert(cx == col_of(ws, mw, g, i as int));
                assert(cy == row_of(ws, mw, g, i as int));
            }
            if self.index == i {
                self.index_col = cx as u16;
                self.index_row = cy as u16;
            }
            self.total_items = self.total_items + 1;
            self.total_lines = (cy + 1) as u16;
            x = cx + w + self.gap as u64;
            y = cy;
            i = i + 1;
        }
        self
    }

    /// Moves the selection by a key: Right and Left to the next and previous
    /// item, Down and Up to the nearest item in the next or previous row (to
    /// the last or first item from the last or first row), Home and End to
    /// the first and last item, as laid out in the last frame's width. Tells
    /// whether the selection moved.
    pub fn input(&mut self, key: Key, widths: &[u16]) -> (changed: bool)
        requires
            widths@.len() <= u16::MAX,
        ensures
            ({
                let o = *old(self);
                let last = sat_sub(o.total_items as int, 1);
                let mw = o.size.width as int;
                let g = o.gap as int;
                let n = widths@.len() as int;
                let i = final(self).index as int;
                &&& match key {
                    Key::Right => i == min_of(o.index + 1, last),
                    Key::Left => i == sat_sub(o.index as int, 1),
                    Key::Down => if o.index_row == sat_sub(o.total_lines as int, 1) {
                        i == last
                    } else {
                        is_nearest(widths@, mw, g, n, o.index + 1, o.index_row + 1, o.index_col as int, i)
                    },
                    Key::Up => if o.index_row == 0 {
                        i == 0
                    } else {
                        is_nearest(widths@, mw, g, n, 0, o.index_row - 1, o.index_col as int, i)
                    },
                    Key::Home => i == 0,
                    Key::End => i == last,
                    _ => i == o.index,
                }
                &&& *final(self) == (TokenList { index: final(self).index, ..o })
                &&& changed == (final(self).index != o.index)
            }),
            token_input(*old(self), key, widths@, *final(self), changed),
    {
        let old_index = self.index;
        let last = self.total_items.saturating_sub(1);
        match key {
            Key::Right => {
                self.index = if self.index < last {
                    self.index + 1
                } else {
                    last
                };
            },
            Key::Left => {
                self.index = self.index.saturating_sub(1);
            },
            Key::Down => {
                self.index = if self.index_row == self.total_lines.saturating_sub(1) {
                    last
                } else if self.index < usize::MAX {
                    nearest_in_row(widths, self.size.width, self.gap, self.index + 1, self.index_row as u32 + 1, self.index_col)
                } else {
                    nearest_in_row(widths, self.size.width, self.gap, usize::MAX, self.index_row as u32 + 1, self.index_col)
                };
            },
            Key::Up => {
                self.index = if self.index_row == 0 {
                    0
                } else {
                    nearest_in_row(widths, self.size.width, self.gap, 0, self.index_row as u32 - 1, self.index_col)
                };
            },
            Key::Home => {
                self.index = 0;
            },
            Key::End => {
                self.index = last;
            },
            _ => {},
        }
        self.index != old_index
    }

    /// Draws a frame in `area`: lays the items out (in the area less a
    /// scrollbar's columns, when the rows do not fit and there are colors for
    /// one), scrolls so that the selected row is in view (from the top again
    /// when the size changed), and gives the items in view.
    #[verifier::rlimit(30)]
    pub fn frame(&mut self, area: Rect, widths: &[u16]) -> (f: TokenFrame)
        requires
            widths@.len() <= u16::MAX,
            area.x + area.width <= u16::MAX,
            area.y + area.height <= u16::MAX,
        ensures
            ({
                let o = *old(self);
                let n = widths@.len() as int;
                let g = o.gap as int;
                let lines_at = |w: int| if n > 0 {
                    (row_of(widths@, w, g, n - 1) + 1) as u16
                } else {
                    o.total_lines
                };
                let wide = lines_at(area.width as int);
                let bar = o.scrollbar is Some && wide > area.height && area.width > 15;
                let a = if bar {
                    Rect { width: sat_sub(area.width as int, 2) as u16, ..area }
                } else {
                    area
                };
                let lines = if bar {
                    lines_at(a.width as int)
                } else {
                    wide
                };
                let row = if o.index < n {
                    row_of(widths@, a.width as int, g, o.index as int) as u16
                } else {
                    o.index_row
                };
                let col = if o.index < n {
                    col_of(widths@, a.width as int, g, o.index as int) as u16
                } else {
                    o.index_col
                };
                let start = if o.size != (Size { width: a.width, height: a.height }) {
                    0
                } else {
                    o.scroll as int
                };
                let scroll = scroll_with_margins(lines as int, a.height as int, row as int, start, 0, 0, 0) as u16;
                &&& *final(self) == (TokenList {
                    index_col: col,
                    index_row: row,
                    scroll,
                    total_lines: lines,
                    total_items: n as usize,
                    size: Size { width: a.width, height: a.height },
                    ..o
                })
                &&& f.scrollbar == if bar {
                    Some(
                        (
                            Rect { x: (area.x + sat_sub(area.width as int, 1)) as u16, width: 1, ..area },
                            o.scrollbar->0,
                            scroll as usize,
                            lines as usize,
                        ),
                    )
                } else {
                    None
                }
                &&& token_draws_view(f.items@) == token_draws(widths@, a, g, scroll as int, o.index as int, 0)
            }),
    {
        let mut area = area;
        self.process_items(area.width, widths);
        let scrollbar = match self.scrollbar {
            Some(colors) => {
                if Scrollbar::is_scrollable(self.total_lines as usize, area.as_size()) {
                    let sa = Scrollbar::make_scroll_area(&mut area);
                    self.process_items(area.width, widths);
                    Some((sa, colors))
                } else {
                    None
                }
            },
            None => None,
        };
        let start = if self.size != area.as_size() {
            0
        } else {
            self.scroll
        };
        let s = Scrollbar::calculate_scroll(
            self.total_lines as usize,
            area.height,
            self.index_row as usize,
            start as usize,
        );
        self.scroll = #[verifier::truncate] (s as u16);
        self.size = area.as_size();
        let scroll = self.scroll;
        let items = token_draws_in(widths, area, self.gap, scroll, self.index);
        let scrollbar = match scrollbar {
            Some((sa, colors)) => Some((sa, colors, scroll as usize, self.total_lines as usize)),
            None => None,
        };
        TokenFrame { items, scrollbar }
    }
}

/// An item drawn in a frame, as a view.
pub open spec fn token_draw_view(d: TokenDraw) -> (int, Rect, bool) {
    (d.index as int, d.area, d.selected)
}

/// The views of items drawn.
pub open spec fn token_draws_view(v: Seq<TokenDraw>) -> Seq<(int, Rect, bool)> {
    v.map_values(|d: TokenDraw| token_draw_view(d))
}

/// The items from the `k`-th on that are in view when the rows `scroll..`
/// are shown in `area`: each at its row and column in the area, cut to the
/// columns left in its row, and marked when it is the `index`-th.
pub open spec fn token_draws(widths: Seq<u16>, area: Rect, gap: int, scroll: int, index: int, k: int) -> Seq<
    (int, Rect, bool),
>
    decreases widths.len() - k,
{
    if k < 0 || k >= widths.len() {
        Seq::empty()
    } else {
        let x = col_of(widths, area.width as int, gap, k);
        let y = row_of(widths, area.width as int, gap, k);
        let here = if scroll <= y < scroll + area.height {
            seq![
                (
                    k,
                    Rect {
                        x: (area.x + x) as u16,
                        y: (area.y + (y - scroll)) as u16,
                        width: min_of(widths[k] as int, sat_sub(area.width as int, x)) as u16,
                        height: 1,
                    },
                    k == index,
                ),
            ]
        } else {
            Seq::empty()
        };
        here + token_draws(widths, area, gap, scroll, index, k + 1)
    }
}

proof fn lemma_token_draws_past(widths: Seq<u16>, area: Rect, gap: int, scroll: int, index: int, k: int)
    requires
        0 <= k,
        0 <= gap,
        k < widths.len() ==> row_of(widths, area.width as int, gap, k) >= scroll + area.height,
    ensures
        token_draws(widths, area, gap, scroll, index, k) == Seq::<(int, Rect, bool)>::empty(),
    decreases widths.len() - k,
{
    if k < widths.len() {
        if k + 1 < widths.len() {
            lemma_rows_ordered(widths, area.width as int, gap, k, k + 1);
        }
        lemma_token_draws_past(widths, area, gap, scroll, index, k + 1);
    }
}

/// The items in view; see `token_draws`.
fn token_draws_in(widths: &[u16], area: Rect, gap: u16, scroll: u16, index: usize) -> (r: Vec<TokenDraw>)
    requires
        widths@.len() <= u16::MAX,
        area.x + area.width <= u16::MAX,
        area.y + area.height <= u16::MAX,
    ensures
        token_draws_view(r@) == token_draws(widths@, area, gap as int, scroll as int, index as int, 0),
{
    let n = widths.len();
    let ghost ws = widths@;
    let ghost mw = area.width as int;
    let ghost g = gap as int;
    let ghost whole = token_draws(ws, area, g, scroll as int, index as int, 0);
    let mut out: Vec<TokenDraw> = Vec::new();
    let mut x: u64 = 0;
    let mut y: u64 = 0;
    let mut i: usize = 0;
    while i < n
        invariant
            n == ws.len() <= u16::MAX,
            ws == widths@,
            mw == area.width,
            g == gap,
            area.x + area.width <= u16::MAX,
            area.y + area.height <= u16::MAX,
            i <= n,
            i > 0 ==> x == place(ws, mw, g, i - 1).2 && y == row_of(ws, mw, g, i - 1),
            i == 0 ==> x == 0 && y == 0,
            x <= u16::MAX as u64 * 3,
            y <= i,
            token_draws_view(out@) + token_draws(ws, area, g, scroll as int, index as int, i as int) == whole,
            whole == token_draws(widths@, area, gap as int, scroll as int, index as int, 0),
        decreases n - i,
    {
        proof {
            lemma_place(ws, mw, g, i as int);
            if i > 0 {
                lemma_place(ws, mw, g, i - 1);
            }
        }
        let w = widths[i] as u64;
        let (cx, cy) = if x + w > area.width as u64 {
            if i > 0 {
                (0u64, y + 1)
            } else {
                (0u64, y)
            }
        } else {
            (x, y)
        };
        proof {
            assert(cx == col_of(ws, mw, g, i as int));
            assert(cy == row_of(ws, mw, g, i as int));
        }
        if cy >= area.height as u64 + scroll as u64 {
            proof {
                lemma_token_draws_past(ws, area, g, scroll as int, index as int, i as int);
                assert(token_draws(ws, area, g, scroll as int, index as int, i as int) == Seq::<(int, Rect, bool)>::empty());
                assert(token_draws_view(out@) =~= token_draws_view(out@) + token_draws(ws, area, g, scroll as int, index as int, i as int));
                assert(token_draws_view(out@) == whole);
            }
            return out;
        }
        let ghost before = token_draws_view(out@);
        if cy >= scroll as u64 {
            let left = area.width.saturating_sub(cx as u16);
            let d = TokenDraw {
                index: i,
                area: Rect {
                    x: area.x + cx as u16,
                    y: area.y + (cy - scroll as u64) as u16,
                    width: if widths[i] < left {
                        widths[i]
                    } else {
                        left
                    },
                    height: 1,
                },
                selected: index == i,
            };
            out.push(d);
            proof {
                assert(token_draws_view(out@) =~= before.push(token_draw_view(d)));
            }
        }
        proof {
            assert(token_draws_view(out@) + token_draws(ws, area, g, scroll as int, index as int, i + 1)
                =~= before + token_draws(ws, area, g, scroll as int, index as int, i as int));
        }
        x = cx + w + gap as u64;
        y = cy;
        i = i + 1;
    }
    proof {
        assert(token_draws(ws, area, g, scroll as int, index as int, i as int) =~= Seq::<(int, Rect, bool)>::empty());
        assert(token_draws_view(out@) =~= whole);
    }
    out
}

} // verus!
