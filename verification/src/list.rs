//! A scrolling list with a current item and an optional selection of a range
//! of items, moved by keys.
use vstd::prelude::*;

use crate::geometry::Rect;
use crate::keys::Key;
use crate::markup::{min_of, sat_sub};
use crate::scroll::{scroll_with_margins, Scrollbar, ScrollbarColors};

verus! {

pub enum ListMove {
    Up(usize),
    Down(usize),
    PageUp,
    PageDown,
    Start,
    End,
    Custom(usize),
}

/// How an item of the list is shown.
#[derive(Debug, Clone, Copy, PartialEq, Eq, Structural)]
pub enum ListItem {
    Selected,
    Selection,
    Normal,
}

/// The state of a list.
pub struct ListState {
    pub index: int,
    pub selector: Option<int>,
    pub scroll: int,
    pub len: int,
    pub height: int,
}

/// Keys in a non-empty list of `len` items shown `height` at a time, from
/// item `index`: Up and Down go one item, PageUp and PageDown a whole page,
/// Home to the first item and End to the last, never past either end;
/// without shift nothing stays selected; Down then Up comes back when there
/// is an item below, and PageDown then PageUp when there is a page below.
pub proof fn law_list_keys(st: ListState, ctrl: bool)
    requires
        0 <= st.index < st.len,
        0 <= st.height,
    ensures
        ({
            let last = st.len - 1;
            let k = |key: Key| list_input(st, key, ctrl, false);
            &&& k(Key::Up).index == (if st.index >= 1 {
                st.index - 1
            } else {
                0
            })
            &&& k(Key::Down).index == (if st.index + 1 <= last {
                st.index + 1
            } else {
                last
            })
            &&& k(Key::PageUp).index == (if st.index >= st.height {
                st.index - st.height
            } else {
                0
            })
            &&& k(Key::PageDown).index == (if st.index + st.height <= last {
                st.index + st.height
            } else {
                last
            })
            &&& k(Key::Home).index == 0
            &&& st.len <= usize::MAX ==> k(Key::End).index == last
            &&& k(Key::Up).selector is None
            &&& k(Key::Down).selector is None
            &&& k(Key::PageUp).selector is None
            &&& k(Key::PageDown).selector is None
            &&& st.index + 1 <= last ==> list_input(k(Key::Down), Key::Up, ctrl, false).index == st.index
            &&& st.index + st.height <= last ==> list_input(k(Key::PageDown), Key::PageUp, ctrl, false).index
                == st.index
        }),
{
}

pub struct List {
    index: usize,
    selector: Option<usize>,
    scroll: usize,
    margin_top: usize,
    margin_bottom: usize,
    padding_bottom: usize,
    scrollbar: Option<ScrollbarColors>,
    len: usize,
    height: u16,
}

/// The state after the current item is set to `i`, kept within the list,
/// where `shift` extends the selection from the current item and its absence
/// drops the selection. A selection of the current item alone is none.
pub open spec fn set_index(st: ListState, i: int, shift: bool) -> ListState {
    let sel = if shift {
        if st.selector is None {
            Some(st.index)
        } else {
            st.selector
        }
    } else {
        None
    };
    let index = min_of(i, sat_sub(st.len, 1));
    ListState { index, selector: if sel == Some(index) {
        None
    } else {
        sel
    }, ..st }
}

/// Whether the current item or the selection differ.
pub open spec fn moved(a: ListState, b: ListState) -> bool {
    a.index != b.index || a.selector != b.selector
}

/// The item that a move goes to.
pub open spec fn move_target(st: ListState, lm: ListMove) -> int {
    match lm {
        ListMove::Up(n) => sat_sub(st.index, n as int),
        ListMove::Down(n) => st.index + n,
        ListMove::PageUp => sat_sub(st.index, st.height),
        ListMove::PageDown => st.index + st.height,
        ListMove::Start => 0,
        ListMove::End => usize::MAX as int,
        ListMove::Custom(i) => i as int,
    }
}

/// The state after moving the whole selection, or the current item alone,
/// one item up.
pub open spec fn selection_up(st: ListState) -> ListState {
    match st.selector {
        None => set_index(st, sat_sub(st.index, 1), false),
        Some(s) => if sat_sub(st.index, 1) == st.index || sat_sub(s, 1) == s {
            st
        } else {
            ListState { index: st.index - 1, selector: Some(s - 1), ..st }
        },
    }
}

/// The state after moving the whole selection, or the current item alone,
/// one item down, within the list.
pub open spec fn selection_down(st: ListState) -> ListState {
    match st.selector {
        None => set_index(st, st.index + 1, false),
        Some(s) => {
            let last = sat_sub(st.len, 1);
            let i = min_of(st.index + 1, last);
            let t = min_of(s + 1, last);
            if i == st.index || t == s {
                st
            } else {
                ListState { index: i, selector: Some(t), ..st }
            }
        },
    }
}

/// The state with every item selected.
pub open spec fn select_all_state(st: ListState) -> ListState {
    let last = sat_sub(st.len, 1);
    ListState { index: 0, selector: if last == 0 {
        None
    } else {
        Some(last)
    }, ..st }
}

/// The state after a key, with the state of the control and shift keys:
/// the arrows and page keys move the current item, `Home` and `End` go to
/// the ends, and `Ctrl+a` selects every item.
pub open spec fn list_input(st: ListState, key: Key, ctrl: bool, shift: bool) -> ListState {
    match key {
        Key::Down => set_index(st, st.index + 1, shift),
        Key::Up => set_index(st, sat_sub(st.index, 1), shift),
        Key::PageDown => set_index(st, st.index + st.height, shift),
        Key::PageUp => set_index(st, sat_sub(st.index, st.height), shift),
        Key::End => set_index(st, usize::MAX as int, shift),
        Key::Home => set_index(st, 0, shift),
        Key::Char(c) => if c == 'a' && ctrl {
            select_all_state(st)
        } else {
            st
        },
        _ => st,
    }
}

impl View for List {
    type V = ListState;

    closed spec fn view(&self) -> ListState {
        ListState {
            index: self.index as int,
            selector: match self.selector {
                Some(s) => Some(s as int),
                None => None,
            },
            scroll: self.scroll as int,
            len: self.len as int,
            height: self.height as int,
        }
    }
}

impl List {
    pub closed spec fn margins(&self) -> (int, int, int) {
        (self.margin_top as int, self.margin_bottom as int, self.padding_bottom as int)
    }

    pub closed spec fn scrollbar_colors(&self) -> Option<ScrollbarColors> {
        self.scrollbar
    }

    pub fn new() -> (l: Self)
        ensures
            l@ == (ListState { index: 0, selector: None, scroll: 0, len: 0, height: 0 }),
            l.margins() == (0int, 0int, 0int),
            l.scrollbar_colors() is None,
    {
        List {
            index: 0,
            selector: None,
            scroll: 0,
            margin_top: 0,
            margin_bottom: 0,
            padding_bottom: 0,
            scrollbar: None,
            len: 0,
            height: 0,
        }
    }

    pub fn with_index(self, index: usize) -> (l: Self)
        ensures
            l@ == (ListState { index: index as int, ..self@ }),
            l.margins() == self.margins(),
            l.scrollbar_colors() == self.scrollbar_colors(),
    {
        List { index, ..self }
    }

    pub fn with_margins(self, top: usize, bottom: usize) -> (l: Self)
        ensures
            l@ == self@,
            l.margins() == (top as int, bottom as int, self.margins().2),
            l.scrollbar_colors() == self.scrollbar_colors(),
    {
        List { margin_top: top, margin_bottom: bottom, ..self }
    }

    pub fn with_padding(self, bottom: usize) -> (l: Self)
        ensures
            l@ == self@,
            l.margins() == (self.margins().0, self.margins().1, bottom as int),
            l.scrollbar_colors() == self.scrollbar_colors(),
    {
        List { padding_bottom: bottom, ..self }
    }

    pub fn index(&self) -> (i: usize)
        ensures
            i == self@.index,
    {
        self.index
    }

    /// Whether every key can move the current item: a page down from it
    /// still counts within the largest index.
    pub fn can_move(&self) -> (b: bool)
        ensures
            b == (self@.index + self@.height + 1 <= usize::MAX),
            0 <= self@.height <= u16::MAX,
    {
        self.index < usize::MAX - self.height as usize
    }

    pub fn selector(&self) -> (s: Option<usize>)
        ensures
            match s {
                Some(v) => self@.selector == Some(v as int),
                None => self@.selector is None,
            },
    {
        self.selector
    }

    pub fn scroll(&self) -> (s: usize)
        ensures
            s == self@.scroll,
    {
        self.scroll
    }

    /// The selected items other than the current one, if any are.
    pub fn selection(&self) -> (r: Option<std::ops::Range<usize>>)
        requires
            self@.selector matches Some(s) ==> s < usize::MAX,
        ensures
            match self@.selector {
                None => r is None,
                Some(s) => if self@.index < s {
                    r matches Some(rg) && rg.start == self@.index + 1 && rg.end == s + 1
                } else if self@.index > s {
                    r matches Some(rg) && rg.start == s && rg.end == self@.index
                } else {
                    r is None
                },
            },
    {
        match self.selector {
            None => None,
            Some(selector) => if self.index < selector {
                Some(std::ops::Range { start: self.index + 1, end: selector + 1 })
            } else if self.index > selector {
                Some(std::ops::Range { start: selector, end: self.index })
            } else {
                None
            },
        }
    }

    /// The selected items with the current one.
    pub fn selection_inclusive(&self) -> (r: std::ops::RangeInclusive<usize>)
        ensures
            !r@.exhausted,
            match self@.selector {
                None => r@.start == self@.index && r@.end == self@.index,
                Some(s) => r@.start == min_of(self@.index, s) && r@.end == (if self@.index < s {
                    s
                } else {
                    self@.index
                }),
            },
    {
        match self.selector {
            Some(selector) => if self.index < selector {
                std::ops::RangeInclusive::new(self.index, selector)
            } else {
                std::ops::RangeInclusive::new(selector, self.index)
            },
            None => std::ops::RangeInclusive::new(self.index, self.index),
        }
    }

    pub fn set_margins(&mut self, top: usize, bottom: usize) -> (r: &mut Self)
        ensures
            r@ == old(self)@,
            r.margins() == (top as int, bottom as int, old(self).margins().2),
            r.scrollbar_colors() == old(self).scrollbar_colors(),
            *final(self) == *final(r),
    {
        self.margin_top = top;
        self.margin_bottom = bottom;
        self
    }

    pub fn set_padding(&mut self, bottom: usize) -> (r: &mut Self)
        ensures
            r@ == old(self)@,
            r.margins() == (old(self).margins().0, old(self).margins().1, bottom as int),
            r.scrollbar_colors() == old(self).scrollbar_colors(),
            *final(self) == *final(r),
    {
        self.padding_bottom = bottom;
        self
    }

    pub fn set_scrollbar(&mut self, colors: ScrollbarColors) -> (r: &mut Self)
        ensures
            r@ == old(self)@,
            r.margins() == old(self).margins(),
            r.scrollbar_colors() == Some(colors),
            *final(self) == *final(r),
    {
        self.scrollbar = Some(colors);
        self
    }

    pub fn set_index(&mut self, i: usize) -> (r: &mut Self)
        ensures
            r@ == (ListState { index: i as int, ..old(self)@ }),
            r.margins() == old(self).margins(),
            r.scrollbar_colors() == old(self).scrollbar_colors(),
            *final(self) == *final(r),
    {
        self.index = i;
        self
    }

    pub fn set_selector(&mut self, s: Option<usize>) -> (r: &mut Self)
        ensures
            r@ == (ListState {
                selector: match s {
                    Some(v) => Some(v as int),
                    None => None,
                },
                ..old(self)@
            }),
            r.margins() == old(self).margins(),
            r.scrollbar_colors() == old(self).scrollbar_colors(),
            *final(self) == *final(r),
    {
        self.selector = s;
        self
    }

    /// Moves the current item, extending the selection with `shift`; tells
    /// whether anything changed.
    pub fn move_index(&mut self, lm: ListMove, shift: bool) -> (changed: bool)
        requires
            move_target(old(self)@, lm) <= usize::MAX,
        ensures
            final(self)@ == set_index(old(self)@, move_target(old(self)@, lm), shift),
            changed == moved(old(self)@, final(self)@),
            final(self).margins() == old(self).margins(),
            final(self).scrollbar_colors() == old(self).scrollbar_colors(),
    {
        let i = match lm {
            ListMove::Up(n) => self.index.saturating_sub(n),
            ListMove::Down(n) => self.index + n,
            ListMove::PageUp => self.index.saturating_sub(self.height as usize),
            ListMove::PageDown => self.index + self.height as usize,
            ListMove::Start => 0,
            ListMove::End => usize::MAX,
            ListMove::Custom(i) => i,
        };
        self.set_index_and_selector(i, shift)
    }

    pub fn move_selection_up(&mut self) -> (changed: bool)
        ensures
            final(self)@ == selection_up(old(self)@),
            changed == moved(old(self)@, final(self)@),
            final(self).margins() == old(self).margins(),
            final(self).scrollbar_colors() == old(self).scrollbar_colors(),
    {
        let Some(selector) = self.selector else {
            let i = self.index.saturating_sub(1);
            return self.set_index_and_selector(i, false);
        };
        let index = self.index;
        let i = index.saturating_sub(1);
        let s = selector.saturating_sub(1);
        if i == index || s == selector {
            return false;
        }
        self.index = i;
        self.selector = Some(s);
        true
    }

    pub fn move_selection_down(&mut self) -> (changed: bool)
        requires
            old(self)@.index + 1 <= usize::MAX,
            old(self)@.selector matches Some(s) ==> s + 1 <= usize::MAX,
        ensures
            final(self)@ == selection_down(old(self)@),
            changed == moved(old(self)@, final(self)@),
            final(self).margins() == old(self).margins(),
            final(self).scrollbar_colors() == old(self).scrollbar_colors(),
    {
        let Some(selector) = self.selector else {
            let i = self.index + 1;
            return self.set_index_and_selector(i, false);
        };
        let index = self.index;
        let max_index = self.len.saturating_sub(1);
        let i = if index + 1 < max_index {
            index + 1
        } else {
            max_index
        };
        let s = if selector + 1 < max_index {
            selector + 1
        } else {
            max_index
        };
        if i == index || s == selector {
            return false;
        }
        self.index = i;
        self.selector = Some(s);
        true
    }

    pub fn select_all(&mut self) -> (changed: bool)
        ensures
            final(self)@ == select_all_state(old(self)@),
            changed == moved(old(self)@, final(self)@),
            final(self).margins() == old(self).margins(),
            final(self).scrollbar_colors() == old(self).scrollbar_colors(),
    {
        let old_index = self.index;
        let old_selector = self.selector;
        self.index = 0;
        let last = self.len.saturating_sub(1);
        self.selector = if last == 0 {
            None
        } else {
            Some(last)
        };
        old_index != self.index || !same_selector(old_selector, self.selector)
    }

    /// Reacts to a key, with the state of the control and shift keys.
    pub fn input(&mut self, key: Key, ctrl: bool, shift: bool) -> (changed: bool)
        requires
            key is Down ==> old(self)@.index + 1 <= usize::MAX,
            key is PageDown ==> old(self)@.index + old(self)@.height <= usize::MAX,
        ensures
            final(self).margins() == old(self).margins(),
            final(self).scrollbar_colors() == old(self).scrollbar_colors(),
            match key {
                Key::Down => final(self)@ == set_index(old(self)@, old(self)@.index + 1, shift),
                Key::Up => final(self)@ == set_index(
                    old(self)@,
                    sat_sub(old(self)@.index, 1),
                    shift,
                ),
                Key::PageDown => final(self)@ == set_index(
                    old(self)@,
                    old(self)@.index + old(self)@.height,
                    shift,
                ),
                Key::PageUp => final(self)@ == set_index(
                    old(self)@,
                    sat_sub(old(self)@.index, old(self)@.height),
                    shift,
                ),
                Key::End => final(self)@ == set_index(old(self)@, usize::MAX as int, shift),
                Key::Home => final(self)@ == set_index(old(self)@, 0, shift),
                Key::Char(c) => if c == 'a' && ctrl {
                    final(self)@ == select_all_state(old(self)@)
                } else {
                    final(self)@ == old(self)@ && !changed
                },
                _ => final(self)@ == old(self)@ && !changed,
            },
            changed == moved(old(self)@, final(self)@),
            final(self)@ == list_input(old(self)@, key, ctrl, shift),
    {
        match key {
            Key::Down => self.move_index(ListMove::Down(1), shift),
            Key::Up => self.move_index(ListMove::Up(1), shift),
            Key::PageDown => self.move_index(ListMove::PageDown, shift),
            Key::PageUp => self.move_index(ListMove::PageUp, shift),
            Key::End => self.move_index(ListMove::End, shift),
            Key::Home => self.move_index(ListMove::Start, shift),
            Key::Char(c) => {
                if c == 'a' && ctrl {
                    self.select_all()
                } else {
                    false
                }
            },
            _ => false,
        }
    }

    pub fn reset(&mut self)
        ensures
            final(self)@ == (ListState { index: 0, scroll: 0, selector: None, ..old(self)@ }),
            final(self).margins() == old(self).margins(),
            final(self).scrollbar_colors() == old(self).scrollbar_colors(),
    {
        self.index = 0;
        self.scroll = 0;
        self.selector = None;
    }

    /// Fits the list to `len` items shown in `area` before it is drawn: keeps
    /// the current item and the selection within the items, scrolls so that
    /// the current item is in view (from the top again when the height
    /// changed), and tells where a scrollbar goes, if one is drawn. `area`
    /// loses the columns the scrollbar takes.
    pub fn layout(&mut self, len: usize, area: &mut Rect) -> (bar: Option<Rect>)
        requires
            len + old(self).margins().2 <= usize::MAX,
            old(self)@.scroll + old(area).height <= usize::MAX,
            old(area).x + old(area).width <= u16::MAX,
        ensures
            ({
                let last = sat_sub(len as int, 1);
                let index = min_of(old(self)@.index, last);
                let scroll = if old(self)@.height != old(area).height {
                    0
                } else {
                    old(self)@.scroll
                };
                final(self)@ == ListState {
                    index,
                    selector: match old(self)@.selector {
                        Some(s) => Some(min_of(s, last)),
                        None => None,
                    },
                    scroll: scroll_with_margins(
                        len as int,
                        old(area).height as int,
                        index,
                        scroll,
                        old(self).margins().0,
                        old(self).margins().1,
                        old(self).margins().2,
                    ),
                    len: len as int,
                    height: old(area).height as int,
                }
            }),
            final(self).margins() == old(self).margins(),
            final(self).scrollbar_colors() == old(self).scrollbar_colors(),
            (old(self).scrollbar_colors() is Some && len > old(area).height && old(area).width > 15)
                ==> bar == Some(
                Rect { x: (old(area).x + sat_sub(old(area).width as int, 1)) as u16, width: 1, ..*old(area) },
            ) && *final(area) == (Rect { width: sat_sub(old(area).width as int, 2) as u16, ..*old(area) }),
            !(old(self).scrollbar_colors() is Some && len > old(area).height && old(area).width > 15)
                ==> bar is None && *final(area) == *old(area),
    {
        let max_idx = len.saturating_sub(1);
        if self.index > max_idx {
            self.index = max_idx;
        }
        self.selector = match self.selector {
            Some(s) => Some(if s < max_idx {
                s
            } else {
                max_idx
            }),
            None => None,
        };
        let scroll = if self.height != area.height {
            0
        } else {
            self.scroll
        };
        self.scroll = Scrollbar::calculate_scroll_with_margins(
            len,
            area.height,
            self.index,
            scroll,
            self.margin_top,
            self.margin_bottom,
            self.padding_bottom,
        );
        self.len = len;
        self.height = area.height;
        if self.scrollbar.is_some() && Scrollbar::is_scrollable(len, area.as_size()) {
            Some(Scrollbar::make_scroll_area(area))
        } else {
            None
        }
    }

    /// How item `i` is shown.
    pub fn item_kind(&self, i: usize) -> (k: ListItem)
        ensures
            k == kind_of(self@, i as int),
    {
        if i == self.index {
            ListItem::Selected
        } else {
            match self.selector {
                Some(s) => {
                    let (lo, hi) = if self.index < s {
                        (self.index, s)
                    } else {
                        (s, self.index)
                    };
                    if lo <= i && i <= hi {
                        ListItem::Selection
                    } else {
                        ListItem::Normal
                    }
                },
                None => ListItem::Normal,
            }
        }
    }

    /// The items drawn in `height` rows, from the top: the items from the
    /// scroll position on, as many as fit and as there are, each with its
    /// index and how it is shown.
    pub fn rows(&self, height: u16) -> (r: Vec<(usize, ListItem)>)
        ensures
            r@.len() == min_of(height as int, sat_sub(self@.len, self@.scroll)),
            forall|k: int|
                0 <= k < r@.len() ==> #[trigger] r@[k] == ((self@.scroll + k) as usize, kind_of(
                    self@,
                    self@.scroll + k,
                )),
    {
        let mut r: Vec<(usize, ListItem)> = Vec::new();
        let mut row: usize = 0;
        while row < height as usize && row < self.len.saturating_sub(self.scroll)
            invariant
                row <= height,
                row <= sat_sub(self@.len, self@.scroll),
                r@.len() == row,
                forall|k: int|
                    0 <= k < row ==> #[trigger] r@[k] == ((self@.scroll + k) as usize, kind_of(
                        self@,
                        self@.scroll + k,
                    )),
            decreases height - row,
        {
            let i = self.scroll + row;
            r.push((i, self.item_kind(i)));
            row = row + 1;
        }
        r
    }

    fn set_index_and_selector(&mut self, i: usize, shift: bool) -> (changed: bool)
        ensures
            final(self)@ == set_index(old(self)@, i as int, shift),
            changed == moved(old(self)@, final(self)@),
            final(self).margins() == old(self).margins(),
            final(self).scrollbar_colors() == old(self).scrollbar_colors(),
    {
        let old_index = self.index;
        let old_selector = self.selector;
        if shift {
            if self.selector.is_none() {
                self.selector = Some(self.index);
            }
        } else {
            self.selector = None;
        }
        let last = self.len.saturating_sub(1);
        self.index = if i < last {
            i
        } else {
            last
        };
        if let Some(s) = self.selector {
            if s == self.index {
                self.selector = None;
            }
        }
        old_index != self.index || !same_selector(old_selector, self.selector)
    }
}

/// How item `i` is shown: the current item is selected, and the other items
/// between it and the selector are in the selection.
pub open spec fn kind_of(st: ListState, i: int) -> ListItem {
    if i == st.index {
        ListItem::Selected
    } else if match st.selector {
        Some(s) => min_of(st.index, s) <= i <= (if st.index < s {
            s
        } else {
            st.index
        }),
        None => false,
    } {
        ListItem::Selection
    } else {
        ListItem::Normal
    }
}

/// Whether two optional positions are the same.
fn same_selector(a: Option<usize>, b: Option<usize>) -> (r: bool)
    ensures
        r == (a == b),
{
    match (a, b) {
        (Some(x), Some(y)) => x == y,
        (None, None) => true,
        _ => false,
    }
}

/// Every move keeps the current item within the list, and never leaves a
/// selection of the current item alone.
pub proof fn law_moves_stay_in_list(st: ListState, i: int, shift: bool)
    requires
        st.len >= 0,
        0 <= i,
        0 <= st.index,
    ensures
        0 <= set_index(st, i, shift).index <= sat_sub(st.len, 1),
        set_index(st, i, shift).selector != Some(set_index(st, i, shift).index),
{
}

/// Dropping the shift drops the selection, and holding it keeps the item the
/// selection was started from.
pub proof fn law_shift_keeps_anchor(st: ListState, i: int)
    requires
        st.len >= 0,
        0 <= i,
    ensures
        set_index(st, i, false).selector is None,
        set_index(set_index(st, i, false), i, true).selector is None,
        st.selector is Some && st.selector != Some(set_index(st, i, true).index) ==> set_index(
            st,
            i,
            true,
        ).selector == st.selector,
{
}

/// Moving to the start and to the end reach the first and the last item.
pub proof fn law_start_end(st: ListState, shift: bool)
    requires
        1 <= st.len <= usize::MAX,
    ensures
        set_index(st, move_target(st, ListMove::Start), shift).index == 0,
        set_index(st, move_target(st, ListMove::End), shift).index == st.len - 1,
{
}

} // verus!
