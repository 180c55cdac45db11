//! Scrolling a viewport over lines so that the current line stays in view, and
//! where a scrollbar goes.
use vstd::prelude::*;

use crate::geometry::{Rect, Size};
use crate::markup::{min_of, sat_sub};
use crate::style::Color;

verus! {

/// The colors of a scrollbar: its thumb, and its track if one is drawn.
#[derive(Debug, Clone, Copy, PartialEq, Eq, Structural)]
pub struct ScrollbarColors {
    pub thumb: Color,
    pub track: Option<Color>,
}

impl ScrollbarColors {
    pub fn new(thumb: Color, track: Option<Color>) -> (c: Self)
        ensures
            c == (ScrollbarColors { thumb, track }),
    {
        ScrollbarColors { thumb, track }
    }
}

impl Default for ScrollbarColors {
    fn default() -> (c: Self)
        ensures
            c == (ScrollbarColors { thumb: Color::DarkGray, track: None }),
    {
        ScrollbarColors { thumb: Color::DarkGray, track: None }
    }
}

/// The first line shown after the viewport follows `index`, with `margin_top`
/// lines kept above it and `margin_bottom` below it where the viewport allows,
/// and with `padding_bottom` blank lines after the last one.
pub open spec fn scroll_with_margins(
    total_lines: int,
    height: int,
    index: int,
    scroll: int,
    margin_top: int,
    margin_bottom: int,
    padding_bottom: int,
) -> int {
    let max_offset = sat_sub(total_lines + padding_bottom, height);
    let available = sat_sub(height, 1);
    let mt = min_of(margin_top, available);
    let mb = min_of(margin_bottom, available - mt);
    let top = scroll + mt;
    let bottom = scroll + sat_sub(height, mb + 1);
    if index < top {
        sat_sub(scroll, top - index)
    } else if index > bottom {
        min_of(scroll + (index - bottom), max_offset)
    } else {
        scroll
    }
}

pub struct Scrollbar {
    pub colors: ScrollbarColors,
}

impl Scrollbar {
    pub fn new() -> (s: Self)
        ensures
            s.colors == (ScrollbarColors { thumb: Color::DarkGray, track: None }),
    {
        Scrollbar { colors: ScrollbarColors::default() }
    }

    pub fn with_colors(self, colors: ScrollbarColors) -> (s: Self)
        ensures
            s.colors == colors,
    {
        Scrollbar { colors }
    }

    /// The first line shown so that `current_index` is in view.
    pub fn calculate_scroll(
        total_lines: usize,
        viewport_height: u16,
        current_index: usize,
        current_scroll: usize,
    ) -> (s: usize)
        requires
            current_scroll + viewport_height <= usize::MAX,
        ensures
            s == scroll_with_margins(
                total_lines as int,
                viewport_height as int,
                current_index as int,
                current_scroll as int,
                0,
                0,
                0,
            ),
    {
        Self::calculate_scroll_with_margins(
            total_lines,
            viewport_height,
            current_index,
            current_scroll,
            0,
            0,
            0,
        )
    }

    /// The first line shown so that `current_index` is in view, with margins.
    pub fn calculate_scroll_with_margins(
        total_lines: usize,
        viewport_height: u16,
        current_index: usize,
        current_scroll: usize,
        margin_top: usize,
        margin_bottom: usize,
        padding_bottom: usize,
    ) -> (s: usize)
        requires
            total_lines + padding_bottom <= usize::MAX,
            current_scroll + viewport_height <= usize::MAX,
        ensures
            s == scroll_with_margins(
                total_lines as int,
                viewport_height as int,
                current_index as int,
                current_scroll as int,
                margin_top as int,
                margin_bottom as int,
                padding_bottom as int,
            ),
    {
        let height = viewport_height as usize;
        let max_offset = (total_lines + padding_bottom).saturating_sub(height);
        let available = height.saturating_sub(1);
        let margin_top = if margin_top < available {
            margin_top
        } else {
            available
        };
        let rest = available - margin_top;
        let margin_bottom = if margin_bottom < rest {
            margin_bottom
        } else {
            rest
        };
        let top_boundary = current_scroll + margin_top;
        let bottom_boundary = current_scroll + height.saturating_sub(margin_bottom + 1);
        if current_index < top_boundary {
            current_scroll.saturating_sub(top_boundary - current_index)
        } else if current_index > bottom_boundary {
            let delta = current_index - bottom_boundary;
            if current_scroll <= max_offset && delta <= max_offset - current_scroll {
                current_scroll + delta
            } else {
                max_offset
            }
        } else {
            current_scroll
        }
    }

    /// Whether `total_lines` lines need a scrollbar in a viewport of this size,
    /// which is wider than 15 cells.
    pub fn is_scrollable(total_lines: usize, viewport_size: Size) -> (b: bool)
        ensures
            b == (total_lines > viewport_size.height && viewport_size.width > 15),
    {
        Self::is_scrollable_with_options(total_lines, viewport_size, 15)
    }

    pub fn is_scrollable_with_options(total_lines: usize, viewport_size: Size, min_width: u16) -> (b:
        bool)
        ensures
            b == (total_lines > viewport_size.height && viewport_size.width > min_width),
    {
        total_lines > viewport_size.height as usize && viewport_size.width > min_width
    }

    /// Takes the last column of `area` for a scrollbar, and one more column
    /// as a margin before it.
    pub fn make_scroll_area(area: &mut Rect) -> (r: Rect)
        requires
            old(area).x + sat_sub(old(area).width as int, 1) <= u16::MAX,
        ensures
            r == (Rect {
                x: (old(area).x + sat_sub(old(area).width as int, 1)) as u16,
                width: 1,
                ..*old(area)
            }),
            *final(area) == (Rect { width: sat_sub(old(area).width as int, 2) as u16, ..*old(area) }),
    {
        Self::make_scroll_area_with_margin(area, 1)
    }

    /// Takes the last column of `area` for a scrollbar, and `margin` more
    /// columns before it.
    pub fn make_scroll_area_with_margin(area: &mut Rect, margin: u16) -> (r: Rect)
        requires
            old(area).x + sat_sub(old(area).width as int, 1) <= u16::MAX,
            1 + margin <= u16::MAX,
        ensures
            r == (Rect {
                x: (old(area).x + sat_sub(old(area).width as int, 1)) as u16,
                width: 1,
                ..*old(area)
            }),
            *final(area) == (Rect {
                width: sat_sub(old(area).width as int, 1 + margin) as u16,
                ..*old(area)
            }),
    {
        let scroll_area = Rect { x: area.x + area.width.saturating_sub(1), width: 1, ..*area };
        area.width = area.width.saturating_sub(1 + margin);
        scroll_area
    }
}

/// Without margins, following an index in the text keeps it in view: the
/// viewport then starts at or before it and ends after it.
pub proof fn law_scroll_keeps_index_visible(total: int, height: int, index: int, scroll: int)
    requires
        height >= 1,
        0 <= index < total,
        0 <= scroll,
    ensures
        scroll_with_margins(total, height, index, scroll, 0, 0, 0) <= index < scroll_with_margins(
            total,
            height,
            index,
            scroll,
            0,
            0,
            0,
        ) + height,
        0 <= scroll_with_margins(total, height, index, scroll, 0, 0, 0),
{
}

/// Following an index never scrolls past the last screen, unless the
/// viewport was there already.
pub proof fn law_scroll_within_text(
    total: int,
    height: int,
    index: int,
    scroll: int,
    top: int,
    bottom: int,
    padding: int,
)
    requires
        0 <= height,
        0 <= index,
        0 <= scroll <= sat_sub(total + padding, height),
        0 <= top,
        0 <= bottom,
        0 <= padding,
    ensures
        0 <= scroll_with_margins(total, height, index, scroll, top, bottom, padding) <= sat_sub(
            total + padding,
            height,
        ),
{
}

} // verus!
