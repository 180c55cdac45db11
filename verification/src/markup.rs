//! Scrolling, image ids and item kinds of the markup view.
use vstd::prelude::*;

use crate::ansi::AnsiTag;
use crate::geometry::Rect;
use crate::scroll::ScrollbarColors;

verus! {

/// How a line of text is placed in its area.
#[derive(Debug, Clone, Copy, PartialEq, Eq, Structural)]
pub enum Alignment {
    Left,
    Center,
    Right,
}

#[derive(Debug, Clone, Copy, PartialEq, Eq, Structural)]
pub enum ScrollMove {
    Up,
    Down,
    PageUp,
    PageDown,
    Start,
    End,
}

/// The kinds of item that markup is made of, in the order they are shown.
#[derive(Debug, Clone, Copy, PartialEq, Eq, Structural)]
pub enum MarkupItem {
    Paragraph,
    ListItem,
    Code,
    Image,
    ImageDescription,
    Break,
    EmptyLine,
}

/// `a - b`, or zero when `b` is larger.
pub open spec fn sat_sub(a: int, b: int) -> int {
    if a >= b {
        a - b
    } else {
        0
    }
}

/// The smaller of two numbers.
pub open spec fn min_of(a: int, b: int) -> int {
    if a <= b {
        a
    } else {
        b
    }
}

/// The line at the top of the viewport after a scroll move, for a text of
/// `max_lines` lines shown `height` lines at a time.
pub open spec fn scrolled(current: int, max_lines: int, height: int, sm: ScrollMove) -> int {
    let last = sat_sub(max_lines, height);
    match sm {
        ScrollMove::Up => sat_sub(current, 1),
        ScrollMove::Down => min_of(current + 1, last),
        ScrollMove::PageUp => sat_sub(current, height),
        ScrollMove::PageDown => min_of(current + height, last),
        ScrollMove::Start => 0,
        ScrollMove::End => last,
    }
}

/// Scrolling a text of `m` lines shown `h` at a time, from top line `c`: Up
/// and Down move one line, PageUp and PageDown a whole page of `h` lines,
/// Start goes to the first line and End to the last top line `m - h`; no
/// move goes above the first line, and Down, PageDown and End go no further
/// than the last top line. From a top line within range every move stays
/// within range; Down then Up, and PageDown then PageUp, come back to where
/// they started when there is room below.
pub proof fn law_scroll_moves(c: int, m: int, h: int)
    requires
        0 <= c,
        0 <= m,
        0 <= h,
    ensures
        ({
            let last = if m >= h {
                m - h
            } else {
                0
            };
            &&& scrolled(c, m, h, ScrollMove::Up) == (if c >= 1 {
                c - 1
            } else {
                0
            })
            &&& scrolled(c, m, h, ScrollMove::PageUp) == (if c >= h {
                c - h
            } else {
                0
            })
            &&& scrolled(c, m, h, ScrollMove::Down) == (if c + 1 <= last {
                c + 1
            } else {
                last
            })
            &&& scrolled(c, m, h, ScrollMove::PageDown) == (if c + h <= last {
                c + h
            } else {
                last
            })
            &&& scrolled(c, m, h, ScrollMove::Start) == 0
            &&& scrolled(c, m, h, ScrollMove::End) == last
            &&& c <= last ==> forall|sm: ScrollMove|
                0 <= #[trigger] scrolled(c, m, h, sm) <= last
            &&& c + 1 <= last ==> scrolled(scrolled(c, m, h, ScrollMove::Down), m, h, ScrollMove::Up) == c
            &&& c + h <= last ==> scrolled(scrolled(c, m, h, ScrollMove::PageDown), m, h, ScrollMove::PageUp)
                == c
        }),
{
}

/// The scroll state of a markup view: the top line shown, a move asked for
/// the next frame, how many items are shown, the lines of those items and of
/// all items, and where the scrollbar goes and in which colors.
pub struct MarkupScroll {
    pub current: u16,
    pub desired: Option<ScrollMove>,
    pub max_items: Option<usize>,
    pub max_lines: u16,
    pub total_lines: u16,
    pub area: Option<Rect>,
    pub colors: Option<ScrollbarColors>,
}

impl MarkupScroll {
    pub fn new() -> (s: Self)
        ensures
            s.current == 0,
            s.desired is None,
            s.max_items is None,
            s.max_lines == 0,
            s.total_lines == 0,
            s.area is None,
            s.colors is None,
    {
        MarkupScroll {
            current: 0,
            desired: None,
            max_items: None,
            max_lines: 0,
            total_lines: 0,
            area: None,
            colors: None,
        }
    }

    /// The scrollbar's area and colors, when it has both.
    pub fn area_and_colors(&self) -> (r: Option<(Rect, ScrollbarColors)>)
        ensures
            r == (match (self.area, self.colors) {
                (Some(a), Some(c)) => Some((a, c)),
                _ => None,
            }),
    {
        match (self.area, self.colors) {
            (Some(a), Some(c)) => Some((a, c)),
            _ => None,
        }
    }

    /// Moves the top line of the viewport; `viewport_height` lines are shown.
    pub fn set(&mut self, sm: ScrollMove, viewport_height: u16)
        ensures
            final(self).current == scrolled(
                old(self).current as int,
                old(self).max_lines as int,
                viewport_height as int,
                sm,
            ),
            final(self).desired == old(self).desired,
            final(self).max_items == old(self).max_items,
            final(self).max_lines == old(self).max_lines,
            final(self).total_lines == old(self).total_lines,
            final(self).area == old(self).area,
            final(self).colors == old(self).colors,
    {
        let last = self.max_lines.saturating_sub(viewport_height);
        self.current = match sm {
            ScrollMove::Up => self.current.saturating_sub(1),
            ScrollMove::Down => {
                let down = self.current as u32 + 1;
                if down < last as u32 {
                    down as u16
                } else {
                    last
                }
            },
            ScrollMove::PageUp => self.current.saturating_sub(viewport_height),
            ScrollMove::PageDown => {
                let down = self.current as u32 + viewport_height as u32;
                if down < last as u32 {
                    down as u16
                } else {
                    last
                }
            },
            ScrollMove::Start => 0,
            ScrollMove::End => last,
        };
    }

    /// Keeps the top line where the last screen of text still fills the viewport.
    pub fn clamp(&mut self, viewport_height: u16)
        ensures
            final(self).current == min_of(
                old(self).current as int,
                sat_sub(old(self).max_lines as int, viewport_height as int),
            ),
            final(self).desired == old(self).desired,
            final(self).max_items == old(self).max_items,
            final(self).max_lines == old(self).max_lines,
            final(self).total_lines == old(self).total_lines,
            final(self).area == old(self).area,
            final(self).colors == old(self).colors,
    {
        let last = self.max_lines.saturating_sub(viewport_height);
        if last < self.current {
            self.current = last;
        }
    }

    /// Forgets the scroll state; the scrollbar keeps its colors.
    pub fn clear(&mut self)
        ensures
            final(self).current == 0,
            final(self).desired is None,
            final(self).max_items is None,
            final(self).max_lines == 0,
            final(self).total_lines == 0,
            final(self).area is None,
            final(self).colors == old(self).colors,
    {
        self.current = 0;
        self.desired = None;
        self.max_items = None;
        self.max_lines = 0;
        self.total_lines = 0;
        self.area = None;
    }
}

/// A scroll move never puts the viewport's top line past the last screen of
/// text, nor before the first line, when it started within those bounds.
pub proof fn law_scroll_stays_in_bounds(current: int, max_lines: int, height: int, sm: ScrollMove)
    requires
        0 <= current <= sat_sub(max_lines, height),
        0 <= height,
    ensures
        0 <= scrolled(current, max_lines, height, sm) <= sat_sub(max_lines, height),
{
}

/// Moving to the start shows the first line, moving to the end shows the last
/// screen, and doing either twice is the same as doing it once.
pub proof fn law_scroll_start_end(current: int, max_lines: int, height: int)
    requires
        0 <= height,
    ensures
        scrolled(current, max_lines, height, ScrollMove::Start) == 0,
        scrolled(current, max_lines, height, ScrollMove::End) == sat_sub(max_lines, height),
        scrolled(
            scrolled(current, max_lines, height, ScrollMove::End),
            max_lines,
            height,
            ScrollMove::End,
        ) == scrolled(current, max_lines, height, ScrollMove::End),
{
}

/// One line down and one line up come back to where the viewport was, unless
/// the viewport already showed the last screen.
pub proof fn law_scroll_down_up(current: int, max_lines: int, height: int)
    requires
        0 <= current < sat_sub(max_lines, height),
    ensures
        scrolled(
            scrolled(current, max_lines, height, ScrollMove::Down),
            max_lines,
            height,
            ScrollMove::Up,
        ) == current,
{
}

/// The first id that markup images get.
pub const IMAGE_ID_START: u32 = 90;

/// Hands out the image ids of a markup view, one after the other.
pub struct MarkupKitty {
    pub id_start: u32,
    pub id_counter: u32,
    pub has_rendered: bool,
}

impl MarkupKitty {
    pub fn new() -> (k: Self)
        ensures
            k.id_start == IMAGE_ID_START,
            k.id_counter == 0,
            !k.has_rendered,
    {
        MarkupKitty { id_start: IMAGE_ID_START, id_counter: 0, has_rendered: false }
    }

    /// The id that the next image gets.
    pub fn current_id(&self) -> (id: u32)
        requires
            self.id_start + self.id_counter <= u32::MAX,
        ensures
            id == self.id_start + self.id_counter,
    {
        self.id_start + self.id_counter
    }

    pub fn increment_id(&mut self)
        requires
            old(self).id_counter < u32::MAX,
        ensures
            final(self).id_counter == old(self).id_counter + 1,
            final(self).id_start == old(self).id_start,
            final(self).has_rendered == old(self).has_rendered,
    {
        self.id_counter = self.id_counter + 1;
    }

    /// The ids handed out so far, first and last; with none handed out, the
    /// range holds the first id alone.
    pub fn range(&self) -> (r: std::ops::RangeInclusive<u32>)
        requires
            self.id_start + self.id_counter <= u32::MAX,
        ensures
            r@.start == self.id_start,
            r@.end == self.id_start + sat_sub(self.id_counter as int, 1),
            !r@.exhausted,
    {
        let end = self.id_start + self.id_counter.saturating_sub(1);
        std::ops::RangeInclusive::new(self.id_start, end)
    }
}

/// Every id handed out lies in the range, and the id to come lies past it.
pub proof fn law_image_ids_in_range(k: MarkupKitty, n: u32)
    requires
        k.id_start + k.id_counter <= u32::MAX,
        n < k.id_counter,
    ensures
        k.id_start <= k.id_start + n <= k.id_start + sat_sub(k.id_counter as int, 1),
        k.id_counter > 0 ==> k.id_start + k.id_counter > k.id_start + sat_sub(k.id_counter as int, 1),
{
}

#[derive(Debug, Clone, Copy, PartialEq, Eq, Structural)]
pub enum SyntaxHighlightTheme {
    Base16OceanDark,
    Base16OceanLight,
    Base16MochaDark,
    Base16EightiesDark,
    InspiredGitHub,
    SolarizedDark,
    SolarizedLight,
}

impl SyntaxHighlightTheme {
    /// The name of the theme in syntect's default theme set.
    pub open spec fn name(self) -> Seq<char> {
        match self {
            SyntaxHighlightTheme::Base16OceanDark => "base16-ocean.dark"@,
            SyntaxHighlightTheme::Base16OceanLight => "base16-ocean.light"@,
            SyntaxHighlightTheme::Base16MochaDark => "base16-mocha.dark"@,
            SyntaxHighlightTheme::Base16EightiesDark => "base16-eighties.dark"@,
            SyntaxHighlightTheme::InspiredGitHub => "InspiredGitHub"@,
            SyntaxHighlightTheme::SolarizedDark => "Solarized (dark)"@,
            SyntaxHighlightTheme::SolarizedLight => "Solarized (light)"@,
        }
    }

    /// The name of the theme in syntect's default theme set.
    pub fn as_str(self) -> (s: &'static str)
        ensures
            s@ == self.name(),
    {
        match self {
            SyntaxHighlightTheme::Base16OceanDark => "base16-ocean.dark",
            SyntaxHighlightTheme::Base16OceanLight => "base16-ocean.light",
            SyntaxHighlightTheme::Base16MochaDark => "base16-mocha.dark",
            SyntaxHighlightTheme::Base16EightiesDark => "base16-eighties.dark",
            SyntaxHighlightTheme::InspiredGitHub => "InspiredGitHub",
            SyntaxHighlightTheme::SolarizedDark => "Solarized (dark)",
            SyntaxHighlightTheme::SolarizedLight => "Solarized (light)",
        }
    }
}

} // verus!
