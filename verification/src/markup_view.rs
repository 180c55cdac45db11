//! The markup view: the items it keeps between frames, its scrolling, and
//! what each frame draws where.
use vstd::prelude::*;
use vstd::string::StrSliceExecFns;

use crate::ansi::{ansi_events, final_style, styled, AnsiParserWithStyle};
use crate::geometry::{Rect, Size};
use crate::kitty::Dimensions;
use crate::markup::{min_of, sat_sub, scrolled, Alignment, MarkupScroll, MarkupKitty, ScrollMove};
use crate::hash::hash_fast;
use crate::highlight::{is_default_theme, CodeHighlighter};
use crate::keys::Key;
use crate::markup::{MarkupItem, SyntaxHighlightTheme};
use crate::markup_items::{load_plain, plain_items, plain_views, process_item, result_views, rich_of, text_lines, MarkupPlain, MarkupRich, PlainView, RichView};
use crate::scroll::{Scrollbar, ScrollbarColors};
use crate::rich::{line_bounds, lines_of};
use crate::style::Style;
use crate::graphemes::grapheme_clusters_of;
use crate::text::{chars_of, push_str};

verus! {

/// The views of rich items.
pub open spec fn rich_views(v: Seq<MarkupRich>) -> Seq<RichView> {
    v.map_values(|r: MarkupRich| r.view())
}

/// How many lines an item takes: a text its lines, an image `rows`, any other
/// item one.
pub open spec fn item_height(item: RichView, rows: u16) -> int {
    match item {
        RichView::Text(t, _) => lines_of(t).len() as int,
        RichView::Image(_, _) => rows as int,
        _ => 1,
    }
}

/// The lines of the first `n` items.
pub open spec fn lines_total(items: Seq<RichView>, rows: Seq<u16>, n: int) -> int
    decreases n,
{
    if n <= 0 {
        0
    } else {
        lines_total(items, rows, n - 1) + item_height(items[n - 1], rows[n - 1])
    }
}

/// A line count as a `u16`, which holds at most `u16::MAX` of them.
pub open spec fn saturated(n: int) -> u16 {
    if n <= u16::MAX {
        n as u16
    } else {
        u16::MAX
    }
}

/// What is left of `area` for the lines from `cl` on, when the lines `top..`
/// are shown in it one per row.
pub open spec fn area_at(area: Rect, top: int, cl: int) -> Rect {
    let bot = top + area.height;
    let c = if cl < top {
        top
    } else if cl > bot {
        bot
    } else {
        cl
    };
    Rect { y: (area.y + (c - top)) as u16, height: (area.height - (c - top)) as u16, ..area }
}

/// Something a frame draws: a line of styled text, an image with how many of
/// its rows lie above the viewport, or a break of `count` dashes at `x`, `y`.
pub enum DrawView {
    Line(Rect, Seq<(Seq<char>, Style)>, Alignment),
    Image(Rect, u32, Dimensions, u16),
    Break(u16, u16, u16),
}

/// The lines of a text from line `cl` on, each styled by the ANSI sequences
/// before it in the text, starting from `style`; those in `top..` that fit
/// in `area` are drawn.
pub open spec fn text_draws(
    lines: Seq<Seq<char>>,
    style: Style,
    alignment: Alignment,
    area: Rect,
    top: int,
    cl: int,
) -> Seq<DrawView>
    decreases lines.len(),
{
    if lines.len() == 0 {
        Seq::empty()
    } else {
        let events = ansi_events(lines[0]);
        let here = if top <= cl < top + area.height {
            seq![DrawView::Line(area_at(area, top, cl), styled(events, style), alignment)]
        } else {
            Seq::empty()
        };
        here + text_draws(lines.drop_first(), final_style(events, style), alignment, area, top, cl + 1)
    }
}

/// What an item starting at line `cl` draws: the lines of a text that are
/// in view, the part of an image that is in view, a break of half the width
/// centred, or nothing.
pub open spec fn item_draws(item: RichView, rows: u16, area: Rect, top: int, cl: int) -> Seq<DrawView> {
    let bot = top + area.height;
    match item {
        RichView::Text(t, a) => text_draws(lines_of(t), Style::spec_new(), a, area, top, cl),
        RichView::Image(id, d) => if cl + rows > top && cl < bot {
            let at = area_at(area, top, cl);
            let first = if cl < top {
                top
            } else {
                cl
            };
            seq![
                DrawView::Image(
                    Rect { height: (min_of(cl + rows, bot) - first) as u16, ..at },
                    id,
                    d,
                    sat_sub(top, cl) as u16,
                ),
            ]
        } else {
            Seq::empty()
        },
        RichView::Break => if top <= cl < bot {
            seq![
                DrawView::Break(
                    (area.x + (area.width / 2) / 2) as u16,
                    (area.y + (cl - top)) as u16,
                    (area.width / 2) as u16,
                ),
            ]
        } else {
            Seq::empty()
        },
        RichView::EmptyLine => Seq::empty(),
    }
}

/// What the items from the `k`-th on draw, the `k`-th starting at line `cl`,
/// when the lines `top..` are shown in `area`; once the area is full nothing
/// more is drawn.
pub open spec fn frame_draws(items: Seq<RichView>, rows: Seq<u16>, area: Rect, top: int, k: int, cl: int) -> Seq<
    DrawView,
>
    decreases items.len() - k,
{
    if k < 0 || k >= items.len() || cl >= top + area.height {
        Seq::empty()
    } else {
        item_draws(items[k], rows[k], area, top, cl) + frame_draws(
            items,
            rows,
            area,
            top,
            k + 1,
            cl + item_height(items[k], rows[k]),
        )
    }
}

/// Something a frame draws, see `DrawView`.
pub enum MarkupDraw {
    Line { area: Rect, pieces: Vec<(String, Style)>, alignment: Alignment },
    Image { area: Rect, id: u32, dims: Dimensions, rows_outside_top: u16 },
    Break { x: u16, y: u16, count: u16 },
}

/// The views of styled pieces.
pub open spec fn pieces_view(v: Seq<(String, Style)>) -> Seq<(Seq<char>, Style)> {
    v.map_values(|p: (String, Style)| (p.0@, p.1))
}

impl MarkupDraw {
    pub open spec fn view(&self) -> DrawView {
        match self {
            MarkupDraw::Line { area, pieces, alignment } => DrawView::Line(*area, pieces_view(pieces@), *alignment),
            MarkupDraw::Image { area, id, dims, rows_outside_top } => DrawView::Image(
                *area,
                *id,
                *dims,
                *rows_outside_top,
            ),
            MarkupDraw::Break { x, y, count } => DrawView::Break(*x, *y, *count),
        }
    }
}

/// The views of draws.
pub open spec fn draws_view(v: Seq<MarkupDraw>) -> Seq<DrawView> {
    v.map_values(|d: MarkupDraw| d.view())
}

/// What a frame of the markup view shows: the scrollbar's area and colors
/// with the scroll and the number of lines, and what is drawn.
pub struct MarkupFrame {
    pub scrollbar: Option<(Rect, crate::scroll::ScrollbarColors, usize, usize)>,
    pub draws: Vec<MarkupDraw>,
}

proof fn lemma_draws_push(v: Seq<MarkupDraw>, d: MarkupDraw)
    ensures
        draws_view(v.push(d)) == draws_view(v).push(d.view()),
{
    assert(draws_view(v.push(d)) =~= draws_view(v).push(d.view()));
}

proof fn lemma_pieces_push(v: Seq<(String, Style)>, p: (String, Style))
    ensures
        pieces_view(v.push(p)) == pieces_view(v).push((p.0@, p.1)),
{
    assert(pieces_view(v.push(p)) =~= pieces_view(v).push((p.0@, p.1)));
}

/// The part of `area` left for the lines from `cl` on; see `area_at`.
fn area_from(area: Rect, top: u64, cl: u64) -> (r: Rect)
    requires
        area.y + area.height <= u16::MAX,
        top <= u32::MAX,
    ensures
        r == area_at(area, top as int, cl as int),
{
    let bot = top + area.height as u64;
    let c = if cl < top {
        top
    } else if cl > bot {
        bot
    } else {
        cl
    };
    let d = (c - top) as u16;
    Rect { y: area.y + d, height: area.height - d, ..area }
}

/// Reads one line of text through `parser`, keeping its pieces when `keep`.
fn line_pieces<'a>(parser: &mut AnsiParserWithStyle<'a>, line: &'a str, keep: bool) -> (r: Vec<
    (String, Style),
>)
    ensures
        final(parser).wf(),
        final(parser).current_style() == final_style(ansi_events(line@), old(parser).current_style()),
        keep ==> pieces_view(r@) == styled(ansi_events(line@), old(parser).current_style()),
{
    parser.continue_with(line);
    let ghost all = parser.remaining();
    let ghost end = parser.end_style();
    let mut out: Vec<(String, Style)> = Vec::new();
    loop
        invariant
            parser.wf(),
            parser.end_style() == end,
            end == final_style(ansi_events(line@), old(parser).current_style()),
            all == styled(ansi_events(line@), old(parser).current_style()),
            keep ==> pieces_view(out@) + parser.remaining() == all,
        decreases parser.remaining().len(),
    {
        let ghost before = parser.remaining();
        match parser.next() {
            Some((s, st)) => {
                if keep {
                    let mut piece = String::new();
                    push_str(&mut piece, s);
                    proof {
                        lemma_pieces_push(out@, (piece, st));
                    }
                    let ghost prev = pieces_view(out@);
                    out.push((piece, st));
                    proof {
                        assert(pieces_view(out@) + parser.remaining() =~= prev + before);
                    }
                }
            },
            None => {
                proof {
                    if keep {
                        assert(pieces_view(out@) =~= pieces_view(out@) + parser.remaining());
                    }
                }
                return out;
            },
        }
    }
}

/// Adds what a text starting at line `cl` draws; gives its number of lines.
fn push_text_draws(
    draws: &mut Vec<MarkupDraw>,
    text: &str,
    alignment: Alignment,
    area: Rect,
    top: u64,
    cl: u64,
) -> (n: u64)
    requires
        area.y + area.height <= u16::MAX,
        top <= u32::MAX,
        cl <= u32::MAX,
    ensures
        n == lines_of(text@).len(),
        draws_view(final(draws)@) == draws_view(old(draws)@) + text_draws(
            lines_of(text@),
            Style::spec_new(),
            alignment,
            area,
            top as int,
            cl as int,
        ),
{
    let chars = chars_of(text);
    let bounds = line_bounds(&chars);
    let ghost lines = lines_of(text@);
    let mut parser = AnsiParserWithStyle::new("");
    let ghost style0 = parser.current_style();
    let mut j: usize = 0;
    let bot = top + area.height as u64;
    proof {
        assert(lines.skip(0) =~= lines);
    }
    while j < bounds.len()
        invariant
            chars@ == text@,
            lines == lines_of(text@),
            bounds@.len() == lines.len(),
            forall|i: int|
                0 <= i < bounds@.len() ==> (#[trigger] bounds@[i]).0 <= bounds@[i].1 <= chars@.len()
                    && chars@.subrange(bounds@[i].0 as int, bounds@[i].1 as int) == lines[i],
            j <= bounds@.len(),
            parser.wf(),
            area.y + area.height <= u16::MAX,
            top <= u32::MAX,
            cl <= u32::MAX,
            bot == top + area.height,
            style0 == Style::spec_new(),
            draws_view(draws@) + text_draws(
                lines.skip(j as int),
                parser.current_style(),
                alignment,
                area,
                top as int,
                cl + j,
            ) == draws_view(old(draws)@) + text_draws(lines, style0, alignment, area, top as int, cl as int),
        decreases bounds@.len() - j,
    {
        let (s, e) = bounds[j];
        let line = text.substring_char(s, e);
        let at = cl.saturating_add(j as u64);
        let visible = top <= at && at < bot;
        let ghost style = parser.current_style();
        let ghost rest = lines.skip(j as int);
        proof {
            assert(line@ == lines[j as int]);
            assert(rest[0] == lines[j as int]);
            assert(rest.drop_first() =~= lines.skip(j + 1));
        }
        let pieces = line_pieces(&mut parser, line, visible);
        let ghost before = draws_view(draws@);
        if visible {
            let d = MarkupDraw::Line { area: area_from(area, top, at), pieces, alignment };
            proof {
                lemma_draws_push(draws@, d);
            }
            draws.push(d);
            proof {
                assert(draws_view(draws@) + text_draws(
                    lines.skip(j + 1),
                    parser.current_style(),
                    alignment,
                    area,
                    top as int,
                    cl + j + 1,
                ) =~= before + text_draws(rest, style, alignment, area, top as int, cl + j));
            }
        } else {
            proof {
                assert(draws_view(draws@) + text_draws(
                    lines.skip(j + 1),
                    parser.current_style(),
                    alignment,
                    area,
                    top as int,
                    cl + j + 1,
                ) =~= before + text_draws(rest, style, alignment, area, top as int, cl + j));
            }
        }
        j = j + 1;
    }
    proof {
        assert(lines.skip(j as int) =~= Seq::<Seq<char>>::empty());
        assert(draws_view(draws@) =~= draws_view(draws@) + text_draws(
            lines.skip(j as int),
            parser.current_style(),
            alignment,
            area,
            top as int,
            cl + j,
        ));
    }
    j as u64
}


proof fn lemma_text_draws_lines(
    lines: Seq<Seq<char>>,
    style: Style,
    alignment: Alignment,
    area: Rect,
    top: int,
    cl: int,
)
    ensures
        forall|i: int|
            0 <= i < text_draws(lines, style, alignment, area, top, cl).len() ==> #[trigger] text_draws(
                lines,
                style,
                alignment,
                area,
                top,
                cl,
            )[i] is Line,
    decreases lines.len(),
{
    if lines.len() > 0 {
        let events = ansi_events(lines[0]);
        lemma_text_draws_lines(lines.drop_first(), final_style(events, style), alignment, area, top, cl + 1);
    }
}

/// Whether some draw is an image.
pub open spec fn draws_image(v: Seq<DrawView>) -> bool {
    exists|i: int| 0 <= i < v.len() && (#[trigger] v[i]) is Image
}

/// The size and area that a markup view was laid out for, and the hash of
/// its markup.
pub struct MarkupCache {
    pub size: Size,
    pub area: Rect,
    pub hash: u64,
}

/// A cache that matches nothing.
pub open spec fn empty_cache() -> MarkupCache {
    MarkupCache {
        size: Size { width: 0, height: 0 },
        area: Rect { x: 0, y: 0, width: 0, height: 0 },
        hash: 0,
    }
}

impl MarkupCache {
    pub fn new() -> (c: Self)
        ensures
            c == empty_cache(),
    {
        MarkupCache { size: Size { width: 0, height: 0 }, area: Rect { x: 0, y: 0, width: 0, height: 0 }, hash: 0 }
    }

    pub fn clear(&mut self)
        ensures
            *final(self) == empty_cache(),
    {
        *self = MarkupCache::new();
    }
}

/// A scroll state with nothing scrolled and no scrollbar.
pub open spec fn fresh_scroll() -> MarkupScroll {
    MarkupScroll {
        current: 0,
        desired: None,
        max_items: None,
        max_lines: 0,
        total_lines: 0,
        area: None,
        colors: None,
    }
}

/// Shows markup: paragraphs, lists, code, images and breaks, scrolled line by
/// line. It keeps the plain items of the markup, their rich form for the
/// width it was laid out for, and where the scrolling stands.
pub struct Markup {
    pub plain: Vec<MarkupPlain>,
    pub rich: Vec<MarkupRich>,
    pub scroll: MarkupScroll,
    pub kitty: MarkupKitty,
    pub cache: MarkupCache,
    pub assets_path: String,
    pub highlighter: CodeHighlighter,
}

impl Markup {
    /// The highlighter uses one of the default themes.
    pub open spec fn wf(&self) -> bool {
        is_default_theme(self.highlighter.theme_name())
    }

    /// How many items a frame shows: at most `max_items`, when set.
    pub open spec fn shown(&self) -> int {
        match self.scroll.max_items {
            Some(m) => min_of(m as int, self.rich@.len() as int),
            None => self.rich@.len() as int,
        }
    }

    /// A view of `assets` with syntax highlighting in `theme`.
    pub fn new(assets: String, theme: SyntaxHighlightTheme) -> (m: Self)
        ensures
            m.wf(),
            m.plain@.len() == 0,
            m.rich@.len() == 0,
            m.scroll == fresh_scroll(),
            m.kitty == (MarkupKitty { id_start: crate::markup::IMAGE_ID_START, id_counter: 0, has_rendered: false }),
            m.cache == empty_cache(),
            m.assets_path@ == assets@,
    {
        Markup {
            plain: Vec::new(),
            rich: Vec::new(),
            scroll: MarkupScroll::new(),
            kitty: MarkupKitty::new(),
            cache: MarkupCache::new(),
            assets_path: assets,
            highlighter: CodeHighlighter::new(theme),
        }
    }

    /// The same view, with a scrollbar in `colors` when the markup does not fit.
    pub fn with_scrollbar(self, colors: ScrollbarColors) -> (m: Self)
        ensures
            m == (Markup { scroll: MarkupScroll { colors: Some(colors), ..self.scroll }, ..self }),
    {
        let mut m = self;
        m.scroll.colors = Some(colors);
        m
    }

    /// The first line shown.
    pub fn scroll_index(&self) -> (i: u16)
        ensures
            i == self.scroll.current,
    {
        self.scroll.current
    }

    /// Asks for a scroll move in the next frame.
    pub fn set_desired_scroll(&mut self, sm: ScrollMove) -> (r: &mut Self)
        ensures
            *r == (Markup { scroll: MarkupScroll { desired: Some(sm), ..old(self).scroll }, ..*old(self) }),
            *final(self) == *final(r),
    {
        self.scroll.desired = Some(sm);
        self
    }

    pub fn set_scrollbar(&mut self, colors: ScrollbarColors) -> (r: &mut Self)
        ensures
            *r == (Markup { scroll: MarkupScroll { colors: Some(colors), ..old(self).scroll }, ..*old(self) }),
            *final(self) == *final(r),
    {
        self.scroll.colors = Some(colors);
        self
    }

    /// Shows at most `max` items, or all of them.
    pub fn set_max_items(&mut self, max: Option<usize>) -> (r: &mut Self)
        ensures
            *r == (Markup { scroll: MarkupScroll { max_items: max, ..old(self).scroll }, ..*old(self) }),
            *final(self) == *final(r),
    {
        self.scroll.max_items = max;
        self
    }

    /// Scrolls by the move that `sm` names, in a viewport as high as the last
    /// layout; tells whether the first line shown changed.
    pub fn scroll(&mut self, sm: ScrollMove) -> (changed: bool)
        ensures
            *final(self) == (Markup {
                scroll: MarkupScroll {
                    current: scrolled(
                        old(self).scroll.current as int,
                        old(self).scroll.max_lines as int,
                        old(self).cache.size.height as int,
                        sm,
                    ) as u16,
                    ..old(self).scroll
                },
                ..*old(self)
            }),
            changed == (final(self).scroll.current != old(self).scroll.current),
    {
        let old_scroll = self.scroll.current;
        let height = self.cache.size.height;
        self.scroll.set(sm, height);
        self.scroll.current != old_scroll
    }

    /// Scrolls by a key: the arrows up and down by a line, the page keys by a
    /// page, Home and End to the start and the end; other keys do nothing.
    pub fn input(&mut self, key: Key) -> (changed: bool)
        ensures
            match key {
                Key::Down | Key::Up | Key::PageDown | Key::PageUp | Key::Home | Key::End => {
                    let sm = match key {
                        Key::Down => ScrollMove::Down,
                        Key::Up => ScrollMove::Up,
                        Key::PageDown => ScrollMove::PageDown,
                        Key::PageUp => ScrollMove::PageUp,
                        Key::Home => ScrollMove::Start,
                        _ => ScrollMove::End,
                    };
                    &&& *final(self) == (Markup {
                        scroll: MarkupScroll {
                            current: scrolled(
                                old(self).scroll.current as int,
                                old(self).scroll.max_lines as int,
                                old(self).cache.size.height as int,
                                sm,
                            ) as u16,
                            ..old(self).scroll
                        },
                        ..*old(self)
                    })
                    &&& changed == (final(self).scroll.current != old(self).scroll.current)
                },
                _ => *final(self) == *old(self) && !changed,
            },
    {
        match key {
            Key::Down => self.scroll(ScrollMove::Down),
            Key::Up => self.scroll(ScrollMove::Up),
            Key::PageDown => self.scroll(ScrollMove::PageDown),
            Key::PageUp => self.scroll(ScrollMove::PageUp),
            Key::Home => self.scroll(ScrollMove::Start),
            Key::End => self.scroll(ScrollMove::End),
            _ => false,
        }
    }

    /// Forgets the markup, its layout and its scrolling; the scrollbar keeps
    /// its colors.
    pub fn clear(&mut self)
        ensures
            final(self).plain@.len() == 0,
            final(self).rich@.len() == 0,
            final(self).scroll == (MarkupScroll { colors: old(self).scroll.colors, ..fresh_scroll() }),
            final(self).cache == empty_cache(),
            final(self).kitty == old(self).kitty,
            final(self).assets_path == old(self).assets_path,
            final(self).highlighter == old(self).highlighter,
    {
        self.plain.clear();
        self.rich.clear();
        self.scroll.clear();
        self.cache.clear();
    }

    /// The kinds of item that `markup` is shown as; see `crate::blocks::parse_items`.
    pub fn parse_items(markup: &str, v: &mut Vec<MarkupItem>)
        ensures
            final(v)@ == ({
                let all = old(v)@ + crate::blocks::items_from(grapheme_clusters_of(markup@), 0);
                if all.len() == 0 {
                    all
                } else {
                    all.drop_last()
                }
            }),
    {
        crate::blocks::parse_items(markup, v)
    }

    /// Whether the view has to be laid out again for `markup` in `area`: when
    /// the size or the markup changed since the last layout. Also gives the
    /// markup's hash, which the layout keeps.
    pub fn needs_layout(&self, area: Rect, markup: &str) -> (r: (bool, u64))
        ensures
            r.0 == (self.cache.size != (Size { width: area.width, height: area.height }) || self.cache.hash != r.1),
    {
        let hash = hash_fast(markup);
        let size = area.as_size();
        (self.cache.size != size || self.cache.hash != hash, hash)
    }

    /// Starts handing out image ids from the first one again.
    pub fn reset_image_ids(&mut self)
        ensures
            *final(self) == (Markup { kitty: MarkupKitty { id_counter: 0, ..old(self).kitty }, ..*old(self) }),
    {
        self.kitty.id_counter = 0;
    }

    /// Lays the markup out again for `area`: keeps the size, area and hash,
    /// drops the scrollbar's area, and makes the plain items, each image
    /// taking the next of `images`.
    pub fn load(&mut self, area: Rect, hash: u64, markup: &str, images: &Vec<Result<(u32, Dimensions), String>>)
        ensures
            final(self).cache == (MarkupCache { size: Size { width: area.width, height: area.height }, area, hash }),
            final(self).scroll == (MarkupScroll { area: None, ..old(self).scroll }),
            plain_views(final(self).plain@) == plain_items(markup@, result_views(images@)),
            final(self).rich == old(self).rich,
            final(self).kitty == old(self).kitty,
            final(self).assets_path == old(self).assets_path,
            final(self).highlighter == old(self).highlighter,
    {
        self.cache.size = area.as_size();
        self.cache.area = area;
        self.cache.hash = hash;
        self.scroll.area = None;
        self.plain = load_plain(markup, images);
    }

    /// The lines of the first `n` rich items, images taking the rows that
    /// `rows` gives at their index; at most `u16::MAX`.
    pub fn compute_lines(&self, rows: &Vec<u16>, n: usize) -> (r: u16)
        requires
            n <= self.rich@.len(),
            rows@.len() == self.rich@.len(),
        ensures
            r == saturated(lines_total(rich_views(self.rich@), rows@, n as int)),
    {
        let ghost items = rich_views(self.rich@);
        let mut total: u64 = 0;
        let mut k: usize = 0;
        while k < n
            invariant
                k <= n <= self.rich@.len(),
                rows@.len() == self.rich@.len(),
                items == rich_views(self.rich@),
                total == min_of(lines_total(items, rows@, k as int), u16::MAX as int),
            decreases n - k,
        {
            let h: u64 = match &self.rich[k] {
                MarkupRich::Text { text, .. } => {
                    let lines = text_lines(text.as_str());
                    if lines as u64 > u16::MAX as u64 {
                        u16::MAX as u64
                    } else {
                        lines as u64
                    }
                },
                MarkupRich::Image { .. } => rows[k] as u64,
                _ => 1,
            };
            proof {
                assert(items[k as int] == self.rich@[k as int].view());
            }
            let sum = total + h;
            total = if sum > u16::MAX as u64 {
                u16::MAX as u64
            } else {
                sum
            };
            k = k + 1;
        }
        total as u16
    }

    /// Makes the rich items for a width of `width` columns, images taking the
    /// rows that `rows` gives at their index, and counts their lines.
    pub fn process(&mut self, width: u16, rows: &Vec<u16>)
        requires
            old(self).wf(),
            rows@.len() == old(self).plain@.len(),
        ensures
            final(self).wf(),
            final(self).rich@.len() == old(self).plain@.len(),
            forall|i: int|
                0 <= i < old(self).plain@.len() ==> {
                    #[trigger] final(self).rich@[i].view() == rich_of(
                        old(self).plain@[i].view(),
                        width,
                        old(self).highlighter.theme_name(),
                    )
                },
            final(self).scroll == (MarkupScroll {
                total_lines: saturated(
                    lines_total(rich_views(final(self).rich@), rows@, old(self).plain@.len() as int),
                ),
                ..old(self).scroll
            }),
            final(self).plain == old(self).plain,
            final(self).cache == old(self).cache,
            final(self).kitty == old(self).kitty,
            final(self).assets_path == old(self).assets_path,
            final(self).highlighter == old(self).highlighter,
    {
        let mut rich: Vec<MarkupRich> = Vec::new();
        let mut k: usize = 0;
        while k < self.plain.len()
            invariant
                self.wf(),
                k <= self.plain@.len(),
                rich@.len() == k,
                self == old(self),
                forall|i: int|
                    0 <= i < k ==> {
                        #[trigger] rich@[i].view() == rich_of(
                            self.plain@[i].view(),
                            width,
                            self.highlighter.theme_name(),
                        )
                    },
            decreases self.plain@.len() - k,
        {
            let item = process_item(&self.plain[k], width, &self.highlighter);
            rich.push(item);
            k = k + 1;
        }
        self.rich = rich;
        let n = self.rich.len();
        self.scroll.total_lines = self.compute_lines(rows, n);
    }

    /// Whether the markup, its lines counted, needs a scrollbar in `area`.
    pub fn scrollbar_needed(&self, area: Rect) -> (b: bool)
        ensures
            b == (self.scroll.colors is Some && self.scroll.total_lines > area.height && area.width > 15),
    {
        self.scroll.colors.is_some() && Scrollbar::is_scrollable(self.scroll.total_lines as usize, area.as_size())
    }

    /// Takes the scrollbar's column, and a margin before it, off `area`; the
    /// rest is where the markup is laid out, and is given back.
    pub fn use_scroll_area(&mut self, area: Rect) -> (r: Rect)
        requires
            area.x + sat_sub(area.width as int, 1) <= u16::MAX,
        ensures
            r == (Rect { width: sat_sub(area.width as int, 2) as u16, ..area }),
            *final(self) == (Markup {
                scroll: MarkupScroll {
                    area: Some(
                        Rect { x: (area.x + sat_sub(area.width as int, 1)) as u16, width: 1, ..area },
                    ),
                    ..old(self).scroll
                },
                cache: MarkupCache { area: r, ..old(self).cache },
                ..*old(self)
            }),
    {
        let mut a = area;
        let scroll_area = Scrollbar::make_scroll_area(&mut a);
        self.cache.area = a;
        self.scroll.area = Some(scroll_area);
        a
    }

    /// Draws a frame from the layout: counts the lines of the items shown,
    /// makes the scroll move asked for (or keeps the last screen full), and
    /// gives the scrollbar and what is drawn where, images taking the rows
    /// that `rows` gives at their index. Marks images as shown when one is.
    #[verifier::rlimit(40)]
    pub fn frame(&mut self, rows: &Vec<u16>) -> (f: MarkupFrame)
        requires
            rows@.len() == old(self).rich@.len(),
            forall|i: int|
                0 <= i < old(self).shown() && (#[trigger] old(self).rich@[i]).view() is Image ==> rows@[i] >= 1,
            old(self).cache.area.x + old(self).cache.area.width <= u16::MAX,
            old(self).cache.area.y + old(self).cache.area.height <= u16::MAX,
        ensures
            ({
                let o = old(self);
                let max_lines = saturated(lines_total(rich_views(o.rich@), rows@, o.shown()));
                let height = o.cache.area.height as int;
                let current = match o.scroll.desired {
                    Some(sm) => scrolled(o.scroll.current as int, max_lines as int, height, sm),
                    None => min_of(o.scroll.current as int, sat_sub(max_lines as int, height)),
                };
                let draws = frame_draws(
                    rich_views(o.rich@).subrange(0, o.shown()),
                    rows@,
                    o.cache.area,
                    current,
                    0,
                    0,
                );
                &&& *final(self) == (Markup {
                    scroll: MarkupScroll {
                        current: current as u16,
                        desired: None,
                        max_lines,
                        ..o.scroll
                    },
                    kitty: MarkupKitty { has_rendered: o.kitty.has_rendered || draws_image(draws), ..o.kitty },
                    ..*o
                })
                &&& f.scrollbar == match (o.scroll.area, o.scroll.colors) {
                    (Some(a), Some(c)) => Some((a, c, current as usize, o.scroll.total_lines as usize)),
                    _ => None,
                }
                &&& draws_view(f.draws@) == draws
            }),
    {
        let area = self.cache.area;
        let n = match self.scroll.max_items {
            Some(m) => if m < self.rich.len() {
                m
            } else {
                self.rich.len()
            },
            None => self.rich.len(),
        };
        self.scroll.max_lines = self.compute_lines(rows, n);
        match self.scroll.desired {
            Some(sm) => {
                self.scroll.desired = None;
                self.scroll.set(sm, area.height);
            },
            None => {
                self.scroll.clamp(area.height);
            },
        }
        let scrollbar = match self.scroll.area_and_colors() {
            Some((a, c)) => Some((a, c, self.scroll.current as usize, self.scroll.total_lines as usize)),
            None => None,
        };
        let ghost items = rich_views(self.rich@).subrange(0, n as int);
        let top: u64 = self.scroll.current as u64;
        let bot: u64 = top + area.height as u64;
        let ghost hr0 = self.kitty.has_rendered;
        let ghost pre = *self;
        let ghost whole = frame_draws(items, rows@, area, top as int, 0, 0);
        let mut draws: Vec<MarkupDraw> = Vec::new();
        let mut cl: u64 = 0;
        let ghost mut gcl: int = 0;
        let mut k: usize = 0;
        while k < n && cl < bot
            invariant
                n <= self.rich@.len(),
                items == rich_views(self.rich@).subrange(0, n as int),
                rows@.len() == self.rich@.len(),
                forall|i: int| 0 <= i < n && (#[trigger] self.rich@[i]).view() is Image ==> rows@[i] >= 1,
                area.x + area.width <= u16::MAX,
                area.y + area.height <= u16::MAX,
                top <= u16::MAX,
                bot == top + area.height,
                k <= n,
                0 <= gcl,
                cl == gcl || (cl == u64::MAX && gcl >= u64::MAX),
                draws_view(draws@) + frame_draws(items, rows@, area, top as int, k as int, gcl) == whole,
                self.kitty.has_rendered == (hr0 || draws_image(draws_view(draws@))),
                *self == (Markup { kitty: MarkupKitty { has_rendered: self.kitty.has_rendered, ..pre.kitty }, ..pre }),
            decreases n - k,
        {
            let ghost before = draws_view(draws@);
            let ghost item = items[k as int];
            let ghost r = rows@[k as int];
            proof {
                assert(item == self.rich@[k as int].view());
                assert(!draws_image(before) ==> forall|i: int| 0 <= i < before.len() ==> !(before[i] is Image));
            }
            match &self.rich[k] {
                MarkupRich::Text { text, alignment } => {
                    let lines = push_text_draws(&mut draws, text.as_str(), *alignment, area, top, cl);
                    proof {
                        lemma_text_draws_lines(lines_of(text@), Style::spec_new(), *alignment, area, top as int, cl as int);
                        let td = text_draws(lines_of(text@), Style::spec_new(), *alignment, area, top as int, cl as int);
                        let after = draws_view(draws@);
                        assert(after == before + td);
                        if draws_image(after) {
                            let i = choose|i: int| 0 <= i < after.len() && (#[trigger] after[i]) is Image;
                            if i >= before.len() {
                                assert(after[i] == td[i - before.len()]);
                            } else {
                                assert(after[i] == before[i]);
                            }
                        }
                        if draws_image(before) {
                            let i = choose|i: int| 0 <= i < before.len() && (#[trigger] before[i]) is Image;
                            assert(after[i] == before[i]);
                        }
                    }
                    cl = cl.saturating_add(lines);
                },
                MarkupRich::Image { id, dims } => {
                    let h = rows[k] as u64;
                    if cl + h > top {
                        let at = area_from(area, top, cl);
                        let first = if cl < top {
                            top
                        } else {
                            cl
                        };
                        let end = if cl + h < bot {
                            cl + h
                        } else {
                            bot
                        };
                        let outside = if top > cl {
                            top - cl
                        } else {
                            0
                        };
                        let d = MarkupDraw::Image {
                            area: Rect { height: (end - first) as u16, ..at },
                            id: *id,
                            dims: *dims,
                            rows_outside_top: outside as u16,
                        };
                        proof {
                            lemma_draws_push(draws@, d);
                        }
                        draws.push(d);
                        self.kitty.has_rendered = true;
                        proof {
                            let after = draws_view(draws@);
                            assert(after[before.len() as int] is Image);
                        }
                    } else {
                        proof {
                            assert(draws_view(draws@) =~= before + Seq::<DrawView>::empty());
                        }
                    }
                    cl = cl + h;
                },
                MarkupRich::Break => {
                    if top <= cl {
                        let half = area.width / 2;
                        let d = MarkupDraw::Break { x: area.x + half / 2, y: area.y + (cl - top) as u16, count: half };
                        proof {
                            lemma_draws_push(draws@, d);
                        }
                        draws.push(d);
                        proof {
                            let after = draws_view(draws@);
                            if draws_image(after) {
                                let i = choose|i: int| 0 <= i < after.len() && (#[trigger] after[i]) is Image;
                                assert(i < before.len());
                                assert(after[i] == before[i]);
                            }
                            if draws_image(before) {
                                let i = choose|i: int| 0 <= i < before.len() && (#[trigger] before[i]) is Image;
                                assert(after[i] == before[i]);
                            }
                        }
                    } else {
                        proof {
                            assert(draws_view(draws@) =~= before + Seq::<DrawView>::empty());
                        }
                    }
                    cl = cl + 1;
                },
                MarkupRich::EmptyLine => {
                    proof {
                        assert(draws_view(draws@) =~= before + Seq::<DrawView>::empty());
                    }
                    cl = cl + 1;
                },
            }
            proof {
                gcl = gcl + item_height(item, r);
                assert(draws_view(draws@) + frame_draws(items, rows@, area, top as int, k + 1, gcl) =~= before
                    + frame_draws(items, rows@, area, top as int, k as int, gcl - item_height(item, r)));
            }
            k = k + 1;
        }
        proof {
            assert(frame_draws(items, rows@, area, top as int, k as int, gcl) =~= Seq::<DrawView>::empty());
            assert(draws_view(draws@) =~= whole);
        }
        MarkupFrame { scrollbar, draws }
    }

    /// The ids of the images to delete from the terminal: all those handed
    /// out, once one of them was shown; nothing otherwise.
    pub fn rendered_images(&self) -> (r: Option<std::ops::RangeInclusive<u32>>)
        requires
            self.kitty.id_start + self.kitty.id_counter <= u32::MAX,
        ensures
            r is Some == self.kitty.has_rendered,
            r matches Some(x) ==> x@.start == self.kitty.id_start && x@.end == self.kitty.id_start + sat_sub(
                self.kitty.id_counter as int,
                1,
            ) && !x@.exhausted,
    {
        if self.kitty.has_rendered {
            Some(self.kitty.range())
        } else {
            None
        }
    }

    /// Notes that the images shown were deleted from the terminal.
    pub fn images_deleted(&mut self)
        ensures
            *final(self) == (Markup { kitty: MarkupKitty { has_rendered: false, ..old(self).kitty }, ..*old(self) }),
    {
        self.kitty.has_rendered = false;
    }
}

} // verus!
