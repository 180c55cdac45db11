use lazycard::highlight::CodeHighlighter;
use lazycard::geometry::{Rect, Size};
use lazycard::keys::Key;
use lazycard::list::{List, ListItem, ListMove};
use lazycard::markup::{Alignment, MarkupKitty, MarkupScroll, ScrollMove, SyntaxHighlightTheme};
use lazycard::scroll::{Scrollbar, ScrollbarColors};
use lazycard::settings::{Colors, Settings, ThemeMode};
use lazycard::shortcut::{Shortcut, Shortcuts};
use lazycard::style::{Color, Style};

#[test]
fn scroll_follows_index() {
    assert_eq!(Scrollbar::calculate_scroll(100, 10, 0, 0), 0);
    assert_eq!(Scrollbar::calculate_scroll(100, 10, 15, 0), 6);
    assert_eq!(Scrollbar::calculate_scroll(100, 10, 3, 6), 3);
    assert_eq!(Scrollbar::calculate_scroll(100, 10, 8, 6), 6);
    assert_eq!(Scrollbar::calculate_scroll(5, 10, 4, 0), 0);
}

#[test]
fn scroll_with_margins_keeps_room() {
    assert_eq!(Scrollbar::calculate_scroll_with_margins(100, 10, 8, 0, 2, 2, 0), 1);
    assert_eq!(Scrollbar::calculate_scroll_with_margins(100, 10, 11, 10, 2, 2, 0), 9);
    assert_eq!(Scrollbar::calculate_scroll_with_margins(20, 10, 19, 0, 0, 0, 3), 10);
}

#[test]
fn scrollbar_needs_more_lines_than_rows() {
    assert!(Scrollbar::is_scrollable(11, Size { width: 20, height: 10 }));
    assert!(!Scrollbar::is_scrollable(10, Size { width: 20, height: 10 }));
    assert!(!Scrollbar::is_scrollable(11, Size { width: 15, height: 10 }));
    let mut area = Rect::new(2, 3, 20, 5);
    let bar = Scrollbar::make_scroll_area(&mut area);
    assert_eq!(bar, Rect::new(21, 3, 1, 5));
    assert_eq!(area, Rect::new(2, 3, 18, 5));
    assert_eq!(ScrollbarColors::default(), ScrollbarColors::new(Color::DarkGray, None));
}

#[test]
fn list_moves_within_items() {
    let mut list = List::new();
    let mut area = Rect::new(0, 0, 10, 4);
    assert_eq!(list.layout(6, &mut area), None);
    assert!(list.input(Key::Down, false, false));
    assert_eq!(list.index(), 1);
    assert!(list.input(Key::End, false, false));
    assert_eq!(list.index(), 5);
    assert!(!list.input(Key::Down, false, false));
    assert_eq!(list.index(), 5);
    assert!(list.input(Key::PageUp, false, false));
    assert_eq!(list.index(), 1);
    assert!(list.input(Key::Home, false, false));
    assert_eq!(list.index(), 0);
    assert!(!list.input(Key::Up, false, false));
    assert!(!list.input(Key::Char('x'), false, false));
}

#[test]
fn list_selection_with_shift() {
    let mut list = List::new();
    let mut area = Rect::new(0, 0, 10, 4);
    list.layout(6, &mut area);
    list.input(Key::Down, false, true);
    list.input(Key::Down, false, true);
    assert_eq!(list.index(), 2);
    assert_eq!(list.selector(), Some(0));
    assert_eq!(list.selection(), Some(0..2));
    assert_eq!(list.selection_inclusive(), 0..=2);
    assert_eq!(list.item_kind(2), ListItem::Selected);
    assert_eq!(list.item_kind(1), ListItem::Selection);
    assert_eq!(list.item_kind(3), ListItem::Normal);
    assert!(list.move_selection_down());
    assert_eq!((list.index(), list.selector()), (3, Some(1)));
    list.input(Key::Up, false, false);
    assert_eq!(list.selector(), None);
    assert!(list.input(Key::Char('a'), true, false));
    assert_eq!((list.index(), list.selector()), (0, Some(5)));
}

#[test]
fn list_scrolls_and_takes_a_scrollbar_column() {
    let mut list = List::new();
    list.set_scrollbar(ScrollbarColors::default());
    let mut area = Rect::new(0, 0, 30, 4);
    let bar = list.layout(10, &mut area);
    assert_eq!(bar, Some(Rect::new(29, 0, 1, 4)));
    assert_eq!(area.width, 28);
    list.move_index(ListMove::Custom(7), false);
    let mut area = Rect::new(0, 0, 30, 4);
    list.layout(10, &mut area);
    assert_eq!(list.scroll(), 4);
}

#[test]
fn markup_scroll_moves() {
    let mut s = MarkupScroll::new();
    s.max_lines = 30;
    s.set(ScrollMove::Down, 10);
    assert_eq!(s.current, 1);
    s.set(ScrollMove::PageDown, 10);
    assert_eq!(s.current, 11);
    s.set(ScrollMove::PageDown, 10);
    assert_eq!(s.current, 20);
    s.set(ScrollMove::Up, 10);
    assert_eq!(s.current, 19);
    s.set(ScrollMove::Start, 10);
    assert_eq!(s.current, 0);
    s.set(ScrollMove::End, 10);
    assert_eq!(s.current, 20);
    s.max_lines = 5;
    s.clamp(10);
    assert_eq!(s.current, 0);
}

#[test]
fn image_ids_count_up() {
    let mut k = MarkupKitty::new();
    assert_eq!(k.current_id(), 90);
    assert_eq!(k.range(), 90..=90);
    k.increment_id();
    k.increment_id();
    assert_eq!(k.current_id(), 92);
    assert_eq!(k.range(), 90..=91);
}

#[test]
fn theme_names() {
    assert_eq!(SyntaxHighlightTheme::Base16OceanDark.as_str(), "base16-ocean.dark");
    assert_eq!(SyntaxHighlightTheme::SolarizedLight.as_str(), "Solarized (light)");
}

#[test]
fn settings_clamp_retention() {
    let mut s = Settings::with_theme(ThemeMode::Dark);
    assert_eq!(s.desired_retention(), 80);
    s.set_desired_retention(150);
    assert_eq!(s.desired_retention(), 100);
    s.set_desired_retention(90);
    assert_eq!(s.desired_retention(), 90);
    assert_eq!(s.primary(), Color::LightYellow);
    assert_eq!(s.syntax_highlight_theme(), SyntaxHighlightTheme::Base16EightiesDark);
    s.set_primary(Color::Red);
    assert_eq!(s.colors().primary, Color::Red);
    let light = Colors::from_theme(ThemeMode::Light);
    assert_eq!((light.primary, light.secondary), (Color::LightCyan, Color::Cyan));
    assert_eq!(Settings::with_theme(ThemeMode::Light).syntax_highlight_theme(), SyntaxHighlightTheme::InspiredGitHub);
}

#[test]
fn shortcut_pieces() {
    let mut s = Shortcuts::new().with_alignment(Alignment::Left);
    s.push(Shortcut::new("Quit", "q"));
    s.push(Shortcut::new("Help", "?"));
    let key = Style::new().fg(Color::Indexed(240));
    let name = Style::new().fg(Color::Reset);
    let p = s.pieces();
    assert_eq!(p.len(), 8);
    assert_eq!(p[0], ("q", key));
    assert_eq!(p[1], (" ", Style::new()));
    assert_eq!(p[2], ("Quit", name));
    assert_eq!(p[4], ("?", key));
    assert_eq!(p[6], ("Help", name));
    s.clear();
    assert!(s.pieces().is_empty());
}

#[test]
fn list_rows_follow_scroll() {
    let mut list = List::new();
    let mut area = Rect::new(0, 0, 10, 3);
    list.layout(5, &mut area);
    assert_eq!(list.rows(3), vec![(0, ListItem::Selected), (1, ListItem::Normal), (2, ListItem::Normal)]);
    list.input(Key::End, false, false);
    let mut area = Rect::new(0, 0, 10, 3);
    list.layout(5, &mut area);
    assert_eq!(list.scroll(), 2);
    assert_eq!(list.rows(3), vec![(2, ListItem::Normal), (3, ListItem::Normal), (4, ListItem::Selected)]);
    let mut short = List::new();
    let mut area = Rect::new(0, 0, 10, 5);
    short.layout(2, &mut area);
    assert_eq!(short.rows(5).len(), 2);
}

#[test]
fn code_is_highlighted_line_by_line() {
    let h = CodeHighlighter::new(SyntaxHighlightTheme::Base16OceanDark);
    let code = "fn main() {\n    let x = 1;\n}\n";
    let pieces = h.highlight("rs", code);
    let text: String = pieces.iter().map(|(t, _)| *t).collect();
    assert_eq!(text, code);
    assert!(pieces.iter().all(|(_, c)| c.is_some()));
    let colors: std::collections::HashSet<(u8, u8, u8)> = pieces.iter().filter_map(|(_, c)| *c).collect();
    assert!(colors.len() > 1, "a keyword and a name get different colors");
    let again = h.highlight("rs", code);
    assert_eq!(pieces, again);
    let plain = h.highlight("", "just words\n");
    let text: String = plain.iter().map(|(t, _)| *t).collect();
    assert_eq!(text, "just words\n");
    let first = plain[0].1;
    assert!(plain.iter().all(|(_, c)| *c == first), "plain text has one color");
}
