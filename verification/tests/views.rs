use lazycard::geometry::Rect;
use lazycard::keys::Key;
use lazycard::kitty::Dimensions;
use lazycard::markup::{Alignment, ScrollMove, SyntaxHighlightTheme};
use lazycard::markup_items::MarkupPlain;
use lazycard::markup_view::{Markup, MarkupDraw};
use lazycard::scroll::ScrollbarColors;
use lazycard::style::Style;
use lazycard::token_list::{item_widths, TokenItem, TokenList};

fn laid_out(text: &str, area: Rect, images: Vec<Result<(u32, Dimensions), String>>, rows: u16) -> Markup {
    let mut m = Markup::new(String::from("assets"), SyntaxHighlightTheme::Base16OceanDark);
    let (needs, hash) = m.needs_layout(area, text);
    assert!(needs);
    m.load(area, hash, text, &images);
    let r = vec![rows; m.plain.len()];
    m.process(area.width, &r);
    m
}

#[test]
fn markup_frame_lays_out_items() {
    let area = Rect::new(0, 0, 20, 10);
    let mut m = laid_out("Hello\n\n---\n\n", area, vec![], 1);
    assert_eq!(m.needs_layout(area, "Hello\n\n---\n\n").0, false);
    assert_eq!(m.scroll.total_lines, 3);
    let f = m.frame(&vec![1; m.rich.len()]);
    assert!(f.scrollbar.is_none());
    assert_eq!(f.draws.len(), 2);
    match &f.draws[0] {
        MarkupDraw::Line { area: a, pieces, alignment } => {
            assert_eq!(*a, Rect::new(0, 0, 20, 10));
            assert_eq!(pieces, &vec![("Hello".to_string(), Style::new())]);
            assert_eq!(*alignment, Alignment::Left);
        }
        _ => panic!("expected a line"),
    }
    match &f.draws[1] {
        MarkupDraw::Break { x, y, count } => assert_eq!((*x, *y, *count), (5, 2, 10)),
        _ => panic!("expected a break"),
    }
    assert!(!m.input(Key::Down));
}

#[test]
fn markup_images_and_errors() {
    let area = Rect::new(0, 0, 20, 10);
    let dims = Dimensions { width: 10, height: 40 };
    let mut m = laid_out("![cat](cat.png)\n\n", area, vec![Ok((90, dims))], 2);
    let f = m.frame(&vec![2; m.rich.len()]);
    assert_eq!(f.draws.len(), 2);
    match &f.draws[0] {
        MarkupDraw::Image { area: a, id, dims: d, rows_outside_top } => {
            assert_eq!((*a, *id, *d, *rows_outside_top), (Rect::new(0, 0, 20, 2), 90, dims, 0));
        }
        _ => panic!("expected an image"),
    }
    match &f.draws[1] {
        MarkupDraw::Line { area: a, alignment, .. } => {
            assert_eq!((*a, *alignment), (Rect::new(0, 2, 20, 8), Alignment::Center));
        }
        _ => panic!("expected the description"),
    }
    assert_eq!(m.rendered_images(), Some(90..=90));
    m.images_deleted();
    assert_eq!(m.rendered_images(), None);

    let m = laid_out("![cat](cat.png)", area, vec![Err("nope".to_string())], 1);
    match &m.plain[0] {
        MarkupPlain::ImageError { text } => assert_eq!(text, "ERROR\nnope"),
        _ => panic!("expected an error item"),
    }
}

#[test]
fn markup_scrolls_by_lines() {
    let area = Rect::new(0, 0, 20, 3);
    let text = "a\n\nb\n\nc\n\nd";
    let mut m = laid_out(text, area, vec![], 1);
    assert_eq!(m.scroll.total_lines, 7);
    m.frame(&vec![1; m.rich.len()]);
    assert!(m.input(Key::Down));
    assert_eq!(m.scroll_index(), 1);
    m.set_desired_scroll(ScrollMove::End);
    let f = m.frame(&vec![1; m.rich.len()]);
    assert_eq!(m.scroll_index(), 4);
    let ys: Vec<u16> = f
        .draws
        .iter()
        .map(|d| match d {
            MarkupDraw::Line { area, .. } => area.y,
            _ => 99,
        })
        .collect();
    assert_eq!(ys, vec![0, 2]);
    m.clear();
    assert!(m.plain.is_empty() && m.rich.is_empty());
}

#[test]
fn markup_scrollbar_column() {
    let area = Rect::new(0, 0, 30, 2);
    let mut m = laid_out("a\n\nb\n\nc", area, vec![], 1).with_scrollbar(ScrollbarColors::default());
    assert!(m.scrollbar_needed(area));
    let narrow = m.use_scroll_area(area);
    assert_eq!(narrow, Rect::new(0, 0, 28, 2));
    let f = m.frame(&vec![1; m.rich.len()]);
    match f.scrollbar {
        Some((a, _, scroll, total)) => assert_eq!((a, scroll, total), (Rect::new(29, 0, 1, 2), 0, 5)),
        None => panic!("expected a scrollbar"),
    }
}

struct Tag(&'static str);

impl TokenItem for Tag {
    fn width(&self) -> u16 {
        self.0.len() as u16
    }
}

#[test]
fn token_list_rows_and_moves() {
    let tags = [Tag("abc"), Tag("defg"), Tag("hijkl"), Tag("mn")];
    let widths = item_widths(&tags);
    assert_eq!(widths, vec![3, 4, 5, 2]);
    let mut list = TokenList::new();
    let f = list.frame(Rect::new(1, 1, 10, 5), &widths);
    let placed: Vec<(usize, Rect, bool)> = f.items.iter().map(|d| (d.index, d.area, d.selected)).collect();
    assert_eq!(
        placed,
        vec![
            (0, Rect::new(1, 1, 3, 1), true),
            (1, Rect::new(6, 1, 4, 1), false),
            (2, Rect::new(1, 2, 5, 1), false),
            (3, Rect::new(8, 2, 2, 1), false),
        ]
    );
    assert_eq!((list.total_items, list.total_lines), (4, 2));
    assert!(list.input(Key::Right, &widths));
    assert_eq!(list.index(), 1);
    assert!(list.input(Key::Down, &widths));
    assert_eq!(list.index(), 2);
    list.frame(Rect::new(1, 1, 10, 5), &widths);
    assert!(list.input(Key::Up, &widths));
    assert_eq!(list.index(), 0);
    assert!(list.input(Key::End, &widths));
    assert_eq!(list.index(), 3);
    assert!(list.input(Key::Home, &widths));
    assert!(!list.input(Key::Left, &widths));
    assert!(!list.input(Key::Char('x'), &widths));
}

#[test]
fn token_list_scrolls_to_selected_row() {
    let widths = vec![8u16; 6];
    let mut list = TokenList::new().with_gap(1);
    list.set_index(5);
    let f = list.frame(Rect::new(0, 0, 10, 2), &widths);
    assert_eq!(list.total_lines, 6);
    assert_eq!(list.scroll, 4);
    let idx: Vec<usize> = f.items.iter().map(|d| d.index).collect();
    assert_eq!(idx, vec![4, 5]);
    assert!(f.items[1].selected);
}
