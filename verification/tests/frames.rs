use lazycard::geometry::Rect;
use lazycard::image_frames::load_frames;
use lazycard::inline::{InlineEvent, InlineParser, InlineTag};
use lazycard::iter::PeekableCharsPrevious;
use lazycard::kitty_cmd::{centred_column, cursor_move, Frame};
use lazycard::markup::Alignment;
use lazycard::page_frames::{FramePiece, PageFrame};
use lazycard::search_page::SearchPage;
use lazycard::settings::{Settings, ThemeMode};
use lazycard::settings_page::SettingsPage;
use lazycard::style::Color;
use lazycard::tags_page::TagsPage;

fn png_bytes(width: u32, height: u32) -> Vec<u8> {
    let img = image::RgbaImage::from_pixel(width, height, image::Rgba([1, 2, 3, 255]));
    let mut out = std::io::Cursor::new(Vec::new());
    image::DynamicImage::ImageRgba8(img).write_to(&mut out, image::ImageFormat::Png).unwrap();
    out.into_inner()
}

fn old_frame() -> Frame {
    Frame { width: 1, height: 1, delay: 0, rgba: vec![9, 9, 9, 9] }
}

#[test]
fn still_png_replaces_frames() {
    let mut frames = vec![old_frame(), old_frame()];
    let r = load_frames(&mut frames, &png_bytes(2, 3), None);
    assert!(r.is_ok());
    assert_eq!(frames.len(), 1);
    assert_eq!((frames[0].width, frames[0].height), (2, 3));
    assert_eq!(frames[0].rgba.len(), 2 * 3 * 4);
    assert_eq!(&frames[0].rgba[..4], &[1, 2, 3, 255]);
}

#[test]
fn unknown_bytes_keep_frames() {
    let mut frames = vec![old_frame()];
    let r = load_frames(&mut frames, b"not an image at all", None);
    assert!(r.is_err());
    assert_eq!(frames.len(), 1);
    assert_eq!(frames[0].rgba, vec![9, 9, 9, 9]);
}

#[test]
fn extension_names_format_when_bytes_do_not() {
    // The bytes show no format; the extension names PNG, so the frames are
    // cleared and the failed decode leaves none.
    let mut frames = vec![old_frame()];
    let r = load_frames(&mut frames, b"not an image at all", Some("png"));
    assert!(r.is_err());
    assert!(frames.is_empty());
}

#[test]
fn broken_png_leaves_no_frames() {
    let mut bytes = png_bytes(2, 2);
    bytes.truncate(20);
    let mut frames = vec![old_frame(), old_frame()];
    let r = load_frames(&mut frames, &bytes, None);
    assert!(r.is_err());
    assert!(frames.is_empty());
}

#[test]
fn centred_column_values() {
    assert_eq!(centred_column(10, 20, 6), 17);
    assert_eq!(centred_column(10, 20, 30), 10);
    assert_eq!(centred_column(0, 5, 5), 0);
    assert_eq!(centred_column(3, 4, 1), 4);
}

#[test]
fn cursor_move_text() {
    assert_eq!(cursor_move(0, 0), "\x1b[1;1H");
    assert_eq!(cursor_move(9, 41), "\x1b[42;10H");
}

#[test]
fn inline_collect_matches_next() {
    let s = "a *b* _c_ * d";
    let mut p = InlineParser::new(s);
    let all = p.collect();
    let mut q = InlineParser::new(s);
    let mut one_by_one = Vec::new();
    while let Some(e) = q.next() {
        one_by_one.push(e);
    }
    assert_eq!(all.len(), one_by_one.len());
    let mut text = String::new();
    let mut tags = Vec::new();
    for e in &all {
        match e {
            InlineEvent::Text(t) => {
                assert!(!t.is_empty());
                text.push_str(t);
            }
            InlineEvent::Tag(t) => tags.push(*t),
        }
    }
    assert_eq!(text, "a b c * d");
    assert_eq!(tags, vec![InlineTag::BoldStart, InlineTag::BoldEnd, InlineTag::ItalicStart, InlineTag::ItalicEnd]);
}

#[test]
fn lone_marker_is_text() {
    let mut p = InlineParser::new("a * b");
    let all = p.collect();
    assert!(all.iter().all(|e| matches!(e, InlineEvent::Text(_))));
}

#[test]
fn chars_previous_collects_char_indices() {
    for s in ["", "abc", "héllo wörld", "日本語", "a\u{301}b"] {
        let mut it = PeekableCharsPrevious::new(s);
        assert_eq!(it.peek(), s.chars().next());
        assert_eq!(it.collect(), s.char_indices().collect::<Vec<_>>());
    }
}

fn lines(f: &PageFrame) -> Vec<String> {
    f.pieces
        .iter()
        .filter_map(|p| match p {
            FramePiece::Line { text, .. } => Some(text.clone()),
            _ => None,
        })
        .collect()
}

const AREA: Rect = Rect { x: 0, y: 0, width: 40, height: 20 };

#[test]
fn empty_search_frame() {
    let mut p = SearchPage::new();
    p.on_enter(true);
    let f = p.frame(AREA, Color::Gray);
    assert_eq!(lines(&f), vec!["Search".to_string(), "No cards to search for".to_string()]);
    assert!(f.shortcuts.is_empty());
    match &f.pieces[0] {
        FramePiece::Line { fg, alignment, area, .. } => {
            assert_eq!(*fg, Some(Color::Gray));
            assert_eq!(*alignment, Alignment::Center);
            assert_eq!(*area, Rect { x: 0, y: 0, width: 40, height: 1 });
        }
        _ => panic!("the title comes first"),
    }
}

#[test]
fn search_frame_with_cards() {
    let mut p = SearchPage::new();
    p.on_enter(false);
    let f = p.frame(AREA, Color::Gray);
    assert_eq!(lines(&f), vec!["Search".to_string(), " 1 / 0 ".to_string()]);
    assert_eq!(f.shortcuts, vec![("Confirm", "Enter")]);
    match &f.pieces[1] {
        FramePiece::Field { index, area } => {
            assert_eq!(*index, 0);
            assert_eq!(*area, Rect { x: 7, y: 2, width: 26, height: 1 });
        }
        _ => panic!("the search field comes second"),
    }
}

#[test]
fn empty_tags_frame() {
    let p = TagsPage::new(Vec::new());
    let f = p.frame(AREA, Color::Gray);
    assert_eq!(lines(&f), vec!["Tags (0)".to_string(), "No tags".to_string()]);
    assert_eq!(f.shortcuts, vec![("New", "n")]);
}

#[test]
fn tags_frame_lists_tags() {
    let p = TagsPage::new(vec![(1, "rust".to_string()), (2, "verus".to_string())]);
    let f = p.frame(AREA, Color::Gray);
    assert_eq!(lines(&f), vec!["Tags (2)".to_string()]);
    assert!(f.pieces.iter().any(|p| matches!(p, FramePiece::List { .. })));
    assert_eq!(f.shortcuts, vec![("New", "n"), ("Edit", "e"), ("Goto", "g"), ("Delete", "Del")]);
}

#[test]
fn settings_frame_rows() {
    let s = Settings::with_theme(ThemeMode::Dark);
    let p = SettingsPage::new(&s);
    let f = p.frame(&s, AREA, Color::Gray);
    let l = lines(&f);
    assert_eq!(l[0], "GENERAL");
    assert!(l.iter().any(|t| t == "COLORS"));
    assert_eq!(f.pieces.iter().filter(|p| matches!(p, FramePiece::Field { .. })).count(), 3);
    assert_eq!(f.shortcuts.last(), Some(&("Reset all", "^r")));
}
