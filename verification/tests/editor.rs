use lazycard::geometry::Rect;
use lazycard::keys::Key;
use lazycard::style::Color;
use lazycard::text_editor::{EditorFrame, TextEditor, TextEditorColors};
use lazycard::text_input::{CursorDelete, CursorMove};
use lazycard::text_editor2::{EditorCell, TextEditor2};

fn cursor_of(f: &EditorFrame) -> Option<(u64, u64)> {
    match f {
        EditorFrame::Text { cursor, .. } => cursor.map(|(c, _)| c),
        _ => None,
    }
}

#[test]
fn editor_types_and_lays_out() {
    let mut e = TextEditor::new();
    e.push_str("hello world");
    let f = e.frame(Rect::new(0, 0, 20, 5));
    match &f {
        EditorFrame::Text { lines, color, selection, .. } => {
            assert_eq!(lines.len(), 1);
            assert_eq!((lines[0].x, lines[0].y, lines[0].width), (0, 0, 11));
            assert_eq!(lines[0].graphemes.concat(), "hello world");
            assert_eq!(*color, Color::Reset);
            assert!(selection.is_empty());
        }
        _ => panic!("expected text"),
    }
    assert_eq!(cursor_of(&f), Some((11, 0)));
}

#[test]
fn editor_wraps_and_moves_between_lines() {
    let mut e = TextEditor::new();
    e.push_str("hello world");
    let f = e.frame(Rect::new(2, 1, 5, 5));
    match &f {
        EditorFrame::Text { lines, .. } => {
            assert_eq!(lines.len(), 2);
            assert_eq!(lines[1].graphemes.concat(), "world");
            assert_eq!((lines[1].x, lines[1].y, lines[1].width), (2, 2, 5));
        }
        _ => panic!("expected text"),
    }
    assert_eq!(cursor_of(&f), Some((7, 2)));
    assert!(e.move_cursor(CursorMove::Up, false));
    let f = e.frame(Rect::new(2, 1, 5, 5));
    assert_eq!(cursor_of(&f), Some((7, 1)));
    assert!(e.move_cursor(CursorMove::Down, false));
    let f = e.frame(Rect::new(2, 1, 5, 5));
    assert_eq!(cursor_of(&f), Some((7, 2)));
    assert!(e.move_cursor(CursorMove::Start, false));
    assert!(!e.move_cursor(CursorMove::Up, false));
    assert!(!e.move_cursor(CursorMove::Back, false));
}

#[test]
fn editor_selection_runs() {
    let mut e = TextEditor::new();
    e.push_str("hello world");
    e.frame(Rect::new(0, 0, 5, 5));
    assert!(e.input(Key::Char('a'), true, false));
    let f = e.frame(Rect::new(0, 0, 5, 5));
    match &f {
        EditorFrame::Text { selection, selection_color, .. } => {
            assert_eq!(selection.len(), 2);
            assert_eq!((selection[0].0, selection[0].1), (0, 0));
            assert_eq!(selection[1], (1, 0, 5));
            assert_eq!(*selection_color, Color::DarkGray);
        }
        _ => panic!("expected text"),
    }
    assert!(e.input(Key::Backspace, false, false));
    assert!(e.is_empty());
}

#[test]
fn editor_keys_edit_text() {
    let mut e = TextEditor::new();
    for k in [Key::Char('a'), Key::Enter, Key::Char('b')] {
        assert!(e.input(k, false, false));
    }
    assert_eq!(e.as_str(), "a\nb");
    assert!(e.input(Key::Left, false, true));
    assert!(e.input(Key::Char('c'), false, false));
    assert_eq!(e.as_str(), "a\nc");
    assert!(e.input(Key::Home, false, false));
    assert!(e.input(Key::Delete, false, false));
    assert_eq!(e.as_str(), "\nc");
    assert!(!e.delete(CursorDelete::Selection));
    assert!(!e.input(Key::Other, false, false));
    e.set_disabled(true);
    assert!(!e.input(Key::Char('z'), false, false));
    assert_eq!(e.as_str(), "\nc");
    e.clear();
    assert!(e.is_empty());
}

#[test]
fn editor_tabs_draw_as_spaces() {
    let mut e = TextEditor::new();
    e.push_str("\tx");
    let f = e.frame(Rect::new(0, 0, 20, 2));
    match &f {
        EditorFrame::Text { lines, .. } => {
            assert_eq!(lines[0].graphemes, vec!["    ", "x"]);
            assert_eq!(lines[0].width, 5);
        }
        _ => panic!("expected text"),
    }
}

#[test]
fn editor_placeholder_and_disabled() {
    let mut e = TextEditor::new().with_placeholder("type here");
    match e.frame(Rect::new(0, 0, 20, 2)) {
        EditorFrame::Placeholder { text, color, cursor_color } => {
            assert_eq!((text, color, cursor_color), ("type here", Color::DarkGray, Some(Color::White)));
        }
        _ => panic!("expected the placeholder"),
    }
    let mut e = TextEditor::new().with_placeholder("p").with_colors(TextEditorColors::all(Color::Red)).with_disabled();
    match e.frame(Rect::new(0, 0, 20, 2)) {
        EditorFrame::Placeholder { color, cursor_color, .. } => assert_eq!((color, cursor_color), (Color::Red, None)),
        _ => panic!("expected the placeholder"),
    }
    e.toggle_disabled();
    assert!(!e.is_disabled());
    assert!(matches!(e.frame(Rect::new(0, 0, 0, 2)), EditorFrame::Empty));
}

#[test]
fn editor_scrolls_to_cursor() {
    let mut e = TextEditor::new().with_margins(0, 0);
    e.push_str("a\nb\nc\nd\ne");
    let f = e.frame(Rect::new(0, 0, 10, 2));
    match &f {
        EditorFrame::Text { lines, .. } => {
            assert_eq!(lines.len(), 2);
            assert_eq!(lines[1].graphemes.concat(), "e");
        }
        _ => panic!("expected text"),
    }
    assert_eq!(cursor_of(&f), Some((1, 1)));
}

#[test]
fn wrapping_editor_breaks_at_words() {
    let mut e = TextEditor2::new();
    assert!(e.as_str().starts_with("this is test text\n"));
    e.clear();
    assert!(e.is_empty());
    e.push_str("ab cd");
    let f = e.frame(Rect::new(0, 0, 3, 5));
    let cells: Vec<(u128, u128, String, bool)> = f
        .cells
        .iter()
        .map(|c| match c {
            EditorCell::Mark { x, y, cursor } => (*x, *y, "\n".to_string(), *cursor),
            EditorCell::Symbol { x, y, symbol, cursor } => (*x, *y, symbol.clone(), *cursor),
        })
        .collect();
    assert_eq!(
        cells,
        vec![
            (0, 0, "a".to_string(), false),
            (1, 0, "b".to_string(), false),
            (2, 0, " ".to_string(), false),
            (3, 0, "\n".to_string(), false),
            (0, 1, "c".to_string(), false),
            (1, 1, "d".to_string(), true),
        ]
    );
    assert_eq!(f.end_cursor, Some((2, 1)));
    assert!(e.input(Key::Home));
    assert!(e.input(Key::Right));
    assert!(e.input(Key::Enter));
    assert_eq!(e.as_str(), "a\nb cd");
}
