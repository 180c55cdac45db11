use lazycard::formatting::{format_int, format_int2, Formatter};
use lazycard::graphemes::PeekableGraphemesPrevious;
use lazycard::iter::PeekableCharsPrevious;
use unicode_segmentation::UnicodeSegmentation;
use lazycard::geometry::Rect;
use lazycard::hash::{hash_fast, hash_portable};
use lazycard::keys::Key;
use lazycard::markup::Alignment;
use lazycard::style::{Color, Style};
use lazycard::text_input::{CursorDelete, CursorMove, TextInput};
use lazycard::text_segment::TextSegment;
use lazycard::time::UnixTime;
use lazycard::words::{WordsEvent, WordsIter};

#[test]
fn input_typing_and_moving() {
    let mut t = TextInput::new();
    for c in "héllo".chars() {
        assert!(t.input(Key::Char(c), false, false));
    }
    assert_eq!(t.as_str(), "héllo");
    assert!(t.input(Key::Left, false, false));
    assert!(t.input(Key::Backspace, false, false));
    assert_eq!(t.as_str(), "hélo");
    assert!(t.input(Key::Home, false, false));
    assert!(t.input(Key::Delete, false, false));
    assert_eq!(t.as_str(), "élo");
    assert!(!t.input(Key::Backspace, false, false));
    t.push_char('\t');
    assert_eq!(t.as_str(), " élo");
}

#[test]
fn input_selection_replaced() {
    let mut t = TextInput::from("abcdef".to_string());
    t.move_cursor(CursorMove::End, false);
    t.move_cursor(CursorMove::Back, true);
    t.move_cursor(CursorMove::Back, true);
    t.push_str("XY");
    assert_eq!(t.as_str(), "abcdXY");
    assert!(t.input(Key::Char('a'), true, false));
    assert!(t.delete(CursorDelete::Selection));
    assert!(t.is_empty());
    assert!(!t.delete(CursorDelete::Selection));
}

#[test]
fn input_paste_flattens_white_space() {
    let mut t = TextInput::new();
    t.push_str("a\nb\tc");
    assert_eq!(t.as_str(), "a b c");
    let t = TextInput::from("  x ".to_string());
    assert_eq!(t.as_str_trim(), "x");
    assert!(!t.is_empty_trim());
    assert!(TextInput::from("   ".to_string()).is_empty_trim());
}

#[test]
fn input_disabled_ignores_keys() {
    let mut t = TextInput::from("x".to_string()).with_disabled();
    assert!(!t.input(Key::Char('y'), false, false));
    assert_eq!(t.as_str(), "x");
}

#[test]
fn segment_pieces_and_width() {
    let mut s = TextSegment::new();
    let red = Style::new().fg(Color::Red);
    s.push_str("ab", red);
    s.push_str("", Style::new());
    s.push_char('c', Style::new());
    s.push_int(42, red);
    s.repeat_char('-', 3, Style::new());
    s.push_str_iter(&["x", "", "yz"], red);
    assert_eq!(s.as_str(), "abc42---xyz");
    assert_eq!(s.width(), 11);
    assert_eq!(s.segments(), vec![("ab", red), ("c", Style::new()), ("42", red), ("---", Style::new()), ("xyz", red)]);
    s.pop();
    assert_eq!(s.as_str(), "abc42---");
    assert_eq!(s.width(), 8);
    s.clear();
    assert!(s.is_empty());
    assert_eq!(s.width(), 0);
}

#[test]
fn segment_wide_chars_and_alignment() {
    let mut s = TextSegment::new().with_alignment(Alignment::Center);
    s.push_str("日本", Style::new());
    assert_eq!(s.width(), 4);
    assert_eq!(s.aligned(Rect::new(2, 0, 10, 1)), Rect::new(5, 0, 10, 1));
    s.set_alignment(Alignment::Right);
    assert_eq!(s.aligned(Rect::new(2, 0, 10, 1)), Rect::new(8, 0, 10, 1));
    s.set_alignment(Alignment::Left);
    assert_eq!(s.aligned(Rect::new(2, 0, 3, 1)), Rect::new(2, 0, 3, 1));
    s.extend(&[("a", Style::new()), ("", Style::new())]);
    assert_eq!(s.segments().len(), 2);
    s.push_str(&format!("{}-{}", 1, 2), Style::new());
    assert_eq!(s.as_str(), "日本a1-2");
}

#[test]
fn words_split_text() {
    let mut w = WordsIter::new("hi  there\nyou");
    let mut out = Vec::new();
    while let Some((i, s, e)) = w.next() {
        out.push((i, s.to_string(), e));
    }
    assert_eq!(
        out,
        vec![
            (0, "hi".to_string(), WordsEvent::Word),
            (2, " ".to_string(), WordsEvent::Whitespace),
            (3, " ".to_string(), WordsEvent::Whitespace),
            (4, "there".to_string(), WordsEvent::Word),
            (9, "\n".to_string(), WordsEvent::Newline),
            (10, "you".to_string(), WordsEvent::Word),
        ]
    );
}

#[test]
fn words_pieces_make_the_text() {
    for text in ["", " ", "a", "a b\r\nc ", "  x  ", "ünï cödé\t!"] {
        let mut w = WordsIter::new(text);
        let mut rebuilt = String::new();
        let mut next_at = 0;
        while let Some((i, s, _)) = w.next() {
            assert_eq!(i, next_at);
            next_at += s.len();
            rebuilt.push_str(s);
        }
        assert_eq!(rebuilt, text);
    }
}

#[test]
fn formatter_ranges() {
    let mut f = Formatter::new();
    let a = f.push_str("ab");
    let b = f.extend(&["c", "de"]);
    assert_eq!((a, b.clone()), (0..2, 2..5));
    assert_eq!(f.slice(b), "cde");
    assert_eq!(f.as_str(), "abcde");
    assert_eq!(f.len(), 5);
    f.clear();
    assert_eq!(f.len(), 0);
    assert_eq!(format_int(0), "0");
    assert_eq!(format_int(1234567), "1234567");
    assert_eq!(format_int2(5, 60), ("5".to_string(), "60".to_string()));
}

#[test]
fn hashes() {
    assert_eq!(hash_fast("abc"), hash_fast("abc"));
    assert_ne!(hash_fast("abc"), hash_fast("abd"));
    assert_eq!(hash_portable(b"abc"), seahash::hash(b"abc"));
    assert_ne!(hash_portable(b"abc"), hash_portable(b"abd"));
}

#[test]
fn days_between_times() {
    let a = UnixTime(86_400 * 3 + 5);
    let b = UnixTime(10);
    assert_eq!(a.days_since(b), 2);
    assert_eq!(b.days_since(a), 2);
    assert_eq!(a.days_since(a), 0);
    assert_eq!(a.seconds(), 259_205);
    assert!(UnixTime::now().unwrap().seconds() > 1_600_000_000);
}

#[test]
fn formatter_counts_bytes() {
    let mut f = Formatter::new();
    let a = f.push_str("é");
    assert_eq!(a, 0..2);
    let b = f.push_str("a");
    assert_eq!(b, 2..3);
    assert_eq!(f.slice(0..2), "é");
    assert_eq!(f.slice(a), "é");
    assert_eq!(f.len(), 3);
    f.clear();
    assert_eq!(f.push_str("日本"), 0..6);
    assert_eq!(f.len(), 6);
}

#[test]
fn peekable_chars_give_byte_offsets() {
    let mut it = PeekableCharsPrevious::new("héllo");
    assert_eq!(it.find('l'), Some((3, 'l')));
    assert_eq!(it.previous(), Some('é'));
    assert_eq!(it.peek(), Some('l'));
    assert_eq!(it.next_if(|c| c == 'l'), Some((4, 'l')));
    assert_eq!(it.find('z'), None);
    assert_eq!(it.peek(), None);

    let text = "añ日x";
    let mut it = PeekableCharsPrevious::new(text);
    let mut got = Vec::new();
    while let Some(p) = it.next() {
        got.push(p);
    }
    assert_eq!(got, text.char_indices().collect::<Vec<_>>());
    let mut it = PeekableCharsPrevious::new("ééa");
    assert_eq!(it.find_consecutive('é', 2), Some((2, 'é')));
    assert_eq!(it.next_if_eq('a'), Some((4, 'a')));
}

#[test]
fn format_int_takes_signed_values() {
    assert_eq!(format_int(-42), "-42");
    assert_eq!(format_int2(7, -3), ("7".to_string(), "-3".to_string()));
    assert_eq!(format_int(i128::MIN), i128::MIN.to_string());
    assert_eq!(format_int(u64::MAX as i128), u64::MAX.to_string());
}

#[test]
fn graphemes_and_words_give_byte_offsets() {
    let text = "añe\u{301}x 日本";
    let mut it = PeekableGraphemesPrevious::new(text);
    let mut got = Vec::new();
    while let Some((i, g)) = it.next() {
        got.push((i, g));
    }
    assert_eq!(got, text.grapheme_indices(true).collect::<Vec<_>>());
    let mut w = WordsIter::new("añ b");
    assert_eq!(w.next(), Some((0, "añ", WordsEvent::Word)));
    assert_eq!(w.next(), Some((3, " ", WordsEvent::Whitespace)));
    assert_eq!(w.next(), Some((4, "b", WordsEvent::Word)));
    assert_eq!(w.next(), None);
}
