use lazycard::ansi::{apply_tag, AnsiEvent, AnsiParser, AnsiParserWithStyle, AnsiTag, AnsiWriter};
use lazycard::style::{Color, Style};

fn events(s: &str) -> Vec<String> {
    let mut p = AnsiParser::new(s);
    let mut out = Vec::new();
    while let Some(e) = p.next() {
        out.push(match e {
            AnsiEvent::Text(t) => format!("text {t:?}"),
            AnsiEvent::Tag(t) => format!("tag {t:?}"),
        });
    }
    out
}

#[test]
fn tag_codes_are_sgr_numbers() {
    assert_eq!(AnsiTag::Reset.to_string(), "0");
    assert_eq!(AnsiTag::Bold.to_string(), "1");
    assert_eq!(AnsiTag::NotBold.to_string(), "22");
    assert_eq!(AnsiTag::FgRed.to_string(), "31");
    assert_eq!(AnsiTag::FgBrightWhite.to_string(), "97");
    assert_eq!(AnsiTag::BgDefault.to_string(), "49");
    assert_eq!(AnsiTag::Fg256(200).to_string(), "38;5;200");
    assert_eq!(AnsiTag::BgTrueColor(1, 2, 3).to_string(), "48;2;1;2;3");
}

#[test]
fn tags_from_numbers() {
    assert_eq!(AnsiTag::from_u8(0), Some(AnsiTag::Reset));
    assert_eq!(AnsiTag::from_u8(1), Some(AnsiTag::Bold));
    assert_eq!(AnsiTag::from_u8(22), Some(AnsiTag::NotBold));
    assert_eq!(AnsiTag::from_u8(31), Some(AnsiTag::FgRed));
    assert_eq!(AnsiTag::from_u8(49), Some(AnsiTag::BgDefault));
    assert_eq!(AnsiTag::from_u8(97), Some(AnsiTag::FgBrightWhite));
    assert_eq!(AnsiTag::from_u8(38), None);
    assert_eq!(AnsiTag::from_u8(255), None);
}

#[test]
fn writer_frames_tags() {
    let mut w = AnsiWriter::new();
    w.push_str("a");
    w.push_tag(AnsiTag::FgRed);
    w.push_char('b');
    w.push_tag(AnsiTag::Fg256(7));
    assert_eq!(w.as_str(), "a\x1b[31mb\x1b[38;5;7m");
    assert_eq!(w.len(), 16);
    w.insert_tag(1, AnsiTag::Bold);
    assert_eq!(w.as_str(), "a\x1b[1m\x1b[31mb\x1b[38;5;7m");
    w.clear();
    assert!(w.is_empty());
}

#[test]
fn writer_inserts_at_byte_offsets() {
    let mut w = AnsiWriter::new();
    w.push_str("éa");
    assert_eq!(w.len(), 3);
    assert_eq!(w.slice(0..2), "é");
    w.insert_str(2, "x");
    assert_eq!(w.as_str(), "éxa");
    w.insert_char(0, 'b');
    assert_eq!(w.as_str(), "béxa");
    w.insert_tag(5, AnsiTag::Bold);
    assert_eq!(w.as_str(), "béxa\x1b[1m");
}

#[test]
fn written_tags_read_back() {
    let mut w = AnsiWriter::new();
    w.push_str("hi ");
    w.push_tag(AnsiTag::BgTrueColor(10, 20, 30));
    w.push_str("there");
    w.push_tag(AnsiTag::Reset);
    assert_eq!(
        events(w.as_str()),
        vec![
            "text \"hi \"".to_string(),
            "tag BgTrueColor(10, 20, 30)".to_string(),
            "text \"there\"".to_string(),
            "tag Reset".to_string(),
        ]
    );
}

#[test]
fn texts_written_in_pieces_read_back_merged() {
    let mut w = AnsiWriter::new();
    w.push_str("a");
    w.push_str("");
    w.push_str("b");
    w.push_tag(AnsiTag::Bold);
    w.push_str("");
    w.push_tag(AnsiTag::NotBold);
    w.push_char('c');
    w.push_str("d");
    assert_eq!(
        events(w.as_str()),
        vec![
            "text \"ab\"".to_string(),
            "tag Bold".to_string(),
            "tag NotBold".to_string(),
            "text \"cd\"".to_string(),
        ]
    );
}

#[test]
fn plain_text_is_one_piece() {
    assert_eq!(events("no codes here"), vec!["text \"no codes here\"".to_string()]);
    assert!(events("").is_empty());
}

#[test]
fn styles_follow_tags() {
    let mut p = AnsiParserWithStyle::new("x\x1b[31my\x1b[1mz\x1b[0mw");
    let mut out = Vec::new();
    while let Some(piece) = p.next() {
        out.push(piece);
    }
    let red = Style::new().fg(Color::Red);
    let red_bold = apply_tag(red, AnsiTag::Bold);
    assert!(red_bold.add_modifier.bold);
    assert_eq!(out, vec![("x", Style::new()), ("y", red), ("z", red_bold), ("w", Style::new())]);
}

#[test]
fn style_carries_over_lines() {
    let mut p = AnsiParserWithStyle::new("a\x1b[32m");
    assert_eq!(p.next(), Some(("a", Style::new())));
    assert_eq!(p.next(), None);
    p.continue_with("b");
    assert_eq!(p.next(), Some(("b", Style::new().fg(Color::Green))));
}

#[test]
fn writer_calls_read_back_by_collect() {
    let mut w = AnsiWriter::new();
    w.push_str("ab");
    w.push_str("");
    w.push_str("c");
    w.push_tag(AnsiTag::Bold);
    w.push_tag(AnsiTag::Fg256(7));
    w.push_str("d");
    w.push_tag(AnsiTag::BgTrueColor(1, 2, 3));
    let mut p = AnsiParser::new(w.as_str());
    let got: Vec<String> = p
        .collect()
        .into_iter()
        .map(|e| match e {
            AnsiEvent::Text(t) => format!("text {t:?}"),
            AnsiEvent::Tag(t) => format!("tag {t:?}"),
        })
        .collect();
    assert_eq!(got, events(w.as_str()));
    assert_eq!(
        got,
        vec![
            "text \"abc\"".to_string(),
            "tag Bold".to_string(),
            "tag Fg256(7)".to_string(),
            "text \"d\"".to_string(),
            "tag BgTrueColor(1, 2, 3)".to_string(),
        ]
    );
}

#[test]
fn styled_run_of_tags() {
    let mut p = AnsiParserWithStyle::new("a\x1b[1m\x1b[31m\x1b[0m\x1b[32m\x1b[3mb");
    let (t, st) = p.next().unwrap();
    assert_eq!(t, "a");
    assert_eq!(st, Style::new());
    let (t, st) = p.next().unwrap();
    assert_eq!(t, "b");
    let expected = apply_tag(Style::new().fg(Color::Green), AnsiTag::Italic);
    assert!(expected.add_modifier.italic);
    assert_eq!(st, expected);
    assert!(p.next().is_none());
}
