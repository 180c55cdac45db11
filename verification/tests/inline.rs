use lazycard::ansi::AnsiTag;
use lazycard::inline::{InlineEvent, InlineParser, InlineTag};

fn events(s: &str) -> Vec<String> {
    let mut p = InlineParser::new(s);
    let mut out = Vec::new();
    while let Some(e) = p.next() {
        out.push(match e {
            InlineEvent::Text(t) => format!("{t}"),
            InlineEvent::Tag(t) => format!("<{t:?}>"),
        });
    }
    out
}

#[test]
fn bold_and_italic_spans() {
    assert_eq!(events("a *b* c"), vec!["a ", "<BoldStart>", "b", "<BoldEnd>", " c"]);
    assert_eq!(events("_it_"), vec!["<ItalicStart>", "it", "<ItalicEnd>"]);
}

#[test]
fn lone_markers_stay_text() {
    let all: String = events("2 * 3").concat();
    assert_eq!(all, "2 * 3");
}

#[test]
fn inline_events_give_the_text_back() {
    for text in ["plain", "a *b* _c_ d", "x * y", "*a*b*", "__"] {
        let mut rebuilt = String::new();
        let mut p = InlineParser::new(text);
        while let Some(e) = p.next() {
            match e {
                InlineEvent::Text(t) => rebuilt.push_str(t),
                InlineEvent::Tag(InlineTag::BoldStart | InlineTag::BoldEnd) => rebuilt.push('*'),
                InlineEvent::Tag(InlineTag::ItalicStart | InlineTag::ItalicEnd) => rebuilt.push('_'),
            }
        }
        assert_eq!(rebuilt, text);
    }
}

#[test]
fn inline_tags_as_ansi() {
    assert_eq!(InlineTag::BoldStart.into_ansi(), AnsiTag::Bold);
    assert_eq!(InlineTag::BoldEnd.into_ansi(), AnsiTag::NotBold);
    assert_eq!(InlineTag::ItalicStart.into_ansi(), AnsiTag::Italic);
    assert_eq!(InlineTag::ItalicEnd.into_ansi(), AnsiTag::NotItalic);
}
