use lazycard::blocks::{parse_items, BlockElement, BlockParser, ListItems};
use lazycard::markup::{Alignment, MarkupItem};

fn blocks(text: &str) -> Vec<String> {
    let mut parser = BlockParser::new(text);
    let mut out = Vec::new();
    while let Some((block, range)) = parser.next() {
        let s = match block {
            BlockElement::Paragraph { text, alignment } => {
                let a = match alignment {
                    Alignment::Left => "left",
                    Alignment::Center => "center",
                    Alignment::Right => "right",
                };
                format!("paragraph {a} {text:?} {}..{}", range.start, range.end)
            }
            BlockElement::List { mut items } => {
                let mut v = Vec::new();
                while let Some(item) = items.next() {
                    v.push(item.to_string());
                }
                format!("list {v:?}")
            }
            BlockElement::Code { language, text } => format!("code {language:?} {text:?}"),
            BlockElement::Image { description, path } => format!("image {description:?} {path:?}"),
            BlockElement::Comment { _text } => format!("comment {_text:?}"),
            BlockElement::Break => format!("break {}..{}", range.start, range.end),
        };
        out.push(s);
    }
    out
}

#[test]
fn paragraphs_are_split_by_empty_lines() {
    assert_eq!(
        blocks("first line\nsame paragraph\n\nsecond"),
        vec![
            "paragraph left \"first line\\nsame paragraph\" 0..27",
            "paragraph left \"second\" 27..33",
        ]
    );
}

#[test]
fn aligned_paragraphs() {
    assert_eq!(
        blocks("| centered\n\n> right"),
        vec!["paragraph center \"centered\" 0..12", "paragraph right \"right\" 12..19"]
    );
}

#[test]
fn lists_split_into_items() {
    assert_eq!(blocks("- one\n- two\n  more\n- three"), vec!["list [\"one\", \"two\\n  more\", \"three\"]"]);
}

#[test]
fn list_items_of_text() {
    let mut items = ListItems::new("a\n-b");
    assert_eq!(items.next(), Some("a"));
    assert_eq!(items.next(), Some("b"));
    assert_eq!(items.next(), None);
}

#[test]
fn code_block_with_language() {
    assert_eq!(blocks("```rust\nlet x = 1;\n```\n\nafter"), vec!["code \"rust\" \"let x = 1;\"", "paragraph left \"after\" 24..29"]);
}

#[test]
fn unterminated_code_block_runs_to_the_end() {
    assert_eq!(blocks("```\nabc"), vec!["code \"\" \"abc\""]);
}

#[test]
fn image_alone_in_its_paragraph() {
    assert_eq!(blocks("![a cat]( cat.png )"), vec!["image \"a cat\" \"cat.png\""]);
}

#[test]
fn image_followed_by_text_is_a_paragraph() {
    assert_eq!(blocks("![a](b) text"), vec!["paragraph left \"![a](b) text\" 0..12"]);
}

#[test]
fn comment_runs_to_the_end_of_its_line() {
    assert_eq!(blocks("# note\ntext"), vec!["comment \"note\"", "paragraph left \"text\" 7..11"]);
}

#[test]
fn break_between_paragraphs() {
    assert_eq!(blocks("---\n\nafter"), vec!["break 0..5", "paragraph left \"after\" 5..10"]);
}

#[test]
fn item_kinds_of_markup() {
    let mut v = Vec::new();
    parse_items("text\n\n- a\n- b\n\n# hidden\n\n![x](y)", &mut v);
    assert_eq!(
        v,
        vec![
            MarkupItem::Paragraph,
            MarkupItem::EmptyLine,
            MarkupItem::ListItem,
            MarkupItem::ListItem,
            MarkupItem::EmptyLine,
            MarkupItem::Image,
            MarkupItem::ImageDescription,
        ]
    );
}

#[test]
fn readme_markup_example() {
    let text = "A normal paragraph with *bold* and _italic_ text.\n\n| Center paragraph\n\n> Right paragraph\n\n---\n\n- item 1\n- item 2\n\n# This is a comment\n![image description](image.jpeg)\n\n```python\ndef add(a, b):\n    return a + b\n```\n";
    let kinds: Vec<String> = blocks(text).into_iter().map(|b| b.split(' ').take(2).collect::<Vec<_>>().join(" ")).collect();
    assert_eq!(
        kinds,
        vec![
            "paragraph left",
            "paragraph center",
            "paragraph right",
            "break 90..95",
            "list [\"item",
            "comment \"This",
            "image \"image",
            "code \"python\"",
        ]
    );
    let mut items = Vec::new();
    parse_items(text, &mut items);
    assert_eq!(
        items,
        vec![
            MarkupItem::Paragraph,
            MarkupItem::EmptyLine,
            MarkupItem::Paragraph,
            MarkupItem::EmptyLine,
            MarkupItem::Paragraph,
            MarkupItem::EmptyLine,
            MarkupItem::Break,
            MarkupItem::EmptyLine,
            MarkupItem::ListItem,
            MarkupItem::ListItem,
            MarkupItem::EmptyLine,
            MarkupItem::Image,
            MarkupItem::ImageDescription,
            MarkupItem::EmptyLine,
            MarkupItem::Code,
        ]
    );
}
