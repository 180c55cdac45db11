//! The items that markup is shown as: first as plain text pieces with the
//! images loaded, then as wrapped ANSI text ready to be drawn.
use vstd::prelude::*;

use crate::blocks::{list_items, next_block, BlockElement, BlockParser, BlockView, ListItems, lemma_next_block_advances};
use crate::highlight::{code_pieces, pieces_ansi, pieces_view, push_highlighted, CodeHighlighter, is_default_theme};
use crate::kitty::Dimensions;
use crate::markup::Alignment;
use crate::ansi::{AnsiWriter, AnsiTag, tag_sequence, filled_in_place};
use crate::rich::{lines_of, line_bounds, markup_to_rich_ansi, rich_text};
use crate::text::{chars_of, grapheme_clusters, graphemes_of, push_str, str_eq, strs_view};

verus! {

/// What a tab is shown as.
pub open spec fn tab_spaces() -> Seq<char> {
    seq![' ', ' ', ' ', ' ']
}

/// Markup with each tab, as a grapheme cluster of its own, made four spaces.
pub open spec fn expanded(markup: Seq<char>) -> Seq<char> {
    grapheme_clusters(markup).map_values(
        |g: Seq<char>|
            if g == seq!['\t'] {
                tab_spaces()
            } else {
                g
            },
    ).flatten()
}

/// Makes each tab of `markup` four spaces.
pub fn expand_tabs(markup: &str) -> (r: String)
    ensures
        r@ == expanded(markup@),
{
    let gs = graphemes_of(markup);
    let ghost f = |g: Seq<char>|
        if g == seq!['\t'] {
            tab_spaces()
        } else {
            g
        };
    let mut out = String::new();
    let mut i: usize = 0;
    proof {
        reveal_strlit("\t");
        reveal_strlit("    ");
        assert("\t"@ =~= seq!['\t']);
        assert("    "@ =~= tab_spaces());
    }
    while i < gs.len()
        invariant
            i <= gs@.len(),
            strs_view(gs@) == grapheme_clusters(markup@),
            "\t"@ == seq!['\t'],
            "    "@ == tab_spaces(),
            f == (|g: Seq<char>|
                if g == seq!['\t'] {
                    tab_spaces()
                } else {
                    g
                }),
            out@ == grapheme_clusters(markup@).take(i as int).map_values(f).flatten(),
        decreases gs.len() - i,
    {
        let g = gs[i];
        let ghost before = grapheme_clusters(markup@).take(i as int).map_values(f);
        if str_eq(g, "\t") {
            push_str(&mut out, "    ");
        } else {
            push_str(&mut out, g);
        }
        proof {
            let cl = grapheme_clusters(markup@);
            assert(cl[i as int] == g@);
            assert(cl.take(i + 1).map_values(f) =~= before.push(f(g@)));
            before.lemma_flatten_push(f(g@));
        }
        i = i + 1;
    }
    assert(grapheme_clusters(markup@).take(i as int) =~= grapheme_clusters(markup@));
    out
}

/// The blocks of markup from position `p` of its clusters on.
pub open spec fn blocks_from(gs: Seq<Seq<char>>, p: int) -> Seq<BlockView>
    decreases gs.len() - p,
{
    if p < 0 || p >= gs.len() {
        Seq::empty()
    } else {
        proof {
            lemma_next_block_advances(gs, p);
        }
        match next_block(gs, p) {
            None => Seq::empty(),
            Some(pd) => seq![pd.block] + blocks_from(gs, pd.pos),
        }
    }
}

/// The blocks of markup, its tabs made spaces.
pub open spec fn markup_blocks(markup: Seq<char>) -> Seq<BlockView> {
    blocks_from(grapheme_clusters(expanded(markup)), 0)
}

/// The paths of the images among blocks, in order.
pub open spec fn image_paths_of(bs: Seq<BlockView>) -> Seq<Seq<char>>
    decreases bs.len(),
{
    if bs.len() == 0 {
        Seq::empty()
    } else {
        (match bs[0] {
            BlockView::Image(_, path) => seq![path],
            _ => Seq::empty(),
        }) + image_paths_of(bs.drop_first())
    }
}

/// A plain item of markup.
pub enum PlainView {
    Paragraph(Seq<char>, Alignment),
    ListItem(Seq<char>),
    Code(Seq<char>, Seq<char>),
    Image(u32, Dimensions),
    ImageError(Seq<char>),
    ImageDescription(Seq<char>),
    Break,
    EmptyLine,
}

/// The text that stands in place of an image that could not be loaded.
pub open spec fn image_error_text(msg: Seq<char>) -> Seq<char> {
    seq!['E', 'R', 'R', 'O', 'R', '\n'] + msg
}

/// The items of a list.
pub open spec fn list_plain(t: Seq<char>) -> Seq<PlainView> {
    list_items(t).map_values(|i: Seq<char>| PlainView::ListItem(i))
}

/// The plain items of one block, given how its image loaded: each block but a
/// comment is followed by an empty line.
pub open spec fn block_plain(b: BlockView, image: Result<(u32, Dimensions), Seq<char>>) -> Seq<
    PlainView,
> {
    match b {
        BlockView::Paragraph(t, a) => seq![PlainView::Paragraph(t, a), PlainView::EmptyLine],
        BlockView::List(t) => list_plain(t) + seq![PlainView::EmptyLine],
        BlockView::Code(lang, text) => seq![PlainView::Code(text, lang), PlainView::EmptyLine],
        BlockView::Image(d, _) => seq![
            match image {
                Ok((id, dims)) => PlainView::Image(id, dims),
                Err(m) => PlainView::ImageError(image_error_text(m)),
            },
        ] + (if d.len() > 0 {
            seq![PlainView::ImageDescription(d)]
        } else {
            Seq::empty()
        }) + seq![PlainView::EmptyLine],
        BlockView::Comment(_) => Seq::empty(),
        BlockView::Break => seq![PlainView::Break, PlainView::EmptyLine],
    }
}

/// The plain items of blocks, the images taking their load results in order.
pub open spec fn blocks_plain(bs: Seq<BlockView>, images: Seq<Result<(u32, Dimensions), Seq<char>>>) -> Seq<
    PlainView,
>
    decreases bs.len(),
{
    if bs.len() == 0 {
        Seq::empty()
    } else {
        let is_image = bs[0] is Image;
        let image = if is_image && images.len() > 0 {
            images[0]
        } else {
            Err(Seq::empty())
        };
        let rest = if is_image && images.len() > 0 {
            images.drop_first()
        } else {
            images
        };
        block_plain(bs[0], image) + blocks_plain(bs.drop_first(), rest)
    }
}

/// The plain items of markup, without the empty line after the last block.
pub open spec fn plain_items(markup: Seq<char>, images: Seq<Result<(u32, Dimensions), Seq<char>>>) -> Seq<
    PlainView,
> {
    let all = blocks_plain(markup_blocks(markup), images);
    if all.len() == 0 {
        all
    } else {
        all.drop_last()
    }
}

pub enum MarkupPlain {
    Paragraph { text: String, alignment: Alignment },
    ListItem { text: String },
    Code { text: String, language: String },
    Image { id: u32, dims: Dimensions },
    ImageError { text: String },
    ImageDescription { text: String },
    Break,
    EmptyLine,
}

impl MarkupPlain {
    pub open spec fn view(&self) -> PlainView {
        match self {
            MarkupPlain::Paragraph { text, alignment } => PlainView::Paragraph(text@, *alignment),
            MarkupPlain::ListItem { text } => PlainView::ListItem(text@),
            MarkupPlain::Code { text, language } => PlainView::Code(text@, language@),
            MarkupPlain::Image { id, dims } => PlainView::Image(*id, *dims),
            MarkupPlain::ImageError { text } => PlainView::ImageError(text@),
            MarkupPlain::ImageDescription { text } => PlainView::ImageDescription(text@),
            MarkupPlain::Break => PlainView::Break,
            MarkupPlain::EmptyLine => PlainView::EmptyLine,
        }
    }
}

/// The views of plain items.
pub open spec fn plain_views(v: Seq<MarkupPlain>) -> Seq<PlainView> {
    v.map_values(|p: MarkupPlain| p.view())
}

/// The views of load results.
pub open spec fn result_views(v: Seq<Result<(u32, Dimensions), String>>) -> Seq<
    Result<(u32, Dimensions), Seq<char>>,
> {
    v.map_values(
        |r: Result<(u32, Dimensions), String>|
            match r {
                Ok(x) => Ok(x),
                Err(m) => Err(m@),
            },
    )
}

fn string_of(s: &str) -> (r: String)
    ensures
        r@ == s@,
{
    let mut r = String::new();
    push_str(&mut r, s);
    assert(r@ =~= s@);
    r
}

/// Appends the items of a list.
fn push_list(list: ListItems, out: &mut Vec<MarkupPlain>)
    requires
        list.wf(),
        list.position() == 0,
    ensures
        plain_views(final(out)@) == plain_views(old(out)@) + list_plain(list.text()),
{
    let ghost t0 = list.text();
    let mut items = list;
    let ghost gs = crate::graphemes::grapheme_clusters_of(items.text());
    let ghost all = list_items(items.text());
    let ghost f = |i: Seq<char>| PlainView::ListItem(i);
    proof {
        assert(gs == grapheme_clusters(t0));
        assert(crate::blocks::list_items_from(gs, 0) == all);
    }
    loop
        invariant
            items.wf(),
            gs == crate::graphemes::grapheme_clusters_of(items.text()),
            all == list_items(t0),
            items.text() == t0,
            t0 == list.text(),
            f == (|i: Seq<char>| PlainView::ListItem(i)),
            plain_views(out@) + crate::blocks::list_items_from(gs, items.position()).map_values(f)
                == plain_views(old(out)@) + list_plain(t0),
            list_plain(t0) == all.map_values(f),
        decreases gs.len() - items.position(),
    {
        let ghost p = items.position();
        proof {
            items.lemma_position();
            if p < gs.len() {
                crate::blocks::lemma_list_step_advances(gs, p);
            }
        }
        match items.next() {
            None => {
                proof {
                    assert(crate::blocks::list_items_from(gs, p).len() == 0);
                    assert(plain_views(out@) =~= plain_views(old(out)@) + list_plain(t0));
                }
                return;
            },
            Some(item) => {
                let ghost before = plain_views(out@);
                out.push(MarkupPlain::ListItem { text: string_of(item) });
                proof {
                    if p >= gs.len() {
                        crate::blocks::lemma_off_end(gs, p);
                    }
                    let rest = crate::blocks::list_items_from(gs, items.position());
                    assert(crate::blocks::list_items_from(gs, p) == seq![item@] + rest);
                    assert(plain_views(out@) =~= before.push(PlainView::ListItem(item@)));
                    assert((seq![item@] + rest).map_values(f) =~= seq![f(item@)] + rest.map_values(f));
                    assert(plain_views(out@) + rest.map_values(f) =~= before + (seq![item@]
                        + rest).map_values(f));
                }
            },
        }
    }
}

/// The paths of the images of markup, in order: what has to be loaded before
/// its plain items are made.
pub fn image_paths(markup: &str) -> (r: Vec<String>)
    ensures
        r@.map_values(|s: String| s@) == image_paths_of(markup_blocks(markup@)),
{
    let text = expand_tabs(markup);
    let mut parser = BlockParser::new(text.as_str());
    let ghost gs = grapheme_clusters(text@);
    let mut out: Vec<String> = Vec::new();
    loop
        invariant
            parser.wf(),
            parser.text() == text@,
            gs == parser.gs(),
            text@ == expanded(markup@),
            0 <= parser.position() <= gs.len(),
            out@.map_values(|s: String| s@) + image_paths_of(blocks_from(gs, parser.position()))
                == image_paths_of(markup_blocks(markup@)),
        decreases gs.len() - parser.position(),
    {
        let ghost p = parser.position();
        proof {
            if p < gs.len() {
                lemma_next_block_advances(gs, p);
            }
        }
        let Some((block, _)) = parser.next() else {
            proof {
                assert(blocks_from(gs, p) =~= Seq::<BlockView>::empty());
                assert(out@.map_values(|s: String| s@) =~= image_paths_of(markup_blocks(markup@)));
            }
            return out;
        };
        let ghost bs = blocks_from(gs, p);
        let ghost before = out@.map_values(|s: String| s@);
        proof {
            assert(bs.drop_first() == blocks_from(gs, parser.position()));
        }
        if let BlockElement::Image { path, .. } = block {
            out.push(string_of(path));
            proof {
                assert(out@.map_values(|s: String| s@) =~= before.push(path@));
            }
        }
        proof {
            assert(out@.map_values(|s: String| s@) + image_paths_of(bs.drop_first()) =~= before
                + image_paths_of(bs));
        }
    }
}

/// The plain items of markup, its tabs made spaces, each image taking the
/// next of `images`: its id and size, or the message of why it did not load.
/// An image past the end of `images` is shown as an error without message.
#[verifier::rlimit(40)]
pub fn load_plain(markup: &str, images: &Vec<Result<(u32, Dimensions), String>>) -> (r: Vec<MarkupPlain>)
    ensures
        plain_views(r@) == plain_items(markup@, result_views(images@)),
{
    let text = expand_tabs(markup);
    let mut parser = BlockParser::new(text.as_str());
    let ghost gs = grapheme_clusters(text@);
    let ghost rs = result_views(images@);
    let ghost target = blocks_plain(markup_blocks(markup@), rs);
    let mut out: Vec<MarkupPlain> = Vec::new();
    let mut k: usize = 0;
    proof {
        assert(rs.skip(0) =~= rs);
    }
    loop
        invariant
            parser.wf(),
            parser.text() == text@,
            gs == parser.gs(),
            text@ == expanded(markup@),
            0 <= parser.position() <= gs.len(),
            k <= images@.len(),
            rs == result_views(images@),
            target == blocks_plain(markup_blocks(markup@), rs),
            plain_views(out@) + blocks_plain(blocks_from(gs, parser.position()), rs.skip(k as int))
                == target,
        ensures
            plain_views(out@) == target,
        decreases gs.len() - parser.position(),
    {
        let ghost p = parser.position();
        proof {
            if p < gs.len() {
                lemma_next_block_advances(gs, p);
            }
        }
        let Some((block, _)) = parser.next() else {
            proof {
                assert(blocks_from(gs, p) =~= Seq::<BlockView>::empty());
                assert(plain_views(out@) =~= target);
            }
            break;
        };
        let ghost bs = blocks_from(gs, p);
        let ghost before = plain_views(out@);
        let ghost rest_rs = rs.skip(k as int);
        proof {
            assert(bs.drop_first() == blocks_from(gs, parser.position()));
            assert(bs[0] == block.view());
        }
        let is_image = matches!(block, BlockElement::Image { .. });
        if is_image && k < images.len() {
            proof {
                assert(rest_rs[0] == rs[k as int]);
                assert(rest_rs.drop_first() =~= rs.skip(k + 1));
            }
            push_block(block, &images[k], &mut out);
            k = k + 1;
        } else {
            let none: Result<(u32, Dimensions), String> = Err(String::new());
            push_block(block, &none, &mut out);
        }
        proof {
            assert(plain_views(out@) + blocks_plain(bs.drop_first(), rs.skip(k as int)) =~= before
                + blocks_plain(bs, rest_rs));
        }
    }
    let ghost all = plain_views(out@);
    out.pop();
    proof {
        assert(plain_views(out@) =~= (if all.len() == 0 {
            all
        } else {
            all.drop_last()
        }));
    }
    out
}

/// Appends the plain items of a block, its image loaded as `image`.
fn push_block(block: BlockElement, image: &Result<(u32, Dimensions), String>, out: &mut Vec<MarkupPlain>)
    requires
        block.fresh(),
    ensures
        plain_views(final(out)@) == plain_views(old(out)@) + block_plain(
            block.view(),
            match image {
                Ok(x) => Ok(*x),
                Err(m) => Err(m@),
            },
        ),
{
    let ghost before = plain_views(out@);
    let ghost img = match image {
        Ok(x) => Ok(*x),
        Err(m) => Err(m@),
    };
    let ghost v = block.view();
    match block {
        BlockElement::Paragraph { text, alignment } => {
            out.push(MarkupPlain::Paragraph { text: string_of(text), alignment });
            out.push(MarkupPlain::EmptyLine);
            assert(plain_views(out@) =~= before + block_plain(v, img));
        },
        BlockElement::List { items } => {
            push_list(items, out);
            let ghost mid = plain_views(out@);
            out.push(MarkupPlain::EmptyLine);
            assert(plain_views(out@) =~= mid.push(PlainView::EmptyLine));
            assert(plain_views(out@) =~= before + block_plain(v, img));
        },
        BlockElement::Code { language, text } => {
            out.push(MarkupPlain::Code { text: string_of(text), language: string_of(language) });
            out.push(MarkupPlain::EmptyLine);
            assert(plain_views(out@) =~= before + block_plain(v, img));
        },
        BlockElement::Image { description, .. } => {
            match image {
                Ok((id, dims)) => out.push(MarkupPlain::Image { id: *id, dims: *dims }),
                Err(m) => out.push(MarkupPlain::ImageError { text: error_text(m.as_str()) }),
            }
            if description.unicode_len() > 0 {
                out.push(MarkupPlain::ImageDescription { text: string_of(description) });
            }
            out.push(MarkupPlain::EmptyLine);
            assert(plain_views(out@) =~= before + block_plain(v, img));
        },
        BlockElement::Comment { .. } => {
            assert(plain_views(out@) =~= before + block_plain(v, img));
        },
        BlockElement::Break => {
            out.push(MarkupPlain::Break);
            out.push(MarkupPlain::EmptyLine);
            assert(plain_views(out@) =~= before + block_plain(v, img));
        },
    }
}

/// A rich item of markup: wrapped ANSI text with its alignment, an image, a
/// break, or an empty line.
pub enum RichView {
    Text(Seq<char>, Alignment),
    Image(u32, Dimensions),
    Break,
    EmptyLine,
}

pub enum MarkupRich {
    Text { text: String, alignment: Alignment },
    Image { id: u32, dims: Dimensions },
    Break,
    EmptyLine,
}

impl MarkupRich {
    pub open spec fn view(&self) -> RichView {
        match self {
            MarkupRich::Text { text, alignment } => RichView::Text(text@, *alignment),
            MarkupRich::Image { id, dims } => RichView::Image(*id, *dims),
            MarkupRich::Break => RichView::Break,
            MarkupRich::EmptyLine => RichView::EmptyLine,
        }
    }
}

/// The indent of a list item's first line: a bullet.
pub open spec fn bullet() -> Seq<char> {
    seq![' ', ' ', '•', ' ']
}

/// The indent of a list item's other lines.
pub open spec fn bullet_rest() -> Seq<char> {
    seq![' ', ' ', ' ', ' ']
}

/// What a plain item becomes at a width of `width` columns with the
/// highlighting theme `theme`: paragraphs and image descriptions are styled
/// and wrapped, list items are also indented behind a bullet in four columns
/// less, code is highlighted line by line, and the message of an image that
/// did not load is red, wrapped and centered.
pub open spec fn rich_of(p: PlainView, width: u16, theme: Seq<char>) -> RichView {
    match p {
        PlainView::Paragraph(t, a) => RichView::Text(rich_text(t, width, None), a),
        PlainView::ListItem(t) => RichView::Text(
            rich_text(
                t,
                if width >= 4 {
                    (width - 4) as u16
                } else {
                    0
                },
                Some((bullet(), bullet_rest())),
            ),
            Alignment::Left,
        ),
        PlainView::Code(t, language) => RichView::Text(
            pieces_ansi(code_pieces(language, theme, t)),
            Alignment::Left,
        ),
        PlainView::Image(id, d) => RichView::Image(id, d),
        PlainView::ImageError(t) => RichView::Text(
            filled_in_place(tag_sequence(AnsiTag::FgRed) + t, width as nat),
            Alignment::Center,
        ),
        PlainView::ImageDescription(t) => RichView::Text(rich_text(t, width, None), Alignment::Center),
        PlainView::Break => RichView::Break,
        PlainView::EmptyLine => RichView::EmptyLine,
    }
}

/// Turns a plain item into a rich one for a width of `width` columns; code
/// is highlighted with the highlighter's theme.
pub fn process_item(item: &MarkupPlain, width: u16, highlighter: &CodeHighlighter) -> (r: MarkupRich)
    requires
        is_default_theme(highlighter.theme_name()),
    ensures
        r.view() == rich_of(item.view(), width, highlighter.theme_name()),
{
    proof {
        reveal_strlit("  • ");
        reveal_strlit("    ");
        assert("  • "@ =~= bullet());
        assert("    "@ =~= bullet_rest());
    }
    match item {
        MarkupPlain::Paragraph { text, alignment } => MarkupRich::Text {
            text: markup_to_rich_ansi(text.as_str(), width, None),
            alignment: *alignment,
        },
        MarkupPlain::ListItem { text } => MarkupRich::Text {
            text: markup_to_rich_ansi(text.as_str(), width.saturating_sub(4), Some(("  • ", "    "))),
            alignment: Alignment::Left,
        },
        MarkupPlain::Code { text, language } => {
            let pieces = highlighter.highlight(language.as_str(), text.as_str());
            let mut writer = AnsiWriter::new();
            push_highlighted(&mut writer, &pieces);
            let mut out = String::new();
            push_str(&mut out, writer.as_str());
            assert(out@ =~= pieces_ansi(pieces_view(pieces@)));
            MarkupRich::Text { text: out, alignment: Alignment::Left }
        },
        MarkupPlain::Image { id, dims } => MarkupRich::Image { id: *id, dims: *dims },
        MarkupPlain::ImageError { text } => {
            let mut writer = AnsiWriter::new();
            writer.push_tag(AnsiTag::FgRed);
            writer.push_str(text.as_str());
            writer.textwrap(width);
            let mut out = String::new();
            push_str(&mut out, writer.as_str());
            assert(out@ =~= writer@);
            MarkupRich::Text { text: out, alignment: Alignment::Center }
        },
        MarkupPlain::ImageDescription { text } => MarkupRich::Text {
            text: markup_to_rich_ansi(text.as_str(), width, None),
            alignment: Alignment::Center,
        },
        MarkupPlain::Break => MarkupRich::Break,
        MarkupPlain::EmptyLine => MarkupRich::EmptyLine,
    }
}

/// How many lines a rich text item takes: its lines as `str::lines` cuts them.
pub fn text_lines(text: &str) -> (n: usize)
    ensures
        n == lines_of(text@).len(),
{
    let chars = chars_of(text);
    let bounds = line_bounds(&chars);
    bounds.len()
}

/// `ERROR`, a line break, and the message.
fn error_text(m: &str) -> (r: String)
    ensures
        r@ == image_error_text(m@),
{
    let mut r = String::new();
    crate::text::string_push(&mut r, 'E');
    crate::text::string_push(&mut r, 'R');
    crate::text::string_push(&mut r, 'R');
    crate::text::string_push(&mut r, 'O');
    crate::text::string_push(&mut r, 'R');
    crate::text::string_push(&mut r, '\n');
    push_str(&mut r, m);
    assert(r@ =~= image_error_text(m@));
    r
}

} // verus!
