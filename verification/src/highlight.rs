//! Syntax highlighting of code blocks with syntect's default syntaxes and
//! themes, turned into ANSI colors.
use vstd::prelude::*;
use vstd::string::StrSliceExecFns;

use crate::ansi::{tag_sequence, AnsiTag, AnsiWriter};
use crate::markup::SyntaxHighlightTheme;
use syntect::easy::HighlightLines;
use syntect::highlighting::{Theme, ThemeSet};
use syntect::parsing::{SyntaxReference, SyntaxSet};

verus! {

#[verifier::external_type_specification]
#[verifier::external_body]
pub struct ExSyntaxSet(syntect::parsing::SyntaxSet);

#[verifier::external_type_specification]
#[verifier::external_body]
pub struct ExThemeSet(syntect::highlighting::ThemeSet);

#[verifier::external_type_specification]
#[verifier::external_body]
pub struct ExTheme(syntect::highlighting::Theme);

#[verifier::external_type_specification]
#[verifier::external_body]
pub struct ExSyntaxReference(syntect::parsing::SyntaxReference);

#[verifier::external_type_specification]
#[verifier::external_body]
pub struct ExHighlightLines<'a>(syntect::easy::HighlightLines<'a>);

/// The names of the themes that syntect's default theme set holds.
pub open spec fn is_default_theme(name: Seq<char>) -> bool {
    ||| name == "base16-ocean.dark"@
    ||| name == "base16-eighties.dark"@
    ||| name == "base16-mocha.dark"@
    ||| name == "base16-ocean.light"@
    ||| name == "InspiredGitHub"@
    ||| name == "Solarized (dark)"@
    ||| name == "Solarized (light)"@
}

/// syntect's `SyntaxSet::load_defaults_newlines`: the syntaxes it ships.
#[verifier::external_body]
fn load_syntaxes() -> SyntaxSet {
    SyntaxSet::load_defaults_newlines()
}

/// syntect's `ThemeSet::load_defaults`: the themes it ships, which its
/// documentation lists as the names that `is_default_theme` accepts.
#[verifier::external_body]
fn load_themes() -> ThemeSet {
    ThemeSet::load_defaults()
}

/// syntect's default syntaxes and themes. Only `DefaultSets::load` makes
/// one, from `load_syntaxes` and `load_themes`, so the trusted items below
/// that take one speak of syntect's default sets.
pub struct DefaultSets {
    syntaxes: SyntaxSet,
    themes: ThemeSet,
}

impl DefaultSets {
    pub fn load() -> (d: DefaultSets) {
        DefaultSets { syntaxes: load_syntaxes(), themes: load_themes() }
    }
}

/// syntect's `SyntaxSet::find_syntax_plain_text` on the default syntaxes,
/// which hold the plain text syntax, so it does not panic there.
#[verifier::external_body]
fn plain_syntax(sets: &DefaultSets) -> &SyntaxReference {
    sets.syntaxes.find_syntax_plain_text()
}

/// Whether syntect's default syntaxes hold one that `token` names (by its
/// name or a file extension).
pub uninterp spec fn syntax_known(token: Seq<char>) -> bool;

/// syntect's `SyntaxSet::find_syntax_by_token` on the default syntaxes: the
/// syntax that a language name or file extension names, if any. Whether
/// there is one is named `syntax_known`, of the token alone.
#[verifier::external_body]
fn syntax_by_token<'s>(sets: &'s DefaultSets, token: &str) -> (r: Option<&'s SyntaxReference>)
    ensures
        (r is Some) == syntax_known(token@),
{
    sets.syntaxes.find_syntax_by_token(token)
}

/// The theme of that name in the default theme set; std's `BTreeMap` index,
/// which panics on a name the map lacks, so only the default names are
/// taken, which the default set holds.
#[verifier::external_body]
fn theme_named<'t>(sets: &'t DefaultSets, name: &str) -> &'t Theme
    requires
        is_default_theme(name@),
{
    &sets.themes.themes[name]
}

/// syntect's `HighlightLines::new`.
#[verifier::external_body]
fn new_highlighter<'t>(syntax: &SyntaxReference, theme: &'t Theme) -> HighlightLines<'t> {
    HighlightLines::new(syntax, theme)
}

/// The pieces and foreground colors that syntect's `highlight_line` gives
/// `line` with the default syntax that `syntax` names (the plain text syntax
/// for an empty name) and the default theme named `theme`, after the lines
/// `before` went through the same highlighter; `None` when parsing fails.
pub uninterp spec fn highlighted_line(
    syntax: Seq<char>,
    theme: Seq<char>,
    before: Seq<Seq<char>>,
    line: Seq<char>,
) -> Option<Seq<(Seq<char>, (u8, u8, u8))>>;

/// A syntect highlighter with what it was made for and the lines it was
/// given so far. Only `LineHighlighter::start` makes one, and only
/// `highlight_line` changes one.
pub struct LineHighlighter<'t> {
    h: HighlightLines<'t>,
    syntax: Ghost<Seq<char>>,
    theme: Ghost<Seq<char>>,
    fed: Ghost<Seq<Seq<char>>>,
}

/// The syntax that highlighting code in `language` uses: the one the name
/// names, or plain text (the empty name) for an empty or unknown name.
pub open spec fn syntax_key(language: Seq<char>) -> Seq<char> {
    if language.len() > 0 && syntax_known(language) {
        language
    } else {
        Seq::empty()
    }
}

impl<'t> LineHighlighter<'t> {
    pub closed spec fn syntax(&self) -> Seq<char> {
        self.syntax@
    }

    pub closed spec fn theme(&self) -> Seq<char> {
        self.theme@
    }

    pub closed spec fn fed(&self) -> Seq<Seq<char>> {
        self.fed@
    }

    /// A highlighter for code in `language` with the default theme `theme`.
    pub fn start(sets: &'t DefaultSets, language: &str, theme: &'static str) -> (h: LineHighlighter<'t>)
        requires
            is_default_theme(theme@),
        ensures
            h.syntax() == syntax_key(language@),
            h.theme() == theme@,
            h.fed() == Seq::<Seq<char>>::empty(),
    {
        let syntax = if language.unicode_len() == 0 {
            plain_syntax(sets)
        } else {
            match syntax_by_token(sets, language) {
                Some(s) => s,
                None => plain_syntax(sets),
            }
        };
        let t = theme_named(sets, theme);
        LineHighlighter {
            h: new_highlighter(syntax, t),
            syntax: Ghost(syntax_key(language@)),
            theme: Ghost(theme@),
            fed: Ghost(Seq::empty()),
        }
    }
}

/// The pieces of a highlighted line as plain values.
pub open spec fn spans_view(r: Option<Vec<(&str, (u8, u8, u8))>>) -> Option<Seq<(Seq<char>, (u8, u8, u8))>> {
    match r {
        Some(v) => Some(v@.map_values(|x: (&str, (u8, u8, u8))| (x.0@, x.1))),
        None => None,
    }
}

/// syntect's `HighlightLines::highlight_line` with the default syntaxes:
/// the pieces of the line with their foreground colors, or `None` when
/// parsing fails. What it gives is named `highlighted_line`, of the syntax,
/// the theme, the lines the highlighter was given before and the line; its
/// documentation says that the pieces make up the line.
#[verifier::external_body]
fn highlight_line<'b>(h: &mut LineHighlighter<'_>, line: &'b str, sets: &DefaultSets) -> (r: Option<
    Vec<(&'b str, (u8, u8, u8))>,
>)
    ensures
        spans_view(r) == highlighted_line(old(h).syntax(), old(h).theme(), old(h).fed(), line@),
        r matches Some(spans) ==> span_texts(spans@) == line@,
        final(h).syntax() == old(h).syntax() && final(h).theme() == old(h).theme(),
        final(h).fed() == old(h).fed().push(line@),
{
    match h.h.highlight_line(line, &sets.syntaxes) {
        Ok(v) => Some(
            v.into_iter().map(|(st, s)| (s, (st.foreground.r, st.foreground.g, st.foreground.b))).collect(),
        ),
        Err(_) => None,
    }
}

/// The text of colored pieces, one after the other.
pub open spec fn span_texts(v: Seq<(&str, (u8, u8, u8))>) -> Seq<char> {
    v.map_values(|x: (&str, (u8, u8, u8))| x.0@).flatten()
}

/// The pieces of one line: its highlighted pieces, each with its color, or
/// the whole line without color when it cannot be highlighted.
pub open spec fn line_pieces(syntax: Seq<char>, theme: Seq<char>, before: Seq<Seq<char>>, line: Seq<char>) -> Seq<
    (Seq<char>, Option<(u8, u8, u8)>),
> {
    match highlighted_line(syntax, theme, before, line) {
        Some(spans) => spans.map_values(|x: (Seq<char>, (u8, u8, u8))| (x.0, Some(x.1))),
        None => seq![(line, None)],
    }
}

/// The pieces of the first `k` of `lines`, highlighted one after the other.
pub open spec fn lines_pieces(syntax: Seq<char>, theme: Seq<char>, lines: Seq<Seq<char>>, k: int) -> Seq<
    (Seq<char>, Option<(u8, u8, u8)>),
>
    decreases k,
{
    if k <= 0 {
        Seq::empty()
    } else {
        lines_pieces(syntax, theme, lines, k - 1) + line_pieces(syntax, theme, lines.take(k - 1), lines[k - 1])
    }
}

/// The highlighted pieces of `code` in `language` with theme `theme`: its
/// lines, with their line breaks, highlighted one after the other.
pub open spec fn code_pieces(language: Seq<char>, theme: Seq<char>, code: Seq<char>) -> Seq<
    (Seq<char>, Option<(u8, u8, u8)>),
> {
    let lines = lines_with_endings(code);
    lines_pieces(syntax_key(language), theme, lines, lines.len() as int)
}

/// Pieces as plain values.
pub open spec fn pieces_view(v: Seq<(&str, Option<(u8, u8, u8)>)>) -> Seq<(Seq<char>, Option<(u8, u8, u8)>)> {
    v.map_values(|x: (&str, Option<(u8, u8, u8)>)| (x.0@, x.1))
}

/// The text of pieces that may have a color, one after the other.
pub open spec fn piece_texts(v: Seq<(&str, Option<(u8, u8, u8)>)>) -> Seq<char> {
    v.map_values(|x: (&str, Option<(u8, u8, u8)>)| x.0@).flatten()
}

/// The lines of `s`, each with its line break, as syntect's
/// `LinesWithEndings` cuts them.
pub open spec fn lines_with_endings(s: Seq<char>) -> Seq<Seq<char>>
    decreases s.len(),
{
    if s.len() == 0 {
        Seq::empty()
    } else {
        let i = crate::kitty::first_from(s, '\n', 0);
        let end = if i < s.len() {
            i + 1
        } else {
            s.len() as int
        };
        proof {
            crate::rich::lemma_first_from_bounds(s, '\n', 0);
        }
        seq![s.subrange(0, end)] + lines_with_endings(s.subrange(end, s.len() as int))
    }
}

proof fn lemma_lines_with_endings(s: Seq<char>)
    ensures
        lines_with_endings(s).flatten() == s,
    decreases s.len(),
{
    if s.len() > 0 {
        let i = crate::kitty::first_from(s, '\n', 0);
        crate::rich::lemma_first_from_bounds(s, '\n', 0);
        let end = if i < s.len() {
            i + 1
        } else {
            s.len() as int
        };
        let rest = s.subrange(end, s.len() as int);
        lemma_lines_with_endings(rest);
        let l = seq![s.subrange(0, end)] + lines_with_endings(rest);
        assert(l.drop_first() =~= lines_with_endings(rest));
        assert(s =~= s.subrange(0, end) + rest);
    }
}

/// `j` is the first position of `c` in `s` from `i` on (or its length)
/// when no `c` comes between `i` and `j` and `c` stands at `j`.
proof fn lemma_first_from_is(s: Seq<char>, c: char, i: int, j: int)
    requires
        0 <= i <= j <= s.len(),
        forall|k: int| i <= k < j ==> s[k] != c,
        j < s.len() ==> s[j] == c,
    ensures
        crate::kitty::first_from(s, c, i) == j,
    decreases j - i,
{
    if i < j {
        lemma_first_from_is(s, c, i + 1, j);
    }
}

/// Highlights code with one of the default themes.
pub struct CodeHighlighter {
    sets: DefaultSets,
    theme: &'static str,
}

impl CodeHighlighter {
    pub closed spec fn theme_name(&self) -> Seq<char> {
        self.theme@
    }

    pub fn new(theme: SyntaxHighlightTheme) -> (h: Self)
        ensures
            is_default_theme(h.theme_name()),
            h.theme_name() == theme.name(),
    {
        let name = theme.as_str();
        proof {
            reveal_strlit("base16-ocean.dark");
            reveal_strlit("base16-ocean.light");
            reveal_strlit("base16-mocha.dark");
            reveal_strlit("base16-eighties.dark");
            reveal_strlit("InspiredGitHub");
            reveal_strlit("Solarized (dark)");
            reveal_strlit("Solarized (light)");
        }
        CodeHighlighter { sets: DefaultSets::load(), theme: name }
    }

    /// The pieces of `code` with the colors of the language's syntax: each
    /// line, with its line break, goes through one highlighter in turn, and a
    /// line that cannot be highlighted comes whole and without color. The
    /// language is found by its name or extension; plain text when there is
    /// none.
    pub fn highlight<'c>(&self, language: &str, code: &'c str) -> (r: Vec<(&'c str, Option<(u8, u8, u8)>)>)
        requires
            is_default_theme(self.theme_name()),
        ensures
            pieces_view(r@) == code_pieces(language@, self.theme_name(), code@),
            piece_texts(r@) == code@,
    {
        let mut h = LineHighlighter::start(&self.sets, language, self.theme);
        let mut out: Vec<(&'c str, Option<(u8, u8, u8)>)> = Vec::new();
        let n = code.unicode_len();
        let mut start: usize = 0;
        let ghost s = code@;
        let ghost lines = lines_with_endings(s);
        let ghost key = syntax_key(language@);
        let ghost th = self.theme_name();
        let ghost mut k: int = 0;
        proof {
            lemma_lines_with_endings(s);
            assert(s.subrange(0, n as int) =~= s);
            assert(lines.skip(0) =~= lines);
            assert(lines.take(0) =~= Seq::<Seq<char>>::empty());
            assert(pieces_view(out@) =~= Seq::empty());
        }
        while start < n
            invariant
                start <= n == s.len(),
                s == code@,
                lines == lines_with_endings(s),
                0 <= k <= lines.len(),
                lines_with_endings(s.subrange(start as int, n as int)) == lines.skip(k),
                h.syntax() == key,
                h.theme() == th,
                h.fed() == lines.take(k),
                pieces_view(out@) == lines_pieces(key, th, lines, k),
                piece_texts(out@) + s.subrange(start as int, n as int) == s,
            decreases n - start,
        {
            let mut i = start;
            while i < n && code.get_char(i) != '\n'
                invariant
                    start <= i <= n == s.len(),
                    s == code@,
                    forall|q: int| start <= q < i ==> s[q] != '\n',
                decreases n - i,
            {
                i = i + 1;
            }
            let end = if i < n {
                i + 1
            } else {
                n
            };
            let line = code.substring_char(start, end);
            proof {
                let sub = s.subrange(start as int, n as int);
                lemma_first_from_is(sub, '\n', 0, i - start);
                assert(sub.subrange(0, end - start) =~= line@);
                assert(sub.subrange(end - start, sub.len() as int) =~= s.subrange(end as int, n as int));
                assert(lines.skip(k).len() > 0);
                assert(lines.skip(k)[0] == line@);
                assert(lines[k] == line@);
                assert(lines.skip(k + 1) =~= lines.skip(k).drop_first());
                assert(lines.take(k + 1) =~= lines.take(k).push(line@));
            }
            let ghost before = out@;
            match highlight_line(&mut h, line, &self.sets) {
                Some(spans) => {
                    let ghost sv = spans@.map_values(|x: (&str, (u8, u8, u8))| (x.0@, x.1));
                    let mut j: usize = 0;
                    while j < spans.len()
                        invariant
                            j <= spans@.len(),
                            span_texts(spans@) == line@,
                            sv == spans@.map_values(|x: (&str, (u8, u8, u8))| (x.0@, x.1)),
                            pieces_view(out@) == pieces_view(before) + sv.take(j as int).map_values(
                                |x: (Seq<char>, (u8, u8, u8))| (x.0, Some(x.1)),
                            ),
                            piece_texts(out@) == piece_texts(before) + span_texts(
                                spans@.take(j as int),
                            ),
                        decreases spans.len() - j,
                    {
                        let (t, c) = spans[j];
                        let ghost b2 = out@;
                        out.push((t, Some(c)));
                        proof {
                            assert(pieces_view(out@) =~= pieces_view(b2).push((t@, Some(c))));
                            assert(sv.take(j + 1).map_values(|x: (Seq<char>, (u8, u8, u8))| (x.0, Some(x.1)))
                                =~= sv.take(j as int).map_values(
                                |x: (Seq<char>, (u8, u8, u8))| (x.0, Some(x.1)),
                            ).push((t@, Some(c))));
                            assert(out@.map_values(|x: (&str, Option<(u8, u8, u8)>)| x.0@) =~= b2.map_values(
                                |x: (&str, Option<(u8, u8, u8)>)| x.0@,
                            ).push(t@));
                            b2.map_values(|x: (&str, Option<(u8, u8, u8)>)| x.0@).lemma_flatten_push(
                                t@,
                            );
                            assert(spans@.take(j + 1).map_values(|x: (&str, (u8, u8, u8))| x.0@)
                                =~= spans@.take(j as int).map_values(|x: (&str, (u8, u8, u8))| x.0@).push(
                                t@,
                            ));
                            spans@.take(j as int).map_values(|x: (&str, (u8, u8, u8))| x.0@).lemma_flatten_push(
                                t@,
                            );
                        }
                        j = j + 1;
                    }
                    proof {
                        assert(spans@.take(j as int) =~= spans@);
                        assert(sv.take(j as int) =~= sv);
                        assert(pieces_view(out@) =~= pieces_view(before) + line_pieces(
                            key,
                            th,
                            lines.take(k),
                            lines[k],
                        ));
                    }
                },
                None => {
                    out.push((line, None));
                    proof {
                        assert(pieces_view(out@) =~= pieces_view(before).push((line@, None)));
                        assert(pieces_view(out@) =~= pieces_view(before) + line_pieces(
                            key,
                            th,
                            lines.take(k),
                            lines[k],
                        ));
                        assert(out@.map_values(|x: (&str, Option<(u8, u8, u8)>)| x.0@) =~= before.map_values(
                            |x: (&str, Option<(u8, u8, u8)>)| x.0@,
                        ).push(line@));
                        before.map_values(|x: (&str, Option<(u8, u8, u8)>)| x.0@).lemma_flatten_push(
                            line@,
                        );
                    }
                },
            }
            proof {
                assert(piece_texts(out@) == piece_texts(before) + line@);
                assert(s.subrange(start as int, n as int) =~= line@ + s.subrange(end as int, n as int));
                k = k + 1;
            }
            start = end;
        }
        proof {
            assert(s.subrange(n as int, n as int) =~= Seq::<char>::empty());
            assert(piece_texts(out@) =~= s);
            assert(lines.skip(k).len() == 0);
            assert(k == lines.len());
        }
        out
    }
}

/// The ANSI text of highlighted pieces: each colored piece between the
/// escape sequence of its color and a reset.
pub open spec fn pieces_ansi(v: Seq<(Seq<char>, Option<(u8, u8, u8)>)>) -> Seq<char>
    decreases v.len(),
{
    if v.len() == 0 {
        Seq::empty()
    } else {
        pieces_ansi(v.drop_last()) + match v.last().1 {
            Some((r, g, b)) => tag_sequence(AnsiTag::FgTrueColor(r, g, b)) + v.last().0
                + tag_sequence(AnsiTag::Reset),
            None => v.last().0,
        }
    }
}

/// Writes highlighted pieces as ANSI text.
pub fn push_highlighted(writer: &mut AnsiWriter, pieces: &Vec<(&str, Option<(u8, u8, u8)>)>)
    ensures
        final(writer)@ == old(writer)@ + pieces_ansi(pieces_view(pieces@)),
{
    let mut i: usize = 0;
    while i < pieces.len()
        invariant
            i <= pieces@.len(),
            writer@ == old(writer)@ + pieces_ansi(pieces_view(pieces@.take(i as int))),
        decreases pieces.len() - i,
    {
        let (s, color) = pieces[i];
        let ghost before = writer@;
        match color {
            Some((r, g, b)) => {
                writer.push_tag(AnsiTag::FgTrueColor(r, g, b));
                writer.push_str(s);
                writer.push_tag(AnsiTag::Reset);
            },
            None => {
                writer.push_str(s);
            },
        }
        proof {
            let t = pieces_view(pieces@.take(i + 1));
            assert(t.drop_last() =~= pieces_view(pieces@.take(i as int)));
            assert(writer@ =~= old(writer)@ + pieces_ansi(t));
        }
        i = i + 1;
    }
    assert(pieces@.take(i as int) =~= pieces@);
    assert(pieces_view(pieces@.take(i as int)) =~= pieces_view(pieces@));
}

} // verus!
