//! What the search, tags and settings pages draw: lines of text, their text
//! fields and lists, where each goes, and the shortcuts they offer.
use vstd::prelude::*;

use crate::decimal::{decimal, push_decimal};
use crate::formatting::format_int;
use crate::geometry::Rect;
use crate::markup::Alignment;
use crate::search_page::{current_result, SearchPage};
use crate::settings::Settings;
use crate::settings_page::{settings_order, Setting, SettingsPage};
use crate::style::Color;
use crate::tags_page::{TagsPage, TagsState, TagsView};
use crate::text::push_str;

verus! {

/// A piece of a page's frame.
pub enum FramePiece {
    /// A line of text, in the color `fg` (the plain style when none),
    /// placed in `area` as `alignment` says.
    Line { text: String, fg: Option<Color>, alignment: Alignment, area: Rect },
    /// The page's text field `index` (the first, or the only one), in `area`.
    Field { index: usize, area: Rect },
    /// The question whether a tag's cards go with it, answered `yes` or
    /// not, centred in `area`.
    Choice { yes: bool, area: Rect },
    /// The page's list, in `area`.
    List { area: Rect },
    /// The markup of the card shown, in `area`.
    Markup { area: Rect },
}

/// A piece of a frame as plain values.
pub enum PieceView {
    Line(Seq<char>, Option<Color>, Alignment, Rect),
    Field(usize, Rect),
    Choice(bool, Rect),
    List(Rect),
    Markup(Rect),
}

pub open spec fn piece_view(p: FramePiece) -> PieceView {
    match p {
        FramePiece::Line { text, fg, alignment, area } => PieceView::Line(text@, fg, alignment, area),
        FramePiece::Field { index, area } => PieceView::Field(index, area),
        FramePiece::Choice { yes, area } => PieceView::Choice(yes, area),
        FramePiece::List { area } => PieceView::List(area),
        FramePiece::Markup { area } => PieceView::Markup(area),
    }
}

/// What a page draws, in order, and the shortcuts it offers, each a name
/// and a key.
pub struct PageFrame {
    pub pieces: Vec<FramePiece>,
    pub shortcuts: Vec<(&'static str, &'static str)>,
}

/// A frame as plain values.
pub open spec fn frame_view(f: PageFrame) -> (Seq<PieceView>, Seq<(Seq<char>, Seq<char>)>) {
    (
        f.pieces@.map_values(|p: FramePiece| piece_view(p)),
        f.shortcuts@.map_values(|s: (&str, &str)| (s.0@, s.1@)),
    )
}

/// The first row of `area`.
pub open spec fn top_row(a: Rect) -> Rect {
    Rect { height: if a.height > 0 { 1 } else { 0 }, ..a }
}

/// `area` without its first `n` rows.
pub open spec fn below(a: Rect, n: u16) -> Rect {
    let m = if n < a.height {
        n
    } else {
        a.height
    };
    Rect { y: (a.y + m) as u16, height: (a.height - m) as u16, ..a }
}

/// The middle row of `area` (none when it has no rows).
pub open spec fn middle(a: Rect) -> Rect {
    Rect {
        y: (a.y + a.height / 2) as u16,
        height: if a.height > 0 {
            1
        } else {
            0
        },
        ..a
    }
}

/// The row of a text field: about two thirds of the width of `a`, centred,
/// on its first row.
pub open spec fn field_row(a: Rect) -> Rect {
    let width = ((a.width * 16 + 12) / 25) as u16;
    Rect { x: (a.x + (a.width - width) / 2) as u16, width, height: 1, ..a }
}

/// The area lies on the screen.
pub open spec fn on_screen(a: Rect) -> bool {
    a.x + a.width <= u16::MAX && a.y + a.height <= u16::MAX
}

fn top_row_of(a: Rect) -> (r: Rect)
    ensures
        r == top_row(a),
{
    Rect { height: if a.height > 0 { 1 } else { 0 }, ..a }
}

fn below_of(a: Rect, n: u16) -> (r: Rect)
    requires
        on_screen(a),
    ensures
        r == below(a, n),
        on_screen(r),
{
    let m = if n < a.height {
        n
    } else {
        a.height
    };
    Rect { y: a.y + m, height: a.height - m, ..a }
}

fn middle_of(a: Rect) -> (r: Rect)
    requires
        on_screen(a),
    ensures
        r == middle(a),
        on_screen(r),
{
    Rect { y: a.y + a.height / 2, height: if a.height > 0 { 1 } else { 0 }, ..a }
}

fn field_row_of(a: Rect) -> (r: Rect)
    requires
        on_screen(a),
        a.height > 0,
    ensures
        r == field_row(a),
{
    let width = ((a.width as u32 * 16 + 12) / 25) as u16;
    Rect { x: a.x + (a.width - width) / 2, width, height: 1, ..a }
}

fn push_piece(v: &mut Vec<FramePiece>, p: FramePiece)
    ensures
        final(v)@.map_values(|p: FramePiece| piece_view(p)) == old(v)@.map_values(|p: FramePiece| piece_view(p)).push(
            piece_view(p),
        ),
{
    v.push(p);
    assert(final(v)@.map_values(|p: FramePiece| piece_view(p)) =~= old(v)@.map_values(|p: FramePiece| piece_view(p)).push(
        piece_view(p),
    ));
}

fn push_line(v: &mut Vec<FramePiece>, text: &str, fg: Option<Color>, alignment: Alignment, area: Rect)
    ensures
        final(v)@.map_values(|p: FramePiece| piece_view(p)) == old(v)@.map_values(|p: FramePiece| piece_view(p)).push(
            PieceView::Line(text@, fg, alignment, area),
        ),
{
    let mut s = String::new();
    push_str(&mut s, text);
    push_piece(v, FramePiece::Line { text: s, fg, alignment, area });
}

fn push_shortcut(v: &mut Vec<(&'static str, &'static str)>, name: &'static str, key: &'static str)
    ensures
        final(v)@.map_values(|s: (&str, &str)| (s.0@, s.1@)) == old(v)@.map_values(|s: (&str, &str)| (s.0@, s.1@)).push(
            (name@, key@),
        ),
{
    v.push((name, key));
    assert(final(v)@.map_values(|s: (&str, &str)| (s.0@, s.1@)) =~= old(v)@.map_values(
        |s: (&str, &str)| (s.0@, s.1@),
    ).push((name@, key@)));
}

/// The counter of the search page: ` i / n `, counting from one.
pub open spec fn counter_text(index: int, len: int) -> Seq<char> {
    " "@ + decimal((index + 1) as nat) + " / "@ + decimal(len as nat) + " "@
}

/// What the search page draws in `area`, `neutral` being the neutral color:
/// its title; a message when there are no cards at all; else the search
/// field, the counter of the cards found and the card shown, or a message
/// when none is found for a query. Its shortcuts depend on whether the
/// results are browsed.
pub open spec fn search_frame(
    browsing: bool,
    is_empty: bool,
    has_card: bool,
    index: int,
    len: int,
    query: Seq<char>,
    area: Rect,
    neutral: Color,
) -> (Seq<PieceView>, Seq<(Seq<char>, Seq<char>)>) {
    let title = PieceView::Line("Search"@, Some(neutral), Alignment::Center, top_row(area));
    let a = below(area, 2);
    if is_empty {
        (seq![title, PieceView::Line("No cards to search for"@, Some(neutral), Alignment::Center, middle(a))], seq![])
    } else {
        let shortcuts = if browsing {
            (if has_card {
                seq![("Edit"@, "e"@), ("Goto"@, "g"@)]
            } else {
                seq![]
            }) + seq![("Search"@, "s"@)]
        } else {
            seq![("Confirm"@, "Enter"@)]
        };
        let field = if a.height > 0 {
            seq![PieceView::Field(0, field_row(a))]
        } else {
            seq![]
        };
        let a2 = below(a, 2);
        let counter = PieceView::Line(counter_text(index, len), Some(neutral), Alignment::Center, top_row(a2));
        let body = below(a2, 1);
        let rest = if has_card {
            seq![PieceView::Markup(body)]
        } else if query.len() == 0 {
            seq![]
        } else if query.len() < 3 {
            seq![
                PieceView::Line(
                    "Search query must be at least 3 characters"@,
                    Some(neutral),
                    Alignment::Center,
                    middle(body),
                ),
            ]
        } else {
            seq![
                PieceView::Line("No cards found from query"@, Some(neutral), Alignment::Center, middle(body)),
                PieceView::Line(query, Some(neutral), Alignment::Center, below(middle(body), 0)),
            ]
        };
        (seq![title] + field + seq![counter] + rest, shortcuts)
    }
}

impl SearchPage {
    /// What the page draws in `area`.
    pub fn frame(&self, area: Rect, neutral: Color) -> (f: PageFrame)
        requires
            on_screen(area),
        ensures
            frame_view(f) == search_frame(
                self@.browsing,
                self@.is_empty,
                current_result(self@) is Some,
                self@.index,
                self@.results.len() as int,
                self@.query,
                area,
                neutral,
            ),
    {
        let mut pieces: Vec<FramePiece> = Vec::new();
        let mut shortcuts: Vec<(&'static str, &'static str)> = Vec::new();
        push_line(&mut pieces, "Search", Some(neutral), Alignment::Center, top_row_of(area));
        let a = below_of(area, 2);
        if self.is_empty() {
            push_line(&mut pieces, "No cards to search for", Some(neutral), Alignment::Center, middle_of(a));
            let f = PageFrame { pieces, shortcuts };
            assert(frame_view(f).0 =~= search_frame(
                self@.browsing,
                self@.is_empty,
                current_result(self@) is Some,
                self@.index,
                self@.results.len() as int,
                self@.query,
                area,
                neutral,
            ).0);
            assert(frame_view(f).1 =~= Seq::<(Seq<char>, Seq<char>)>::empty());
            return f;
        }
        let has_card = self.current_card().is_some();
        if self.is_browsing() {
            if has_card {
                push_shortcut(&mut shortcuts, "Edit", "e");
                push_shortcut(&mut shortcuts, "Goto", "g");
            }
            push_shortcut(&mut shortcuts, "Search", "s");
        } else {
            push_shortcut(&mut shortcuts, "Confirm", "Enter");
        }
        let ghost before_field = pieces@.map_values(|p: FramePiece| piece_view(p));
        if a.height > 0 {
            push_piece(&mut pieces, FramePiece::Field { index: 0, area: field_row_of(a) });
        }
        let a2 = below_of(a, 2);
        let (index, len) = self.position();
        let mut counter = String::new();
        push_str(&mut counter, " ");
        let number = format_int(index as i128 + 1);
        push_str(&mut counter, number.as_str());
        push_str(&mut counter, " / ");
        push_decimal(&mut counter, len as u64);
        push_str(&mut counter, " ");
        assert(counter@ =~= counter_text(self@.index, self@.results.len() as int));
        push_piece(
            &mut pieces,
            FramePiece::Line { text: counter, fg: Some(neutral), alignment: Alignment::Center, area: top_row_of(a2) },
        );
        let body = below_of(a2, 1);
        if has_card {
            push_piece(&mut pieces, FramePiece::Markup { area: body });
        } else {
            let q = self.query();
            if q.is_empty() {
            } else if self.query_too_short() {
                push_line(
                    &mut pieces,
                    "Search query must be at least 3 characters",
                    Some(neutral),
                    Alignment::Center,
                    middle_of(body),
                );
            } else {
                push_line(&mut pieces, "No cards found from query", Some(neutral), Alignment::Center, middle_of(body));
                let m = middle_of(body);
                push_line(&mut pieces, q, Some(neutral), Alignment::Center, below_of(m, 0));
            }
        }
        let f = PageFrame { pieces, shortcuts };
        let ghost spec = search_frame(
            self@.browsing,
            self@.is_empty,
            current_result(self@) is Some,
            self@.index,
            self@.results.len() as int,
            self@.query,
            area,
            neutral,
        );
        assert(frame_view(f).0 =~= spec.0);
        assert(frame_view(f).1 =~= spec.1);
        f
    }
}

/// The name of the tag at the list's current item, or nothing.
pub open spec fn current_name(v: TagsView) -> Seq<char> {
    if v.list.index < v.tags.len() {
        v.tags[v.list.index as int].1
    } else {
        Seq::empty()
    }
}

/// What the tags page draws in `area`, `neutral` being the neutral color:
/// its title with the number of tags, then the list (or a message when
/// there is no tag), the field that names a new or renamed tag with the
/// message about it, or the question whether a deleted tag's cards go too.
pub open spec fn tags_frame(v: TagsView, area: Rect, neutral: Color) -> (Seq<PieceView>, Seq<(Seq<char>, Seq<char>)>) {
    let title = PieceView::Line("Tags ("@ + decimal(v.tags.len()) + ")"@, Some(neutral), Alignment::Center, top_row(area));
    let a = below(area, 2);
    match v.state {
        TagsState::Browse => if v.tags.len() == 0 {
            (
                seq![title, PieceView::Line("No tags"@, Some(neutral), Alignment::Center, middle(a))],
                seq![("New"@, "n"@)],
            )
        } else {
            (
                seq![title, PieceView::List(a)],
                seq![("New"@, "n"@), ("Edit"@, "e"@), ("Goto"@, "g"@), ("Delete"@, "Del"@)],
            )
        },
        TagsState::Delete(_, yes) => {
            let a1 = below(a, 1);
            let a2 = below(a1, 2);
            (
                seq![
                    title,
                    PieceView::Line("Delete tag"@, None, Alignment::Center, top_row(a)),
                    PieceView::Line(current_name(v), None, Alignment::Center, top_row(a1)),
                ] + (if a2.height > 0 {
                    seq![PieceView::Choice(yes, top_row(a2))]
                } else {
                    seq![]
                }),
                seq![("Yes"@, "y"@), ("No"@, "n"@), ("Toggle"@, "Space"@)],
            )
        },
        _ => {
            let is_new = v.state is New;
            let head = PieceView::Line(
                if is_new {
                    "New tag"@
                } else {
                    "Edit tag"@
                },
                None,
                Alignment::Center,
                top_row(a),
            );
            let a1 = below(a, 1);
            let name = if is_new {
                seq![]
            } else {
                seq![PieceView::Line(current_name(v), None, Alignment::Center, top_row(a1))]
            };
            let a2 = if is_new {
                a1
            } else {
                below(a1, 1)
            };
            let a3 = below(a2, 1);
            let rest = below(a3, 2);
            let field = if a3.height > 0 {
                seq![PieceView::Field(0, field_row(a3))] + (if rest.height > 0 && v.message.len() > 0 {
                    seq![PieceView::Line(v.message, Some(Color::Red), Alignment::Center, top_row(rest))]
                } else {
                    seq![]
                })
            } else {
                seq![]
            };
            (seq![title, head] + name + field, seq![("Confirm"@, "Enter"@), ("Cancel"@, "^c"@)])
        },
    }
}

impl TagsPage {
    /// What the page draws in `area`.
    pub fn frame(&self, area: Rect, neutral: Color) -> (f: PageFrame)
        requires
            on_screen(area),
        ensures
            frame_view(f) == tags_frame(self@, area, neutral),
    {
        let ghost spec = tags_frame(self@, area, neutral);
        let mut pieces: Vec<FramePiece> = Vec::new();
        let mut shortcuts: Vec<(&'static str, &'static str)> = Vec::new();
        let n = self.tags().len();
        let mut title = String::new();
        push_str(&mut title, "Tags (");
        push_decimal(&mut title, n as u64);
        push_str(&mut title, ")");
        proof {
            assert(self@.tags.len() == n);
        }
        push_piece(
            &mut pieces,
            FramePiece::Line { text: title, fg: Some(neutral), alignment: Alignment::Center, area: top_row_of(area) },
        );
        let a = below_of(area, 2);
        match self.state() {
            TagsState::Browse => {
                if n == 0 {
                    push_line(&mut pieces, "No tags", Some(neutral), Alignment::Center, middle_of(a));
                    push_shortcut(&mut shortcuts, "New", "n");
                } else {
                    push_piece(&mut pieces, FramePiece::List { area: a });
                    push_shortcut(&mut shortcuts, "New", "n");
                    push_shortcut(&mut shortcuts, "Edit", "e");
                    push_shortcut(&mut shortcuts, "Goto", "g");
                    push_shortcut(&mut shortcuts, "Delete", "Del");
                }
            },
            TagsState::Delete(_, yes) => {
                push_line(&mut pieces, "Delete tag", None, Alignment::Center, top_row_of(a));
                let a1 = below_of(a, 1);
                let name = match self.current_tag_name() {
                    Some(s) => s,
                    None => "",
                };
                proof {
                    reveal_strlit("");
                    assert(name@ =~= current_name(self@));
                }
                push_line(&mut pieces, name, None, Alignment::Center, top_row_of(a1));
                let a2 = below_of(a1, 2);
                if a2.height > 0 {
                    push_piece(&mut pieces, FramePiece::Choice { yes, area: top_row_of(a2) });
                }
                push_shortcut(&mut shortcuts, "Yes", "y");
                push_shortcut(&mut shortcuts, "No", "n");
                push_shortcut(&mut shortcuts, "Toggle", "Space");
            },
            state => {
                let is_new = match state {
                    TagsState::New => true,
                    _ => false,
                };
                push_line(
                    &mut pieces,
                    if is_new {
                        "New tag"
                    } else {
                        "Edit tag"
                    },
                    None,
                    Alignment::Center,
                    top_row_of(a),
                );
                let a1 = below_of(a, 1);
                let a2 = if is_new {
                    a1
                } else {
                    let name = match self.current_tag_name() {
                        Some(s) => s,
                        None => "",
                    };
                    proof {
                        reveal_strlit("");
                        assert(name@ =~= current_name(self@));
                    }
                    push_line(&mut pieces, name, None, Alignment::Center, top_row_of(a1));
                    below_of(a1, 1)
                };
                let a3 = below_of(a2, 1);
                if a3.height > 0 {
                    push_piece(&mut pieces, FramePiece::Field { index: 0, area: field_row_of(a3) });
                    let rest = below_of(a3, 2);
                    let message = self.message();
                    if rest.height > 0 && !message.is_empty() {
                        push_line(&mut pieces, message, Some(Color::Red), Alignment::Center, top_row_of(rest));
                    }
                }
                push_shortcut(&mut shortcuts, "Confirm", "Enter");
                push_shortcut(&mut shortcuts, "Cancel", "^c");
            },
        }
        let f = PageFrame { pieces, shortcuts };
        assert(frame_view(f).0 =~= spec.0);
        assert(frame_view(f).1 =~= spec.1);
        f
    }
}

/// The text of a line of the settings page.
pub open spec fn setting_label(s: Setting) -> Seq<char> {
    match s {
        Setting::General => "GENERAL"@,
        Setting::DesiredRetention => "Desired retention"@,
        Setting::Colors => "COLORS"@,
        Setting::PrimaryColor => "Primary color"@,
        Setting::SecondaryColor => "Secondary color"@,
        Setting::NeutralColor => "Neutral color"@,
        Setting::Empty => ""@,
    }
}

fn setting_label_str(s: Setting) -> (r: &'static str)
    ensures
        r@ == setting_label(s),
{
    match s {
        Setting::General => "GENERAL",
        Setting::DesiredRetention => "Desired retention",
        Setting::Colors => "COLORS",
        Setting::PrimaryColor => "Primary color",
        Setting::SecondaryColor => "Secondary color",
        Setting::NeutralColor => "Neutral color",
        Setting::Empty => "",
    }
}

/// The left half of a row, where a setting's name goes.
pub open spec fn left_half(line: Rect) -> Rect {
    Rect { width: (line.width / 2) as u16, ..line }
}

/// The right half of a row after a gap of one column, where a setting's
/// value goes.
pub open spec fn right_half(line: Rect) -> Rect {
    let left = left_half(line);
    Rect {
        x: (left.x + left.width + 1) as u16,
        width: if left.width >= 1 {
            (left.width - 1) as u16
        } else {
            0
        },
        ..line
    }
}

/// What row `line` of the settings page shows for setting `s`: a heading
/// centred in the neutral color, nothing, or the setting's name on the left
/// (behind `> ` when it is selected) and its value on the right: the
/// retention in percent, or the color's field.
pub open spec fn setting_row(s: Setting, selected: bool, line: Rect, retention: u8, neutral: Color) -> Seq<PieceView> {
    let label = (if selected {
        "> "@
    } else {
        Seq::empty()
    }) + setting_label(s) + ":"@;
    let name = PieceView::Line(label, None, Alignment::Right, left_half(line));
    match s {
        Setting::General | Setting::Colors => seq![
            PieceView::Line(setting_label(s), Some(neutral), Alignment::Center, line),
        ],
        Setting::Empty => seq![],
        Setting::DesiredRetention => seq![
            name,
            PieceView::Line(decimal(retention as nat) + "%"@, None, Alignment::Left, right_half(line)),
        ],
        Setting::PrimaryColor => seq![name, PieceView::Field(0, right_half(line))],
        Setting::SecondaryColor => seq![name, PieceView::Field(1, right_half(line))],
        Setting::NeutralColor => seq![name, PieceView::Field(2, right_half(line))],
    }
}

/// The first `k` rows of the settings page in `area`.
pub open spec fn settings_rows(current: Setting, area: Rect, retention: u8, neutral: Color, k: int) -> Seq<PieceView>
    decreases k,
{
    if k <= 0 {
        Seq::empty()
    } else {
        let s = settings_order()[k - 1];
        settings_rows(current, area, retention, neutral, k - 1) + setting_row(
            s,
            s == current,
            Rect { y: (area.y + k - 1) as u16, height: 1, ..area },
            retention,
            neutral,
        )
    }
}

/// How many rows of the settings page fit in `area`, one row being kept
/// free at the bottom.
pub open spec fn settings_row_count(area: Rect) -> int {
    if area.height == 0 {
        0
    } else if area.height - 1 < 9 {
        area.height - 1
    } else {
        9
    }
}

/// What the settings page draws in `area`, `current` being the selected
/// setting: the rows that fit, and at the bottom, when the area is taller
/// than ten rows, what the selected setting is for. Its shortcuts: how to
/// change the selected setting, saving when the settings are not saved, and
/// resetting all.
pub open spec fn settings_frame(current: Setting, is_saved: bool, retention: u8, area: Rect, neutral: Color) -> (
    Seq<PieceView>,
    Seq<(Seq<char>, Seq<char>)>,
) {
    let rows = settings_rows(current, area, retention, neutral, settings_row_count(area));
    let is_color = current == Setting::PrimaryColor || current == Setting::SecondaryColor || current
        == Setting::NeutralColor;
    let description = if current == Setting::DesiredRetention {
        "Set desired retention in percent"@
    } else {
        "Set color by name, hex code or indexed value"@
    };
    let shown = (current == Setting::DesiredRetention || is_color) && area.height > 10;
    let pieces = rows + (if shown {
        seq![
            PieceView::Line(
                description,
                Some(neutral),
                Alignment::Center,
                Rect { y: (area.y + area.height - 1) as u16, height: 1, ..area },
            ),
        ]
    } else {
        seq![]
    });
    let change = if current == Setting::DesiredRetention {
        seq![("Increment/Decrement"@, "←→"@)]
    } else if is_color {
        seq![("Set color"@, "Enter"@)]
    } else {
        seq![]
    };
    let save = if is_saved {
        seq![]
    } else {
        seq![("Save"@, "^s"@)]
    };
    (pieces, change + save + seq![("Reset all"@, "^r"@)])
}

impl SettingsPage {
    /// What the page draws in `area` for `settings`.
    pub fn frame(&self, settings: &Settings, area: Rect, neutral: Color) -> (f: PageFrame)
        requires
            self.wf(),
            on_screen(area),
            area.x + area.width < u16::MAX,
        ensures
            frame_view(f) == settings_frame(
                settings_order()[self@.list.index],
                self@.is_saved,
                settings.general.desired_retention,
                area,
                neutral,
            ),
    {
        let current = self.current();
        let retention = settings.desired_retention();
        let mut pieces: Vec<FramePiece> = Vec::new();
        let mut shortcuts: Vec<(&'static str, &'static str)> = Vec::new();
        let count: u16 = if area.height == 0 {
            0
        } else if area.height - 1 < 9 {
            area.height - 1
        } else {
            9
        };
        let mut row: u16 = 0;
        while row < count
            invariant
                row <= count,
                count as int == settings_row_count(area),
                on_screen(area),
                area.x + area.width < u16::MAX,
                pieces@.map_values(|p: FramePiece| piece_view(p)) == settings_rows(
                    current,
                    area,
                    retention,
                    neutral,
                    row as int,
                ),
            decreases count - row,
        {
            let s = crate::settings_page::setting_at(row as usize);
            let line = Rect { y: area.y + row, height: 1, ..area };
            let left = Rect { width: line.width / 2, ..line };
            let right = Rect {
                x: left.x + left.width + 1,
                width: if left.width >= 1 {
                    left.width - 1
                } else {
                    0
                },
                ..line
            };
            let text = setting_label_str(s);
            let mut label = String::new();
            if s == current {
                push_str(&mut label, "> ");
            }
            push_str(&mut label, text);
            push_str(&mut label, ":");
            proof {
                if s == current {
                    assert(label@ =~= "> "@ + setting_label(s) + ":"@);
                } else {
                    assert(label@ =~= Seq::<char>::empty() + setting_label(s) + ":"@);
                }
            }
            match s {
                Setting::General | Setting::Colors => {
                    push_line(&mut pieces, text, Some(neutral), Alignment::Center, line);
                },
                Setting::Empty => {},
                Setting::DesiredRetention => {
                    push_piece(
                        &mut pieces,
                        FramePiece::Line { text: label, fg: None, alignment: Alignment::Right, area: left },
                    );
                    let mut value = String::new();
                    push_decimal(&mut value, retention as u64);
                    push_str(&mut value, "%");
                    push_piece(
                        &mut pieces,
                        FramePiece::Line { text: value, fg: None, alignment: Alignment::Left, area: right },
                    );
                },
                _ => {
                    push_piece(
                        &mut pieces,
                        FramePiece::Line { text: label, fg: None, alignment: Alignment::Right, area: left },
                    );
                    let index: usize = match s {
                        Setting::PrimaryColor => 0,
                        Setting::SecondaryColor => 1,
                        _ => 2,
                    };
                    push_piece(&mut pieces, FramePiece::Field { index, area: right });
                },
            }
            row = row + 1;
            assert(pieces@.map_values(|p: FramePiece| piece_view(p)) =~= settings_rows(
                current,
                area,
                retention,
                neutral,
                row as int,
            ));
        }
        let is_color = current == Setting::PrimaryColor || current == Setting::SecondaryColor || current
            == Setting::NeutralColor;
        if (current == Setting::DesiredRetention || is_color) && area.height > 10 {
            let description = if current == Setting::DesiredRetention {
                "Set desired retention in percent"
            } else {
                "Set color by name, hex code or indexed value"
            };
            push_line(
                &mut pieces,
                description,
                Some(neutral),
                Alignment::Center,
                Rect { y: area.y + area.height - 1, height: 1, ..area },
            );
        }
        if current == Setting::DesiredRetention {
            push_shortcut(&mut shortcuts, "Increment/Decrement", "←→");
        } else if is_color {
            push_shortcut(&mut shortcuts, "Set color", "Enter");
        }
        if !self.is_saved() {
            push_shortcut(&mut shortcuts, "Save", "^s");
        }
        push_shortcut(&mut shortcuts, "Reset all", "^r");
        let f = PageFrame { pieces, shortcuts };
        let ghost spec = settings_frame(current, self@.is_saved, retention, area, neutral);
        assert(frame_view(f).0 =~= spec.0);
        assert(frame_view(f).1 =~= spec.1);
        f
    }
}

} // verus!
