//! A one-line text input with a cursor and a selection, edited grapheme
//! cluster by grapheme cluster. Positions count chars.
use vstd::prelude::*;
use vstd::string::StrSliceExecFns;

use crate::hash::hash_fast;
use crate::scroll::Scrollbar;
use crate::keys::Key;
use crate::style::{Color, Modifier, Style};
use crate::text::{
    all_white_space, any_white_space, chars_of, grapheme_clusters, graphemes_of, is_whitespace,
    push_str, splice, str_all_whitespace, str_any_whitespace, str_width, trim_slice, trimmed,
};

verus! {

pub enum CursorMove {
    Forward,
    Back,
    Up,
    Down,
    Start,
    End,
}

pub enum CursorDelete {
    Forward,
    Back,
    Selection,
}

/// The colors of a text input.
#[derive(Debug, Clone, Copy, PartialEq, Eq, Structural)]
pub struct TextInputColors {
    pub normal: Color,
    pub cursor: Color,
    pub selector: Color,
    pub placeholder: Color,
    pub disabled: Color,
}

impl TextInputColors {
    pub fn new() -> (c: Self)
        ensures
            c == (TextInputColors {
                normal: Color::Reset,
                cursor: Color::White,
                selector: Color::DarkGray,
                placeholder: Color::DarkGray,
                disabled: Color::DarkGray,
            }),
    {
        TextInputColors {
            normal: Color::Reset,
            cursor: Color::White,
            selector: Color::DarkGray,
            placeholder: Color::DarkGray,
            disabled: Color::DarkGray,
        }
    }

    /// The same color for everything.
    pub fn all(color: Color) -> (c: Self)
        ensures
            c == (TextInputColors {
                normal: color,
                cursor: color,
                selector: color,
                placeholder: color,
                disabled: color,
            }),
    {
        TextInputColors {
            normal: color,
            cursor: color,
            selector: color,
            placeholder: color,
            disabled: color,
        }
    }
}

impl Default for TextInputColors {
    fn default() -> (c: Self)
        ensures
            c == (TextInputColors {
                normal: Color::Reset,
                cursor: Color::White,
                selector: Color::DarkGray,
                placeholder: Color::DarkGray,
                disabled: Color::DarkGray,
            }),
    {
        TextInputColors::new()
    }
}

/// The text, the cursor and the selection's other end.
pub struct InputState {
    pub text: Seq<char>,
    pub cursor: int,
    pub selector: Option<int>,
}

/// The selected chars between the cursor and the selector, if any.
pub open spec fn sel_range(cursor: int, selector: int) -> Option<(int, int)> {
    if cursor < selector {
        Some((cursor, selector))
    } else if cursor > selector {
        Some((selector, cursor))
    } else {
        None
    }
}

/// The state after the selection is deleted, and whether text was deleted;
/// the selector is dropped either way.
pub open spec fn deleted_selection(st: InputState) -> (InputState, bool) {
    let none = InputState { selector: None, ..st };
    match st.selector {
        None => (none, false),
        Some(s) => match sel_range(st.cursor, s) {
            None => (none, false),
            Some((a, b)) => (
                InputState {
                    text: st.text.subrange(0, a) + st.text.subrange(b, st.text.len() as int),
                    cursor: a,
                    selector: None,
                },
                true,
            ),
        },
    }
}

/// What typing a char puts in: a space for white space, else the char.
pub open spec fn typed_char(c: char) -> char {
    if crate::text::is_white_space(c) {
        ' '
    } else {
        c
    }
}

/// What pasting text puts in: its grapheme clusters, each one that holds
/// white space made a single space.
pub open spec fn typed_text(s: Seq<char>) -> Seq<char> {
    grapheme_clusters(s).map_values(
        |g: Seq<char>|
            if any_white_space(g) {
                seq![' ']
            } else {
                g
            },
    ).flatten()
}

/// The length of the grapheme cluster after the cursor, or zero at the end.
pub open spec fn next_len(text: Seq<char>, cursor: int) -> int {
    if cursor < text.len() {
        grapheme_clusters(text.subrange(cursor, text.len() as int))[0].len() as int
    } else {
        0
    }
}

/// The length of the grapheme cluster before the cursor, or zero at the start.
pub open spec fn prev_len(text: Seq<char>, cursor: int) -> int {
    if cursor > 0 {
        grapheme_clusters(text.subrange(0, cursor)).last().len() as int
    } else {
        0
    }
}

/// The selector after a move: kept or started with `shift`, else dropped,
/// and dropped when it lands on the cursor.
pub open spec fn moved_selector(st: InputState, shift: bool, cursor: int) -> Option<int> {
    let sel = if shift {
        if st.selector is None {
            Some(st.cursor)
        } else {
            st.selector
        }
    } else {
        None
    };
    if sel == Some(cursor) {
        None
    } else {
        sel
    }
}

/// Where a move puts the cursor.
pub open spec fn move_target(st: InputState, cm: CursorMove) -> int {
    match cm {
        CursorMove::Forward => st.cursor + next_len(st.text, st.cursor),
        CursorMove::Back => st.cursor - prev_len(st.text, st.cursor),
        CursorMove::Up | CursorMove::Start => 0,
        CursorMove::Down | CursorMove::End => st.text.len() as int,
    }
}

/// The state after a delete, and whether anything was deleted.
pub open spec fn deleted(st: InputState, cd: CursorDelete) -> (InputState, bool) {
    let (d, did) = deleted_selection(st);
    match cd {
        CursorDelete::Selection => (d, did),
        CursorDelete::Forward => if did {
            (d, true)
        } else if d.cursor < d.text.len() {
            let n = next_len(d.text, d.cursor);
            (
                InputState {
                    text: d.text.subrange(0, d.cursor) + d.text.subrange(d.cursor + n, d.text.len() as int),
                    ..d
                },
                true,
            )
        } else {
            (d, false)
        },
        CursorDelete::Back => if did {
            (d, true)
        } else if d.cursor > 0 {
            let n = prev_len(d.text, d.cursor);
            (
                InputState {
                    text: d.text.subrange(0, d.cursor - n) + d.text.subrange(d.cursor, d.text.len() as int),
                    cursor: d.cursor - n,
                    ..d
                },
                true,
            )
        } else {
            (d, false)
        },
    }
}

/// The state after a cursor move, `shift` extending the selection.
pub open spec fn moved_state(st: InputState, cm: CursorMove, shift: bool) -> InputState {
    let c = move_target(st, cm);
    InputState { text: st.text, cursor: c, selector: moved_selector(st, shift, c) }
}

/// The state after typing `c` in place of the selection.
pub open spec fn typed_state(st: InputState, c: char) -> InputState {
    let d = deleted_selection(st).0;
    InputState { text: d.text.insert(d.cursor, typed_char(c)), cursor: d.cursor + 1, selector: None }
}

/// Whether the cursor or the selector differ.
pub open spec fn cursor_moved(a: InputState, b: InputState) -> bool {
    a.cursor != b.cursor || a.selector != b.selector
}

/// The state after a key, with the state of the control and shift keys, and
/// whether anything changed: the arrows, Home and End move the cursor,
/// Backspace and Delete delete, control-a selects all, other chars are typed.
pub open spec fn key_effect(st: InputState, key: Key, ctrl: bool, shift: bool) -> (InputState, bool) {
    let mv = |cm: CursorMove| (moved_state(st, cm, shift), cursor_moved(st, moved_state(st, cm, shift)));
    match key {
        Key::Right => mv(CursorMove::Forward),
        Key::Left => mv(CursorMove::Back),
        Key::Up => mv(CursorMove::Up),
        Key::Down => mv(CursorMove::Down),
        Key::Home => mv(CursorMove::Start),
        Key::End => mv(CursorMove::End),
        Key::Backspace => deleted(st, CursorDelete::Back),
        Key::Delete => deleted(st, CursorDelete::Forward),
        Key::Char(c) => if c == 'a' && ctrl {
            let all = InputState { text: st.text, cursor: st.text.len() as int, selector: Some(0) };
            (all, cursor_moved(st, all))
        } else {
            (typed_state(st, c), true)
        },
        _ => (st, false),
    }
}

/// In a one-line input, moving keeps the text; Home, Start and Up go to the
/// start of the text and End, Down to its end, from anywhere; Forward stays
/// at the end and Back at the start. Without shift nothing is selected after
/// a move; with shift a selection starts where the cursor was, or keeps its
/// other end, unless that is where the cursor lands.
pub proof fn law_input_moves(st: InputState, cm: CursorMove, shift: bool)
    ensures
        moved_state(st, cm, shift).text == st.text,
        cm == CursorMove::Start || cm == CursorMove::Up ==> moved_state(st, cm, shift).cursor == 0,
        cm == CursorMove::End || cm == CursorMove::Down ==> moved_state(st, cm, shift).cursor == st.text.len(),
        cm == CursorMove::Forward && st.cursor >= st.text.len() ==> moved_state(st, cm, shift).cursor == st.cursor,
        cm == CursorMove::Back && st.cursor <= 0 ==> moved_state(st, cm, shift).cursor == st.cursor,
        !shift ==> moved_state(st, cm, shift).selector is None,
        shift && st.selector is None && moved_state(st, cm, shift).cursor != st.cursor
            ==> moved_state(st, cm, shift).selector == Some(st.cursor),
        key_effect(st, Key::Home, false, shift).0.cursor == 0,
        key_effect(st, Key::End, false, shift).0.cursor == st.text.len(),
        st.selector is None ==> key_effect(st, Key::End, false, false).1 == (st.cursor != st.text.len()),
{
}

/// Typing in a one-line input: with nothing selected, a char goes in at the
/// cursor (white space as a plain space) and the cursor moves past it; with a
/// selection, it takes the selection's place. Control-a selects the whole
/// text. Backspace at the start and Delete at the end of a text with nothing
/// selected change nothing.
pub proof fn law_input_typing(st: InputState, c: char, ctrl: bool)
    requires
        0 <= st.cursor <= st.text.len(),
        st.selector matches Some(s) ==> 0 <= s <= st.text.len(),
    ensures
        !(c == 'a' && ctrl) && st.selector is None ==> {
            let r = key_effect(st, Key::Char(c), ctrl, false);
            &&& r.0.text == st.text.subrange(0, st.cursor) + seq![
                if crate::text::is_white_space(c) {
                    ' '
                } else {
                    c
                },
            ] + st.text.subrange(st.cursor, st.text.len() as int)
            &&& r.0.cursor == st.cursor + 1
            &&& r.0.selector is None
            &&& r.1
        },
        !(c == 'a' && ctrl) && st.selector is Some && st.selector.unwrap() != st.cursor ==> {
            let s = st.selector.unwrap();
            let a = if s < st.cursor {
                s
            } else {
                st.cursor
            };
            let b = if s < st.cursor {
                st.cursor
            } else {
                s
            };
            let r = key_effect(st, Key::Char(c), ctrl, false);
            &&& r.0.text == (st.text.subrange(0, a) + st.text.subrange(b, st.text.len() as int)).insert(
                a,
                typed_char(c),
            )
            &&& r.0.cursor == a + 1
            &&& r.0.selector is None
        },
        key_effect(st, Key::Char('a'), true, false).0 == (InputState {
            text: st.text,
            cursor: st.text.len() as int,
            selector: Some(0),
        }),
        st.selector is None && st.cursor == 0 ==> key_effect(st, Key::Backspace, ctrl, false) == (st, false),
        st.selector is None && st.cursor == st.text.len() ==> key_effect(st, Key::Delete, ctrl, false) == (
            st,
            false,
        ),
{
    if !(c == 'a' && ctrl) && st.selector is None {
        let t = typed_char(c);
        assert(st.text.insert(st.cursor, t) =~= st.text.subrange(0, st.cursor) + seq![t] + st.text.subrange(
            st.cursor,
            st.text.len() as int,
        ));
    }
}

pub struct TextInput {
    input: String,
    placeholder: &'static str,
    cursor: usize,
    selector: Option<usize>,
    scroll: usize,
    disabled: bool,
    margin_top: usize,
    margin_bottom: usize,
    colors: TextInputColors,
    last_width: u16,
}

impl View for TextInput {
    type V = InputState;

    closed spec fn view(&self) -> InputState {
        InputState {
            text: self.input@,
            cursor: self.cursor as int,
            selector: match self.selector {
                Some(s) => Some(s as int),
                None => None,
            },
        }
    }
}

/// The first grapheme cluster of a text that is not empty is not empty and
/// fits in it, and so does the last.
pub proof fn lemma_clusters_fit(s: Seq<char>, gs: Seq<Seq<char>>)
    requires
        s.len() > 0,
        gs.flatten() == s,
        forall|i: int| 0 <= i < gs.len() ==> (#[trigger] gs[i]).len() > 0,
    ensures
        gs.len() > 0,
        1 <= gs[0].len() <= s.len(),
        1 <= gs.last().len() <= s.len(),
{
    if gs.len() == 0 {
        assert(gs.flatten() =~= Seq::<char>::empty());
    }
    assert(gs.flatten() == gs[0] + gs.drop_first().flatten());
    gs.lemma_flatten_and_flatten_alt_are_equivalent();
    assert(gs.flatten_alt() == gs.drop_last().flatten_alt() + gs.last());
}

impl TextInput {
    pub closed spec fn wf(&self) -> bool {
        &&& self.cursor <= self.input@.len()
        &&& self.selector matches Some(s) ==> s <= self.input@.len()
    }

    pub closed spec fn is_disabled(&self) -> bool {
        self.disabled
    }

    pub closed spec fn placeholder_text(&self) -> Seq<char> {
        self.placeholder@
    }

    pub fn new() -> (t: Self)
        ensures
            t.wf(),
            t@ == (InputState { text: Seq::empty(), cursor: 0, selector: None }),
            !t.is_disabled(),
    {
        TextInput::from(String::new())
    }

    pub fn from(s: String) -> (t: Self)
        ensures
            t.wf(),
            t@ == (InputState { text: s@, cursor: 0, selector: None }),
            !t.is_disabled(),
    {
        TextInput {
            input: s,
            placeholder: "",
            cursor: 0,
            selector: None,
            scroll: 0,
            disabled: false,
            margin_top: 0,
            margin_bottom: 0,
            colors: TextInputColors::new(),
            last_width: 0,
        }
    }

    pub fn with_placeholder(self, s: &'static str) -> (t: Self)
        requires
            self.wf(),
        ensures
            t.wf(),
            t@ == self@,
            t.placeholder_text() == s@,
            t.is_disabled() == self.is_disabled(),
    {
        TextInput { placeholder: s, ..self }
    }

    pub fn with_colors(self, colors: TextInputColors) -> (t: Self)
        requires
            self.wf(),
        ensures
            t.wf(),
            t@ == self@,
            t.is_disabled() == self.is_disabled(),
    {
        TextInput { colors, ..self }
    }

    pub fn with_margins(self, top: usize, bottom: usize) -> (t: Self)
        requires
            self.wf(),
        ensures
            t.wf(),
            t@ == self@,
            t.is_disabled() == self.is_disabled(),
    {
        TextInput { margin_top: top, margin_bottom: bottom, ..self }
    }

    pub fn with_disabled(self) -> (t: Self)
        requires
            self.wf(),
        ensures
            t.wf(),
            t@ == self@,
            t.is_disabled(),
    {
        TextInput { disabled: true, ..self }
    }

    pub fn set_colors(&mut self, colors: TextInputColors)
        requires
            old(self).wf(),
        ensures
            final(self).wf(),
            final(self)@ == old(self)@,
            final(self).is_disabled() == old(self).is_disabled(),
    {
        self.colors = colors;
    }

    pub fn set_disabled(&mut self, value: bool)
        requires
            old(self).wf(),
        ensures
            final(self).wf(),
            final(self)@ == old(self)@,
            final(self).is_disabled() == value,
    {
        self.disabled = value;
    }

    pub fn set_enabled(&mut self, value: bool)
        requires
            old(self).wf(),
        ensures
            final(self).wf(),
            final(self)@ == old(self)@,
            final(self).is_disabled() == !value,
    {
        self.set_disabled(!value);
    }

    pub fn is_empty(&self) -> (b: bool)
        ensures
            b == (self@.text.len() == 0),
    {
        self.input.as_str().unicode_len() == 0
    }

    /// Whether the text is nothing but white space.
    pub fn is_empty_trim(&self) -> (b: bool)
        ensures
            b == all_white_space(self@.text),
    {
        str_all_whitespace(self.input.as_str())
    }

    pub fn as_str(&self) -> (s: &str)
        ensures
            s@ == self@.text,
    {
        self.input.as_str()
    }

    /// The text without the white space at its ends.
    pub fn as_str_trim(&self) -> (s: &str)
        ensures
            s@ == trimmed(self@.text, 0, self@.text.len() as int),
    {
        let chars = chars_of(self.input.as_str());
        let n = chars.len();
        trim_slice(self.input.as_str(), &chars, 0, n)
    }

    /// A hash of the text, for this process.
    pub fn hash(&self) -> (h: u64) {
        hash_fast(self.input.as_str())
    }

    /// A hash of the text without the white space at its ends, for this process.
    pub fn hash_trim(&self) -> (h: u64) {
        hash_fast(self.as_str_trim())
    }

    /// Deletes the selected text, if any, and drops the selection.
    fn delete_selection(&mut self) -> (did: bool)
        requires
            old(self).wf(),
        ensures
            final(self).wf(),
            (final(self)@, did) == deleted_selection(old(self)@),
            final(self).is_disabled() == old(self).is_disabled(),
    {
        let Some(selector) = self.selector else {
            return false;
        };
        self.selector = None;
        let (a, b) = if self.cursor < selector {
            (self.cursor, selector)
        } else if self.cursor > selector {
            (selector, self.cursor)
        } else {
            return false;
        };
        self.input = splice(self.input.as_str(), a, b, "");
        self.cursor = a;
        proof {
            reveal_strlit("");
            assert(self@.text =~= old(self)@.text.subrange(0, a as int) + old(self)@.text.subrange(
                b as int,
                old(self)@.text.len() as int,
            ));
        }
        true
    }

    /// Types `c` at the cursor, in place of the selection.
    pub fn push_char(&mut self, c: char)
        requires
            old(self).wf(),
        ensures
            final(self).wf(),
            final(self).is_disabled() == old(self).is_disabled(),
            ({
                let d = deleted_selection(old(self)@).0;
                final(self)@ == InputState {
                    text: d.text.insert(d.cursor, typed_char(c)),
                    cursor: d.cursor + 1,
                    selector: None,
                }
            }),
    {
        self.delete_selection();
        let c = if is_whitespace(c) {
            ' '
        } else {
            c
        };
        let mut t = String::new();
        crate::text::string_push(&mut t, c);
        let ghost before = self@;
        self.input = splice(self.input.as_str(), self.cursor, self.cursor, t.as_str());
        let _len = self.input.as_str().unicode_len();
        self.cursor = self.cursor + 1;
        proof {
            assert(self@.text =~= before.text.insert(before.cursor, c));
        }
    }

    /// Pastes `s` at the cursor, in place of the selection.
    pub fn push_str(&mut self, s: &str)
        requires
            old(self).wf(),
        ensures
            final(self).wf(),
            final(self).is_disabled() == old(self).is_disabled(),
            ({
                let d = deleted_selection(old(self)@).0;
                final(self)@ == InputState {
                    text: d.text.subrange(0, d.cursor) + typed_text(s@) + d.text.subrange(
                        d.cursor,
                        d.text.len() as int,
                    ),
                    cursor: d.cursor + typed_text(s@).len(),
                    selector: None,
                }
            }),
    {
        self.delete_selection();
        let gs = graphemes_of(s);
        let mut t = String::new();
        let mut i: usize = 0;
        let ghost f = |g: Seq<char>|
            if any_white_space(g) {
                seq![' ']
            } else {
                g
            };
        while i < gs.len()
            invariant
                i <= gs@.len(),
                crate::text::strs_view(gs@) == grapheme_clusters(s@),
                f == (|g: Seq<char>|
                    if any_white_space(g) {
                        seq![' ']
                    } else {
                        g
                    }),
                t@ == grapheme_clusters(s@).take(i as int).map_values(f).flatten(),
            decreases gs.len() - i,
        {
            let g = gs[i];
            let ghost before = grapheme_clusters(s@).take(i as int).map_values(f);
            proof {
                reveal_strlit(" ");
                assert(" "@ =~= seq![' ']);
            }
            if str_any_whitespace(g) {
                push_str(&mut t, " ");
            } else {
                push_str(&mut t, g);
            }
            proof {
                let cl = grapheme_clusters(s@);
                assert(cl[i as int] == g@);
                assert(cl.take(i + 1).map_values(f) =~= before.push(f(g@)));
                before.lemma_flatten_push(f(g@));
                assert(t@ =~= cl.take(i + 1).map_values(f).flatten());
            }
            i = i + 1;
        }
        proof {
            assert(grapheme_clusters(s@).take(i as int) =~= grapheme_clusters(s@));
        }
        let n = t.as_str().unicode_len();
        let ghost before = self@;
        self.input = splice(self.input.as_str(), self.cursor, self.cursor, t.as_str());
        let _len = self.input.as_str().unicode_len();
        self.cursor = self.cursor + n;
    }

    /// The length of the grapheme cluster after the cursor, or zero at the end.
    fn next_cluster_len(&self) -> (n: usize)
        requires
            self.wf(),
        ensures
            n == next_len(self@.text, self@.cursor),
            self@.cursor + n <= self@.text.len(),
            self@.text.len() <= usize::MAX,
            self@.cursor < self@.text.len() ==> n >= 1,
    {
        let len = self.input.as_str().unicode_len();
        if self.cursor < len {
            let suffix = self.input.as_str().substring_char(self.cursor, len);
            let gs = graphemes_of(suffix);
            proof {
                let v = crate::text::strs_view(gs@);
                assert forall|i: int| 0 <= i < v.len() implies (#[trigger] v[i]).len() > 0 by {
                    assert(v[i] == gs@[i]@);
                }
                lemma_clusters_fit(suffix@, v);
                assert(v[0] == gs@[0]@);
            }
            gs[0].unicode_len()
        } else {
            0
        }
    }

    /// The length of the grapheme cluster before the cursor, or zero at the start.
    fn prev_cluster_len(&self) -> (n: usize)
        requires
            self.wf(),
        ensures
            n == prev_len(self@.text, self@.cursor),
            n <= self@.cursor,
            self@.cursor > 0 ==> n >= 1,
            self@.text.len() <= usize::MAX,
    {
        let _len = self.input.as_str().unicode_len();
        if self.cursor > 0 {
            let prefix = self.input.as_str().substring_char(0, self.cursor);
            let gs = graphemes_of(prefix);
            proof {
                let v = crate::text::strs_view(gs@);
                assert forall|i: int| 0 <= i < v.len() implies (#[trigger] v[i]).len() > 0 by {
                    assert(v[i] == gs@[i]@);
                }
                lemma_clusters_fit(prefix@, v);
                assert(v.last() == gs@[gs@.len() - 1]@);
            }
            let k = gs.len() - 1;
            gs[k].unicode_len()
        } else {
            0
        }
    }

    /// Moves the cursor, extending the selection with `shift`; tells whether
    /// anything changed.
    pub fn move_cursor(&mut self, cm: CursorMove, shift: bool) -> (changed: bool)
        requires
            old(self).wf(),
        ensures
            final(self).wf(),
            final(self).is_disabled() == old(self).is_disabled(),
            ({
                let c = move_target(old(self)@, cm);
                final(self)@ == InputState {
                    text: old(self)@.text,
                    cursor: c,
                    selector: moved_selector(old(self)@, shift, c),
                }
            }),
            changed == (final(self)@.cursor != old(self)@.cursor || final(self)@.selector != old(
                self,
            )@.selector),
    {
        let old_cursor = self.cursor;
        let old_selector = self.selector;
        if shift {
            if self.selector.is_none() {
                self.selector = Some(self.cursor);
            }
        } else {
            self.selector = None;
        }
        match cm {
            CursorMove::Forward => {
                let n = self.next_cluster_len();
                self.cursor = self.cursor + n;
            },
            CursorMove::Back => {
                let n = self.prev_cluster_len();
                self.cursor = self.cursor - n;
            },
            CursorMove::Up | CursorMove::Start => {
                self.cursor = 0;
            },
            CursorMove::Down | CursorMove::End => {
                self.cursor = self.input.as_str().unicode_len();
            },
        }
        if let Some(s) = self.selector {
            if s == self.cursor {
                self.selector = None;
            }
        }
        self.cursor != old_cursor || !same(self.selector, old_selector)
    }

    /// Selects all the text, with the cursor at its end.
    pub fn select_all(&mut self) -> (changed: bool)
        requires
            old(self).wf(),
        ensures
            final(self).wf(),
            final(self).is_disabled() == old(self).is_disabled(),
            final(self)@ == (InputState {
                text: old(self)@.text,
                cursor: old(self)@.text.len() as int,
                selector: Some(0),
            }),
            changed == (final(self)@.cursor != old(self)@.cursor || final(self)@.selector != old(
                self,
            )@.selector),
    {
        let old_cursor = self.cursor;
        let old_selector = self.selector;
        self.cursor = self.input.as_str().unicode_len();
        self.selector = Some(0);
        self.cursor != old_cursor || !same(self.selector, old_selector)
    }

    /// Deletes the selection, or the grapheme cluster after or before the
    /// cursor; tells whether anything was deleted.
    pub fn delete(&mut self, cd: CursorDelete) -> (did: bool)
        requires
            old(self).wf(),
        ensures
            final(self).wf(),
            final(self).is_disabled() == old(self).is_disabled(),
            (final(self)@, did) == deleted(old(self)@, cd),
    {
        match cd {
            CursorDelete::Selection => self.delete_selection(),
            CursorDelete::Forward => {
                if self.delete_selection() {
                    return true;
                }
                let n = self.next_cluster_len();
                if n == 0 {
                    return false;
                }
                let ghost before = self@;
                self.input = splice(self.input.as_str(), self.cursor, self.cursor + n, "");
                proof {
                    reveal_strlit("");
                    assert(self@.text =~= before.text.subrange(0, before.cursor)
                        + before.text.subrange(before.cursor + n, before.text.len() as int));
                }
                true
            },
            CursorDelete::Back => {
                if self.delete_selection() {
                    return true;
                }
                let n = self.prev_cluster_len();
                if n == 0 {
                    return false;
                }
                let ghost before = self@;
                self.cursor = self.cursor - n;
                self.input = splice(self.input.as_str(), self.cursor, self.cursor + n, "");
                proof {
                    reveal_strlit("");
                    assert(self@.text =~= before.text.subrange(0, before.cursor - n)
                        + before.text.subrange(before.cursor, before.text.len() as int));
                }
                true
            },
        }
    }

    /// Reacts to a key, with the state of the control and shift keys; a
    /// disabled input reacts to none.
    pub fn input(&mut self, key: Key, ctrl: bool, shift: bool) -> (changed: bool)
        requires
            old(self).wf(),
        ensures
            final(self).wf(),
            final(self).is_disabled() == old(self).is_disabled(),
            old(self).is_disabled() ==> final(self)@ == old(self)@ && !changed,
            !old(self).is_disabled() ==> (final(self)@, changed) == key_effect(old(self)@, key, ctrl, shift),
    {
        if self.disabled {
            return false;
        }
        match key {
            Key::Right => self.move_cursor(CursorMove::Forward, shift),
            Key::Left => self.move_cursor(CursorMove::Back, shift),
            Key::Up => self.move_cursor(CursorMove::Up, shift),
            Key::Down => self.move_cursor(CursorMove::Down, shift),
            Key::Home => self.move_cursor(CursorMove::Start, shift),
            Key::End => self.move_cursor(CursorMove::End, shift),
            Key::Backspace => self.delete(CursorDelete::Back),
            Key::Delete => self.delete(CursorDelete::Forward),
            Key::Char(c) => {
                if c == 'a' && ctrl {
                    self.select_all()
                } else {
                    self.push_char(c);
                    true
                }
            },
            _ => false,
        }
    }

    pub fn clear(&mut self)
        requires
            old(self).wf(),
        ensures
            final(self).wf(),
            final(self).is_disabled() == old(self).is_disabled(),
            final(self)@ == (InputState { text: Seq::empty(), cursor: 0, selector: None }),
    {
        self.input = String::new();
        self.cursor = 0;
        self.selector = None;
        self.scroll = 0;
    }
}

/// How a text input is drawn in a line of some width.
pub enum InputPicture<'a> {
    /// The text, or the placeholder when the text is empty, in the disabled
    /// color.
    Disabled(&'a str),
    /// The placeholder, with the cursor on its first cell.
    Placeholder(&'a str),
    /// The grapheme clusters in view with their styles, and whether the
    /// cursor is drawn on the cell after them, at the end of the text.
    Text(Vec<(&'a str, Style)>, bool),
}

/// The chars and style of each cell.
pub open spec fn cells_view(v: Seq<(&str, Style)>) -> Seq<(Seq<char>, Style)> {
    v.map_values(|c: (&str, Style)| (c.0@, c.1))
}

/// The styles of the cursor, of the selection and of other text.
pub open spec fn input_styles(colors: TextInputColors) -> (Style, Style, Style) {
    let reversed = |s: Style| Style { add_modifier: Modifier { reversed: true, ..s.add_modifier }, ..s };
    (
        reversed(Style { fg: Some(colors.cursor), ..Style::spec_new() }),
        reversed(Style { fg: Some(colors.selector), ..Style::spec_new() }),
        Style { fg: Some(colors.normal), ..Style::spec_new() },
    )
}

/// The clusters of `gs` from `k` on that are in view, with their styles: a
/// cluster is in view when the columns up to its end pass `scroll` and do
/// not pass `scroll + max`, and drawing stops at the first one past that.
pub open spec fn cells_from(
    gs: Seq<Seq<char>>,
    k: int,
    off: int,
    acc: int,
    max: int,
    scroll: int,
    cursor: int,
    sel: (int, int),
    styles: (Style, Style, Style),
) -> Seq<(Seq<char>, Style)>
    decreases gs.len() - k,
{
    if k < 0 || k >= gs.len() {
        Seq::empty()
    } else {
        let w = acc + crate::text::display_width(gs[k]);
        if w > max + scroll {
            Seq::empty()
        } else {
            let rest = cells_from(gs, k + 1, off + gs[k].len(), w, max, scroll, cursor, sel, styles);
            if w > scroll {
                let style = if off == cursor {
                    styles.0
                } else if sel.0 <= off < sel.1 {
                    styles.1
                } else {
                    styles.2
                };
                seq![(gs[k], style)] + rest
            } else {
                rest
            }
        }
    }
}

impl TextInput {
    pub closed spec fn colors_of(&self) -> TextInputColors {
        self.colors
    }

    pub closed spec fn scroll_of(&self) -> int {
        self.scroll as int
    }

    pub closed spec fn layout_of(&self) -> (int, int, int) {
        (self.margin_top as int, self.margin_bottom as int, self.last_width as int)
    }

    /// What to draw in a line `width` cells wide: the text from the scroll
    /// column on, which follows the cursor (from the start again when the
    /// width changed).
    pub fn picture(&mut self, width: u16) -> (p: InputPicture<'_>)
        requires
            old(self).wf(),
        ensures
            final(self).wf(),
            final(self)@ == old(self)@,
            final(self).is_disabled() == old(self).is_disabled(),
            old(self).is_disabled() ==> (p matches InputPicture::Disabled(s) && s@ == (if old(
                self,
            )@.text.len() == 0 {
                old(self).placeholder_text()
            } else {
                old(self)@.text
            })),
            !old(self).is_disabled() && old(self)@.text.len() == 0 ==> (p matches InputPicture::Placeholder(
                s,
            ) && s@ == old(self).placeholder_text()),
            !old(self).is_disabled() && old(self)@.text.len() > 0 ==> {
                let st = old(self)@;
                let (mt, mb, last) = old(self).layout_of();
                let s0 = if last != width || old(self).scroll_of() > usize::MAX - 65535 {
                    0
                } else {
                    old(self).scroll_of()
                };
                let s1 = crate::scroll::scroll_with_margins(
                    (crate::text::display_width(st.text) + 1) as int,
                    width as int,
                    st.cursor,
                    s0,
                    mt,
                    mb,
                    0,
                );
                let sel = match st.selector {
                    Some(s) => if st.cursor < s {
                        (st.cursor, s)
                    } else {
                        (s, st.cursor)
                    },
                    None => (st.cursor, st.cursor),
                };
                &&& crate::text::display_width(st.text) < usize::MAX ==> final(self).scroll_of() == (
                if s1 > usize::MAX - 65535 {
                    0
                } else {
                    s1
                })
                &&& p matches InputPicture::Text(cells, at_end) && at_end == (st.cursor
                    == st.text.len()) && cells_view(cells@)
                    == cells_from(
                    grapheme_clusters(st.text),
                    0,
                    0,
                    0,
                    width as int,
                    final(self).scroll_of(),
                    st.cursor,
                    sel,
                    input_styles(old(self).colors_of()),
                )
            },
    {
        if self.disabled {
            if self.input.as_str().unicode_len() == 0 {
                return InputPicture::Disabled(self.placeholder);
            }
            return InputPicture::Disabled(self.input.as_str());
        }
        if self.input.as_str().unicode_len() == 0 {
            return InputPicture::Placeholder(self.placeholder);
        }
        let total_width = str_width(self.input.as_str()).saturating_add(1);
        let scroll = if self.last_width != width || self.scroll > usize::MAX - 65535 {
            0
        } else {
            self.scroll
        };
        self.scroll = Scrollbar::calculate_scroll_with_margins(
            total_width,
            width,
            self.cursor,
            scroll,
            self.margin_top,
            self.margin_bottom,
            0,
        );
        self.last_width = width;
        if self.scroll > usize::MAX - 65535 {
            self.scroll = 0;
        }
        let (sel_start, sel_end) = match self.selector {
            Some(s) => if self.cursor < s {
                (self.cursor, s)
            } else {
                (s, self.cursor)
            },
            None => (self.cursor, self.cursor),
        };
        let cursor_style = Style::new().fg(self.colors.cursor).reversed();
        let selection_style = Style::new().fg(self.colors.selector).reversed();
        let normal_style = Style::new().fg(self.colors.normal);
        let ghost styles = (cursor_style, selection_style, normal_style);
        let max = width as usize;
        let limit = max + self.scroll;
        let gs = graphemes_of(self.input.as_str());
        let ghost cl = crate::text::strs_view(gs@);
        let ghost target = cells_from(
            cl,
            0,
            0,
            0,
            max as int,
            self.scroll as int,
            self.cursor as int,
            (sel_start as int, sel_end as int),
            styles,
        );
        let text_len = self.input.as_str().unicode_len();
        proof {
            assert forall|i: int| 0 <= i < cl.len() implies (#[trigger] cl[i]).len() > 0 by {
                assert(cl[i] == gs@[i]@);
            }
            crate::blocks::lemma_off_mono(cl, 0, cl.len() as int);
        }
        let mut cells: Vec<(&str, Style)> = Vec::new();
        let mut k: usize = 0;
        let mut off: usize = 0;
        let mut acc: usize = 0;
        while k < gs.len()
            invariant
                k <= gs@.len(),
                cl == crate::text::strs_view(gs@),
                acc <= limit,
                limit == max + self.scroll,
                styles == (cursor_style, selection_style, normal_style),
                off as int == crate::blocks::off(cl, k as int),
                cl.flatten() == self.input@,
                text_len == self.input@.len(),
                forall|i: int| 0 <= i < cl.len() ==> (#[trigger] cl[i]).len() > 0,
                cells_view(cells@) + cells_from(
                    cl,
                    k as int,
                    off as int,
                    acc as int,
                    max as int,
                    self.scroll as int,
                    self.cursor as int,
                    (sel_start as int, sel_end as int),
                    styles,
                ) == target,
            ensures
                cells_view(cells@) == target,
            decreases gs.len() - k,
        {
            let g = gs[k];
            let gw = str_width(g);
            proof {
                assert(cl[k as int] == g@);
            }
            if gw > limit - acc {
                proof {
                    assert(cells_from(
                        cl,
                        k as int,
                        off as int,
                        acc as int,
                        max as int,
                        self.scroll as int,
                        self.cursor as int,
                        (sel_start as int, sel_end as int),
                        styles,
                    ) =~= Seq::<(Seq<char>, Style)>::empty());
                    assert(cells_view(cells@) =~= target);
                }
                break;
            }
            acc = acc + gw;
            if acc > self.scroll {
                let style = if off == self.cursor {
                    cursor_style
                } else if sel_start <= off && off < sel_end {
                    selection_style
                } else {
                    normal_style
                };
                let ghost before = cells_view(cells@);
                cells.push((g, style));
                proof {
                    assert(cells_view(cells@) =~= before.push((g@, style)));
                }
            }
            let glen = g.unicode_len();
            proof {
                crate::blocks::lemma_off_step(cl, k as int);
                crate::blocks::lemma_off_mono(cl, k + 1, cl.len() as int);
            }
            off = off + glen;
            k = k + 1;
        }
        let at_end = self.cursor == self.input.as_str().unicode_len();
        assert(target == cells_from(
            grapheme_clusters(self@.text),
            0,
            0,
            0,
            width as int,
            self.scroll as int,
            self@.cursor,
            (sel_start as int, sel_end as int),
            input_styles(self.colors),
        ));
        InputPicture::Text(cells, at_end)
    }
}

/// Whether two optional positions are the same.
fn same(a: Option<usize>, b: Option<usize>) -> (r: bool)
    ensures
        r == (a == b),
{
    match (a, b) {
        (Some(x), Some(y)) => x == y,
        (None, None) => true,
        _ => false,
    }
}

} // verus!
