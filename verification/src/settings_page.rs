//! The settings page: a list of settings, some of them headings or empty
//! lines that the selection passes over, with the desired retention and the
//! three colors, and whether the settings on screen are the saved ones.
use vstd::prelude::*;

use crate::color_names::{color_display, color_text, parse_color_text, parsed_color};
use crate::keys::Key;
use crate::list::{List, ListState};
use crate::settings::{clamped_retention, theme_colors, Colors, General, Settings};
use crate::style::Color;
use crate::text::{push_str, trimmed};
use crate::text_input::{key_effect, typed_text, CursorMove, InputState, TextInput};

verus! {

/// A line of the settings page.
#[derive(Debug, Clone, Copy, PartialEq, Eq, Structural)]
pub enum Setting {
    General,
    DesiredRetention,
    Colors,
    PrimaryColor,
    SecondaryColor,
    NeutralColor,
    Empty,
}

/// The lines of the page, in order.
pub open spec fn settings_order() -> Seq<Setting> {
    seq![
        Setting::General,
        Setting::Empty,
        Setting::DesiredRetention,
        Setting::Empty,
        Setting::Colors,
        Setting::Empty,
        Setting::PrimaryColor,
        Setting::SecondaryColor,
        Setting::NeutralColor,
    ]
}

/// Whether the selection can rest on a line: the settings, not the headings
/// or empty lines.
pub open spec fn selectable(s: Setting) -> bool {
    match s {
        Setting::DesiredRetention | Setting::PrimaryColor | Setting::SecondaryColor
        | Setting::NeutralColor => true,
        _ => false,
    }
}

/// The first selectable line at or after `i`.
pub open spec fn next_from(i: int) -> Option<int>
    decreases 9 - i,
{
    if i < 0 || i >= 9 {
        None
    } else if selectable(settings_order()[i]) {
        Some(i)
    } else {
        next_from(i + 1)
    }
}

/// The last selectable line at or before `i`.
pub open spec fn prev_from(i: int) -> Option<int>
    decreases i + 1,
{
    if i < 0 || i >= 9 {
        None
    } else if selectable(settings_order()[i]) {
        Some(i)
    } else {
        prev_from(i - 1)
    }
}

/// The line at `i`.
pub fn setting_at(i: usize) -> (s: Setting)
    requires
        i < 9,
    ensures
        s == settings_order()[i as int],
{
    match i {
        0 => Setting::General,
        1 => Setting::Empty,
        2 => Setting::DesiredRetention,
        3 => Setting::Empty,
        4 => Setting::Colors,
        5 => Setting::Empty,
        6 => Setting::PrimaryColor,
        7 => Setting::SecondaryColor,
        _ => Setting::NeutralColor,
    }
}

pub fn is_selectable(s: Setting) -> (b: bool)
    ensures
        b == selectable(s),
{
    match s {
        Setting::DesiredRetention | Setting::PrimaryColor | Setting::SecondaryColor
        | Setting::NeutralColor => true,
        _ => false,
    }
}

/// The selectable line after `current`, if there is one.
pub fn next_setting(current: usize) -> (r: Option<usize>)
    ensures
        match r {
            Some(i) => next_from(current + 1) == Some(i as int),
            None => next_from(current + 1) is None,
        },
{
    if current >= 9 {
        return None;
    }
    let mut next = current + 1;
    while next < 9
        invariant
            current < next <= 9,
            next_from(next as int) == next_from(current + 1),
        decreases 9 - next,
    {
        if is_selectable(setting_at(next)) {
            return Some(next);
        }
        next = next + 1;
    }
    None
}

/// The selectable line before `current`, if there is one.
pub fn previous_setting(current: usize) -> (r: Option<usize>)
    ensures
        match r {
            Some(i) => current > 0 && prev_from(current - 1) == Some(i as int),
            None => current == 0 || prev_from(current - 1) is None,
        },
{
    if current == 0 {
        return None;
    }
    if current > 9 {
        return None;
    }
    let mut prev = current - 1;
    loop
        invariant
            prev < current <= 9,
            prev_from(prev as int) == prev_from(current - 1),
        decreases prev,
    {
        if prev < 9 && is_selectable(setting_at(prev)) {
            return Some(prev);
        }
        if prev == 0 {
            return None;
        }
        prev = prev - 1;
    }
}

/// Which of the three colors.
#[derive(Debug, Clone, Copy, PartialEq, Eq, Structural)]
pub enum ColorSlot {
    Primary,
    Secondary,
    Neutral,
}

/// The color of `slot` in `c`.
pub open spec fn slot_color(c: Colors, slot: ColorSlot) -> Color {
    match slot {
        ColorSlot::Primary => c.primary,
        ColorSlot::Secondary => c.secondary,
        ColorSlot::Neutral => c.neutral,
    }
}

/// `s` with the color of `slot` set to `color`.
pub open spec fn with_slot(s: Settings, slot: ColorSlot, color: Color) -> Settings {
    Settings {
        colors: match slot {
            ColorSlot::Primary => Colors { primary: color, ..s.colors },
            ColorSlot::Secondary => Colors { secondary: color, ..s.colors },
            ColorSlot::Neutral => Colors { neutral: color, ..s.colors },
        },
        ..s
    }
}

/// The color slot of a line, if it is one.
pub open spec fn slot_of(s: Setting) -> Option<ColorSlot> {
    match s {
        Setting::PrimaryColor => Some(ColorSlot::Primary),
        Setting::SecondaryColor => Some(ColorSlot::Secondary),
        Setting::NeutralColor => Some(ColorSlot::Neutral),
        _ => None,
    }
}

/// What a key or an entered color on the settings page asks of the app.
#[derive(Debug, Clone, Copy, PartialEq, Eq, Structural)]
pub enum SettingsStep {
    /// Nothing to do.
    Nothing,
    /// The page changed: draw it again.
    Render,
    /// Write the settings to their file, then call `mark_saved`.
    Save,
    /// The settings changed in a way that the other pages use.
    ApplySettings,
    /// The text of the color field of `slot` is no color: report
    /// `color_error`.
    BadColor(ColorSlot),
}

/// The settings page as plain values.
pub struct SettingsPageView {
    pub default: Settings,
    pub saved: Settings,
    pub is_saved: bool,
    pub list: ListState,
    pub fields: Seq<InputState>,
    pub disabled: Seq<bool>,
}

/// The index of a slot among the color fields.
pub open spec fn slot_index(slot: ColorSlot) -> int {
    match slot {
        ColorSlot::Primary => 0,
        ColorSlot::Secondary => 1,
        ColorSlot::Neutral => 2,
    }
}

/// The retention after `Right` (`up`) or `Left`: one percent more, up to a
/// hundred, or one less, down to zero.
pub open spec fn stepped_retention(cur: u8, up: bool) -> u8 {
    if up {
        if cur >= 100 {
            100
        } else {
            (cur + 1) as u8
        }
    } else if cur > 0 {
        (cur - 1) as u8
    } else {
        0
    }
}

/// The text of the color field of `slot`, without white space at its ends:
/// what is read as a color.
pub open spec fn field_text(v: SettingsPageView, slot: ColorSlot) -> Seq<char> {
    trimmed(v.fields[slot_index(slot)].text, 0, v.fields[slot_index(slot)].text.len() as int)
}

/// A color read from the field of `slot`, or none: a new color is set and
/// the page draws again, the same color changes nothing, and text that is no
/// color is reported.
pub open spec fn color_result(v: SettingsPageView, s: Settings, slot: ColorSlot, parsed: Option<Color>) -> (
    SettingsPageView,
    Settings,
    SettingsStep,
) {
    match parsed {
        Some(c) => if slot_color(s.colors, slot) != c {
            let s2 = with_slot(s, slot, c);
            (SettingsPageView { is_saved: v.saved == s2, ..v }, s2, SettingsStep::Render)
        } else {
            (v, s, SettingsStep::Nothing)
        },
        None => (v, s, SettingsStep::BadColor(slot)),
    }
}

/// A color field holding the name of `c`, the cursor at its end.
pub open spec fn color_input(c: Color) -> InputState {
    InputState {
        text: typed_text(color_display(c)),
        cursor: typed_text(color_display(c)).len() as int,
        selector: None,
    }
}

/// The settings with the desired retention kept at `p`.
pub open spec fn with_retention(s: Settings, p: u8) -> Settings {
    Settings { general: General { desired_retention: clamped_retention(p) }, ..s }
}

/// A key for the setting selected: `Left` and `Right` change the retention,
/// `Enter` reads the color field as a color, and other keys edit the color
/// field.
pub open spec fn setting_key(v: SettingsPageView, s: Settings, key: Key, ctrl: bool, shift: bool) -> (
    SettingsPageView,
    Settings,
    SettingsStep,
) {
    let current = settings_order()[v.list.index];
    if current == Setting::DesiredRetention {
        if key == Key::Left || key == Key::Right {
            let cur = s.general.desired_retention;
            let new = stepped_retention(cur, key == Key::Right);
            if cur != new {
                let s2 = with_retention(s, new);
                (SettingsPageView { is_saved: v.saved == s2, ..v }, s2, SettingsStep::ApplySettings)
            } else {
                (v, s, SettingsStep::Nothing)
            }
        } else {
            (v, s, SettingsStep::Nothing)
        }
    } else if let Some(slot) = slot_of(current) {
        if key == Key::Enter {
            color_result(v, s, slot, parsed_color(field_text(v, slot)))
        } else {
            let k = slot_index(slot);
            if v.disabled[k] {
                (v, s, SettingsStep::Nothing)
            } else {
                let (f, changed) = key_effect(v.fields[k], key, ctrl, shift);
                (SettingsPageView { fields: v.fields.update(k, f), ..v }, s, if changed {
                    SettingsStep::Render
                } else {
                    SettingsStep::Nothing
                })
            }
        }
    } else {
        (v, s, SettingsStep::Nothing)
    }
}

/// A key on the settings page: `Down` and `Up` go to the next or previous
/// setting, `Ctrl+s` saves settings that are not saved, `Ctrl+r` resets
/// every setting and puts the names of the default colors in the color
/// fields, and other keys go to the setting selected.
pub open spec fn settings_key(v: SettingsPageView, s: Settings, key: Key, ctrl: bool, shift: bool) -> (
    SettingsPageView,
    Settings,
    SettingsStep,
) {
    match key {
        Key::Down => match next_from(v.list.index + 1) {
            Some(i) => (SettingsPageView { list: ListState { index: i, ..v.list }, ..v }, s, SettingsStep::Render),
            None => (v, s, SettingsStep::Nothing),
        },
        Key::Up => match if v.list.index > 0 {
            prev_from(v.list.index - 1)
        } else {
            None
        } {
            Some(i) => (SettingsPageView { list: ListState { index: i, ..v.list }, ..v }, s, SettingsStep::Render),
            None => (v, s, SettingsStep::Nothing),
        },
        Key::Char(c) => if c == 's' && ctrl && !v.is_saved {
            (v, s, SettingsStep::Save)
        } else if c == 'r' && ctrl {
            (
                SettingsPageView {
                    is_saved: v.saved == v.default,
                    fields: seq![
                        color_input(v.default.colors.primary),
                        color_input(v.default.colors.secondary),
                        color_input(v.default.colors.neutral),
                    ],
                    ..v
                },
                v.default,
                SettingsStep::ApplySettings,
            )
        } else {
            setting_key(v, s, key, ctrl, shift)
        },
        _ => setting_key(v, s, key, ctrl, shift),
    }
}

pub struct SettingsPage {
    default: Settings,
    saved: Settings,
    is_saved: bool,
    list: List,
    primary: TextInput,
    secondary: TextInput,
    neutral: TextInput,
}

impl View for SettingsPage {
    type V = SettingsPageView;

    closed spec fn view(&self) -> SettingsPageView {
        SettingsPageView {
            default: self.default,
            saved: self.saved,
            is_saved: self.is_saved,
            list: self.list@,
            fields: seq![self.primary@, self.secondary@, self.neutral@],
            disabled: seq![self.primary.is_disabled(), self.secondary.is_disabled(), self.neutral.is_disabled()],
        }
    }
}

impl SettingsPage {
    /// The selection rests on a selectable line, and the color fields hold
    /// their cursors within their text.
    pub closed spec fn wf(&self) -> bool {
        &&& 0 <= self.list@.index < 9
        &&& selectable(settings_order()[self.list@.index])
        &&& self.primary.wf() && self.secondary.wf() && self.neutral.wf()
    }

    /// The page for `settings`, which start as the saved ones, with the
    /// defaults of their theme; the color fields start with the names of the
    /// three colors, the cursor at their end.
    pub fn new(settings: &Settings) -> (p: Self)
        ensures
            p.wf(),
            p@.default == (Settings {
                general: General { desired_retention: 80 },
                colors: theme_colors(settings.theme),
                theme: settings.theme,
            }),
            p@.saved == *settings && p@.is_saved,
            p@.list.index == 2,
            p@.fields[0].text == color_display(settings.colors.primary),
            p@.fields[1].text == color_display(settings.colors.secondary),
            p@.fields[2].text == color_display(settings.colors.neutral),
    {
        let mut primary = TextInput::from(color_text(settings.primary()));
        primary.move_cursor(CursorMove::End, false);
        let mut secondary = TextInput::from(color_text(settings.secondary()));
        secondary.move_cursor(CursorMove::End, false);
        let mut neutral = TextInput::from(color_text(settings.neutral()));
        neutral.move_cursor(CursorMove::End, false);
        SettingsPage {
            default: Settings::with_theme(settings.theme),
            saved: *settings,
            is_saved: true,
            list: List::new().with_index(2).with_margins(3, 3),
            primary,
            secondary,
            neutral,
        }
    }

    pub fn current(&self) -> (s: Setting)
        requires
            self.wf(),
        ensures
            s == settings_order()[self@.list.index],
    {
        setting_at(self.list.index())
    }

    fn field(&mut self, slot: ColorSlot) -> (f: &mut TextInput)
        ensures
            f@ == old(self)@.fields[slot_index(slot)],
            f.is_disabled() == old(self)@.disabled[slot_index(slot)],
            f.wf() == match slot {
                ColorSlot::Primary => old(self).primary.wf(),
                ColorSlot::Secondary => old(self).secondary.wf(),
                ColorSlot::Neutral => old(self).neutral.wf(),
            },
            final(self).default == old(self).default && final(self).saved == old(self).saved,
            final(self).is_saved == old(self).is_saved && final(self).list == old(self).list,
            match slot {
                ColorSlot::Primary => final(self).primary == *final(f) && final(self).secondary
                    == old(self).secondary && final(self).neutral == old(self).neutral,
                ColorSlot::Secondary => final(self).secondary == *final(f) && final(self).primary
                    == old(self).primary && final(self).neutral == old(self).neutral,
                ColorSlot::Neutral => final(self).neutral == *final(f) && final(self).primary
                    == old(self).primary && final(self).secondary == old(self).secondary,
            },
    {
        match slot {
            ColorSlot::Primary => &mut self.primary,
            ColorSlot::Secondary => &mut self.secondary,
            ColorSlot::Neutral => &mut self.neutral,
        }
    }

    /// Takes a key, with the state of the control and shift keys, and the
    /// settings, and hands back what the app is to do; see `settings_key`.
    pub fn input(&mut self, key: Key, ctrl: bool, shift: bool, settings: &mut Settings) -> (step: SettingsStep)
        requires
            old(self).wf(),
        ensures
            final(self).wf(),
            (final(self)@, *final(settings), step) == settings_key(old(self)@, *old(settings), key, ctrl, shift),
    {
        match key {
            Key::Down => match next_setting(self.list.index()) {
                Some(i) => {
                    proof {
                        lemma_next_from(self.list@.index + 1);
                    }
                    self.list.set_index(i);
                    SettingsStep::Render
                },
                None => SettingsStep::Nothing,
            },
            Key::Up => match previous_setting(self.list.index()) {
                Some(i) => {
                    proof {
                        lemma_prev_from(self.list@.index - 1);
                    }
                    self.list.set_index(i);
                    SettingsStep::Render
                },
                None => SettingsStep::Nothing,
            },
            Key::Char(c) => if c == 's' && ctrl && !self.is_saved {
                SettingsStep::Save
            } else if c == 'r' && ctrl {
                *settings = self.default;
                self.is_saved = self.saved == *settings;
                let p = color_text(settings.primary());
                let s = color_text(settings.secondary());
                let n = color_text(settings.neutral());
                self.reset_inputs((p.as_str(), s.as_str(), n.as_str()));
                proof {
                    assert(self@.fields =~= seq![
                        color_input(self.default.colors.primary),
                        color_input(self.default.colors.secondary),
                        color_input(self.default.colors.neutral),
                    ]);
                }
                SettingsStep::ApplySettings
            } else {
                self.handle_setting(key, ctrl, shift, settings)
            },
            _ => self.handle_setting(key, ctrl, shift, settings),
        }
    }

    fn handle_setting(&mut self, key: Key, ctrl: bool, shift: bool, settings: &mut Settings) -> (step: SettingsStep)
        requires
            old(self).wf(),
        ensures
            final(self).wf(),
            (final(self)@, *final(settings), step) == setting_key(old(self)@, *old(settings), key, ctrl, shift),
    {
        let current = self.current();
        match current {
            Setting::DesiredRetention => {
                if key == Key::Left || key == Key::Right {
                    let cur = settings.desired_retention();
                    let new = if key == Key::Right {
                        if cur >= 100 {
                            100
                        } else {
                            cur + 1
                        }
                    } else if cur > 0 {
                        cur - 1
                    } else {
                        0
                    };
                    if cur != new {
                        settings.set_desired_retention(new);
                        self.is_saved = self.saved == *settings;
                        SettingsStep::ApplySettings
                    } else {
                        SettingsStep::Nothing
                    }
                } else {
                    SettingsStep::Nothing
                }
            },
            Setting::PrimaryColor => self.color_key(ColorSlot::Primary, key, ctrl, shift, settings),
            Setting::SecondaryColor => self.color_key(ColorSlot::Secondary, key, ctrl, shift, settings),
            Setting::NeutralColor => self.color_key(ColorSlot::Neutral, key, ctrl, shift, settings),
            _ => SettingsStep::Nothing,
        }
    }

    fn color_key(&mut self, slot: ColorSlot, key: Key, ctrl: bool, shift: bool, settings: &mut Settings) -> (step:
        SettingsStep)
        requires
            old(self).wf(),
        ensures
            final(self).wf(),
            key == Key::Enter ==> (final(self)@, *final(settings), step) == color_result(
                old(self)@,
                *old(settings),
                slot,
                parsed_color(field_text(old(self)@, slot)),
            ),
            key != Key::Enter ==> *final(settings) == *old(settings),
            key != Key::Enter ==> ({
                let k = slot_index(slot);
                if old(self)@.disabled[k] {
                    final(self)@ == old(self)@ && step == SettingsStep::Nothing
                } else {
                    let (f, changed) = key_effect(old(self)@.fields[k], key, ctrl, shift);
                    final(self)@ == (SettingsPageView { fields: old(self)@.fields.update(k, f), ..old(self)@ })
                        && step == (if changed {
                        SettingsStep::Render
                    } else {
                        SettingsStep::Nothing
                    })
                }
            }),
    {
        if key == Key::Enter {
            let parsed = parse_color_text(self.color_field(slot));
            return self.color_entered(slot, parsed, settings);
        }
        let ghost before = self@;
        let changed = self.field(slot).input(key, ctrl, shift);
        proof {
            assert(self@.fields =~= before.fields.update(
                slot_index(slot),
                self@.fields[slot_index(slot)],
            ));
            assert(self@.disabled =~= before.disabled);
        }
        if changed {
            SettingsStep::Render
        } else {
            SettingsStep::Nothing
        }
    }

    /// Takes the color parsed from the field of `slot`: a new color is set
    /// and the page draws again, the same color changes nothing, and text
    /// that is no color is reported.
    pub fn color_entered(&mut self, slot: ColorSlot, parsed: Option<Color>, settings: &mut Settings) -> (step: SettingsStep)
        requires
            old(self).wf(),
        ensures
            final(self).wf(),
            (final(self)@, *final(settings), step) == color_result(old(self)@, *old(settings), slot, parsed),
    {
        match parsed {
            Some(c) => {
                let current = match slot {
                    ColorSlot::Primary => settings.primary(),
                    ColorSlot::Secondary => settings.secondary(),
                    ColorSlot::Neutral => settings.neutral(),
                };
                if current != c {
                    match slot {
                        ColorSlot::Primary => settings.set_primary(c),
                        ColorSlot::Secondary => settings.set_secondary(c),
                        ColorSlot::Neutral => settings.set_neutral(c),
                    }
                    self.is_saved = self.saved == *settings;
                    SettingsStep::Render
                } else {
                    SettingsStep::Nothing
                }
            },
            None => SettingsStep::BadColor(slot),
        }
    }

    /// The text of the color field of `slot`, without white space at its
    /// ends: what is read as a color.
    pub fn color_field(&self, slot: ColorSlot) -> (s: &str)
        ensures
            s@ == field_text(self@, slot),
    {
        match slot {
            ColorSlot::Primary => self.primary.as_str_trim(),
            ColorSlot::Secondary => self.secondary.as_str_trim(),
            ColorSlot::Neutral => self.neutral.as_str_trim(),
        }
    }

    /// The message for a color field whose text is no color.
    pub fn color_error(&self, slot: ColorSlot) -> (m: String)
        ensures
            m@ == "Failed to parse \""@ + trimmed(
                self@.fields[slot_index(slot)].text,
                0,
                self@.fields[slot_index(slot)].text.len() as int,
            ) + "\" as a color"@,
    {
        let mut m = String::new();
        push_str(&mut m, "Failed to parse \"");
        push_str(&mut m, self.color_field(slot));
        push_str(&mut m, "\" as a color");
        m
    }

    /// After the settings were written: they are the saved ones now.
    pub fn mark_saved(&mut self, settings: &Settings)
        ensures
            final(self)@ == (SettingsPageView { saved: *settings, is_saved: true, ..old(self)@ }),
            final(self).wf() == old(self).wf(),
    {
        self.saved = *settings;
        self.is_saved = true;
    }

    /// Puts the names of the colors in the color fields, after a reset.
    pub fn reset_inputs(&mut self, texts: (&str, &str, &str))
        requires
            old(self).wf(),
        ensures
            final(self).wf(),
            final(self)@.default == old(self)@.default && final(self)@.saved == old(self)@.saved,
            final(self)@.is_saved == old(self)@.is_saved && final(self)@.list == old(self)@.list,
            final(self)@.disabled == old(self)@.disabled,
            final(self)@.fields == seq![
                InputState { text: typed_text(texts.0@), cursor: typed_text(texts.0@).len() as int, selector: None },
                InputState { text: typed_text(texts.1@), cursor: typed_text(texts.1@).len() as int, selector: None },
                InputState { text: typed_text(texts.2@), cursor: typed_text(texts.2@).len() as int, selector: None },
            ],
    {
        self.primary.clear();
        self.primary.push_str(texts.0);
        self.secondary.clear();
        self.secondary.push_str(texts.1);
        self.neutral.clear();
        self.neutral.push_str(texts.2);
        assert(self@.disabled =~= old(self)@.disabled);
        assert(Seq::<char>::empty().subrange(0, 0) =~= Seq::<char>::empty());
        assert(self@.fields =~= seq![
            InputState { text: typed_text(texts.0@), cursor: typed_text(texts.0@).len() as int, selector: None },
            InputState { text: typed_text(texts.1@), cursor: typed_text(texts.1@).len() as int, selector: None },
            InputState { text: typed_text(texts.2@), cursor: typed_text(texts.2@).len() as int, selector: None },
        ]);
    }

    /// Before drawing: only the color field of the selected setting takes
    /// keys.
    pub fn activate_fields(&mut self)
        requires
            old(self).wf(),
        ensures
            final(self).wf(),
            final(self)@.fields == old(self)@.fields,
            final(self)@.disabled == seq![
                settings_order()[old(self)@.list.index] != Setting::PrimaryColor,
                settings_order()[old(self)@.list.index] != Setting::SecondaryColor,
                settings_order()[old(self)@.list.index] != Setting::NeutralColor,
            ],
            final(self)@.default == old(self)@.default && final(self)@.saved == old(self)@.saved,
            final(self)@.is_saved == old(self)@.is_saved && final(self)@.list == old(self)@.list,
    {
        let current = self.current();
        self.primary.set_disabled(current != Setting::PrimaryColor);
        self.secondary.set_disabled(current != Setting::SecondaryColor);
        self.neutral.set_disabled(current != Setting::NeutralColor);
        assert(self@.fields =~= old(self)@.fields);
    }

    pub fn is_saved(&self) -> (b: bool)
        ensures
            b == self@.is_saved,
    {
        self.is_saved
    }

    pub fn fields(&mut self) -> (r: (&mut TextInput, &mut TextInput, &mut TextInput))
        ensures
            r.0@ == old(self)@.fields[0] && r.1@ == old(self)@.fields[1] && r.2@ == old(self)@.fields[2],
    {
        (&mut self.primary, &mut self.secondary, &mut self.neutral)
    }

    pub fn list(&mut self) -> (l: &mut List)
        ensures
            l@ == old(self)@.list,
    {
        &mut self.list
    }
}

proof fn lemma_next_from(i: int)
    ensures
        match next_from(i) {
            Some(k) => i <= k < 9 && selectable(settings_order()[k]),
            None => true,
        },
    decreases 9 - i,
{
    if 0 <= i < 9 && !selectable(settings_order()[i]) {
        lemma_next_from(i + 1);
    }
}

proof fn lemma_prev_from(i: int)
    ensures
        match prev_from(i) {
            Some(k) => 0 <= k <= i && k < 9 && selectable(settings_order()[k]),
            None => true,
        },
    decreases i + 1,
{
    if 0 <= i < 9 && !selectable(settings_order()[i]) {
        lemma_prev_from(i - 1);
    }
}

/// Moving down and then up, or up and then down, between the settings
/// comes back to the setting where it started, when both moves are
/// possible.
pub proof fn law_down_up(i: int)
    requires
        0 <= i < 9,
        selectable(settings_order()[i]),
    ensures
        next_from(i + 1) matches Some(j) ==> prev_from(j - 1) == Some(i),
        i > 0 ==> (prev_from(i - 1) matches Some(j) ==> next_from(j + 1) == Some(i)),
{
    reveal_with_fuel(next_from, 10);
    reveal_with_fuel(prev_from, 10);
}

} // verus!
