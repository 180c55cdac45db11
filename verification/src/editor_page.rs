//! The card editor page: a text editor, a preview of the card, and a
//! sidebar in which the card's tags are added and taken away before saving.
use vstd::prelude::*;

use crate::cards_page::{list_can_move, selected_span};
use crate::data::{CardId, TagId};
use crate::keys::Key;
use crate::list::{list_input, List, ListState};
use crate::geometry::Size;
use crate::text_editor::{default_editor_colors, editor_key, editor_moved, inserted, with_input, EditorView, TextEditor};
use crate::text_input::{CursorMove, InputState};

use std::collections::HashMap;
use vstd::std_specs::iter::IteratorSpec;

verus! {

broadcast use vstd::std_specs::hash::group_hash_axioms;

/// What saving does to a tag of the card: add it, keep it, or take it away.
#[derive(Debug, Clone, Copy, PartialEq, Eq, Structural)]
pub enum TagState {
    Add,
    Keep,
    Remove,
}

/// The toggles as sets: tags to add, to keep and to take away.
pub type Toggles = (Set<TagId>, Set<TagId>, Set<TagId>);

/// The state of `id` among the toggles, if it has one.
pub open spec fn state_of(t: Toggles, id: TagId) -> Option<TagState> {
    if t.0.contains(id) {
        Some(TagState::Add)
    } else if t.1.contains(id) {
        Some(TagState::Keep)
    } else if t.2.contains(id) {
        Some(TagState::Remove)
    } else {
        None
    }
}

/// The toggles after toggling `id`: a tag to add is forgotten, a kept tag is
/// taken away and one taken away is kept, and any other tag is added.
pub open spec fn toggled(t: Toggles, id: TagId) -> Toggles {
    if t.0.contains(id) {
        (t.0.remove(id), t.1, t.2)
    } else if t.1.contains(id) {
        (t.0, t.1.remove(id), t.2.insert(id))
    } else if t.2.contains(id) {
        (t.0, t.1.insert(id), t.2.remove(id))
    } else {
        (t.0.insert(id), t.1, t.2)
    }
}

/// No tag is in two of the sets.
pub open spec fn toggles_apart(t: Toggles) -> bool {
    t.0.disjoint(t.1) && t.0.disjoint(t.2) && t.1.disjoint(t.2)
}

/// The toggles after toggling the tags at positions `i` to `hi` of `tags`;
/// positions past the tags are passed over.
pub open spec fn toggled_range(t: Toggles, tags: Seq<TagId>, i: int, hi: int) -> Toggles
    decreases hi + 1 - i,
{
    if i > hi {
        t
    } else {
        let u = if 0 <= i < tags.len() {
            toggled(t, tags[i])
        } else {
            t
        };
        toggled_range(u, tags, i + 1, hi)
    }
}

/// Toggling a tag twice leaves the toggles as they were.
pub proof fn law_toggle_twice(t: Toggles, id: TagId)
    requires
        toggles_apart(t),
    ensures
        toggled(toggled(t, id), id) == t,
        toggles_apart(toggled(t, id)),
{
    if t.0.contains(id) {
        assert(t.0.remove(id).insert(id) =~= t.0);
    } else if t.1.contains(id) {
        assert(t.1.remove(id).insert(id) =~= t.1);
        assert(t.2.insert(id).remove(id) =~= t.2);
    } else if t.2.contains(id) {
        assert(t.2.remove(id).insert(id) =~= t.2);
        assert(t.1.insert(id).remove(id) =~= t.1);
    } else {
        assert(t.0.insert(id).remove(id) =~= t.0);
    }
}

/// The tags that hold state `st` in `m`.
pub open spec fn tags_in(m: Map<TagId, TagState>, st: TagState) -> Set<TagId> {
    Set::new(|id: TagId| m.contains_key(id) && m[id] == st)
}

/// The state that saving gives each tag toggled so far, in std's hash map.
pub struct TagToggles {
    states: HashMap<TagId, TagState>,
}

impl TagToggles {
    pub closed spec fn view(&self) -> Toggles {
        (
            tags_in(self.states@, TagState::Add),
            tags_in(self.states@, TagState::Keep),
            tags_in(self.states@, TagState::Remove),
        )
    }

    /// No tag is in two of the sets, as each tag has one state at most.
    pub closed spec fn wf(&self) -> bool {
        toggles_apart(self.view())
    }

    pub fn new() -> (t: Self)
        ensures
            t.wf(),
            t.view() == (Set::<TagId>::empty(), Set::<TagId>::empty(), Set::<TagId>::empty()),
    {
        let t = TagToggles { states: HashMap::new() };
        assert(t.view().0 =~= Set::<TagId>::empty());
        assert(t.view().1 =~= Set::<TagId>::empty());
        assert(t.view().2 =~= Set::<TagId>::empty());
        t
    }

    pub fn toggle(&mut self, id: TagId)
        requires
            old(self).wf(),
        ensures
            final(self).wf(),
            final(self).view() == toggled(old(self).view(), id),
    {
        let ghost m = self.states@;
        let cur = match self.states.get(&id) {
            Some(st) => Some(*st),
            None => None,
        };
        match cur {
            Some(TagState::Add) => {
                self.states.remove(&id);
            },
            Some(TagState::Keep) => {
                self.states.insert(id, TagState::Remove);
            },
            Some(TagState::Remove) => {
                self.states.insert(id, TagState::Keep);
            },
            None => {
                self.states.insert(id, TagState::Add);
            },
        }
        proof {
            let t = toggled((tags_in(m, TagState::Add), tags_in(m, TagState::Keep), tags_in(m, TagState::Remove)), id);
            assert(tags_in(self.states@, TagState::Add) =~= t.0);
            assert(tags_in(self.states@, TagState::Keep) =~= t.1);
            assert(tags_in(self.states@, TagState::Remove) =~= t.2);
        }
    }

    /// Forgets every toggle; tells whether there were any.
    pub fn clear(&mut self) -> (had: bool)
        requires
            old(self).wf(),
        ensures
            final(self).wf(),
            final(self).view() == (Set::<TagId>::empty(), Set::<TagId>::empty(), Set::<TagId>::empty()),
            had == (old(self).view() != (
                Set::<TagId>::empty(),
                Set::<TagId>::empty(),
                Set::<TagId>::empty(),
            )),
    {
        let ghost m = self.states@;
        let had = !self.states.is_empty();
        proof {
            if had {
                let k = m.dom().choose();
                assert(m.dom().contains(k));
                match m[k] {
                    TagState::Add => assert(tags_in(m, TagState::Add).contains(k)),
                    TagState::Keep => assert(tags_in(m, TagState::Keep).contains(k)),
                    TagState::Remove => assert(tags_in(m, TagState::Remove).contains(k)),
                }
                assert(!Set::<TagId>::empty().contains(k));
            } else {
                assert(m.dom() =~= Set::<TagId>::empty());
                assert(tags_in(m, TagState::Add) =~= Set::<TagId>::empty());
                assert(tags_in(m, TagState::Keep) =~= Set::<TagId>::empty());
                assert(tags_in(m, TagState::Remove) =~= Set::<TagId>::empty());
            }
        }
        self.states.clear();
        assert(self.view().0 =~= Set::<TagId>::empty());
        assert(self.view().1 =~= Set::<TagId>::empty());
        assert(self.view().2 =~= Set::<TagId>::empty());
        had
    }

    /// Keeps each of `tags`, which the toggles must not hold yet in another
    /// state than kept.
    pub fn keep_all(&mut self, tags: &[TagId])
        requires
            old(self).wf(),
            old(self).view().0 == Set::<TagId>::empty(),
            old(self).view().2 == Set::<TagId>::empty(),
        ensures
            final(self).wf(),
            final(self).view() == (Set::<TagId>::empty(), old(self).view().1 + tags@.to_set(), Set::<
                TagId,
            >::empty()),
    {
        let ghost start = self.view().1;
        let mut i: usize = 0;
        while i < tags.len()
            invariant
                self.wf(),
                i <= tags@.len(),
                self.view() == (Set::<TagId>::empty(), start + tags@.subrange(0, i as int).to_set(), Set::<
                    TagId,
                >::empty()),
            decreases tags@.len() - i,
        {
            let ghost m = self.states@;
            self.states.insert(tags[i], TagState::Keep);
            proof {
                let x = tags@[i as int];
                assert(tags_in(self.states@, TagState::Add) =~= tags_in(m, TagState::Add));
                assert(tags_in(self.states@, TagState::Remove) =~= tags_in(m, TagState::Remove));
                assert(tags_in(self.states@, TagState::Keep) =~= tags_in(m, TagState::Keep).insert(x));
                let pre = tags@.subrange(0, i as int);
                let post = tags@.subrange(0, i + 1);
                assert(post =~= pre.push(x));
                assert forall|a: TagId| post.contains(a) <==> (pre.contains(a) || a == x) by {
                    if post.contains(a) {
                        let k = choose|k: int| 0 <= k < post.len() && post[k] == a;
                        if k < pre.len() {
                            assert(pre[k] == a);
                        }
                    }
                    if pre.contains(a) {
                        let k = choose|k: int| 0 <= k < pre.len() && pre[k] == a;
                        assert(post[k] == a);
                    }
                    if a == x {
                        assert(post[i as int] == a);
                    }
                }
                assert(start + post.to_set() =~= (start + pre.to_set()).insert(x));
            }
            i = i + 1;
        }
        proof {
            assert(tags@.subrange(0, tags@.len() as int) =~= tags@);
        }
    }

    pub fn state_of(&self, id: TagId) -> (s: Option<TagState>)
        ensures
            s == state_of(self.view(), id),
    {
        match self.states.get(&id) {
            Some(st) => Some(*st),
            None => None,
        }
    }

    /// The tags that hold state `st`, each once.
    fn tags_with(&self, st: TagState) -> (v: Vec<TagId>)
        ensures
            v@.to_set() == tags_in(self.states@, st),
    {
        let mut v: Vec<TagId> = Vec::new();
        for p in it: self.states.iter()
            invariant
                forall|x: TagId|
                    v@.contains(x) <==> exists|j: int|
                        0 <= j < it.index() && *it.seq()[j].0 == x && *it.seq()[j].1 == st,
                forall|j: int|
                    0 <= j < it.seq().len() ==> self.states@.contains_key(*#[trigger] it.seq()[j].0)
                        && self.states@[*it.seq()[j].0] == *it.seq()[j].1,
                forall|k: TagId| #[trigger] self.states@.contains_key(k) ==> it.seq().contains((&k, &self.states@[k])),
                it.index() == it.seq().len() ==> v@.to_set() == tags_in(self.states@, st),
        {
            let ghost v0 = v@;
            let (k, s) = p;
            if *s == st {
                v.push(*k);
            }
            proof {
                let n = it.index();
                assert(it.seq()[n] == p);
                assert forall|x: TagId|
                    v@.contains(x) <==> exists|j: int|
                        0 <= j < n + 1 && *it.seq()[j].0 == x && *it.seq()[j].1 == st by {
                    if v@.contains(x) {
                        if v0.contains(x) {
                            let j = choose|j: int| 0 <= j < n && *it.seq()[j].0 == x && *it.seq()[j].1 == st;
                            assert(0 <= j < n + 1 && *it.seq()[j].0 == x && *it.seq()[j].1 == st);
                        } else {
                            let i = choose|i: int| 0 <= i < v@.len() && v@[i] == x;
                            if i < v0.len() {
                                assert(v0[i] == x);
                            }
                            assert(*it.seq()[n].0 == x && *it.seq()[n].1 == st);
                        }
                    }
                    if exists|j: int| 0 <= j < n + 1 && *it.seq()[j].0 == x && *it.seq()[j].1 == st {
                        let j = choose|j: int| 0 <= j < n + 1 && *it.seq()[j].0 == x && *it.seq()[j].1 == st;
                        if j < n {
                            assert(v0.contains(x));
                            let i = choose|i: int| 0 <= i < v0.len() && v0[i] == x;
                            assert(v@[i] == x);
                        } else {
                            assert(v@[v@.len() - 1] == x);
                        }
                    }
                }
                assert forall|x: TagId|
                    n + 1 == it.seq().len() implies (v@.to_set().contains(x) <==> tags_in(self.states@, st).contains(x)) by {
                    if tags_in(self.states@, st).contains(x) {
                        assert(self.states@.contains_key(x));
                        assert(it.seq().contains((&x, &self.states@[x])));
                        let j = choose|j: int| 0 <= j < it.seq().len() && it.seq()[j] == (&x, &self.states@[x]);
                        assert(*it.seq()[j].0 == x);
                    }
                    if v@.contains(x) {
                        let j = choose|j: int| 0 <= j < n + 1 && *it.seq()[j].0 == x && *it.seq()[j].1 == st;
                        assert(self.states@.contains_key(*it.seq()[j].0));
                    }
                }
                assert(n + 1 == it.seq().len() ==> v@.to_set() =~= tags_in(self.states@, st));
            }
        }
        v
    }

    /// The tags to add to the card.
    pub fn to_add(&self) -> (v: Vec<TagId>)
        ensures
            v@.to_set() == self.view().0,
    {
        self.tags_with(TagState::Add)
    }

    /// The tags to take away from the card.
    pub fn to_remove(&self) -> (v: Vec<TagId>)
        ensures
            v@.to_set() == self.view().2,
    {
        self.tags_with(TagState::Remove)
    }
}

/// What a key on the editor page asks of the app, after the page has taken
/// it into account.
#[derive(Debug, Clone, Copy, PartialEq, Eq, Structural)]
pub enum EditorStep {
    /// Nothing to do.
    Ignored,
    /// The page changed: draw it again.
    Render,
    /// Edit the text in an outside editor and hand the result to
    /// `replace_text`.
    ExternalEdit,
    /// Save the text and the tags (see `text`, `to_add`, `to_remove` and
    /// `card`), clear the preview, then call `saved`.
    Save,
    /// The toggles were forgotten: keep the card's tags again (when there is
    /// a card) with `keep_tags`; draw the page again when `changed`.
    ResetTags { card: Option<CardId>, changed: bool },
    /// The key goes to the preview (scrolling).
    ToPreview,
}

/// The editor page as plain values.
pub struct EditorPageView {
    pub preview: bool,
    pub show_tags: bool,
    pub card: Option<CardId>,
    pub tags: Seq<TagId>,
    pub toggles: Toggles,
    pub list: ListState,
    pub editor: EditorView,
}

/// The editor after typing `c`.
pub open spec fn typed(st: EditorView, c: char) -> EditorView {
    with_input(st, inserted(InputState { text: st.text, cursor: st.cursor, selector: st.selector }, seq![c]))
}

/// Types `c` into the editor when neither the tags nor the preview are shown.
pub open spec fn type_if_editing(v: EditorPageView, c: char) -> (EditorPageView, EditorStep) {
    if !v.show_tags && !v.preview {
        (EditorPageView { editor: typed(v.editor, c), ..v }, EditorStep::Render)
    } else {
        (v, EditorStep::Ignored)
    }
}

/// A key on the editor page: `Ctrl+e` edits outside, `Ctrl+p` shows or hides
/// the preview, `Ctrl+s` saves a card that is not empty, `Ctrl+t` shows or
/// hides the tags; with the tags shown `Space` toggles the selected tags and
/// `r` forgets the toggles; in the preview the keys scroll; otherwise the
/// keys go to the editor.
pub open spec fn editor_page_key(v: EditorPageView, key: Key, ctrl: bool, shift: bool) -> (
    EditorPageView,
    EditorStep,
) {
    match key {
        Key::Char(c) => if c == 'e' {
            if ctrl {
                (v, EditorStep::ExternalEdit)
            } else {
                type_if_editing(v, c)
            }
        } else if c == 'p' {
            if ctrl {
                (EditorPageView { preview: !v.preview, ..v }, EditorStep::Render)
            } else {
                type_if_editing(v, c)
            }
        } else if c == 's' {
            if ctrl {
                if v.editor.text.len() > 0 {
                    (v, EditorStep::Save)
                } else {
                    (v, EditorStep::Ignored)
                }
            } else {
                type_if_editing(v, c)
            }
        } else if c == 't' {
            if ctrl {
                (EditorPageView { show_tags: !v.show_tags, ..v }, EditorStep::Render)
            } else {
                let (w, _) = type_if_editing(v, c);
                (w, EditorStep::Render)
            }
        } else if c == ' ' {
            if v.show_tags {
                if v.tags.len() > 0 {
                    let span = selected_span(v.list);
                    (
                        EditorPageView { toggles: toggled_range(v.toggles, v.tags, span.0, span.1), ..v },
                        EditorStep::Render,
                    )
                } else {
                    (v, EditorStep::Ignored)
                }
            } else if !v.preview {
                (EditorPageView { editor: typed(v.editor, c), ..v }, EditorStep::Render)
            } else {
                (v, EditorStep::Ignored)
            }
        } else if c == 'r' {
            if v.show_tags {
                (
                    EditorPageView { toggles: (Set::empty(), Set::empty(), Set::empty()), ..v },
                    EditorStep::ResetTags {
                        card: v.card,
                        changed: v.toggles != (Set::<TagId>::empty(), Set::<TagId>::empty(), Set::<
                            TagId,
                        >::empty()),
                    },
                )
            } else if !v.preview {
                (EditorPageView { editor: typed(v.editor, c), ..v }, EditorStep::Render)
            } else {
                (v, EditorStep::Ignored)
            }
        } else {
            other_editor_key(v, key, ctrl, shift)
        },
        _ => other_editor_key(v, key, ctrl, shift),
    }
}

/// Any other key: it moves in the tags when they are shown, scrolls the
/// preview when it is shown, and goes to the editor otherwise.
pub open spec fn other_editor_key(v: EditorPageView, key: Key, ctrl: bool, shift: bool) -> (
    EditorPageView,
    EditorStep,
) {
    if v.show_tags {
        if list_can_move(v.list) && list_input(v.list, key, ctrl, shift) != v.list {
            (EditorPageView { list: list_input(v.list, key, ctrl, shift), ..v }, EditorStep::Render)
        } else {
            (v, EditorStep::Ignored)
        }
    } else if v.preview {
        (v, EditorStep::ToPreview)
    } else {
        let (e, changed) = editor_key(v.editor, key, ctrl, shift);
        (EditorPageView { editor: e, ..v }, if changed {
            EditorStep::Render
        } else {
            EditorStep::Ignored
        })
    }
}

pub struct CardEditorPage {
    editor: TextEditor,
    preview: bool,
    show_tags: bool,
    tags: Vec<TagId>,
    toggles: TagToggles,
    list: List,
    card: Option<CardId>,
}

impl View for CardEditorPage {
    type V = EditorPageView;

    closed spec fn view(&self) -> EditorPageView {
        EditorPageView {
            preview: self.preview,
            show_tags: self.show_tags,
            card: self.card,
            tags: self.tags@,
            toggles: self.toggles.view(),
            list: self.list@,
            editor: self.editor.state(),
        }
    }
}

impl CardEditorPage {
    pub closed spec fn wf(&self) -> bool {
        self.editor.wf() && self.toggles.wf()
    }

    pub fn new() -> (p: Self)
        ensures
            p.wf(),
            !p@.preview && !p@.show_tags && p@.card is None && p@.tags.len() == 0,
            p@.toggles == (Set::<TagId>::empty(), Set::<TagId>::empty(), Set::<TagId>::empty()),
            p@.editor.text.len() == 0,
            p@.list == (ListState { index: 0, selector: None, scroll: 0, len: 0, height: 0 }),
            p@.editor == (EditorView {
                text: Seq::empty(),
                cursor: 0,
                selector: None,
                ansi: Seq::empty(),
                lines: Seq::empty(),
                preferred: 0,
                scroll: 0,
                disabled: false,
                margins: (2, 2),
                colors: default_editor_colors(),
                placeholder: "Content..."@,
                last_size: Size { width: 0, height: 0 },
                last_hash: 0,
            }),
    {
        CardEditorPage {
            editor: TextEditor::new().with_placeholder("Content...").with_margins(2, 2),
            preview: false,
            show_tags: false,
            tags: Vec::new(),
            toggles: TagToggles::new(),
            list: List::new(),
            card: None,
        }
    }

    /// Enters the page with the tags there are, on `id` when a card is
    /// edited; `content` is that card's text and tags, when it was found.
    /// The card's text is put in the editor with the cursor at its start,
    /// and its tags are kept.
    pub fn on_enter(&mut self, id: Option<CardId>, tags: Vec<TagId>, content: Option<(&str, &[TagId])>)
        requires
            old(self).wf(),
        ensures
            final(self).wf(),
            !final(self)@.preview,
            final(self)@.card == id,
            final(self)@.tags == tags@,
            final(self)@.show_tags == old(self)@.show_tags,
            final(self)@.list == old(self)@.list,
            match (id, content) {
                (Some(_), Some((text, card_tags))) => {
                    &&& final(self)@.editor.text == text@
                    &&& final(self)@.editor.cursor == 0
                    &&& final(self)@.toggles == (Set::<TagId>::empty(), card_tags@.to_set(), Set::<TagId>::empty())
                },
                (Some(_), None) => final(self)@.editor.text.len() == 0 && final(self)@.toggles
                    == old(self)@.toggles,
                (None, _) => final(self)@.editor == old(self)@.editor && final(self)@.toggles
                    == old(self)@.toggles,
            },
    {
        self.preview = false;
        self.tags = tags;
        self.card = id;
        if id.is_some() {
            self.editor.clear();
            if let Some((text, card_tags)) = content {
                proof {
                    self.editor.law_cursor_within_text();
                }
                self.editor.push_str(text);
                proof {
                    self.editor.law_cursor_within_text();
                }
                self.editor.move_cursor(CursorMove::Start, false);
                self.toggles.clear();
                assert(Set::<TagId>::empty() + card_tags@.to_set() =~= card_tags@.to_set());
                self.toggles.keep_all(card_tags);
            }
        }
    }

    /// Takes a key, with the state of the control and shift keys, and hands
    /// back what the app is to do; see `editor_page_key`.
    pub fn input(&mut self, key: Key, ctrl: bool, shift: bool) -> (step: EditorStep)
        requires
            old(self).wf(),
        ensures
            final(self).wf(),
            (final(self)@, step) == editor_page_key(old(self)@, key, ctrl, shift),
    {
        match key {
            Key::Char(c) => if c == 'e' {
                if ctrl {
                    EditorStep::ExternalEdit
                } else {
                    self.type_if_editing(c)
                }
            } else if c == 'p' {
                if ctrl {
                    self.preview = !self.preview;
                    EditorStep::Render
                } else {
                    self.type_if_editing(c)
                }
            } else if c == 's' {
                if ctrl {
                    if !self.editor.is_empty() {
                        EditorStep::Save
                    } else {
                        EditorStep::Ignored
                    }
                } else {
                    self.type_if_editing(c)
                }
            } else if c == 't' {
                if ctrl {
                    self.show_tags = !self.show_tags;
                } else {
                    self.type_if_editing(c);
                }
                EditorStep::Render
            } else if c == ' ' {
                if self.show_tags {
                    if self.tags.len() > 0 {
                        self.toggle_selection();
                        EditorStep::Render
                    } else {
                        EditorStep::Ignored
                    }
                } else if !self.preview {
                    self.type_char(c);
                    EditorStep::Render
                } else {
                    EditorStep::Ignored
                }
            } else if c == 'r' {
                if self.show_tags {
                    let changed = self.toggles.clear();
                    EditorStep::ResetTags { card: self.card, changed }
                } else if !self.preview {
                    self.type_char(c);
                    EditorStep::Render
                } else {
                    EditorStep::Ignored
                }
            } else {
                self.other_key(key, ctrl, shift)
            },
            _ => self.other_key(key, ctrl, shift),
        }
    }

    fn type_char(&mut self, c: char)
        requires
            old(self).wf(),
        ensures
            final(self).wf(),
            final(self)@ == (EditorPageView { editor: typed(old(self)@.editor, c), ..old(self)@ }),
    {
        proof {
            self.editor.law_cursor_within_text();
        }
        self.editor.push_char(c);
    }

    fn type_if_editing(&mut self, c: char) -> (step: EditorStep)
        requires
            old(self).wf(),
        ensures
            final(self).wf(),
            (final(self)@, step) == type_if_editing(old(self)@, c),
    {
        if !self.show_tags && !self.preview {
            self.type_char(c);
            EditorStep::Render
        } else {
            EditorStep::Ignored
        }
    }

    fn other_key(&mut self, key: Key, ctrl: bool, shift: bool) -> (step: EditorStep)
        requires
            old(self).wf(),
        ensures
            final(self).wf(),
            (final(self)@, step) == other_editor_key(old(self)@, key, ctrl, shift),
    {
        if self.show_tags {
            if self.list.can_move() {
                if self.list.input(key, ctrl, shift) {
                    EditorStep::Render
                } else {
                    EditorStep::Ignored
                }
            } else {
                EditorStep::Ignored
            }
        } else if self.preview {
            EditorStep::ToPreview
        } else {
            if self.editor.input(key, ctrl, shift) {
                EditorStep::Render
            } else {
                EditorStep::Ignored
            }
        }
    }

    fn toggle_selection(&mut self)
        requires
            old(self).wf(),
        ensures
            final(self).wf(),
            final(self)@ == (EditorPageView {
                toggles: toggled_range(
                    old(self)@.toggles,
                    old(self)@.tags,
                    selected_span(old(self)@.list).0,
                    selected_span(old(self)@.list).1,
                ),
                ..old(self)@
            }),
    {
        let index = self.list.index();
        let (lo, hi) = match self.list.selector() {
            None => (index, index),
            Some(s) => if index < s {
                (index, s)
            } else {
                (s, index)
            },
        };
        let ghost t0 = self.toggles.view();
        let mut i = lo;
        loop
            invariant_except_break
                toggled_range(self.toggles.view(), self.tags@, i as int, hi as int) == toggled_range(
                    t0,
                    self.tags@,
                    lo as int,
                    hi as int,
                ),
            invariant
                self.wf(),
                self.editor.state() == old(self)@.editor,
                self.preview == old(self)@.preview && self.show_tags == old(self)@.show_tags,
                self.card == old(self)@.card,
                self.tags@ == old(self)@.tags && self.list@ == old(self)@.list,
                lo <= i <= hi,
                lo == selected_span(self.list@).0 && hi == selected_span(self.list@).1,
                t0 == old(self)@.toggles,
            ensures
                self.wf(),
                self.editor.state() == old(self)@.editor,
                self.preview == old(self)@.preview && self.show_tags == old(self)@.show_tags,
                self.card == old(self)@.card,
                self.tags@ == old(self)@.tags && self.list@ == old(self)@.list,
                self.toggles.view() == toggled_range(t0, self.tags@, lo as int, hi as int),
            decreases hi - i,
        {
            let ghost before = self.toggles.view();
            if i < self.tags.len() {
                let id = self.tags[i];
                self.toggles.toggle(id);
            }
            proof {
                assert(toggled_range(before, self.tags@, i as int, hi as int) == toggled_range(
                    self.toggles.view(),
                    self.tags@,
                    i + 1,
                    hi as int,
                ));
            }
            if i == hi {
                proof {
                    assert(toggled_range(self.toggles.view(), self.tags@, i + 1, hi as int) == self.toggles.view());
                }
                break;
            }
            i = i + 1;
        }
    }

    /// Keeps the card's tags after the toggles were forgotten.
    pub fn keep_tags(&mut self, card_tags: &[TagId])
        requires
            old(self).wf(),
            old(self)@.toggles == (Set::<TagId>::empty(), Set::<TagId>::empty(), Set::<TagId>::empty()),
        ensures
            final(self).wf(),
            final(self)@ == (EditorPageView {
                toggles: (Set::<TagId>::empty(), card_tags@.to_set(), Set::<TagId>::empty()),
                ..old(self)@
            }),
    {
        assert(Set::<TagId>::empty() + card_tags@.to_set() =~= card_tags@.to_set());
        self.toggles.keep_all(card_tags);
    }

    /// Puts `content`, edited outside, in place of the text, with the cursor
    /// at its start.
    pub fn replace_text(&mut self, content: &str)
        requires
            old(self).wf(),
        ensures
            final(self).wf(),
            final(self)@.editor.text == content@,
            final(self)@.editor.cursor == 0,
            final(self)@.preview == old(self)@.preview && final(self)@.show_tags == old(self)@.show_tags,
            final(self)@.card == old(self)@.card && final(self)@.tags == old(self)@.tags,
            final(self)@.toggles == old(self)@.toggles && final(self)@.list == old(self)@.list,
    {
        self.editor.clear();
        proof {
            self.editor.law_cursor_within_text();
        }
        self.editor.push_str(content);
        proof {
            self.editor.law_cursor_within_text();
        }
        self.editor.move_cursor(CursorMove::Start, false);
    }

    /// After a save: the page is left as a new card with no text, without
    /// the preview, the tags or the toggles.
    pub fn saved(&mut self)
        requires
            old(self).wf(),
        ensures
            final(self).wf(),
            final(self)@.card is None && !final(self)@.preview && !final(self)@.show_tags,
            final(self)@.editor.text.len() == 0,
            final(self)@.toggles == (Set::<TagId>::empty(), Set::<TagId>::empty(), Set::<TagId>::empty()),
            final(self)@.tags == old(self)@.tags && final(self)@.list == old(self)@.list,
    {
        self.card = None;
        self.preview = false;
        self.show_tags = false;
        self.editor.clear();
        self.toggles.clear();
    }

    /// Leaves the page: an edited card's text, tags and toggles are dropped,
    /// while a new card's text stays for later.
    pub fn on_exit(&mut self)
        requires
            old(self).wf(),
        ensures
            final(self).wf(),
            old(self)@.card is Some ==> {
                &&& final(self)@.editor.text.len() == 0
                &&& !final(self)@.show_tags
                &&& final(self)@.toggles == (Set::<TagId>::empty(), Set::<TagId>::empty(), Set::<TagId>::empty())
            },
            old(self)@.card is None ==> final(self)@ == old(self)@,
            final(self)@.card == old(self)@.card,
    {
        if self.card.is_some() {
            self.editor.clear();
            self.show_tags = false;
            self.toggles.clear();
        }
    }

    /// The card's text.
    pub fn text(&self) -> (s: &str)
        ensures
            s@ == self@.editor.text,
    {
        self.editor.as_str()
    }

    /// The card being edited, if any.
    pub fn card(&self) -> (c: Option<CardId>)
        ensures
            c == self@.card,
    {
        self.card
    }

    pub fn toggles(&self) -> (t: &TagToggles)
        ensures
            t.view() == self@.toggles,
    {
        &self.toggles
    }

    pub fn tags(&self) -> (t: &Vec<TagId>)
        ensures
            t@ == self@.tags,
    {
        &self.tags
    }

    pub fn is_preview(&self) -> (b: bool)
        ensures
            b == self@.preview,
    {
        self.preview
    }

    pub fn show_tags(&self) -> (b: bool)
        ensures
            b == self@.show_tags,
    {
        self.show_tags
    }

    pub fn editor(&mut self) -> (e: &mut TextEditor)
        requires
            old(self).wf(),
        ensures
            e.state() == old(self)@.editor,
            e.wf(),
    {
        &mut self.editor
    }

    pub fn tag_list(&mut self) -> (l: &mut List)
        ensures
            l@ == old(self)@.list,
    {
        &mut self.list
    }
}

} // verus!
