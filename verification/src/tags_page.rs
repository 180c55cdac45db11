//! The tags page: the tags in the order of their names, laid out as tokens,
//! with forms to add, rename and delete a tag.
use vstd::prelude::*;

use crate::data::TagId;
use crate::keys::Key;
use crate::text::{chars_of, display_width, push_str, str_width, trimmed};
use crate::text_input::{deleted_selection, key_effect, typed_char, InputState, TextInput};
use crate::token_list::{token_input, TokenList};

verus! {

/// Whether name `a` comes before name `b`: char by char, by code point,
/// a name before the longer names that it starts.
pub open spec fn name_lt(a: Seq<char>, b: Seq<char>) -> bool
    decreases a.len(),
{
    if a.len() == 0 {
        b.len() > 0
    } else if b.len() == 0 {
        false
    } else if a[0] != b[0] {
        (a[0] as int) < (b[0] as int)
    } else {
        name_lt(a.drop_first(), b.drop_first())
    }
}

proof fn lemma_lt_asym(a: Seq<char>, b: Seq<char>)
    ensures
        name_lt(a, b) ==> !name_lt(b, a),
    decreases a.len(),
{
    if a.len() > 0 && b.len() > 0 && a[0] == b[0] {
        lemma_lt_asym(a.drop_first(), b.drop_first());
    }
}

proof fn lemma_lt_trans(a: Seq<char>, b: Seq<char>, c: Seq<char>)
    requires
        name_lt(a, b),
        name_lt(b, c),
    ensures
        name_lt(a, c),
    decreases a.len(),
{
    if a.len() > 0 && a[0] == b[0] && b[0] == c[0] {
        lemma_lt_trans(a.drop_first(), b.drop_first(), c.drop_first());
    }
}

proof fn lemma_lt_total(a: Seq<char>, b: Seq<char>)
    ensures
        a == b || name_lt(a, b) || name_lt(b, a),
    decreases a.len(),
{
    if a.len() == 0 && b.len() == 0 {
        assert(a =~= b);
    } else if a.len() > 0 && b.len() > 0 {
        if a[0] == b[0] {
            lemma_lt_total(a.drop_first(), b.drop_first());
            if a.drop_first() == b.drop_first() {
                assert(a =~= seq![a[0]] + a.drop_first());
                assert(b =~= seq![b[0]] + b.drop_first());
            }
        } else {
            assert((a[0] as int) != (b[0] as int));
        }
    }
}

/// Whether `a` does not come after `b`, and `b` after `c`, then `a` does
/// not come after `c`.
proof fn lemma_not_after(a: Seq<char>, b: Seq<char>, c: Seq<char>)
    requires
        !name_lt(b, a),
        !name_lt(c, b),
    ensures
        !name_lt(c, a),
{
    lemma_lt_total(a, b);
    lemma_lt_total(b, c);
    if name_lt(c, a) {
        if a != b && b != c {
            lemma_lt_trans(a, b, c);
            lemma_lt_asym(a, c);
        } else if a == b {
            lemma_lt_asym(c, b);
        } else {
            lemma_lt_asym(a, b);
        }
    }
}

fn name_less(a: &str, b: &str) -> (r: bool)
    ensures
        r == name_lt(a@, b@),
{
    let x = chars_of(a);
    let y = chars_of(b);
    let mut i: usize = 0;
    proof {
        assert(x@.subrange(0, x@.len() as int) =~= x@);
        assert(y@.subrange(0, y@.len() as int) =~= y@);
    }
    while i < x.len() && i < y.len() && x[i] == y[i]
        invariant
            i <= x@.len() && i <= y@.len(),
            name_lt(a@, b@) == name_lt(x@.subrange(i as int, x@.len() as int), y@.subrange(i as int, y@.len() as int)),
            x@ == a@ && y@ == b@,
        decreases x@.len() - i,
    {
        proof {
            let xs = x@.subrange(i as int, x@.len() as int);
            let ys = y@.subrange(i as int, y@.len() as int);
            assert(xs.drop_first() =~= x@.subrange(i + 1, x@.len() as int));
            assert(ys.drop_first() =~= y@.subrange(i + 1, y@.len() as int));
        }
        i = i + 1;
    }
    proof {
        let xs = x@.subrange(i as int, x@.len() as int);
        let ys = y@.subrange(i as int, y@.len() as int);
        if i < x@.len() && i < y@.len() {
            assert(xs[0] == x@[i as int] && ys[0] == y@[i as int]);
        }
    }
    if i == x.len() {
        i < y.len()
    } else if i == y.len() {
        false
    } else {
        x[i] < y[i]
    }
}

/// The columns that a tag's name takes, as a token: at most the largest
/// width of a token.
pub open spec fn tag_width(name: Seq<char>) -> u16 {
    if display_width(name) > u16::MAX {
        u16::MAX
    } else {
        display_width(name) as u16
    }
}

/// A tag as the page keeps it: its id, its name and the width of its name.
pub struct TagEntry {
    pub id: TagId,
    pub name: String,
    pub width: u16,
}

impl TagEntry {
    pub fn new(id: TagId, name: &str) -> (e: TagEntry)
        ensures
            e.id == id && e.name@ == name@ && e.width == tag_width(name@),
    {
        let w = str_width(name);
        let width = if w > 65535 {
            65535
        } else {
            w as u16
        };
        let mut s = String::new();
        push_str(&mut s, name);
        TagEntry { id, name: s, width }
    }
}

/// A tag as plain values.
pub open spec fn entry_view(e: TagEntry) -> (TagId, Seq<char>) {
    (e.id, e.name@)
}

/// The tags are in the order of their names.
pub open spec fn names_sorted(s: Seq<(TagId, Seq<char>)>) -> bool {
    forall|i: int, j: int| 0 <= i < j < s.len() ==> !name_lt(#[trigger] s[j].1, #[trigger] s[i].1)
}

/// Where a tag named `name` goes among the sorted tags from `i` on: before
/// the first whose name does not come before it.
pub open spec fn slot_from(s: Seq<(TagId, Seq<char>)>, name: Seq<char>, i: int) -> int
    decreases s.len() - i,
{
    if i < 0 || i >= s.len() {
        s.len() as int
    } else if !name_lt(s[i].1, name) {
        i
    } else {
        slot_from(s, name, i + 1)
    }
}

proof fn lemma_slot(s: Seq<(TagId, Seq<char>)>, name: Seq<char>, i: int)
    requires
        0 <= i <= s.len(),
    ensures
        i <= slot_from(s, name, i) <= s.len(),
        forall|k: int| i <= k < slot_from(s, name, i) ==> name_lt(s[k].1, name),
        slot_from(s, name, i) < s.len() ==> !name_lt(s[slot_from(s, name, i)].1, name),
    decreases s.len() - i,
{
    if i < s.len() && name_lt(s[i].1, name) {
        lemma_slot(s, name, i + 1);
    }
}

/// Inserting a tag where its name goes keeps the tags in order.
proof fn lemma_insert_sorted(s: Seq<(TagId, Seq<char>)>, x: (TagId, Seq<char>))
    requires
        names_sorted(s),
    ensures
        names_sorted(s.insert(slot_from(s, x.1, 0), x)),
{
    let p = slot_from(s, x.1, 0);
    lemma_slot(s, x.1, 0);
    let t = s.insert(p, x);
    assert forall|i: int, j: int| 0 <= i < j < t.len() implies !name_lt(#[trigger] t[j].1, #[trigger] t[i].1) by {
        if i < p && j < p {
            assert(t[i] == s[i] && t[j] == s[j]);
        } else if i < p && j == p {
            lemma_lt_asym(s[i].1, x.1);
        } else if i < p && j > p {
            assert(t[j] == s[j - 1]);
            if j - 1 < p {
                assert(!name_lt(s[j - 1].1, s[i].1));
            } else {
                assert(!name_lt(s[j - 1].1, s[i].1));
            }
        } else if i == p {
            assert(t[j] == s[j - 1]);
            if p < s.len() {
                if j - 1 > p {
                    assert(!name_lt(s[j - 1].1, s[p].1));
                } else {
                    lemma_lt_asym(s[p].1, s[p].1);
                }
                lemma_not_after(x.1, s[p].1, s[j - 1].1);
            }
        } else {
            assert(t[i] == s[i - 1] && t[j] == s[j - 1]);
        }
    }
}

/// Removing a tag keeps the others in order.
proof fn lemma_remove_sorted(s: Seq<(TagId, Seq<char>)>, k: int)
    requires
        names_sorted(s),
        0 <= k < s.len(),
    ensures
        names_sorted(s.remove(k)),
{
    let t = s.remove(k);
    assert forall|i: int, j: int| 0 <= i < j < t.len() implies !name_lt(#[trigger] t[j].1, #[trigger] t[i].1) by {
        let si = if i < k {
            i
        } else {
            i + 1
        };
        let sj = if j < k {
            j
        } else {
            j + 1
        };
        assert(t[i] == s[si] && t[j] == s[sj]);
        assert(si < sj);
    }
}

/// The first position of a tag with id `id` from `i` on.
pub open spec fn id_from(s: Seq<(TagId, Seq<char>)>, id: TagId, i: int) -> Option<int>
    decreases s.len() - i,
{
    if i < 0 || i >= s.len() {
        None
    } else if s[i].0 == id {
        Some(i)
    } else {
        id_from(s, id, i + 1)
    }
}

proof fn lemma_id_from(s: Seq<(TagId, Seq<char>)>, id: TagId, i: int)
    requires
        0 <= i,
    ensures
        id_from(s, id, i) matches Some(k) ==> i <= k < s.len() && s[k].0 == id,
    decreases s.len() - i,
{
    if i < s.len() && s[i].0 != id {
        lemma_id_from(s, id, i + 1);
    }
}

/// Where the page stands.
#[derive(Debug, Clone, Copy, PartialEq, Eq, Structural)]
pub enum TagsState {
    /// The tags are browsed.
    Browse,
    /// A new tag is named.
    New,
    /// A tag is renamed.
    Edit(TagId),
    /// The deletion of a tag waits for a yes or a no; the flag tells whether
    /// its cards go too.
    Delete(TagId, bool),
}

/// What a key on the tags page asks of the app, after the page has taken it
/// into account.
#[derive(Debug, Clone, Copy, PartialEq, Eq, Structural)]
pub enum TagsStep {
    /// Nothing to do.
    Nothing,
    /// The page changed: draw it again.
    Render,
    /// Add a tag named `entered_name`, then call `added`, or `name_taken`
    /// when the name is taken.
    AddTag,
    /// Rename the tag to `entered_name`, then call `renamed`, or
    /// `name_taken` when the name is taken.
    RenameTag(TagId),
    /// Delete the tag, and its cards too when `with_cards`.
    DeleteTag { id: TagId, with_cards: bool },
    /// Go to the cards with the tag.
    Goto(TagId),
}

/// The tags page as plain values.
pub struct TagsView {
    pub tags: Seq<(TagId, Seq<char>)>,
    pub list: TokenList,
    pub state: TagsState,
    pub field: InputState,
    pub field_disabled: bool,
    pub message: Seq<char>,
}

/// The tag at the list's current item, if there is one.
pub open spec fn current_tag(v: TagsView) -> Option<TagId> {
    if v.list.index < v.tags.len() {
        Some(v.tags[v.list.index as int].0)
    } else {
        None
    }
}

/// The name typed in the field, without white space at its ends.
pub open spec fn entered(v: TagsView) -> Seq<char> {
    trimmed(v.field.text, 0, v.field.text.len() as int)
}

/// The field after typing `c`.
pub open spec fn pushed(st: InputState, c: char) -> InputState {
    let d = deleted_selection(st).0;
    InputState { text: d.text.insert(d.cursor, typed_char(c)), cursor: d.cursor + 1, selector: None }
}

/// A key on a form, `confirm` being what `Enter` asks for: `Ctrl+c` cancels
/// the form, and other keys edit the name.
pub open spec fn form_key(v: TagsView, key: Key, ctrl: bool, shift: bool, confirm: TagsStep, w: TagsView, step: TagsStep) -> bool {
    match key {
        Key::Enter => w == v && step == (if entered(v).len() > 0 {
            confirm
        } else {
            TagsStep::Nothing
        }),
        Key::Char(c) if c == 'c' => step == TagsStep::Render && if ctrl {
            w == TagsView {
                field: InputState { text: Seq::empty(), cursor: 0, selector: None },
                message: Seq::empty(),
                state: TagsState::Browse,
                ..v
            }
        } else {
            w == TagsView { field: pushed(v.field, c), ..v }
        },
        _ => if v.field_disabled {
            w == v && step == TagsStep::Nothing
        } else {
            let (f, changed) = key_effect(v.field, key, ctrl, shift);
            w == TagsView { field: f, ..v } && step == (if changed {
                TagsStep::Render
            } else {
                TagsStep::Nothing
            })
        },
    }
}

/// A key on the tags page. Browsing, `Delete` asks whether to delete the
/// tag, `n` opens the form for a new tag, `e` the form to rename the tag,
/// `g` goes to its cards, and other keys move among the tags. On a form,
/// see `form_key`. Asked whether to delete, `y` deletes the tag, `n` keeps
/// it, and `Space` switches whether its cards go too.
pub open spec fn tags_key(v: TagsView, widths: Seq<u16>, key: Key, ctrl: bool, shift: bool, w: TagsView, step: TagsStep) -> bool {
    match v.state {
        TagsState::Browse => match key {
            Key::Delete => match current_tag(v) {
                Some(id) => w == TagsView { state: TagsState::Delete(id, false), ..v } && step == TagsStep::Render,
                None => w == v && step == TagsStep::Nothing,
            },
            Key::Char(c) if c == 'n' => w == TagsView { state: TagsState::New, ..v } && step == TagsStep::Render,
            Key::Char(c) if c == 'e' => match current_tag(v) {
                Some(id) => w == TagsView { state: TagsState::Edit(id), ..v } && step == TagsStep::Render,
                None => w == v && step == TagsStep::Nothing,
            },
            Key::Char(c) if c == 'g' => w == v && step == match current_tag(v) {
                Some(id) => TagsStep::Goto(id),
                None => TagsStep::Nothing,
            },
            _ => if widths.len() <= u16::MAX {
                exists|changed: bool|
                    token_input(v.list, key, widths, w.list, changed) && w == TagsView { list: w.list, ..v }
                        && step == (if changed {
                        TagsStep::Render
                    } else {
                        TagsStep::Nothing
                    })
            } else {
                w == v && step == TagsStep::Nothing
            },
        },
        TagsState::New => form_key(v, key, ctrl, shift, TagsStep::AddTag, w, step),
        TagsState::Edit(id) => form_key(v, key, ctrl, shift, TagsStep::RenameTag(id), w, step),
        TagsState::Delete(id, with_cards) => match key {
            Key::Char(c) if c == 'y' => {
                let rest = if v.list.index < v.tags.len() {
                    v.tags.remove(v.list.index as int)
                } else {
                    v.tags
                };
                let i = if v.list.index < rest.len() {
                    v.list.index as int
                } else if rest.len() > 0 {
                    rest.len() - 1
                } else {
                    0
                };
                &&& w == TagsView { tags: rest, list: TokenList { index: i as usize, ..v.list }, state: TagsState::Browse, ..v }
                &&& step == TagsStep::DeleteTag { id, with_cards }
            },
            Key::Char(c) if c == 'n' => w == TagsView { state: TagsState::Browse, ..v } && step == TagsStep::Render,
            Key::Char(c) if c == ' ' => w == TagsView { state: TagsState::Delete(id, !with_cards), ..v } && step
                == TagsStep::Render,
            _ => w == v && step == TagsStep::Nothing,
        },
    }
}

pub struct TagsPage {
    tags: Vec<TagEntry>,
    list: TokenList,
    state: TagsState,
    input: TextInput,
    message: String,
}

impl View for TagsPage {
    type V = TagsView;

    closed spec fn view(&self) -> TagsView {
        TagsView {
            tags: self.tags@.map_values(|e: TagEntry| entry_view(e)),
            list: self.list,
            state: self.state,
            field: self.input@,
            field_disabled: self.input.is_disabled(),
            message: self.message@,
        }
    }
}

impl TagsPage {
    /// The tags are in the order of their names, each with the width of its
    /// name, and the field keeps its cursor within its text.
    pub closed spec fn wf(&self) -> bool {
        &&& names_sorted(self@.tags)
        &&& forall|i: int| 0 <= i < self.tags@.len() ==> (#[trigger] self.tags@[i]).width == tag_width(self.tags@[i].name@)
        &&& self.input.wf()
    }

    /// The widths of the tags' names, in order.
    pub closed spec fn width_seq(&self) -> Seq<u16> {
        self.tags@.map_values(|e: TagEntry| e.width)
    }

    pub fn new(tags: Vec<(TagId, String)>) -> (p: Self)
        ensures
            p.wf(),
            p@.tags.len() == tags@.len(),
            forall|t: (TagId, Seq<char>)| p@.tags.contains(t) ==> exists|i: int| 0 <= i < tags@.len() && t == (tags@[i].0, tags@[i].1@),
            p@.state == TagsState::Browse,
            p@.message.len() == 0,
            p@.field == (InputState { text: Seq::empty(), cursor: 0, selector: None }),
    {
        let mut page = TagsPage {
            tags: Vec::new(),
            list: TokenList::new(),
            state: TagsState::Browse,
            input: TextInput::new().with_placeholder("Tag name..."),
            message: String::new(),
        };
        assert(page@.tags =~= Seq::<(TagId, Seq<char>)>::empty());
        let mut i: usize = 0;
        while i < tags.len()
            invariant
                page.wf(),
                i <= tags@.len(),
                page@.tags.len() == i,
                forall|t: (TagId, Seq<char>)| page@.tags.contains(t) ==> exists|k: int| 0 <= k < i && t == (tags@[k].0, tags@[k].1@),
                page@.state == TagsState::Browse,
                page@.message.len() == 0,
                page@.field == (InputState { text: Seq::empty(), cursor: 0, selector: None }),
            decreases tags@.len() - i,
        {
            let ghost before = page@.tags;
            proof {
                lemma_slot(before, tags@[i as int].1@, 0);
            }
            let (id, name) = (tags[i].0, tags[i].1.as_str());
            page.insert_sorted(TagEntry::new(id, name));
            proof {
                let x = (tags@[i as int].0, tags@[i as int].1@);
                assert forall|t: (TagId, Seq<char>)| page@.tags.contains(t) implies exists|k: int| 0 <= k < i + 1 && t == (tags@[k].0, tags@[k].1@) by {
                    let j = choose|j: int| 0 <= j < page@.tags.len() && page@.tags[j] == t;
                    let p = slot_from(before, x.1, 0);
                    lemma_slot(before, x.1, 0);
                    if j < p {
                        assert(before[j] == t);
                        assert(before.contains(t));
                    } else if j == p {
                        assert(t == x);
                    } else {
                        assert(before[j - 1] == t);
                        assert(before.contains(t));
                    }
                }
            }
            i = i + 1;
        }
        page
    }

    /// Puts `e` where its name goes.
    fn insert_sorted(&mut self, e: TagEntry)
        requires
            old(self).wf(),
            e.width == tag_width(e.name@),
        ensures
            final(self).wf(),
            final(self)@ == (TagsView { tags: old(self)@.tags.insert(slot_from(old(self)@.tags, e.name@, 0), entry_view(e)), ..old(self)@ }),
    {
        let ghost s = self@.tags;
        let ghost x = entry_view(e);
        let mut p: usize = 0;
        proof {
            lemma_slot(s, e.name@, 0);
        }
        while p < self.tags.len() && name_less(self.tags[p].name.as_str(), e.name.as_str())
            invariant
                p <= self.tags@.len(),
                s == self@.tags,
                s.len() == self.tags@.len(),
                slot_from(s, e.name@, p as int) == slot_from(s, e.name@, 0),
            decreases self.tags@.len() - p,
        {
            p = p + 1;
        }
        proof {
            lemma_insert_sorted(s, x);
        }
        let ghost old_tags = self.tags@;
        self.tags.insert(p, e);
        proof {
            assert(self@.tags =~= s.insert(p as int, x));
            assert forall|i: int| 0 <= i < self.tags@.len() implies (#[trigger] self.tags@[i]).width == tag_width(self.tags@[i].name@) by {
                if i < p {
                    assert(self.tags@[i] == old_tags[i]);
                } else if i > p {
                    assert(self.tags@[i] == old_tags[i - 1]);
                }
            }
        }
    }

    fn find_tag(&self, id: TagId) -> (r: Option<usize>)
        ensures
            match r {
                Some(i) => id_from(self@.tags, id, 0) == Some(i as int),
                None => id_from(self@.tags, id, 0) is None,
            },
    {
        let mut i: usize = 0;
        while i < self.tags.len()
            invariant
                i <= self.tags@.len(),
                id_from(self@.tags, id, i as int) == id_from(self@.tags, id, 0),
            decreases self.tags@.len() - i,
        {
            if self.tags[i].id == id {
                return Some(i);
            }
            i = i + 1;
        }
        None
    }

    /// The tag at the list's current item, if any.
    pub fn current_tag_id(&self) -> (r: Option<TagId>)
        ensures
            r == current_tag(self@),
    {
        if self.list.index < self.tags.len() {
            Some(self.tags[self.list.index].id)
        } else {
            None
        }
    }

    /// The widths of the tags' names, for the token list.
    pub fn widths_vec(&self) -> (w: Vec<u16>)
        ensures
            w@ == self.width_seq(),
    {
        let mut w: Vec<u16> = Vec::new();
        let mut i: usize = 0;
        while i < self.tags.len()
            invariant
                i <= self.tags@.len(),
                w@ == self.tags@.subrange(0, i as int).map_values(|e: TagEntry| e.width),
            decreases self.tags@.len() - i,
        {
            w.push(self.tags[i].width);
            proof {
                assert(self.tags@.subrange(0, i + 1).map_values(|e: TagEntry| e.width) =~= self.tags@.subrange(
                    0,
                    i as int,
                ).map_values(|e: TagEntry| e.width).push(self.tags@[i as int].width));
            }
            i = i + 1;
        }
        proof {
            assert(self.tags@.subrange(0, self.tags@.len() as int) =~= self.tags@);
        }
        w
    }

    /// Takes a key, with the state of the control and shift keys, and hands
    /// back what the app is to do; see `tags_key`.
    pub fn input(&mut self, key: Key, ctrl: bool, shift: bool) -> (step: TagsStep)
        requires
            old(self).wf(),
        ensures
            final(self).wf(),
            tags_key(old(self)@, old(self).width_seq(), key, ctrl, shift, final(self)@, step),
    {
        match self.state {
            TagsState::Browse => self.browse_key(key),
            TagsState::New => self.form_key(key, ctrl, shift, TagsStep::AddTag),
            TagsState::Edit(id) => self.form_key(key, ctrl, shift, TagsStep::RenameTag(id)),
            TagsState::Delete(id, with_cards) => self.delete_key(id, with_cards, key),
        }
    }

    fn browse_key(&mut self, key: Key) -> (step: TagsStep)
        requires
            old(self).wf(),
            old(self)@.state == TagsState::Browse,
        ensures
            final(self).wf(),
            tags_key(old(self)@, old(self).width_seq(), key, false, false, final(self)@, step),
    {
        match key {
        Key::Delete => match self.current_tag_id() {
            Some(id) => {
                self.state = TagsState::Delete(id, false);
                TagsStep::Render
            },
            None => TagsStep::Nothing,
        },
        Key::Char(c) if c == 'n' => {
            self.state = TagsState::New;
            TagsStep::Render
        },
        Key::Char(c) if c == 'e' => match self.current_tag_id() {
            Some(id) => {
                self.state = TagsState::Edit(id);
                TagsStep::Render
            },
            None => TagsStep::Nothing,
        },
        Key::Char(c) if c == 'g' => match self.current_tag_id() {
            Some(id) => TagsStep::Goto(id),
            None => TagsStep::Nothing,
        },
        _ => {
            let widths = self.widths_vec();
            if widths.len() <= 65535 {
                let changed = self.list.input(key, widths.as_slice());
                if changed {
                    TagsStep::Render
                } else {
                    TagsStep::Nothing
                }
            } else {
                TagsStep::Nothing
            }
        },
            }
    }

    fn delete_key(&mut self, id: TagId, with_cards: bool, key: Key) -> (step: TagsStep)
        requires
            old(self).wf(),
            old(self)@.state == TagsState::Delete(id, with_cards),
        ensures
            final(self).wf(),
            tags_key(old(self)@, old(self).width_seq(), key, false, false, final(self)@, step),
    {
        let c = match key {
            Key::Char(c) => c,
            _ => return TagsStep::Nothing,
        };
        if c == 'y' {
            let ghost v = self@;
            if self.list.index < self.tags.len() {
                let ghost before = self.tags@;
                proof {
                    lemma_remove_sorted(self@.tags, self.list.index as int);
                }
                self.tags.remove(self.list.index);
                proof {
                    assert(self@.tags =~= v.tags.remove(v.list.index as int));
                    assert forall|i: int| 0 <= i < self.tags@.len() implies (#[trigger] self.tags@[i]).width == tag_width(self.tags@[i].name@) by {
                        if i < v.list.index {
                            assert(self.tags@[i] == before[i]);
                        } else {
                            assert(self.tags@[i] == before[i + 1]);
                        }
                    }
                }
            }
            let n = self.tags.len();
            if self.list.index >= n {
                self.list.index = if n > 0 {
                    n - 1
                } else {
                    0
                };
            }
            self.state = TagsState::Browse;
            TagsStep::DeleteTag { id, with_cards }
        } else if c == 'n' {
            self.state = TagsState::Browse;
            TagsStep::Render
        } else if c == ' ' {
            self.state = TagsState::Delete(id, !with_cards);
            TagsStep::Render
        } else {
            TagsStep::Nothing
        }
    }

    fn form_key(&mut self, key: Key, ctrl: bool, shift: bool, confirm: TagsStep) -> (step: TagsStep)
        requires
            old(self).wf(),
        ensures
            final(self).wf(),
            form_key(old(self)@, key, ctrl, shift, confirm, final(self)@, step),
    {
        match key {
            Key::Enter => {
                if self.input.as_str_trim().unicode_len() > 0 {
                    confirm
                } else {
                    TagsStep::Nothing
                }
            },
            Key::Char(c) if c == 'c' => {
                if ctrl {
                    self.input.clear();
                    self.message = String::new();
                    self.state = TagsState::Browse;
                } else {
                    self.input.push_char(c);
                }
                TagsStep::Render
            },
            _ => {
                if self.input.input(key, ctrl, shift) {
                    TagsStep::Render
                } else {
                    TagsStep::Nothing
                }
            },
        }
    }

    /// The name typed in the form, without white space at its ends.
    pub fn entered_name(&self) -> (s: &str)
        ensures
            s@ == entered(self@),
    {
        self.input.as_str_trim()
    }

    /// After the new tag was added as `id`: it goes where its name goes and
    /// becomes the current item, and the form closes.
    pub fn added(&mut self, id: TagId, name: &str)
        requires
            old(self).wf(),
        ensures
            final(self).wf(),
            final(self)@.tags == old(self)@.tags.insert(slot_from(old(self)@.tags, name@, 0), (id, name@)),
            final(self)@.state == TagsState::Browse,
            final(self)@.message.len() == 0,
            final(self)@.field == (InputState { text: Seq::empty(), cursor: 0, selector: None }),
            match id_from(final(self)@.tags, id, 0) {
                Some(i) => final(self)@.list.index == i,
                None => final(self)@.list.index == old(self)@.list.index,
            },
    {
        self.insert_sorted(TagEntry::new(id, name));
        self.select_tag(id);
        self.input.clear();
        self.message = String::new();
        self.state = TagsState::Browse;
    }

    /// After the current tag was renamed: it goes where its new name goes
    /// and stays the current item, and the form closes.
    pub fn renamed(&mut self, id: TagId, name: &str)
        requires
            old(self).wf(),
        ensures
            final(self).wf(),
            ({
                let rest = if old(self)@.list.index < old(self)@.tags.len() {
                    old(self)@.tags.remove(old(self)@.list.index as int)
                } else {
                    old(self)@.tags
                };
                final(self)@.tags == rest.insert(slot_from(rest, name@, 0), (id, name@))
            }),
            final(self)@.state == TagsState::Browse,
            final(self)@.message.len() == 0,
            final(self)@.field == (InputState { text: Seq::empty(), cursor: 0, selector: None }),
            id_from(final(self)@.tags, id, 0) matches Some(i) ==> final(self)@.list.index == i,
    {
        if self.list.index < self.tags.len() {
            let ghost v = self@;
            let ghost before = self.tags@;
            proof {
                lemma_remove_sorted(self@.tags, self.list.index as int);
            }
            self.tags.remove(self.list.index);
            proof {
                assert(self@.tags =~= v.tags.remove(v.list.index as int));
                assert forall|i: int| 0 <= i < self.tags@.len() implies (#[trigger] self.tags@[i]).width == tag_width(self.tags@[i].name@) by {
                    if i < v.list.index {
                        assert(self.tags@[i] == before[i]);
                    } else {
                        assert(self.tags@[i] == before[i + 1]);
                    }
                }
            }
        }
        self.insert_sorted(TagEntry::new(id, name));
        self.select_tag(id);
        self.input.clear();
        self.message = String::new();
        self.state = TagsState::Browse;
    }

    fn select_tag(&mut self, id: TagId)
        requires
            old(self).wf(),
        ensures
            final(self).wf(),
            match id_from(old(self)@.tags, id, 0) {
                Some(i) => {
                    &&& final(self)@.list.index == i
                    &&& final(self)@.list == (TokenList { index: final(self)@.list.index, ..old(self)@.list })
                    &&& final(self)@ == (TagsView { list: final(self)@.list, ..old(self)@ })
                },
                None => final(self)@ == old(self)@,
            },
    {
        proof {
            lemma_id_from(self@.tags, id, 0);
        }
        if let Some(i) = self.find_tag(id) {
            self.list.set_index(i);
        }
    }

    /// The name typed in the form is taken by another tag: the form stays,
    /// with a message that says so.
    pub fn name_taken(&mut self, name: &str)
        ensures
            final(self)@ == (TagsView { message: "Tag name '"@ + name@ + "' already exists"@, ..old(self)@ }),
            final(self).wf() == old(self).wf(),
    {
        let mut m = String::new();
        push_str(&mut m, "Tag name '");
        push_str(&mut m, name);
        push_str(&mut m, "' already exists");
        self.message = m;
    }

    pub fn state(&self) -> (s: TagsState)
        ensures
            s == self@.state,
    {
        self.state
    }

    pub fn message(&self) -> (s: &str)
        ensures
            s@ == self@.message,
    {
        self.message.as_str()
    }

    pub fn tags(&self) -> (t: &Vec<TagEntry>)
        ensures
            t@.map_values(|e: TagEntry| entry_view(e)) == self@.tags,
    {
        &self.tags
    }

    /// The name of the current tag, if any.
    pub fn current_tag_name(&self) -> (s: Option<&str>)
        ensures
            match s {
                Some(n) => self@.list.index < self@.tags.len() && n@ == self@.tags[self@.list.index as int].1,
                None => self@.list.index >= self@.tags.len(),
            },
    {
        if self.list.index < self.tags.len() {
            Some(self.tags[self.list.index].name.as_str())
        } else {
            None
        }
    }

    pub fn list(&mut self) -> (l: &mut TokenList)
        ensures
            *l == old(self)@.list,
    {
        &mut self.list
    }

    pub fn field(&mut self) -> (f: &mut TextInput)
        ensures
            f@ == old(self)@.field,
    {
        &mut self.input
    }
}

/// After adding a tag, the tags are still in the order of their names, and
/// they are the tags from before with the new one among them.
pub proof fn law_added_in_order(s: Seq<(TagId, Seq<char>)>, x: (TagId, Seq<char>))
    requires
        names_sorted(s),
    ensures
        names_sorted(s.insert(slot_from(s, x.1, 0), x)),
        s.insert(slot_from(s, x.1, 0), x).to_multiset() == s.to_multiset().insert(x),
{
    lemma_insert_sorted(s, x);
    lemma_slot(s, x.1, 0);
    vstd::seq_lib::to_multiset_insert(s, slot_from(s, x.1, 0), x);
}

} // verus!
