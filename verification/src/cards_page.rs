//! The cards page: the cards one at a time, filtered by a sidebar of tags in
//! which each tag is required, ruled out, or left alone.
use vstd::prelude::*;

use crate::data::{CardId, TagId};
use crate::id_set::IdSet;
use crate::keys::Key;
use crate::list::{list_input, List, ListState};
use crate::markup::min_of;
use crate::nav::CardsParam;

verus! {

/// The filter after toggling `id`: a required tag is ruled out, a ruled out
/// tag is left alone, and any other tag becomes required.
pub open spec fn toggled(f: (Set<TagId>, Set<TagId>), id: TagId) -> (Set<TagId>, Set<TagId>) {
    if f.0.contains(id) {
        (f.0.remove(id), f.1.insert(id))
    } else if f.1.contains(id) {
        (f.0, f.1.remove(id))
    } else {
        (f.0.insert(id), f.1)
    }
}

/// The filter after toggling the tags at positions `i` to `hi` of `tags`;
/// positions past the tags are passed over.
pub open spec fn toggled_range(f: (Set<TagId>, Set<TagId>), tags: Seq<TagId>, i: int, hi: int) -> (
    Set<TagId>,
    Set<TagId>,
)
    decreases hi + 1 - i,
{
    if i > hi {
        f
    } else {
        let g = if 0 <= i < tags.len() {
            toggled(f, tags[i])
        } else {
            f
        };
        toggled_range(g, tags, i + 1, hi)
    }
}

/// Which tags are required and which are ruled out; none is both.
pub struct TagFilter {
    includes: IdSet,
    excludes: IdSet,
}

impl TagFilter {
    pub closed spec fn view(&self) -> (Set<TagId>, Set<TagId>) {
        (self.includes.view(), self.excludes.view())
    }

    pub closed spec fn wf(&self) -> bool {
        &&& self.includes.wf()
        &&& self.excludes.wf()
        &&& self.includes.view().disjoint(self.excludes.view())
    }

    pub fn new() -> (f: Self)
        ensures
            f.wf(),
            f.view() == (Set::<TagId>::empty(), Set::<TagId>::empty()),
    {
        TagFilter { includes: IdSet::new(), excludes: IdSet::new() }
    }

    pub fn toggle(&mut self, id: TagId)
        requires
            old(self).wf(),
        ensures
            final(self).wf(),
            final(self).view() == toggled(old(self).view(), id),
    {
        if self.includes.remove(id) {
            self.excludes.insert(id);
            return ;
        }
        if self.excludes.remove(id) {
            return ;
        }
        self.includes.insert(id);
    }

    /// Requires `id`, whatever it was.
    pub fn require(&mut self, id: TagId)
        requires
            old(self).wf(),
        ensures
            final(self).wf(),
            final(self).view() == (old(self).view().0.insert(id), old(self).view().1.remove(id)),
    {
        self.excludes.remove(id);
        self.includes.insert(id);
    }

    /// Leaves every tag alone again; tells whether any was not.
    pub fn reset(&mut self) -> (changed: bool)
        requires
            old(self).wf(),
        ensures
            final(self).wf(),
            final(self).view() == (Set::<TagId>::empty(), Set::<TagId>::empty()),
            changed == (old(self).view() != (Set::<TagId>::empty(), Set::<TagId>::empty())),
    {
        let has_includes = !self.includes.is_empty();
        let has_excludes = !self.excludes.is_empty();
        self.includes.clear();
        self.excludes.clear();
        has_includes || has_excludes
    }

    /// Forgets the tags that are not among `known`.
    pub fn retain(&mut self, known: &[TagId])
        requires
            old(self).wf(),
        ensures
            final(self).wf(),
            final(self).view() == (
                old(self).view().0.intersect(known@.to_set()),
                old(self).view().1.intersect(known@.to_set()),
            ),
    {
        self.includes.retain(known);
        self.excludes.retain(known);
    }

    pub fn is_included(&self, id: TagId) -> (b: bool)
        ensures
            b == self.view().0.contains(id),
    {
        self.includes.contains(id)
    }

    pub fn is_excluded(&self, id: TagId) -> (b: bool)
        ensures
            b == self.view().1.contains(id),
    {
        self.excludes.contains(id)
    }

    /// The required tags.
    pub fn includes(&self) -> (v: Vec<TagId>)
        ensures
            v@.to_set() == self.view().0,
    {
        self.includes.to_vec()
    }

    /// The ruled out tags.
    pub fn excludes(&self) -> (v: Vec<TagId>)
        ensures
            v@.to_set() == self.view().1,
    {
        self.excludes.to_vec()
    }
}

/// Toggling a tag three times leaves the filter as it was, so that each tag
/// goes round required, ruled out and left alone.
pub proof fn law_toggle_cycle(f: (Set<TagId>, Set<TagId>), id: TagId)
    requires
        f.0.disjoint(f.1),
    ensures
        toggled(toggled(toggled(f, id), id), id) == f,
        toggled(f, id).0.disjoint(toggled(f, id).1),
{
    if f.0.contains(id) {
        assert(f.0.remove(id).insert(id) =~= f.0);
        assert(f.1.insert(id).remove(id) =~= f.1);
    } else if f.1.contains(id) {
        assert(f.1.remove(id).insert(id) =~= f.1);
        assert(f.0.insert(id).remove(id) =~= f.0);
    } else {
        assert(f.0.insert(id).remove(id) =~= f.0);
        assert(f.1.insert(id).remove(id) =~= f.1);
    }
}

/// The first position of `x` in `s` from `i` on.
pub open spec fn find_from(s: Seq<i64>, x: i64, i: int) -> Option<int>
    decreases s.len() - i,
{
    if i < 0 || i >= s.len() {
        None
    } else if s[i] == x {
        Some(i)
    } else {
        find_from(s, x, i + 1)
    }
}

fn find(s: &Vec<i64>, x: i64) -> (r: Option<usize>)
    ensures
        match r {
            Some(i) => find_from(s@, x, 0) == Some(i as int),
            None => find_from(s@, x, 0) is None,
        },
{
    let mut i: usize = 0;
    while i < s.len()
        invariant
            i <= s@.len(),
            find_from(s@, x, i as int) == find_from(s@, x, 0),
        decreases s@.len() - i,
    {
        if s[i] == x {
            return Some(i);
        }
        i = i + 1;
    }
    None
}

/// What a key on the cards page asks of the app, after the page has taken
/// it into account.
#[derive(Debug, Clone, Copy, PartialEq, Eq, Structural)]
pub enum CardsStep {
    /// Nothing to do.
    Ignored,
    /// Another card is shown: scroll to its start.
    Moved,
    /// Delete the card; when cards are left, scroll to the start of the one
    /// shown.
    Deleted { card: CardId, any_left: bool },
    /// Open the card in the editor.
    Edit(CardId),
    /// Only the look of the page changed.
    Shown,
    /// The filter changed: fetch the cards again.
    FilterChanged,
    /// The key goes to the card's view (scrolling).
    ToMarkup,
}

/// The cards page as plain values.
pub struct CardsView {
    pub cards: Seq<CardId>,
    pub index: int,
    pub show_tags: bool,
    pub tags: Seq<TagId>,
    pub filter: (Set<TagId>, Set<TagId>),
    pub list: ListState,
}

/// The items selected in a list, with its current one: first and last.
pub open spec fn selected_span(st: ListState) -> (int, int) {
    match st.selector {
        None => (st.index, st.index),
        Some(s) => (min_of(st.index, s), if st.index < s {
            s
        } else {
            st.index
        }),
    }
}

/// The tag list is far enough from the largest index to move.
pub open spec fn list_can_move(st: ListState) -> bool {
    st.index + st.height + 1 <= usize::MAX
}

/// A key on the cards page: `Right` and `Left` go round the cards, `Delete`
/// deletes the card shown, `e` edits it, `t` shows or hides the tags, and
/// with the tags shown `Space` toggles the selected tags, `r` leaves every
/// tag alone again, and other keys move in the tags. Without the tags, other
/// keys scroll the card.
pub open spec fn cards_key(v: CardsView, key: Key, ctrl: bool, shift: bool) -> (CardsView, CardsStep) {
    let len = v.cards.len();
    match key {
        Key::Right => if len > 1 {
            (CardsView { index: (v.index + 1) % (len as int), ..v }, CardsStep::Moved)
        } else {
            (v, CardsStep::Ignored)
        },
        Key::Left => if len > 1 {
            (CardsView { index: if v.index == 0 {
                len - 1
            } else {
                v.index - 1
            }, ..v }, CardsStep::Moved)
        } else {
            (v, CardsStep::Ignored)
        },
        Key::Delete => if v.index < len {
            let rest = v.cards.remove(v.index);
            (
                CardsView { cards: rest, index: if rest.len() > 0 {
                    min_of(v.index, rest.len() - 1)
                } else {
                    v.index
                }, ..v },
                CardsStep::Deleted { card: v.cards[v.index], any_left: rest.len() > 0 },
            )
        } else {
            (v, CardsStep::Ignored)
        },
        Key::Char(c) => if c == 'e' {
            if v.index < len {
                (v, CardsStep::Edit(v.cards[v.index]))
            } else {
                (v, CardsStep::Ignored)
            }
        } else if c == 't' {
            (CardsView { show_tags: !v.show_tags, ..v }, CardsStep::Shown)
        } else if c == ' ' {
            if v.show_tags && v.tags.len() > 0 {
                let span = selected_span(v.list);
                (CardsView { filter: toggled_range(v.filter, v.tags, span.0, span.1), ..v }, CardsStep::FilterChanged)
            } else {
                (v, CardsStep::Ignored)
            }
        } else if c == 'r' {
            if v.show_tags && v.tags.len() > 0 && v.filter != (
                Set::<TagId>::empty(),
                Set::<TagId>::empty(),
            ) {
                (CardsView { filter: (Set::empty(), Set::empty()), ..v }, CardsStep::FilterChanged)
            } else {
                (v, CardsStep::Ignored)
            }
        } else {
            other_key(v, key, ctrl, shift)
        },
        _ => other_key(v, key, ctrl, shift),
    }
}

/// Any other key: it moves in the tags when they are shown, and scrolls the
/// card otherwise.
pub open spec fn other_key(v: CardsView, key: Key, ctrl: bool, shift: bool) -> (CardsView, CardsStep) {
    if v.show_tags {
        if list_can_move(v.list) && list_input(v.list, key, ctrl, shift) != v.list {
            (CardsView { list: list_input(v.list, key, ctrl, shift), ..v }, CardsStep::Shown)
        } else {
            (v, CardsStep::Ignored)
        }
    } else {
        (v, CardsStep::ToMarkup)
    }
}

pub struct CardsPage {
    cards: Vec<CardId>,
    index: usize,
    show_tags: bool,
    tags: Vec<TagId>,
    filter: TagFilter,
    list: List,
}

impl View for CardsPage {
    type V = CardsView;

    closed spec fn view(&self) -> CardsView {
        CardsView {
            cards: self.cards@,
            index: self.index as int,
            show_tags: self.show_tags,
            tags: self.tags@,
            filter: self.filter.view(),
            list: self.list@,
        }
    }
}

impl CardsPage {
    /// The filter is a filter, and the card shown is one of the cards, or
    /// the first place when there are none.
    pub closed spec fn wf(&self) -> bool {
        &&& self.filter.wf()
        &&& (self.cards@.len() == 0 ==> self.index == 0)
        &&& (self.cards@.len() > 0 ==> self.index < self.cards@.len())
    }

    pub fn new() -> (p: Self)
        ensures
            p.wf(),
            p@.cards.len() == 0 && p@.index == 0 && !p@.show_tags && p@.tags.len() == 0,
            p@.filter == (Set::<TagId>::empty(), Set::<TagId>::empty()),
            p@.list == (ListState { index: 0, selector: None, scroll: 0, len: 0, height: 0 }),
    {
        CardsPage {
            cards: Vec::new(),
            index: 0,
            show_tags: false,
            tags: Vec::new(),
            filter: TagFilter::new(),
            list: List::new(),
        }
    }

    /// Enters the page, with the tags there are now and, when it opens on a
    /// card, that card's tags. Opening on a card requires its tags; opening
    /// on a tag requires that tag and selects it; both show the tags.
    /// Otherwise the filter forgets the tags that are gone. The cards are
    /// then fetched with the filter and handed to `set_cards`.
    pub fn on_enter(&mut self, param: Option<CardsParam>, tags: Vec<TagId>, card_tags: &[TagId])
        requires
            old(self).wf(),
        ensures
            final(self).wf(),
            final(self)@.tags == tags@,
            final(self)@.cards == old(self)@.cards && final(self)@.index == old(self)@.index,
            match param {
                Some(CardsParam::Card(_)) => {
                    &&& final(self)@.filter == (card_tags@.to_set(), Set::<TagId>::empty())
                    &&& final(self)@.list == (ListState { index: 0, scroll: 0, selector: None, ..old(self)@.list })
                    &&& final(self)@.show_tags
                },
                Some(CardsParam::Tag(t)) => {
                    &&& final(self)@.filter == (Set::<TagId>::empty().insert(t), Set::<TagId>::empty())
                    &&& final(self)@.list == match find_from(tags@, t, 0) {
                        Some(i) => ListState { index: i, scroll: 0, selector: None, ..old(self)@.list },
                        None => ListState { index: 0, scroll: 0, selector: None, ..old(self)@.list },
                    }
                    &&& final(self)@.show_tags
                },
                None => {
                    &&& final(self)@.filter == (
                        old(self)@.filter.0.intersect(tags@.to_set()),
                        old(self)@.filter.1.intersect(tags@.to_set()),
                    )
                    &&& final(self)@.list == old(self)@.list
                    &&& final(self)@.show_tags == old(self)@.show_tags
                },
            },
    {
        match param {
            Some(CardsParam::Card(_)) => {
                self.filter = TagFilter::new();
                self.list.reset();
                let mut i: usize = 0;
                let ghost list0 = self.list@;
                while i < card_tags.len()
                    invariant
                        self.wf(),
                        self.cards@ == old(self)@.cards && self.index == old(self)@.index,
                        self.list@ == list0,
                        self.filter.wf(),
                        i <= card_tags@.len(),
                        self.filter.view() == (card_tags@.subrange(0, i as int).to_set(), Set::<TagId>::empty()),
                    decreases card_tags@.len() - i,
                {
                    self.filter.require(card_tags[i]);
                    proof {
                        let pre = card_tags@.subrange(0, i as int);
                        let post = card_tags@.subrange(0, i + 1);
                        assert(post =~= pre.push(card_tags@[i as int]));
                        assert forall|a: TagId| post.contains(a) <==> (pre.contains(a) || a == card_tags@[i as int]) by {
                            if post.contains(a) {
                                let k = choose|k: int| 0 <= k < post.len() && post[k] == a;
                                if k < pre.len() {
                                    assert(pre[k] == a);
                                }
                            }
                            if pre.contains(a) {
                                let k = choose|k: int| 0 <= k < pre.len() && pre[k] == a;
                                assert(post[k] == a);
                            }
                            if a == card_tags@[i as int] {
                                assert(post[i as int] == a);
                            }
                        }
                        assert(post.to_set() =~= pre.to_set().insert(card_tags@[i as int]));
                        assert(Set::<TagId>::empty().remove(card_tags@[i as int]) =~= Set::<TagId>::empty());
                    }
                    i = i + 1;
                }
                proof {
                    assert(card_tags@.subrange(0, card_tags@.len() as int) =~= card_tags@);
                }
                self.show_tags = true;
            },
            Some(CardsParam::Tag(t)) => {
                self.filter = TagFilter::new();
                self.filter.require(t);
                assert(Set::<TagId>::empty().remove(t) =~= Set::<TagId>::empty());
                self.list.reset();
                proof {
                    lemma_find_bounds(tags@, t, 0);
                }
                if let Some(i) = find(&tags, t) {
                    self.list.set_index(i);
                }
                self.show_tags = true;
            },
            None => {
                self.filter.retain(tags.as_slice());
            },
        }
        self.tags = tags;
    }

    /// Takes the cards that the filter lets through, shows the first, or
    /// `select` where it is among them.
    pub fn set_cards(&mut self, cards: Vec<CardId>, select: Option<CardId>)
        requires
            old(self).wf(),
        ensures
            final(self).wf(),
            final(self)@ == (CardsView {
                cards: cards@,
                index: match select {
                    Some(id) => match find_from(cards@, id, 0) {
                        Some(i) => i,
                        None => 0,
                    },
                    None => 0,
                },
                ..old(self)@
            }),
    {
        proof {
            if let Some(id) = select {
                lemma_find_bounds(cards@, id, 0);
            }
        }
        let index = match select {
            Some(id) => match find(&cards, id) {
                Some(i) => i,
                None => 0,
            },
            None => 0,
        };
        proof {
            if let Some(id) = select {
                lemma_find_bounds(cards@, id, 0);
            }
        }
        self.cards = cards;
        self.index = index;
    }

    /// The card shown, if any.
    pub fn current_card(&self) -> (c: Option<CardId>)
        ensures
            c == (if self@.index < self@.cards.len() {
                Some(self@.cards[self@.index])
            } else {
                None
            }),
    {
        if self.index < self.cards.len() {
            Some(self.cards[self.index])
        } else {
            None
        }
    }

    /// Takes a key, with the state of the control and shift keys, and hands
    /// back what the app is to do; see `cards_key`.
    pub fn input(&mut self, key: Key, ctrl: bool, shift: bool) -> (step: CardsStep)
        requires
            old(self).wf(),
        ensures
            final(self).wf(),
            (final(self)@, step) == cards_key(old(self)@, key, ctrl, shift),
    {
        let len = self.cards.len();
        match key {
            Key::Right => if len > 1 {
                self.index = (self.index + 1) % len;
                CardsStep::Moved
            } else {
                CardsStep::Ignored
            },
            Key::Left => if len > 1 {
                self.index = if self.index == 0 {
                    len - 1
                } else {
                    self.index - 1
                };
                CardsStep::Moved
            } else {
                CardsStep::Ignored
            },
            Key::Delete => if self.index < len {
                let card = self.cards.remove(self.index);
                let any_left = self.cards.len() > 0;
                if any_left {
                    let last = self.cards.len() - 1;
                    if self.index > last {
                        self.index = last;
                    }
                }
                CardsStep::Deleted { card, any_left }
            } else {
                CardsStep::Ignored
            },
            Key::Char(c) => if c == 'e' {
                match self.current_card() {
                    Some(id) => CardsStep::Edit(id),
                    None => CardsStep::Ignored,
                }
            } else if c == 't' {
                self.show_tags = !self.show_tags;
                CardsStep::Shown
            } else if c == ' ' {
                if self.show_tags && self.tags.len() > 0 {
                    self.toggle_selection();
                    CardsStep::FilterChanged
                } else {
                    CardsStep::Ignored
                }
            } else if c == 'r' {
                if self.show_tags && self.tags.len() > 0 {
                    if self.filter.reset() {
                        CardsStep::FilterChanged
                    } else {
                        CardsStep::Ignored
                    }
                } else {
                    CardsStep::Ignored
                }
            } else {
                self.other_key(key, ctrl, shift)
            },
            _ => self.other_key(key, ctrl, shift),
        }
    }

    fn other_key(&mut self, key: Key, ctrl: bool, shift: bool) -> (step: CardsStep)
        requires
            old(self).wf(),
        ensures
            final(self).wf(),
            (final(self)@, step) == other_key(old(self)@, key, ctrl, shift),
    {
        if self.show_tags {
            if self.list.can_move() {
                if self.list.input(key, ctrl, shift) {
                    CardsStep::Shown
                } else {
                    CardsStep::Ignored
                }
            } else {
                CardsStep::Ignored
            }
        } else {
            CardsStep::ToMarkup
        }
    }

    fn toggle_selection(&mut self)
        requires
            old(self).wf(),
        ensures
            final(self).wf(),
            final(self)@ == (CardsView {
                filter: toggled_range(
                    old(self)@.filter,
                    old(self)@.tags,
                    selected_span(old(self)@.list).0,
                    selected_span(old(self)@.list).1,
                ),
                ..old(self)@
            }),
    {
        let index = self.list.index();
        let (lo, hi) = match self.list.selector() {
            None => (index, index),
            Some(s) => if index < s {
                (index, s)
            } else {
                (s, index)
            },
        };
        let ghost f0 = self.filter.view();
        let mut i = lo;
        loop
            invariant_except_break
                toggled_range(self.filter.view(), self.tags@, i as int, hi as int) == toggled_range(
                    f0,
                    self.tags@,
                    lo as int,
                    hi as int,
                ),
            invariant
                self.wf(),
                self.cards@ == old(self)@.cards && self.index == old(self)@.index,
                self.tags@ == old(self)@.tags && self.list@ == old(self)@.list,
                self.show_tags == old(self)@.show_tags,
                lo <= i <= hi,
                lo == selected_span(self.list@).0 && hi == selected_span(self.list@).1,
                f0 == old(self)@.filter,
            ensures
                self.wf(),
                self.cards@ == old(self)@.cards && self.index == old(self)@.index,
                self.tags@ == old(self)@.tags && self.list@ == old(self)@.list,
                self.show_tags == old(self)@.show_tags,
                self.filter.view() == toggled_range(f0, self.tags@, lo as int, hi as int),
            decreases hi - i,
        {
            let ghost before = self.filter.view();
            if i < self.tags.len() {
                let id = self.tags[i];
                self.filter.toggle(id);
            }
            proof {
                assert(toggled_range(before, self.tags@, i as int, hi as int) == toggled_range(
                    self.filter.view(),
                    self.tags@,
                    i + 1,
                    hi as int,
                ));
            }
            if i == hi {
                proof {
                    assert(toggled_range(self.filter.view(), self.tags@, i + 1, hi as int) == self.filter.view());
                }
                break;
            }
            i = i + 1;
        }
    }

    pub fn show_tags(&self) -> (b: bool)
        ensures
            b == self@.show_tags,
    {
        self.show_tags
    }

    /// The position of the card shown and the number of cards.
    pub fn position(&self) -> (r: (usize, usize))
        ensures
            r == (self@.index as usize, self@.cards.len() as usize),
    {
        (self.index, self.cards.len())
    }

    pub fn tags(&self) -> (t: &Vec<TagId>)
        ensures
            t@ == self@.tags,
    {
        &self.tags
    }

    pub fn filter(&self) -> (f: &TagFilter)
        ensures
            f.view() == self@.filter,
    {
        &self.filter
    }

    pub fn tag_list(&mut self) -> (l: &mut List)
        ensures
            l@ == old(self)@.list,
            final(self)@ == (CardsView { list: final(l)@, ..old(self)@ }),
            final(self).wf() == old(self).wf(),
    {
        &mut self.list
    }
}

proof fn lemma_find_bounds(s: Seq<i64>, x: i64, i: int)
    requires
        0 <= i,
    ensures
        match find_from(s, x, i) {
            Some(k) => i <= k < s.len() && s[k] == x,
            None => true,
        },
    decreases s.len() - i,
{
    if i < s.len() && s[i] != x {
        lemma_find_bounds(s, x, i + 1);
    }
}

/// With more than one card, going to the next card and back, or back and
/// then on, shows the card that was shown before.
pub proof fn law_next_and_back(v: CardsView, ctrl: bool, shift: bool)
    requires
        v.cards.len() > 1,
        0 <= v.index < v.cards.len(),
    ensures
        cards_key(cards_key(v, Key::Right, ctrl, shift).0, Key::Left, ctrl, shift).0 == v,
        cards_key(cards_key(v, Key::Left, ctrl, shift).0, Key::Right, ctrl, shift).0 == v,
{
    let n = v.cards.len() as int;
    if v.index + 1 < n {
        vstd::arithmetic::div_mod::lemma_small_mod((v.index + 1) as nat, n as nat);
    } else {
        vstd::arithmetic::div_mod::lemma_mod_self_0(n);
    }
    if v.index == 0 {
        vstd::arithmetic::div_mod::lemma_mod_self_0(n);
    } else {
        vstd::arithmetic::div_mod::lemma_small_mod(v.index as nat, n as nat);
    }
}

} // verus!
