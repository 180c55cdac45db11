//! The search: a query typed in a field, and the cards found, one at a
//! time, with the query marked in them.
use vstd::prelude::*;

use vstd::string::StrSliceExecFns;

use crate::data::CardId;
use crate::keys::Key;
use crate::text::trimmed;
use crate::text_input::{key_effect, InputState, TextInput};

verus! {

/// What a key on the search asks of the app, after the page has taken it
/// into account.
#[derive(Debug, Clone, Copy, PartialEq, Eq, Structural)]
pub enum SearchStep {
    /// Nothing to do.
    Nothing,
    /// The page changed: draw it again.
    Render,
    /// Search the cards for `query` and hand the ids found to `found`.
    Search,
    /// Scroll the card shown up by one line.
    ScrollUp,
    /// Another card is shown: mark the query in it (see `set_content`) and
    /// scroll to its start.
    Moved(CardId),
    /// Open the card in the editor.
    Edit(CardId),
    /// Go to the card among the cards.
    Goto(CardId),
    /// The key goes to the card's view (scrolling).
    ToMarkup,
}

/// The search as plain values.
pub struct SearchView {
    pub browsing: bool,
    pub field: InputState,
    pub field_disabled: bool,
    pub results: Seq<CardId>,
    pub index: int,
    pub query: Seq<char>,
    pub content: Seq<char>,
    pub is_empty: bool,
}

/// The card shown, if any.
pub open spec fn current_result(v: SearchView) -> Option<CardId> {
    if 0 <= v.index < v.results.len() {
        Some(v.results[v.index])
    } else {
        None
    }
}

/// A key while typing the query: `Enter` searches for the query without the
/// white space at its ends, when there is one; `Down` goes to the cards
/// found, when there are any; other keys edit the query.
pub open spec fn typing_key(v: SearchView, key: Key, ctrl: bool, shift: bool) -> (SearchView, SearchStep) {
    match key {
        Key::Enter => {
            let q = trimmed(v.field.text, 0, v.field.text.len() as int);
            if q.len() > 0 {
                (SearchView { results: Seq::empty(), index: 0, query: q, ..v }, SearchStep::Search)
            } else {
                (v, SearchStep::Nothing)
            }
        },
        Key::Down => if v.results.len() > 0 {
            (SearchView { browsing: true, ..v }, SearchStep::Render)
        } else {
            (v, SearchStep::Nothing)
        },
        Key::Up => (v, SearchStep::Nothing),
        _ => if v.field_disabled {
            (v, SearchStep::Nothing)
        } else {
            let (f, changed) = key_effect(v.field, key, ctrl, shift);
            (SearchView { field: f, ..v }, if changed {
                SearchStep::Render
            } else {
                SearchStep::Nothing
            })
        },
    }
}

/// A key while going through the cards found: `Up` scrolls the card up, or
/// goes back to the query from its top; `Right` and `Left` go round the
/// cards; `e` edits the card, `g` goes to it, and `s` goes back to the
/// query. Other keys scroll the card.
pub open spec fn browsing_key(v: SearchView, key: Key, at_top: bool) -> (SearchView, SearchStep) {
    let len = v.results.len();
    match key {
        Key::Up => if at_top {
            (SearchView { browsing: false, ..v }, SearchStep::Render)
        } else {
            (v, SearchStep::ScrollUp)
        },
        Key::Right => if len > 1 {
            let i = (v.index + 1) % (len as int);
            (SearchView { index: i, ..v }, SearchStep::Moved(v.results[i]))
        } else {
            (v, SearchStep::Nothing)
        },
        Key::Left => if len > 1 {
            let i = if v.index == 0 {
                len - 1
            } else {
                v.index - 1
            };
            (SearchView { index: i, ..v }, SearchStep::Moved(v.results[i]))
        } else {
            (v, SearchStep::Nothing)
        },
        Key::Char(c) => if c == 'e' {
            match current_result(v) {
                Some(id) => (v, SearchStep::Edit(id)),
                None => (v, SearchStep::Nothing),
            }
        } else if c == 'g' {
            match current_result(v) {
                Some(id) => (v, SearchStep::Goto(id)),
                None => (v, SearchStep::Nothing),
            }
        } else if c == 's' {
            (SearchView { browsing: false, ..v }, SearchStep::Render)
        } else {
            (v, SearchStep::ToMarkup)
        },
        _ => (v, SearchStep::ToMarkup),
    }
}

/// A key on the search, `at_top` telling whether the card shown is scrolled
/// to its top. Nothing happens when there are no cards at all.
pub open spec fn search_key(v: SearchView, key: Key, ctrl: bool, shift: bool, at_top: bool) -> (
    SearchView,
    SearchStep,
) {
    if v.is_empty {
        (v, SearchStep::Nothing)
    } else if v.browsing {
        browsing_key(v, key, at_top)
    } else {
        typing_key(v, key, ctrl, shift)
    }
}

pub struct SearchPage {
    browsing: bool,
    search: TextInput,
    results: Vec<CardId>,
    index: usize,
    query: String,
    content: String,
    is_empty: bool,
}

impl View for SearchPage {
    type V = SearchView;

    closed spec fn view(&self) -> SearchView {
        SearchView {
            browsing: self.browsing,
            field: self.search@,
            field_disabled: self.search.is_disabled(),
            results: self.results@,
            index: self.index as int,
            query: self.query@,
            content: self.content@,
            is_empty: self.is_empty,
        }
    }
}

impl SearchPage {
    /// The card shown is one of the cards found, or the first place when
    /// there are none.
    pub closed spec fn wf(&self) -> bool {
        &&& self.search.wf()
        &&& (self.results@.len() == 0 ==> self.index == 0)
        &&& (self.results@.len() > 0 ==> self.index < self.results@.len())
    }

    /// What the field shows while the query is empty.
    pub closed spec fn placeholder(&self) -> Seq<char> {
        self.search.placeholder_text()
    }

    pub fn new() -> (p: Self)
        ensures
            p.wf(),
            !p@.browsing && !p@.is_empty && !p@.field_disabled,
            p@.field == (InputState { text: Seq::empty(), cursor: 0, selector: None }),
            p@.results.len() == 0 && p@.index == 0,
            p@.query.len() == 0 && p@.content.len() == 0,
            p.placeholder() == "Search..."@,
    {
        SearchPage {
            browsing: false,
            search: TextInput::new().with_placeholder("Search..."),
            results: Vec::new(),
            index: 0,
            query: String::new(),
            content: String::new(),
            is_empty: false,
        }
    }

    /// Opens the search, `cards_empty` telling whether there are no cards
    /// at all: the query is typed again. The result says whether the last
    /// query is to be searched again (and the ids handed to `found`); when
    /// it is not, the cards found are forgotten.
    pub fn on_enter(&mut self, cards_empty: bool) -> (search_again: bool)
        requires
            old(self).wf(),
        ensures
            final(self).wf(),
            search_again == (!cards_empty && old(self)@.query.len() > 0),
            search_again ==> final(self)@ == (SearchView { browsing: false, is_empty: cards_empty, ..old(self)@ }),
            !search_again ==> final(self)@ == (SearchView {
                browsing: false,
                is_empty: cards_empty,
                results: Seq::empty(),
                index: 0,
                ..old(self)@
            }),
    {
        self.browsing = false;
        self.is_empty = cards_empty;
        if self.is_empty || self.query.as_str().unicode_len() == 0 {
            self.results.clear();
            self.index = 0;
            false
        } else {
            true
        }
    }

    pub fn on_exit(&self) {
    }

    /// Takes the ids of the cards found for the query. After a search typed
    /// with `Enter`, the first card is shown; after the search is opened
    /// again, the card shown stays where it was, within the cards. When a
    /// card is shown, the cards are gone through and its id is handed back:
    /// mark the query in it with `set_content`.
    pub fn found(&mut self, results: Vec<CardId>) -> (shown: Option<CardId>)
        requires
            old(self).wf(),
        ensures
            final(self).wf(),
            final(self)@.results == results@,
            final(self)@.index == (if results@.len() == 0 {
                0
            } else if old(self)@.index < results@.len() {
                old(self)@.index
            } else {
                results@.len() - 1
            }),
            shown == current_result(final(self)@),
            final(self)@.browsing == (old(self)@.browsing || shown is Some),
            final(self)@.field == old(self)@.field && final(self)@.query == old(self)@.query,
            final(self)@.content == old(self)@.content && final(self)@.is_empty == old(self)@.is_empty,
            final(self)@.field_disabled == old(self)@.field_disabled,
    {
        let n = results.len();
        self.results = results;
        if n == 0 {
            self.index = 0;
        } else if self.index >= n {
            self.index = n - 1;
        }
        let shown = self.current_card();
        if shown.is_some() {
            self.browsing = true;
        }
        shown
    }

    /// Keeps the content of the card shown, with the query marked in it.
    pub fn set_content(&mut self, content: String)
        ensures
            final(self)@ == (SearchView { content: content@, ..old(self)@ }),
            final(self).wf() == old(self).wf(),
    {
        self.content = content;
    }

    pub fn current_card(&self) -> (c: Option<CardId>)
        ensures
            c == current_result(self@),
    {
        if self.index < self.results.len() {
            Some(self.results[self.index])
        } else {
            None
        }
    }

    /// Takes a key, with the state of the control and shift keys and whether
    /// the card shown is scrolled to its top, and hands back what the app is
    /// to do; see `search_key`.
    pub fn input(&mut self, key: Key, ctrl: bool, shift: bool, at_top: bool) -> (step: SearchStep)
        requires
            old(self).wf(),
        ensures
            final(self).wf(),
            (final(self)@, step) == search_key(old(self)@, key, ctrl, shift, at_top),
    {
        if self.is_empty {
            return SearchStep::Nothing;
        }
        if self.browsing {
            let len = self.results.len();
            match key {
                Key::Up => if at_top {
                    self.browsing = false;
                    SearchStep::Render
                } else {
                    SearchStep::ScrollUp
                },
                Key::Right => if len > 1 {
                    self.index = (self.index + 1) % len;
                    SearchStep::Moved(self.results[self.index])
                } else {
                    SearchStep::Nothing
                },
                Key::Left => if len > 1 {
                    self.index = if self.index == 0 {
                        len - 1
                    } else {
                        self.index - 1
                    };
                    SearchStep::Moved(self.results[self.index])
                } else {
                    SearchStep::Nothing
                },
                Key::Char(c) => if c == 'e' {
                    match self.current_card() {
                        Some(id) => SearchStep::Edit(id),
                        None => SearchStep::Nothing,
                    }
                } else if c == 'g' {
                    match self.current_card() {
                        Some(id) => SearchStep::Goto(id),
                        None => SearchStep::Nothing,
                    }
                } else if c == 's' {
                    self.browsing = false;
                    SearchStep::Render
                } else {
                    SearchStep::ToMarkup
                },
                _ => SearchStep::ToMarkup,
            }
        } else {
            match key {
                Key::Enter => {
                    let q = self.search.as_str_trim();
                    if q.unicode_len() > 0 {
                        let mut query = String::new();
                        crate::text::push_str(&mut query, q);
                        self.query = query;
                        self.results.clear();
                        self.index = 0;
                        SearchStep::Search
                    } else {
                        SearchStep::Nothing
                    }
                },
                Key::Down => if self.results.len() > 0 {
                    self.browsing = true;
                    SearchStep::Render
                } else {
                    SearchStep::Nothing
                },
                Key::Up => SearchStep::Nothing,
                _ => if self.search.input(key, ctrl, shift) {
                    SearchStep::Render
                } else {
                    SearchStep::Nothing
                },
            }
        }
    }

    /// Before drawing: the field takes keys only while the query is typed.
    pub fn activate_field(&mut self)
        requires
            old(self).wf(),
        ensures
            final(self).wf(),
            final(self)@ == (SearchView { field_disabled: old(self)@.browsing, ..old(self)@ }),
    {
        let b = self.browsing;
        self.search.set_disabled(b);
    }

    /// A query of one or two chars, for which nothing is found.
    pub fn query_too_short(&self) -> (b: bool)
        ensures
            b == (0 < self@.query.len() < 3),
    {
        let n = self.query.as_str().unicode_len();
        0 < n && n < 3
    }

    pub fn is_browsing(&self) -> (b: bool)
        ensures
            b == self@.browsing,
    {
        self.browsing
    }

    pub fn is_empty(&self) -> (b: bool)
        ensures
            b == self@.is_empty,
    {
        self.is_empty
    }

    pub fn query(&self) -> (s: &str)
        ensures
            s@ == self@.query,
    {
        self.query.as_str()
    }

    pub fn content(&self) -> (s: &str)
        ensures
            s@ == self@.content,
    {
        self.content.as_str()
    }

    /// The position of the card shown and the number of cards found.
    pub fn position(&self) -> (r: (usize, usize))
        ensures
            r.0 as int == self@.index,
            r.1 as int == self@.results.len(),
    {
        (self.index, self.results.len())
    }

    pub fn field(&mut self) -> (f: &mut TextInput)
        ensures
            f@ == old(self)@.field,
    {
        &mut self.search
    }
}

/// Going through the cards found, the next card and back, or back and then
/// on, shows the card that was shown before, when more than one was found.
pub proof fn law_next_and_back(v: SearchView, at_top: bool)
    requires
        v.results.len() > 1,
        0 <= v.index < v.results.len(),
        v.browsing,
        !v.is_empty,
    ensures
        search_key(search_key(v, Key::Right, false, false, at_top).0, Key::Left, false, false, at_top).0 == v,
        search_key(search_key(v, Key::Left, false, false, at_top).0, Key::Right, false, false, at_top).0 == v,
{
    let n = v.results.len() as int;
    if v.index + 1 < n {
        vstd::arithmetic::div_mod::lemma_small_mod((v.index + 1) as nat, n as nat);
    } else {
        vstd::arithmetic::div_mod::lemma_mod_self_0(n);
    }
    if v.index == 0 {
        vstd::arithmetic::div_mod::lemma_mod_self_0(n);
    } else {
        vstd::arithmetic::div_mod::lemma_small_mod(v.index as nat, n as nat);
    }
}

} // verus!
