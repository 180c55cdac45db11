//! Which page is shown, how the keys that every page shares move between the
//! pages, and the messages that the app keeps for the user.
use vstd::prelude::*;

use crate::data::{CardId, TagId};
use crate::keys::Key;
use crate::text::{display_width, str_width};

verus! {

/// What the cards page opens on.
#[derive(Debug, Clone, Copy, PartialEq, Eq, Structural)]
pub enum CardsParam {
    Card(CardId),
    Tag(TagId),
}

/// A page of the app, with what it opens on.
#[derive(Debug, Clone, Copy, PartialEq, Eq, Structural)]
pub enum Route {
    Review,
    Editor(Option<CardId>),
    Cards(Option<CardsParam>),
    Tags,
    Settings,
}

/// The page after `r` in the navigation bar, which wraps around.
pub open spec fn next_route(r: Route) -> Route {
    match r {
        Route::Review => Route::Editor(None),
        Route::Editor(_) => Route::Cards(None),
        Route::Cards(_) => Route::Tags,
        Route::Tags => Route::Settings,
        Route::Settings => Route::Review,
    }
}

/// The page before `r` in the navigation bar, which wraps around.
pub open spec fn prev_route(r: Route) -> Route {
    match r {
        Route::Review => Route::Settings,
        Route::Editor(_) => Route::Review,
        Route::Cards(_) => Route::Editor(None),
        Route::Tags => Route::Cards(None),
        Route::Settings => Route::Tags,
    }
}

/// The page of `r`, opened on nothing in particular.
pub open spec fn plain_route(r: Route) -> Route {
    match r {
        Route::Editor(_) => Route::Editor(None),
        Route::Cards(_) => Route::Cards(None),
        _ => r,
    }
}

impl Route {
    /// The page shown at start: the review.
    pub fn default_route() -> (r: Route)
        ensures
            r == Route::Review,
    {
        Route::Review
    }

    pub fn next(self) -> (r: Route)
        ensures
            r == next_route(self),
    {
        match self {
            Route::Review => Route::Editor(None),
            Route::Editor(_) => Route::Cards(None),
            Route::Cards(_) => Route::Tags,
            Route::Tags => Route::Settings,
            Route::Settings => Route::Review,
        }
    }

    pub fn prev(self) -> (r: Route)
        ensures
            r == prev_route(self),
    {
        match self {
            Route::Review => Route::Settings,
            Route::Editor(_) => Route::Review,
            Route::Cards(_) => Route::Editor(None),
            Route::Tags => Route::Cards(None),
            Route::Settings => Route::Tags,
        }
    }

    /// Whether `self` and `other` are the same page, whatever they open on.
    pub fn same_page(self, other: Route) -> (b: bool)
        ensures
            b == (plain_route(self) == plain_route(other)),
    {
        match (self, other) {
            (Route::Review, Route::Review) => true,
            (Route::Editor(_), Route::Editor(_)) => true,
            (Route::Cards(_), Route::Cards(_)) => true,
            (Route::Tags, Route::Tags) => true,
            (Route::Settings, Route::Settings) => true,
            _ => false,
        }
    }
}

/// What is asked to be shown: a page, or the search or the logs over it.
#[derive(Debug, Clone, Copy, PartialEq, Eq, Structural)]
pub enum PageState {
    Route(Route),
    Search,
    Logs,
}

/// What is shown: the current page, or the search or the logs over it.
#[derive(Debug, Clone, Copy, PartialEq, Eq, Structural)]
pub enum Mode {
    Route,
    Search,
    Logs,
}

/// A page's entry or exit, which its owner runs.
#[derive(Debug, Clone, Copy, PartialEq, Eq, Structural)]
pub enum Hook {
    Enter(Route),
    Exit(Route),
    EnterSearch,
    ExitSearch,
    EnterLogs,
    ExitLogs,
}

/// The current page and what is shown over it.
#[derive(Debug, Clone, Copy, PartialEq, Eq, Structural)]
pub struct Navigation {
    pub route: Route,
    pub mode: Mode,
}

/// Leaving page `from` for page `to`.
pub open spec fn route_change(from: Route, to: Route) -> Seq<Hook> {
    seq![Hook::Exit(from), Hook::Enter(to)]
}

/// Asking for `s` while `n` is shown: what is shown afterwards, and the
/// entries and exits run on the way, in order. Asking for what is shown over
/// the page closes it again.
pub open spec fn transition(n: Navigation, s: PageState) -> (Navigation, Seq<Hook>) {
    match (n.mode, s) {
        (Mode::Route, PageState::Route(r)) => if n.route == r {
            (n, seq![])
        } else {
            (Navigation { route: r, mode: Mode::Route }, route_change(n.route, r))
        },
        (Mode::Route, PageState::Search) => (
            Navigation { mode: Mode::Search, ..n },
            seq![Hook::EnterSearch],
        ),
        (Mode::Route, PageState::Logs) => (Navigation { mode: Mode::Logs, ..n }, seq![Hook::EnterLogs]),
        (Mode::Search, PageState::Route(r)) => if n.route == r {
            (Navigation { mode: Mode::Route, ..n }, seq![Hook::ExitSearch])
        } else {
            (
                Navigation { route: r, mode: Mode::Route },
                seq![Hook::ExitSearch] + route_change(n.route, r),
            )
        },
        (Mode::Search, PageState::Search) => (
            Navigation { mode: Mode::Route, ..n },
            seq![Hook::ExitSearch],
        ),
        (Mode::Search, PageState::Logs) => (
            Navigation { mode: Mode::Logs, ..n },
            seq![Hook::ExitSearch, Hook::EnterLogs],
        ),
        (Mode::Logs, PageState::Route(r)) => if n.route == r {
            (Navigation { mode: Mode::Route, ..n }, seq![Hook::ExitLogs])
        } else {
            (
                Navigation { route: r, mode: Mode::Route },
                seq![Hook::ExitLogs] + route_change(n.route, r),
            )
        },
        (Mode::Logs, PageState::Search) => (
            Navigation { mode: Mode::Search, ..n },
            seq![Hook::ExitLogs, Hook::EnterSearch],
        ),
        (Mode::Logs, PageState::Logs) => (Navigation { mode: Mode::Route, ..n }, seq![Hook::ExitLogs]),
    }
}

/// What `Tab` asks for: the next page, or to stay over the page.
pub open spec fn forward_state(n: Navigation) -> PageState {
    match n.mode {
        Mode::Route => PageState::Route(next_route(n.route)),
        Mode::Search => PageState::Search,
        Mode::Logs => PageState::Logs,
    }
}

/// What `BackTab` asks for: the page before, or to stay over the page.
pub open spec fn backward_state(n: Navigation) -> PageState {
    match n.mode {
        Mode::Route => PageState::Route(prev_route(n.route)),
        Mode::Search => PageState::Search,
        Mode::Logs => PageState::Logs,
    }
}

/// A message for the user, with the columns that it takes.
pub struct Log {
    message: String,
    width: usize,
}

impl Log {
    pub fn new(message: String) -> (l: Log)
        ensures
            l.message() == message@,
            l.width() == display_width(message@),
    {
        let width = str_width(message.as_str());
        Log { message, width }
    }

    pub closed spec fn message(&self) -> Seq<char> {
        self.message@
    }

    pub closed spec fn width(&self) -> nat {
        self.width as nat
    }

    pub fn as_str(&self) -> (s: &str)
        ensures
            s@ == self.message(),
    {
        self.message.as_str()
    }

    pub fn columns(&self) -> (w: usize)
        ensures
            w == self.width(),
    {
        self.width
    }
}

/// What the app does after a key or a page.
pub enum Action {
    Nothing,
    Render,
    NextRoute,
    PreviousRoute,
    Route(Route),
    ToggleSearch,
    ToggleLogs,
    EnqueueLog(Log),
    ApplySettings,
    Quit,
}

/// What `a` asks of the navigation, if anything.
pub open spec fn asked_state(n: Navigation, a: &Action) -> Option<PageState> {
    match a {
        Action::NextRoute => Some(forward_state(n)),
        Action::PreviousRoute => Some(backward_state(n)),
        Action::Route(r) => Some(PageState::Route(*r)),
        Action::ToggleSearch => Some(PageState::Search),
        Action::ToggleLogs => Some(PageState::Logs),
        _ => None,
    }
}

/// Which shared key `key` is, if it is one: `Esc` quits, `Tab` and `BackTab`
/// move between the pages, `Ctrl+f` toggles the search and `Ctrl+l` the
/// logs, when there are any. Any other key goes to what is shown.
pub open spec fn shared_key(key: Key, ctrl: bool, logs_empty: bool) -> Option<u8> {
    match key {
        Key::Esc => Some(0u8),
        Key::Tab => Some(1u8),
        Key::BackTab => Some(2u8),
        Key::Char(c) => if c == 'f' && ctrl {
            Some(3u8)
        } else if c == 'l' && ctrl && !logs_empty {
            Some(4u8)
        } else {
            None
        },
        _ => None,
    }
}

/// The action of a shared key, as `shared_key` numbers it.
pub open spec fn shared_action(k: u8, a: Action) -> bool {
    match a {
        Action::Quit => k == 0,
        Action::NextRoute => k == 1,
        Action::PreviousRoute => k == 2,
        Action::ToggleSearch => k == 3,
        Action::ToggleLogs => k == 4,
        _ => false,
    }
}

/// The action of a key that every page shares, or `None` for a key that
/// goes to what is shown.
pub fn app_key_action(key: Key, ctrl: bool, logs_empty: bool) -> (a: Option<Action>)
    ensures
        match shared_key(key, ctrl, logs_empty) {
            None => a is None,
            Some(k) => a matches Some(act) && shared_action(k, act),
        },
{
    match key {
        Key::Esc => Some(Action::Quit),
        Key::Tab => Some(Action::NextRoute),
        Key::BackTab => Some(Action::PreviousRoute),
        Key::Char(c) => if c == 'f' && ctrl {
            Some(Action::ToggleSearch)
        } else if c == 'l' && ctrl && !logs_empty {
            Some(Action::ToggleLogs)
        } else {
            None
        },
        _ => None,
    }
}

impl Navigation {
    /// The navigation at start on `route`, and the entry to run.
    pub fn new(route: Route) -> (r: (Navigation, Vec<Hook>))
        ensures
            r.0 == (Navigation { route, mode: Mode::Route }),
            r.1@ == seq![Hook::Enter(route)],
    {
        (Navigation { route, mode: Mode::Route }, vec![Hook::Enter(route)])
    }

    pub fn forward(&self) -> (s: PageState)
        ensures
            s == forward_state(*self),
    {
        match self.mode {
            Mode::Route => PageState::Route(self.route.next()),
            Mode::Search => PageState::Search,
            Mode::Logs => PageState::Logs,
        }
    }

    pub fn backward(&self) -> (s: PageState)
        ensures
            s == backward_state(*self),
    {
        match self.mode {
            Mode::Route => PageState::Route(self.route.prev()),
            Mode::Search => PageState::Search,
            Mode::Logs => PageState::Logs,
        }
    }

    /// Shows `state`, and hands back the entries and exits to run, in order.
    pub fn set_state(&mut self, state: PageState) -> (hooks: Vec<Hook>)
        ensures
            (*final(self), hooks@) == transition(*old(self), state),
    {
        let from = self.route;
        match (self.mode, state) {
            (Mode::Route, PageState::Route(r)) => {
                if from == r {
                    vec![]
                } else {
                    self.route = r;
                    vec![Hook::Exit(from), Hook::Enter(r)]
                }
            },
            (Mode::Route, PageState::Search) => {
                self.mode = Mode::Search;
                vec![Hook::EnterSearch]
            },
            (Mode::Route, PageState::Logs) => {
                self.mode = Mode::Logs;
                vec![Hook::EnterLogs]
            },
            (Mode::Search, PageState::Route(r)) => {
                self.mode = Mode::Route;
                if from == r {
                    vec![Hook::ExitSearch]
                } else {
                    self.route = r;
                    vec![Hook::ExitSearch, Hook::Exit(from), Hook::Enter(r)]
                }
            },
            (Mode::Search, PageState::Search) => {
                self.mode = Mode::Route;
                vec![Hook::ExitSearch]
            },
            (Mode::Search, PageState::Logs) => {
                self.mode = Mode::Logs;
                vec![Hook::ExitSearch, Hook::EnterLogs]
            },
            (Mode::Logs, PageState::Route(r)) => {
                self.mode = Mode::Route;
                if from == r {
                    vec![Hook::ExitLogs]
                } else {
                    self.route = r;
                    vec![Hook::ExitLogs, Hook::Exit(from), Hook::Enter(r)]
                }
            },
            (Mode::Logs, PageState::Search) => {
                self.mode = Mode::Search;
                vec![Hook::ExitLogs, Hook::EnterSearch]
            },
            (Mode::Logs, PageState::Logs) => {
                self.mode = Mode::Route;
                vec![Hook::ExitLogs]
            },
        }
    }

    /// Carries out what `action` asks of the navigation, if anything, and
    /// hands back the entries and exits to run.
    pub fn navigate(&mut self, action: &Action) -> (hooks: Vec<Hook>)
        ensures
            match asked_state(*old(self), action) {
                Some(s) => (*final(self), hooks@) == transition(*old(self), s),
                None => *final(self) == *old(self) && hooks@.len() == 0,
            },
    {
        match action {
            Action::NextRoute => {
                let s = self.forward();
                self.set_state(s)
            },
            Action::PreviousRoute => {
                let s = self.backward();
                self.set_state(s)
            },
            Action::Route(r) => self.set_state(PageState::Route(*r)),
            Action::ToggleSearch => self.set_state(PageState::Search),
            Action::ToggleLogs => self.set_state(PageState::Logs),
            _ => vec![],
        }
    }

    /// Whether the navigation bar marks `route`: it is the current page, and
    /// nothing is shown over it.
    pub fn marks(&self, route: Route) -> (b: bool)
        ensures
            b == (plain_route(route) == plain_route(self.route) && self.mode == Mode::Route),
    {
        route.same_page(self.route) && matches!(self.mode, Mode::Route)
    }
}

/// Going to the next page and back, or back and then on, lands on the same
/// page, opened on nothing in particular.
pub proof fn law_next_and_back(r: Route)
    ensures
        prev_route(next_route(r)) == plain_route(r),
        next_route(prev_route(r)) == plain_route(r),
{
}

/// Five steps forward go round the whole bar.
pub proof fn law_round_trip(r: Route)
    ensures
        next_route(next_route(next_route(next_route(next_route(r))))) == plain_route(r),
{
}

/// Asking for the page that is shown changes nothing and runs nothing.
pub proof fn law_same_page_is_kept(n: Navigation)
    requires
        n.mode == Mode::Route,
    ensures
        transition(n, PageState::Route(n.route)) == (n, Seq::<Hook>::empty()),
{
}

/// Opening the search or the logs over a page and closing it again shows
/// the page as it was, entering and then leaving what was shown over it.
pub proof fn law_toggle_twice(n: Navigation)
    requires
        n.mode == Mode::Route,
    ensures
        ({
            let (m, h1) = transition(n, PageState::Search);
            let (k, h2) = transition(m, PageState::Search);
            k == n && h1 + h2 == seq![Hook::EnterSearch, Hook::ExitSearch]
        }),
        ({
            let (m, h1) = transition(n, PageState::Logs);
            let (k, h2) = transition(m, PageState::Logs);
            k == n && h1 + h2 == seq![Hook::EnterLogs, Hook::ExitLogs]
        }),
{
    assert(seq![Hook::EnterSearch] + seq![Hook::ExitSearch] =~= seq![Hook::EnterSearch, Hook::ExitSearch]);
    assert(seq![Hook::EnterLogs] + seq![Hook::ExitLogs] =~= seq![Hook::EnterLogs, Hook::ExitLogs]);
}

/// Asking for a page always ends on that page with nothing over it, and a
/// change of page leaves the old page before it enters the new one, as the
/// last two steps.
pub proof fn law_route_is_reached(n: Navigation, r: Route)
    ensures
        transition(n, PageState::Route(r)).0 == (Navigation { route: r, mode: Mode::Route }),
        n.route != r ==> ({
            let h = transition(n, PageState::Route(r)).1;
            h.len() >= 2 && h[h.len() - 2] == Hook::Exit(n.route) && h[h.len() - 1] == Hook::Enter(r)
        }),
{
}

} // verus!
