//! The logs: the messages kept for the user, listed one per line, with a
//! count of those not seen yet.
use vstd::prelude::*;

use crate::cards_page::list_can_move;
use crate::keys::Key;
use crate::list::{list_input, List, ListState};
use crate::markup::min_of;
use crate::nav::Log;
use crate::review::count_up;

verus! {

/// What a key on the logs asks of the app.
#[derive(Debug, Clone, Copy, PartialEq, Eq, Structural)]
pub enum LogsAction {
    /// Nothing to do.
    Nothing,
    /// The logs changed: draw them again.
    Render,
    /// The logs were cleared: close them.
    Done,
}

/// The logs as plain values: the messages, how many are new, the list and
/// the columns that the selected message is scrolled by.
pub struct LogsView {
    pub messages: Seq<Seq<char>>,
    pub widths: Seq<nat>,
    pub queue: u32,
    pub list: ListState,
    pub scroll: int,
}

/// A key on the logs: `Right` and `Left` scroll the selected message,
/// `c` clears the logs, and other keys move in the list, which scrolls the
/// new selection back to its start. Without logs no key does anything.
pub open spec fn logs_key(v: LogsView, key: Key) -> (LogsView, LogsAction) {
    if v.messages.len() == 0 {
        (v, LogsAction::Nothing)
    } else {
        match key {
            Key::Right => (LogsView { scroll: if v.scroll < usize::MAX {
                v.scroll + 1
            } else {
                v.scroll
            }, ..v }, LogsAction::Render),
            Key::Left => (LogsView { scroll: if v.scroll > 0 {
                v.scroll - 1
            } else {
                0
            }, ..v }, LogsAction::Render),
            Key::Char(c) if c == 'c' => (
                LogsView {
                    messages: Seq::empty(),
                    widths: Seq::empty(),
                    scroll: 0,
                    list: ListState { index: 0, ..v.list },
                    ..v
                },
                LogsAction::Done,
            ),
            _ => if list_can_move(v.list) && list_input(v.list, key, false, false) != v.list {
                (LogsView { list: list_input(v.list, key, false, false), scroll: 0, ..v }, LogsAction::Render)
            } else {
                (v, LogsAction::Nothing)
            },
        }
    }
}

pub struct LogsPage {
    logs: Vec<Log>,
    queue: u32,
    list: List,
    horizontal_scroll: usize,
}

impl View for LogsPage {
    type V = LogsView;

    closed spec fn view(&self) -> LogsView {
        LogsView {
            messages: self.logs@.map_values(|l: Log| l.message()),
            widths: self.logs@.map_values(|l: Log| l.width()),
            queue: self.queue,
            list: self.list@,
            scroll: self.horizontal_scroll as int,
        }
    }
}

impl LogsPage {
    pub fn new() -> (p: Self)
        ensures
            p@.messages.len() == 0 && p@.widths.len() == 0,
            p@.queue == 0 && p@.scroll == 0,
            p@.list == (ListState { index: 0, selector: None, scroll: 0, len: 0, height: 0 }),
    {
        let p = LogsPage { logs: Vec::new(), queue: 0, list: List::new(), horizontal_scroll: 0 };
        assert(p@.messages =~= Seq::<Seq<char>>::empty());
        assert(p@.widths =~= Seq::<nat>::empty());
        p
    }

    pub fn is_empty(&self) -> (b: bool)
        ensures
            b == (self@.messages.len() == 0),
    {
        self.logs.len() == 0
    }

    /// Adds a message, counted as new.
    pub fn enqueue(&mut self, log: Log)
        ensures
            final(self)@ == (LogsView {
                messages: old(self)@.messages.push(log.message()),
                widths: old(self)@.widths.push(log.width()),
                queue: count_up(old(self)@.queue),
                ..old(self)@
            }),
    {
        let ghost l = log;
        self.logs.push(log);
        if self.queue < u32::MAX {
            self.queue = self.queue + 1;
        }
        assert(self@.messages =~= old(self)@.messages.push(l.message()));
        assert(self@.widths =~= old(self)@.widths.push(l.width()));
    }

    /// How many messages are new.
    pub fn queue_len(&self) -> (n: u32)
        ensures
            n == self@.queue,
    {
        self.queue
    }

    /// Shows the logs: every message counts as seen.
    pub fn on_enter(&mut self)
        ensures
            final(self)@ == (LogsView { queue: 0, ..old(self)@ }),
    {
        self.queue = 0;
    }

    pub fn on_exit(&self) {
    }

    /// Takes a key and hands back what the app is to do; see `logs_key`.
    pub fn input(&mut self, key: Key) -> (a: LogsAction)
        ensures
            (final(self)@, a) == logs_key(old(self)@, key),
    {
        if self.logs.len() == 0 {
            return LogsAction::Nothing;
        }
        match key {
            Key::Right => {
                if self.horizontal_scroll < usize::MAX {
                    self.horizontal_scroll = self.horizontal_scroll + 1;
                }
                LogsAction::Render
            },
            Key::Left => {
                if self.horizontal_scroll > 0 {
                    self.horizontal_scroll = self.horizontal_scroll - 1;
                }
                LogsAction::Render
            },
            Key::Char(c) if c == 'c' => {
                self.logs.clear();
                self.horizontal_scroll = 0;
                self.list.set_index(0);
                assert(self@.messages =~= Seq::<Seq<char>>::empty());
                assert(self@.widths =~= Seq::<nat>::empty());
                LogsAction::Done
            },
            _ => {
                if self.list.can_move() && self.list.input(key, false, false) {
                    self.horizontal_scroll = 0;
                    LogsAction::Render
                } else {
                    LogsAction::Nothing
                }
            },
        }
    }

    /// The columns by which the message at `i`, when it is the selected one
    /// drawn on a line of `line_width` columns, is scrolled: no more than
    /// what is left of it past the line. The scroll is kept so.
    pub fn selected_scroll(&mut self, i: usize, line_width: u16) -> (s: usize)
        requires
            i < old(self)@.messages.len(),
        ensures
            s == final(self)@.scroll,
            s == min_of(
                old(self)@.scroll,
                if old(self)@.widths[i as int] > line_width {
                    old(self)@.widths[i as int] - line_width
                } else {
                    0
                },
            ),
            final(self)@ == (LogsView { scroll: s as int, ..old(self)@ }),
    {
        let w = self.logs[i].columns();
        let max_scroll = if w > line_width as usize {
            w - line_width as usize
        } else {
            0
        };
        if max_scroll < self.horizontal_scroll {
            self.horizontal_scroll = max_scroll;
        }
        self.horizontal_scroll
    }

    pub fn logs(&self) -> (l: &Vec<Log>)
        ensures
            l@.map_values(|l: Log| l.message()) == self@.messages,
            l@.map_values(|l: Log| l.width()) == self@.widths,
    {
        &self.logs
    }

    pub fn list(&mut self) -> (l: &mut List)
        ensures
            l@ == old(self)@.list,
    {
        &mut self.list
    }
}

} // verus!
