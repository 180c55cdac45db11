//! A review session: the due cards are shown one by one, each revealed part
//! by part up to its breaks, and answered once it is fully shown.
use vstd::prelude::*;

use crate::blocks::items_from;
use crate::data::CardId;
use crate::graphemes::grapheme_clusters_of;
use crate::keys::Key;
use crate::markup::MarkupItem;
use crate::markup_view::Markup;

verus! {

/// Where a session stands.
#[derive(Debug, Clone, Copy, PartialEq, Eq, Structural)]
pub enum ReviewState {
    /// Nothing is reviewed: the page was left, or no card was due.
    Empty,
    /// A card is shown.
    Review(CardId),
    /// Every due card was answered, or none is left.
    Done,
}

/// What a key asks of the app during a review, after the session has taken
/// it into account.
#[derive(Debug, Clone, Copy, PartialEq, Eq, Structural)]
pub enum ReviewStep {
    /// Nothing to do.
    Ignored,
    /// Open the card in the editor.
    Edit(CardId),
    /// Delete the card, then show another due card.
    Delete(CardId),
    /// More of the card is shown: scroll to its end.
    Revealed,
    /// Record the answer for the card; then show another due card when
    /// `fetch` holds.
    Answer { card: CardId, success: bool, fetch: bool },
    /// Show another due card in place of this one.
    Skip(CardId),
    /// The key goes to the card's view (scrolling).
    ToMarkup,
}

/// A session as plain values.
pub struct ReviewView {
    pub total: u32,
    pub progress: u32,
    pub state: ReviewState,
    pub items: Seq<MarkupItem>,
    pub reveal_len: int,
}

/// The first break at or after item `i`, or the end of the items.
pub open spec fn first_break_from(items: Seq<MarkupItem>, i: int) -> int
    decreases items.len() - i,
{
    if i < 0 || i >= items.len() {
        items.len() as int
    } else if items[i] == MarkupItem::Break {
        i
    } else {
        first_break_from(items, i + 1)
    }
}

/// How many items are shown after revealing more of a card of which
/// `shown` are shown: up to the next break after them, or all of them.
pub open spec fn next_reveal(items: Seq<MarkupItem>, shown: int) -> int {
    first_break_from(items, shown + 1)
}

/// The kinds of item of a card with content `text`.
pub open spec fn card_items(text: Seq<char>) -> Seq<MarkupItem> {
    let all = items_from(grapheme_clusters_of(text), 0);
    if all.len() == 0 {
        all
    } else {
        all.drop_last()
    }
}

pub open spec fn fully_revealed(v: ReviewView) -> bool {
    v.reveal_len == v.items.len()
}

/// More than the current card is left to review.
pub open spec fn more_cards(v: ReviewView) -> bool {
    v.total - v.progress > 1
}

/// One more answer, counted up to the largest count.
pub open spec fn count_up(p: u32) -> u32 {
    if p < u32::MAX {
        (p + 1) as u32
    } else {
        p
    }
}

/// One card fewer, counted down to zero.
pub open spec fn count_down(t: u32) -> u32 {
    if t > 0 {
        (t - 1) as u32
    } else {
        0
    }
}

/// A key pressed during a session: the session afterwards and the step.
/// Only a shown card reacts: `e` edits it, `Delete` deletes it, `Space`
/// shows more of it until it is fully shown, `y` and `n` answer it once it
/// is, and `Right` skips it while other cards are left.
pub open spec fn key_step(v: ReviewView, key: Key) -> (ReviewView, ReviewStep) {
    match v.state {
        ReviewState::Review(id) => match key {
            Key::Char(c) => if c == 'e' {
                (v, ReviewStep::Edit(id))
            } else if c == ' ' {
                if !fully_revealed(v) {
                    (ReviewView { reveal_len: next_reveal(v.items, v.reveal_len), ..v }, ReviewStep::Revealed)
                } else {
                    (v, ReviewStep::Ignored)
                }
            } else if c == 'y' || c == 'n' {
                if fully_revealed(v) {
                    let p = count_up(v.progress);
                    let done = p == v.total;
                    (
                        ReviewView {
                            progress: p,
                            state: if done {
                                ReviewState::Done
                            } else {
                                v.state
                            },
                            ..v
                        },
                        ReviewStep::Answer { card: id, success: c == 'y', fetch: !done },
                    )
                } else {
                    (v, ReviewStep::Ignored)
                }
            } else {
                (v, ReviewStep::ToMarkup)
            },
            Key::Delete => (ReviewView { total: count_down(v.total), ..v }, ReviewStep::Delete(id)),
            Key::Right => if more_cards(v) {
                (v, ReviewStep::Skip(id))
            } else {
                (v, ReviewStep::Ignored)
            },
            _ => (v, ReviewStep::ToMarkup),
        },
        _ => (v, ReviewStep::Ignored),
    }
}

proof fn lemma_first_break_bounds(items: Seq<MarkupItem>, i: int)
    requires
        0 <= i,
    ensures
        i <= first_break_from(items, i) || i > items.len(),
        first_break_from(items, i) <= items.len(),
        first_break_from(items, i) < items.len() ==> items[first_break_from(items, i)] == MarkupItem::Break,
        forall|j: int| i <= j < first_break_from(items, i) ==> items[j] != MarkupItem::Break,
    decreases items.len() - i,
{
    if i < items.len() && items[i] != MarkupItem::Break {
        lemma_first_break_bounds(items, i + 1);
    }
}

/// Each reveal of a card that is not fully shown shows at least one item
/// more, never more than the card, and stops at the first break after what
/// was shown.
pub proof fn law_reveal_advances(items: Seq<MarkupItem>, shown: int)
    requires
        0 <= shown < items.len(),
    ensures
        shown < next_reveal(items, shown) <= items.len(),
        next_reveal(items, shown) < items.len() ==> items[next_reveal(items, shown)] == MarkupItem::Break,
        forall|j: int| shown < j < next_reveal(items, shown) ==> items[j] != MarkupItem::Break,
{
    lemma_first_break_bounds(items, shown + 1);
}

pub struct ReviewPage {
    total: u32,
    progress: u32,
    state: ReviewState,
    markup_items: Vec<MarkupItem>,
    reveal_len: usize,
}

impl View for ReviewPage {
    type V = ReviewView;

    closed spec fn view(&self) -> ReviewView {
        ReviewView {
            total: self.total,
            progress: self.progress,
            state: self.state,
            items: self.markup_items@,
            reveal_len: self.reveal_len as int,
        }
    }
}

impl ReviewPage {
    /// No more of a card is shown than it has.
    pub open spec fn wf(&self) -> bool {
        0 <= self@.reveal_len <= self@.items.len()
    }

    pub fn new() -> (r: Self)
        ensures
            r.wf(),
            r@.total == 0 && r@.progress == 0 && r@.state == ReviewState::Empty,
            r@.items.len() == 0 && r@.reveal_len == 0,
    {
        ReviewPage { total: 0, progress: 0, state: ReviewState::Empty, markup_items: Vec::new(), reveal_len: 0 }
    }

    /// Starts a session over `due` due cards. The result says whether a due
    /// card is to be fetched and handed to `show`.
    pub fn on_enter(&mut self, due: u32) -> (fetch: bool)
        ensures
            final(self)@ == (ReviewView { total: due, ..old(self)@ }),
            fetch == (due > 0),
    {
        self.total = due;
        self.total > 0
    }

    /// The card that a fetch of the next due card leaves out: the one shown.
    pub fn excluded(&self) -> (c: Option<CardId>)
        ensures
            c == (match self@.state {
                ReviewState::Review(id) => Some(id),
                _ => None,
            }),
    {
        match self.state {
            ReviewState::Review(id) => Some(id),
            _ => None,
        }
    }

    /// Shows the card that was fetched, with its content, up to its first
    /// break, or ends the session when none was; the view is scrolled to the
    /// start of a new card.
    pub fn show(&mut self, next: Option<(CardId, &str)>)
        requires
            old(self).wf(),
        ensures
            final(self).wf(),
            match next {
                Some((id, content)) => final(self)@ == (ReviewView {
                    items: card_items(content@),
                    reveal_len: next_reveal(card_items(content@), 0),
                    state: ReviewState::Review(id),
                    ..old(self)@
                }),
                None => final(self)@ == (ReviewView { state: ReviewState::Done, ..old(self)@ }),
            },
    {
        match next {
            Some((id, content)) => {
                self.markup_items.clear();
                Markup::parse_items(content, &mut self.markup_items);
                proof {
                    assert(self.markup_items@ =~= card_items(content@));
                }
                self.reveal_len = 0;
                self.state = ReviewState::Review(id);
                self.reveal_more();
            },
            None => {
                self.state = ReviewState::Done;
            },
        }
    }

    fn reveal_more(&mut self)
        requires
            old(self).reveal_len < old(self).markup_items@.len() || old(self).reveal_len == 0,
            old(self).reveal_len <= old(self).markup_items@.len(),
        ensures
            final(self)@ == (ReviewView { reveal_len: next_reveal(old(self)@.items, old(self)@.reveal_len), ..old(self)@ }),
            final(self).wf(),
    {
        let len = self.markup_items.len();
        let ghost from = self.reveal_len + 1;
        let mut i = if self.reveal_len < len {
            self.reveal_len + 1
        } else {
            len
        };
        proof {
            lemma_first_break_bounds(self.markup_items@, from);
        }
        while i < len && !matches!(self.markup_items[i], MarkupItem::Break)
            invariant
                len == self.markup_items@.len(),
                from <= i <= len || (from > len && i == len),
                first_break_from(self.markup_items@, i as int) == first_break_from(self.markup_items@, from),
            decreases len - i,
        {
            i = i + 1;
        }
        self.reveal_len = i;
    }

    /// Takes a key and hands back what the app is to do; see `key_step`.
    pub fn input(&mut self, key: Key) -> (step: ReviewStep)
        requires
            old(self).wf(),
        ensures
            final(self).wf(),
            (final(self)@, step) == key_step(old(self)@, key),
    {
        match self.state {
            ReviewState::Review(id) => match key {
                Key::Char(c) => if c == 'e' {
                    ReviewStep::Edit(id)
                } else if c == ' ' {
                    if !self.is_fully_revealed() {
                        self.reveal_more();
                        ReviewStep::Revealed
                    } else {
                        ReviewStep::Ignored
                    }
                } else if c == 'y' || c == 'n' {
                    if self.is_fully_revealed() {
                        if self.progress < u32::MAX {
                            self.progress = self.progress + 1;
                        }
                        let done = self.is_done();
                        if done {
                            self.state = ReviewState::Done;
                        }
                        ReviewStep::Answer { card: id, success: c == 'y', fetch: !done }
                    } else {
                        ReviewStep::Ignored
                    }
                } else {
                    ReviewStep::ToMarkup
                },
                Key::Delete => {
                    self.total = if self.total > 0 {
                        self.total - 1
                    } else {
                        0
                    };
                    ReviewStep::Delete(id)
                },
                Key::Right => if self.has_more_cards() {
                    ReviewStep::Skip(id)
                } else {
                    ReviewStep::Ignored
                },
                _ => ReviewStep::ToMarkup,
            },
            _ => ReviewStep::Ignored,
        }
    }

    /// Leaves the session: everything is forgotten but the count of cards.
    pub fn on_exit(&mut self)
        ensures
            final(self).wf(),
            final(self)@.total == 0 && final(self)@.progress == 0,
            final(self)@.state == ReviewState::Empty,
            final(self)@.items.len() == 0 && final(self)@.reveal_len == 0,
    {
        self.total = 0;
        self.progress = 0;
        self.state = ReviewState::Empty;
        self.markup_items.clear();
        self.reveal_len = 0;
    }

    pub fn is_fully_revealed(&self) -> (b: bool)
        ensures
            b == fully_revealed(self@),
    {
        self.reveal_len == self.markup_items.len()
    }

    /// Every card of the session was answered.
    pub fn is_done(&self) -> (b: bool)
        ensures
            b == (self@.progress == self@.total),
    {
        self.progress == self.total
    }

    pub fn has_more_cards(&self) -> (b: bool)
        ensures
            b == more_cards(self@),
    {
        let left = if self.total >= self.progress {
            self.total - self.progress
        } else {
            0
        };
        left > 1
    }

    pub fn state(&self) -> (s: ReviewState)
        ensures
            s == self@.state,
    {
        self.state
    }

    /// The answers given so far and the cards of the session.
    pub fn progress(&self) -> (r: (u32, u32))
        ensures
            r == (self@.progress, self@.total),
    {
        (self.progress, self.total)
    }

    /// How many items of the card are shown.
    pub fn reveal_len(&self) -> (n: usize)
        ensures
            n == self@.reveal_len,
    {
        self.reveal_len
    }
}

} // verus!
