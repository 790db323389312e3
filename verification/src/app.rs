//! The dashboard's state and the decisions taken on each event: which keys change the view,
//! when the screen must be redrawn, and when data must be reloaded or recomputed. Loading
//! records, costing them and drawing are done by the caller, which performs the work each
//! response names.

use crate::cards::{
    daily_sparkline_on, day_slot, hour_slot, hourly_sparkline_on, on_day, seq_sum, since_day,
    tokens_on_day, tokens_since, CardData,
};
use crate::date::{today_utc, weekday_from_monday, Date, Timestamp, EPOCH_DAYS};
use crate::history::law_week_span;
use crate::record::{
    all_wf, lemma_prefix_sum_le, lemma_sum_where_mono, lemma_sum_where_step, sum_where, tokens_sum,
    Record,
};
use crate::scope::{lemma_epoch_weeks_in_range, scope_label, week_start_in_range, window_start, Scope};
use vstd::prelude::*;

verus! {

/// A key press, as far as the dashboard tells keys apart.
#[derive(Debug, Clone, Copy, PartialEq, Eq, Structural)]
pub enum Key {
    Char(char),
    Esc,
    Up,
    Down,
    Other,
}

/// Events the dashboard reacts to.
#[derive(Debug, Clone, Copy, PartialEq, Eq, Structural)]
pub enum Event {
    /// A key was pressed.
    Key(Key),
    /// The terminal was resized.
    Resize(u16, u16),
    /// Time to poll for data updates.
    Tick,
    /// Time to redraw the screen.
    Render,
    /// The watched source files changed and the cache was updated.
    DataChanged,
}

/// What the terminal reports, as far as the dashboard tells it apart.
#[derive(Debug, Clone, Copy, PartialEq, Eq, Structural)]
pub enum TerminalEvent {
    /// A key event; `pressed` is false for releases and repeats.
    Key { key: Key, pressed: bool },
    /// The terminal was resized to the given columns and rows.
    Resize(u16, u16),
    /// Anything else (mouse, focus, paste).
    Other,
}

/// The dashboard event a terminal event becomes: key presses and resizes pass on, key
/// releases and repeats and other events are dropped.
pub fn from_terminal(e: TerminalEvent) -> (r: Option<Event>)
    ensures
        r == (match e {
            TerminalEvent::Key { key, pressed } => if pressed {
                Some(Event::Key(key))
            } else {
                None
            },
            TerminalEvent::Resize(w, h) => Some(Event::Resize(w, h)),
            TerminalEvent::Other => None,
        }),
{
    match e {
        TerminalEvent::Key { key, pressed } => if pressed {
            Some(Event::Key(key))
        } else {
            None
        },
        TerminalEvent::Resize(w, h) => Some(Event::Resize(w, h)),
        TerminalEvent::Other => None,
    }
}

/// Work the caller must do after an event.
#[derive(Debug, Clone, Copy, PartialEq, Eq, Structural)]
pub enum Work {
    /// Nothing beyond a possible redraw.
    Nothing,
    /// Recompute the detail table for the current window.
    RecomputeDetail,
    /// Reload the records and recompute everything.
    RefreshData,
}

/// The answer to an event: whether the screen needs a redraw, and what work to do first.
#[derive(Debug, Clone, Copy, PartialEq, Eq, Structural)]
pub struct Response {
    pub redraw: bool,
    pub work: Work,
}

/// The part of the dashboard's state that keys change.
#[derive(Debug, Clone, Copy, PartialEq, Eq, Structural)]
pub struct UiState {
    /// Currently selected detail window.
    pub scope: Scope,
    /// Whether to show per-model breakdown or compact rows.
    pub breakdown: bool,
    /// Whether history mode is on.
    pub show_history: bool,
    /// Scroll offset of the detail table.
    pub scroll_offset: u16,
    /// Whether the dashboard should quit.
    pub should_quit: bool,
    /// Whether the help overlay is shown.
    pub show_help: bool,
}

/// The dashboard's state: the view the keys select, the three summary cards and the records
/// they are computed from.
pub struct App {
    /// Currently selected detail window.
    pub scope: Scope,
    /// Whether to show per-model breakdown or compact rows.
    pub breakdown: bool,
    /// Whether history mode is on.
    pub show_history: bool,
    /// Scroll offset of the detail table.
    pub scroll_offset: u16,
    /// Whether the dashboard should quit.
    pub should_quit: bool,
    /// Whether the help overlay is shown.
    pub show_help: bool,
    /// Summary cards: today, this week, this month.
    pub cards: [CardData; 3],
    /// The records of the current data load.
    pub cached_records: Vec<Record>,
}

/// The response that asks for a redraw and no other work.
pub open spec fn redraw_only() -> Response {
    Response { redraw: true, work: Work::Nothing }
}

/// The response that asks for nothing.
pub open spec fn ignored() -> Response {
    Response { redraw: false, work: Work::Nothing }
}

/// The view after switching to window `scope`, with the scroll reset.
pub open spec fn switch_to(s: UiState, scope: Scope) -> (UiState, Response) {
    (
        UiState { scope, scroll_offset: 0, ..s },
        Response { redraw: true, work: Work::RecomputeDetail },
    )
}

/// How a key changes the view, and what it asks of the caller. While the help overlay is shown,
/// any key only dismisses it.
pub open spec fn key_step(s: UiState, key: Key) -> (UiState, Response) {
    if s.show_help {
        (UiState { show_help: false, ..s }, redraw_only())
    } else {
        match key {
            Key::Esc => (UiState { should_quit: true, ..s }, ignored()),
            Key::Down => (
                UiState { scroll_offset: s.scroll_offset.saturating_add(1), ..s },
                redraw_only(),
            ),
            Key::Up => (
                UiState { scroll_offset: s.scroll_offset.saturating_sub(1), ..s },
                redraw_only(),
            ),
            Key::Other => (s, ignored()),
            Key::Char(c) => if c == 'q' {
                (UiState { should_quit: true, ..s }, ignored())
            } else if c == '?' {
                (UiState { show_help: true, ..s }, redraw_only())
            } else if c == 't' {
                switch_to(s, Scope::Today)
            } else if c == 'w' {
                switch_to(s, Scope::Week)
            } else if c == 'm' {
                switch_to(s, Scope::Month)
            } else if c == 'b' {
                (UiState { breakdown: !s.breakdown, ..s }, redraw_only())
            } else if c == 'h' {
                (
                    UiState { show_history: !s.show_history, ..s },
                    Response { redraw: true, work: Work::RecomputeDetail },
                )
            } else if c == 'j' {
                (
                    UiState { scroll_offset: s.scroll_offset.saturating_add(1), ..s },
                    redraw_only(),
                )
            } else if c == 'k' {
                (
                    UiState { scroll_offset: s.scroll_offset.saturating_sub(1), ..s },
                    redraw_only(),
                )
            } else {
                (s, ignored())
            },
        }
    }
}

/// How an event changes the view, and what it asks of the caller.
pub open spec fn event_step(s: UiState, event: Event) -> (UiState, Response) {
    match event {
        Event::Key(k) => key_step(s, k),
        Event::Tick => (s, Response { redraw: true, work: Work::RefreshData }),
        Event::DataChanged => (s, Response { redraw: true, work: Work::RefreshData }),
        Event::Resize(_, _) => (s, redraw_only()),
        Event::Render => (s, redraw_only()),
    }
}

/// The records can be summed without overflow and every timestamp is one chrono can hold.
pub open spec fn records_ok(records: Seq<Record>) -> bool {
    all_wf(records) && tokens_sum(records) <= u64::MAX
}

/// Whether the records can be summed without overflow and every timestamp is one chrono can
/// hold (see `records_ok`), checked record by record.
pub fn records_fit(records: &[Record]) -> (b: bool)
    ensures
        b == records_ok(records@),
{
    let mut sum: u64 = 0;
    let mut i: usize = 0;
    while i < records.len()
        invariant
            i <= records@.len(),
            all_wf(records@.take(i as int)),
            sum == tokens_sum(records@.take(i as int)),
        decreases records@.len() - i,
    {
        let r = &records[i];
        proof {
            lemma_sum_where_step(records@, i as int, |x: Record| true);
            lemma_prefix_sum_le(records@, i + 1, |x: Record| true);
            assert forall|k: int| 0 <= k < i implies (#[trigger] records@.take(i + 1)[k]).timestamp.wf() by {
                assert(records@.take(i + 1)[k] == records@.take(i as int)[k]);
            }
        }
        if Timestamp::from_parts(r.timestamp.secs, r.timestamp.nanos).is_none() {
            assert(!records@[i as int].timestamp.wf());
            return false;
        }
        let t: u128 = r.input_tokens as u128 + r.output_tokens as u128 + r.cache_read_tokens as u128
            + r.cache_creation_tokens as u128 + r.thinking_tokens as u128;
        let next: u128 = sum as u128 + t;
        if next > u64::MAX as u128 {
            return false;
        }
        sum = next as u64;
        i = i + 1;
    }
    assert(records@.take(records@.len() as int) =~= records@);
    true
}

/// The cards hold what the records give, seen from the date `today`: the tokens of today, of
/// the week since its Monday and of the month since its first day; an hourly sparkline for
/// today, and daily sparklines for the last 7 and the last 30 days.
pub open spec fn cards_for(records: Seq<Record>, cards: [CardData; 3], today: Date) -> bool {
    let t = today.days as int;
    &&& cards[0].tokens == sum_where(records, on_day(t))
    &&& cards[1].tokens == sum_where(records, since_day(window_start(Scope::Week, today)))
    &&& cards[2].tokens == sum_where(records, since_day(window_start(Scope::Month, today)))
    &&& cards[0].sparkline@.len() == 24
    &&& forall|h: int|
        0 <= h < 24 ==> #[trigger] cards[0].sparkline@[h] == sum_where(records, hour_slot(t, h))
    &&& cards[1].sparkline@.len() == 7
    &&& forall|j: int|
        0 <= j < 7 ==> #[trigger] cards[1].sparkline@[j] == sum_where(records, day_slot(t, 7, j))
    &&& cards[2].sparkline@.len() == 30
    &&& forall|j: int|
        0 <= j < 30 ==> #[trigger] cards[2].sparkline@[j] == sum_where(
            records,
            day_slot(t, 30, j),
        )
}

/// The three cards carry the labels of their windows, in the order today, week, month.
pub open spec fn cards_labelled(cards: [CardData; 3]) -> bool {
    &&& cards[0].label@ == scope_label(Scope::Today)
    &&& cards[1].label@ == scope_label(Scope::Week)
    &&& cards[2].label@ == scope_label(Scope::Month)
}

/// The cards are labelled by their windows and carry an hourly sparkline of 24 slots, a daily
/// one of 7 and a daily one of 30.
pub open spec fn cards_shaped(cards: [CardData; 3]) -> bool {
    &&& cards_labelled(cards)
    &&& cards[0].sparkline@.len() == 24
    &&& cards[1].sparkline@.len() == 7
    &&& cards[2].sparkline@.len() == 30
}

/// Cards computed from records keep their labels and take the sparkline lengths 24, 7 and 30.
pub proof fn law_cards_for_shaped(records: Seq<Record>, cards: [CardData; 3], today: Date)
    requires
        cards_for(records, cards, today),
        cards_labelled(cards),
    ensures
        cards_shaped(cards),
{
}

/// The cards carry the same labels, in the same order.
pub open spec fn labels_kept(before: [CardData; 3], after: [CardData; 3]) -> bool {
    forall|i: int| 0 <= i < 3 ==> #[trigger] after[i].label == before[i].label
}

/// One step of the dashboard as it touches the cards: an event, or a refresh that could not read
/// the clock, leaves them as they are; a recomputation keeps the labels and gives the cards of
/// some records seen from some date.
pub open spec fn card_step(before: [CardData; 3], after: [CardData; 3]) -> bool {
    ||| after == before
    ||| labels_kept(before, after) && exists|records: Seq<Record>, today: Date|
        today.wf() && #[trigger] cards_for(records, after, today)
}

/// Across the dashboard's life the cards keep the labels "Today", "This Week" and "This Month"
/// that `App::new` gives them, and from the first recomputation on (step `k`) they carry
/// sparklines of 24, 7 and 30 slots through every later step.
pub proof fn law_cards_keep_shape(steps: Seq<[CardData; 3]>, k: int)
    requires
        steps.len() > 0,
        cards_labelled(steps[0]),
        forall|i: int| 0 <= i < steps.len() - 1 ==> card_step(#[trigger] steps[i], steps[i + 1]),
        0 <= k < steps.len(),
        exists|records: Seq<Record>, today: Date| today.wf() && #[trigger] cards_for(records, steps[k], today),
    ensures
        forall|j: int| 0 <= j < steps.len() ==> cards_labelled(#[trigger] steps[j]),
        forall|j: int| k <= j < steps.len() ==> cards_shaped(#[trigger] steps[j]),
    decreases steps.len(),
{
    lemma_labels_stay(steps, steps.len() - 1);
    assert forall|j: int| k <= j < steps.len() implies cards_shaped(#[trigger] steps[j]) by {
        lemma_shape_stays(steps, k, j);
    }
    assert forall|j: int| 0 <= j < steps.len() implies cards_labelled(#[trigger] steps[j]) by {
        lemma_labels_stay(steps, j);
    }
}

/// The labels of the first cards stay through every step up to `j`.
proof fn lemma_labels_stay(steps: Seq<[CardData; 3]>, j: int)
    requires
        0 <= j < steps.len(),
        cards_labelled(steps[0]),
        forall|i: int| 0 <= i < steps.len() - 1 ==> card_step(#[trigger] steps[i], steps[i + 1]),
    ensures
        cards_labelled(steps[j]),
    decreases j,
{
    if j > 0 {
        lemma_labels_stay(steps, j - 1);
        assert(card_step(steps[j - 1], steps[j]));
    }
}

/// Labelled cards computed at step `k` stay shaped through every step up to `j`.
proof fn lemma_shape_stays(steps: Seq<[CardData; 3]>, k: int, j: int)
    requires
        0 <= k <= j < steps.len(),
        cards_labelled(steps[0]),
        forall|i: int| 0 <= i < steps.len() - 1 ==> card_step(#[trigger] steps[i], steps[i + 1]),
        exists|records: Seq<Record>, today: Date| today.wf() && #[trigger] cards_for(records, steps[k], today),
    ensures
        cards_shaped(steps[j]),
    decreases j - k,
{
    lemma_labels_stay(steps, j);
    if j == k {
        let (records, today) = choose|records: Seq<Record>, today: Date|
            today.wf() && #[trigger] cards_for(records, steps[k], today);
        law_cards_for_shaped(records, steps[k], today);
    } else {
        lemma_shape_stays(steps, k, j - 1);
        assert(card_step(steps[j - 1], steps[j]));
        if steps[j] != steps[j - 1] {
            let (records, today) = choose|records: Seq<Record>, today: Date|
                today.wf() && #[trigger] cards_for(records, steps[j], today);
            law_cards_for_shaped(records, steps[j], today);
        }
    }
}

/// A card holding nothing yet.
fn empty_card(label: &'static str) -> (c: CardData)
    ensures
        c.label == label,
        c.tokens == 0,
        c.sparkline@.len() == 0,
{
    CardData { label, tokens: 0, sparkline: Vec::new() }
}

impl App {
    /// The part of the state that keys change.
    pub open spec fn ui(&self) -> UiState {
        UiState {
            scope: self.scope,
            breakdown: self.breakdown,
            show_history: self.show_history,
            scroll_offset: self.scroll_offset,
            should_quit: self.should_quit,
            show_help: self.show_help,
        }
    }

    /// The part of the state that keys change, as a value.
    pub fn ui_state(&self) -> (u: UiState)
        ensures
            u == self.ui(),
    {
        UiState {
            scope: self.scope,
            breakdown: self.breakdown,
            show_history: self.show_history,
            scroll_offset: self.scroll_offset,
            should_quit: self.should_quit,
            show_help: self.show_help,
        }
    }

    /// A dashboard opening on window `initial_scope`: per-model breakdown on, history off, no
    /// scroll, no help, empty cards labelled by their windows, and no records yet.
    pub fn new(initial_scope: Scope) -> (app: App)
        ensures
            app.ui() == (UiState {
                scope: initial_scope,
                breakdown: true,
                show_history: false,
                scroll_offset: 0,
                should_quit: false,
                show_help: false,
            }),
            app.cards[0].label@ == scope_label(Scope::Today),
            app.cards[1].label@ == scope_label(Scope::Week),
            app.cards[2].label@ == scope_label(Scope::Month),
            cards_labelled(app.cards),
            forall|i: int| 0 <= i < 3 ==> #[trigger] app.cards[i].tokens == 0,
            forall|i: int| 0 <= i < 3 ==> (#[trigger] app.cards[i]).sparkline@.len() == 0,
            app.cached_records@.len() == 0,
    {
        App {
            scope: initial_scope,
            breakdown: true,
            show_history: false,
            scroll_offset: 0,
            should_quit: false,
            show_help: false,
            cards: [
                empty_card(Scope::Today.label()),
                empty_card(Scope::Week.label()),
                empty_card(Scope::Month.label()),
            ],
            cached_records: Vec::new(),
        }
    }

    /// Recomputes the three cards from the cached records, seen from the date `today`. The
    /// labels, the view and the records are kept. Today's tokens never exceed the week's or the
    /// month's, and today's hourly sparkline adds up to today's tokens.
    pub fn recompute_cards_on(&mut self, today: Date)
        requires
            today.wf(),
            week_start_in_range(today),
            records_ok(old(self).cached_records@),
        ensures
            cards_for(final(self).cached_records@, final(self).cards, today),
            final(self).cards[0].tokens <= final(self).cards[1].tokens,
            final(self).cards[0].tokens <= final(self).cards[2].tokens,
            seq_sum(final(self).cards[0].sparkline@) == final(self).cards[0].tokens,
            forall|i: int| 0 <= i < 3 ==> #[trigger] final(self).cards[i].label == old(self).cards[i].label,
            final(self).ui() == old(self).ui(),
            final(self).cached_records == old(self).cached_records,
            cards_labelled(old(self).cards) ==> cards_shaped(final(self).cards),
            card_step(old(self).cards, final(self).cards),
    {
        let week_start = Scope::Week.since_on(today);
        let month_start = Scope::Month.since_on(today);
        let recs = self.cached_records.as_slice();
        let today_tokens = tokens_on_day(recs, today);
        let week_tokens = tokens_since(recs, week_start);
        let month_tokens = tokens_since(recs, month_start);
        let hourly = hourly_sparkline_on(recs, today);
        let weekly = daily_sparkline_on(recs, 7, today);
        let monthly = daily_sparkline_on(recs, 30, today);
        proof {
            let t = today.days as int;
            assert forall|r: Record| #[trigger] on_day(t)(r) implies since_day(week_start.days as int)(r) by {}
            assert forall|r: Record| #[trigger] on_day(t)(r) implies since_day(month_start.days as int)(r) by {}
            lemma_sum_where_mono(recs@, on_day(t), since_day(week_start.days as int));
            lemma_sum_where_mono(recs@, on_day(t), since_day(month_start.days as int));
        }
        let l0 = self.cards[0].label;
        let l1 = self.cards[1].label;
        let l2 = self.cards[2].label;
        self.cards = [
            CardData { label: l0, tokens: today_tokens, sparkline: hourly },
            CardData { label: l1, tokens: week_tokens, sparkline: weekly },
            CardData { label: l2, tokens: month_tokens, sparkline: monthly },
        ];
        assert(cards_for(self.cached_records@, self.cards, today));
    }

    /// Recomputes the cards as seen from today's UTC date on the clock. Returns whether it did:
    /// it does whenever the clock gives a date (from 1970 on, and within chrono's range), and
    /// otherwise leaves everything unchanged.
    pub fn recompute_cards(&mut self) -> (done: bool)
        requires
            records_ok(old(self).cached_records@),
        ensures
            done ==> exists|today: Date|
                today.wf() && today.days >= EPOCH_DAYS && cards_for(
                    final(self).cached_records@,
                    final(self).cards,
                    today,
                ),
            !done ==> final(self).cards == old(self).cards,
            forall|i: int|
                0 <= i < 3 ==> #[trigger] final(self).cards[i].label == old(self).cards[i].label,
            final(self).ui() == old(self).ui(),
            final(self).cached_records == old(self).cached_records,
            card_step(old(self).cards, final(self).cards),
    {
        match today_utc() {
            Some(today) => {
                proof {
                    lemma_epoch_weeks_in_range(today);
                }
                self.recompute_cards_on(today);
                assert(today.wf() && today.days >= EPOCH_DAYS && cards_for(
                    self.cached_records@,
                    self.cards,
                    today,
                ));
                true
            },
            None => false,
        }
    }

    /// Takes a fresh load of records and recomputes the cards from them (see `recompute_cards`).
    pub fn refresh_data(&mut self, records: Vec<Record>) -> (done: bool)
        requires
            records_ok(records@),
        ensures
            final(self).cached_records@ == records@,
            done ==> exists|today: Date|
                today.wf() && today.days >= EPOCH_DAYS && cards_for(
                    records@,
                    final(self).cards,
                    today,
                ),
            !done ==> final(self).cards == old(self).cards,
            forall|i: int|
                0 <= i < 3 ==> #[trigger] final(self).cards[i].label == old(self).cards[i].label,
            final(self).ui() == old(self).ui(),
            cards_labelled(old(self).cards) && done ==> cards_shaped(final(self).cards),
            card_step(old(self).cards, final(self).cards),
    {
        self.cached_records = records;
        let done = self.recompute_cards();
        proof {
            if done && cards_labelled(self.cards) {
                let today = choose|today: Date|
                    today.wf() && today.days >= EPOCH_DAYS && cards_for(
                        records@,
                        self.cards,
                        today,
                    );
                law_cards_for_shaped(records@, self.cards, today);
            }
        }
        done
    }

    /// Applies a key press to the view; the cards and records are untouched.
    pub fn handle_key(&mut self, key: Key) -> (r: Response)
        ensures
            (final(self).ui(), r) == key_step(old(self).ui(), key),
            final(self).cards == old(self).cards,
            final(self).cached_records == old(self).cached_records,
            card_step(old(self).cards, final(self).cards),
    {
        if self.show_help {
            self.show_help = false;
            return Response { redraw: true, work: Work::Nothing };
        }
        let scroll = self.scroll_offset;
        match key {
            Key::Char('q') | Key::Esc => {
                self.should_quit = true;
                Response { redraw: false, work: Work::Nothing }
            },
            Key::Char('?') => {
                self.show_help = true;
                Response { redraw: true, work: Work::Nothing }
            },
            Key::Char('t') => {
                self.scope = Scope::Today;
                self.scroll_offset = 0;
                Response { redraw: true, work: Work::RecomputeDetail }
            },
            Key::Char('w') => {
                self.scope = Scope::Week;
                self.scroll_offset = 0;
                Response { redraw: true, work: Work::RecomputeDetail }
            },
            Key::Char('m') => {
                self.scope = Scope::Month;
                self.scroll_offset = 0;
                Response { redraw: true, work: Work::RecomputeDetail }
            },
            Key::Char('b') => {
                self.breakdown = !self.breakdown;
                Response { redraw: true, work: Work::Nothing }
            },
            Key::Char('h') => {
                self.show_history = !self.show_history;
                Response { redraw: true, work: Work::RecomputeDetail }
            },
            Key::Char('j') | Key::Down => {
                self.scroll_offset = scroll.saturating_add(1);
                Response { redraw: true, work: Work::Nothing }
            },
            Key::Char('k') | Key::Up => {
                self.scroll_offset = scroll.saturating_sub(1);
                Response { redraw: true, work: Work::Nothing }
            },
            _ => Response { redraw: false, work: Work::Nothing },
        }
    }

    /// Applies an event: a key goes to `handle_key`; a tick or a data change asks for a reload
    /// and a redraw; a resize or a render tick asks for a redraw.
    pub fn handle_event(&mut self, event: Event) -> (r: Response)
        ensures
            (final(self).ui(), r) == event_step(old(self).ui(), event),
            final(self).cards == old(self).cards,
            final(self).cached_records == old(self).cached_records,
            card_step(old(self).cards, final(self).cards),
    {
        match event {
            Event::Key(k) => self.handle_key(k),
            Event::Tick | Event::DataChanged => Response { redraw: true, work: Work::RefreshData },
            Event::Resize(_, _) => Response { redraw: true, work: Work::Nothing },
            Event::Render => Response { redraw: true, work: Work::Nothing },
        }
    }
}

/// Pressing 'b' twice gives back the view it started from.
pub proof fn law_breakdown_toggle_twice(s: UiState)
    requires
        !s.show_help,
    ensures
        key_step(key_step(s, Key::Char('b')).0, Key::Char('b')).0 == s,
{
}

/// Pressing 'h' twice gives back the view it started from, asking each time for the detail
/// table to be recomputed.
pub proof fn law_history_toggle_twice(s: UiState)
    requires
        !s.show_help,
    ensures
        key_step(key_step(s, Key::Char('h')).0, Key::Char('h')).0 == s,
        key_step(s, Key::Char('h')).1.work == Work::RecomputeDetail,
{
}

/// Scrolling down one row and back up gives back the view, unless the offset was already at
/// its maximum (where scrolling down stops).
pub proof fn law_scroll_down_then_up(s: UiState)
    requires
        !s.show_help,
        s.scroll_offset < u16::MAX,
    ensures
        key_step(key_step(s, Key::Down).0, Key::Up).0 == s,
        key_step(key_step(s, Key::Char('j')).0, Key::Char('k')).0 == s,
{
}

/// Scrolling never leaves the offset's range: up from 0 stays at 0, down from the maximum stays
/// there.
pub proof fn law_scroll_saturates(s: UiState)
    requires
        !s.show_help,
    ensures
        s.scroll_offset == 0 ==> key_step(s, Key::Up).0.scroll_offset == 0,
        s.scroll_offset == u16::MAX ==> key_step(s, Key::Down).0.scroll_offset == u16::MAX,
{
}

/// Choosing a window selects it, scrolls back to the top and asks for the detail table to be
/// recomputed; choosing the same window again changes nothing more.
pub proof fn law_window_keys(s: UiState, c: char)
    requires
        !s.show_help,
        c == 't' || c == 'w' || c == 'm',
    ensures
        key_step(s, Key::Char(c)).0.scope == (if c == 't' {
            Scope::Today
        } else if c == 'w' {
            Scope::Week
        } else {
            Scope::Month
        }),
        key_step(s, Key::Char(c)).0.scroll_offset == 0,
        key_step(s, Key::Char(c)).1 == (Response { redraw: true, work: Work::RecomputeDetail }),
        key_step(key_step(s, Key::Char(c)).0, Key::Char(c)).0 == key_step(s, Key::Char(c)).0,
{
}

/// While help is shown, every key only dismisses it and asks for a redraw.
pub proof fn law_help_dismissed_by_any_key(s: UiState, k: Key)
    requires
        s.show_help,
    ensures
        key_step(s, k).0 == (UiState { show_help: false, ..s }),
        key_step(s, k).1 == redraw_only(),
{
}

/// Opening help and dismissing it with any key gives back the view it started from.
pub proof fn law_help_round_trip(s: UiState, k: Key)
    requires
        !s.show_help,
    ensures
        key_step(key_step(s, Key::Char('?')).0, k).0 == s,
{
}

/// Events other than key presses never change the view.
pub proof fn law_non_key_events_keep_view(s: UiState, e: Event)
    requires
        !(e is Key),
    ensures
        event_step(s, e).0 == s,
        event_step(s, e).1.redraw,
{
}

/// Quitting asks for no redraw, and a quit request stays set whatever key follows.
pub proof fn law_quit_sticks(s: UiState, k: Key)
    requires
        !s.show_help,
    ensures
        key_step(s, Key::Char('q')).0.should_quit,
        !key_step(s, Key::Char('q')).1.redraw,
        key_step(s, Key::Esc) == key_step(s, Key::Char('q')),
        s.should_quit ==> key_step(s, k).0.should_quit,
{
}

/// Outside help, 'b' always flips the per-model breakdown, in history mode as well, asks for a
/// redraw and changes nothing else of the view.
pub proof fn law_breakdown_key_flips(s: UiState)
    requires
        !s.show_help,
    ensures
        key_step(s, Key::Char('b')).0.breakdown == !s.breakdown,
        key_step(s, Key::Char('b')).0 == (UiState { breakdown: !s.breakdown, ..s }),
        key_step(s, Key::Char('b')).1 == (Response { redraw: true, work: Work::Nothing }),
{
}

/// The daily sparklines run oldest first and end on today: the last slot of the week's and of
/// the month's sparkline both hold today's tokens, and the month's last seven slots are the
/// week's sparkline.
pub proof fn law_sparklines_end_today(records: Seq<Record>, cards: [CardData; 3], today: Date)
    requires
        cards_for(records, cards, today),
    ensures
        cards[1].sparkline@[6] == cards[0].tokens,
        cards[2].sparkline@[29] == cards[0].tokens,
        forall|j: int| 0 <= j < 7 ==> #[trigger] cards[2].sparkline@[23 + j] == cards[1].sparkline@[j],
{
    let t = today.days as int;
    assert(day_slot(t, 7, 6) =~= on_day(t));
    assert(day_slot(t, 30, 29) =~= on_day(t));
    assert(cards[1].sparkline@[6] == sum_where(records, day_slot(t, 7, 6)));
    assert(cards[2].sparkline@[29] == sum_where(records, day_slot(t, 30, 29)));
    assert forall|j: int| 0 <= j < 7 implies #[trigger] cards[2].sparkline@[23 + j]
        == cards[1].sparkline@[j] by {
        assert(day_slot(t, 30, 23 + j) =~= day_slot(t, 7, j));
        assert(cards[2].sparkline@[23 + j] == sum_where(records, day_slot(t, 30, 23 + j)));
        assert(cards[1].sparkline@[j] == sum_where(records, day_slot(t, 7, j)));
    }
}

/// Outside help, each key changes exactly its own part of the view: 'h' flips history and asks
/// for the detail to be recomputed; 'j' or Down scrolls one row further and 'k' or Up one row
/// back, stopping at the ends; any key the dashboard does not use changes nothing and asks for
/// nothing.
pub proof fn law_key_effects(s: UiState, c: char)
    requires
        !s.show_help,
    ensures
        key_step(s, Key::Char('h')).0 == (UiState { show_history: !s.show_history, ..s }),
        key_step(s, Key::Char('h')).1 == (Response { redraw: true, work: Work::RecomputeDetail }),
        s.scroll_offset < u16::MAX ==> key_step(s, Key::Down).0 == (UiState {
            scroll_offset: (s.scroll_offset + 1) as u16,
            ..s
        }),
        s.scroll_offset < u16::MAX ==> key_step(s, Key::Char('j')).0 == key_step(s, Key::Down).0,
        s.scroll_offset > 0 ==> key_step(s, Key::Up).0 == (UiState {
            scroll_offset: (s.scroll_offset - 1) as u16,
            ..s
        }),
        s.scroll_offset > 0 ==> key_step(s, Key::Char('k')).0 == key_step(s, Key::Up).0,
        key_step(s, Key::Other) == (s, Response { redraw: false, work: Work::Nothing }),
        !(c == 'q' || c == '?' || c == 't' || c == 'w' || c == 'm' || c == 'b' || c == 'h' || c
            == 'j' || c == 'k') ==> key_step(s, Key::Char(c)) == (s, Response {
            redraw: false,
            work: Work::Nothing,
        }),
{
}

/// The week card counts the tokens since the Monday of today's week: for the Monday `m` at most
/// six days before today, its tokens are those of the records dated `m` or later.
pub proof fn law_week_card_since_monday(records: Seq<Record>, cards: [CardData; 3], today: Date, m: int)
    requires
        cards_for(records, cards, today),
        weekday_from_monday(m) == 0,
        m <= today.days < m + 7,
    ensures
        cards[1].tokens == sum_where(records, since_day(m)),
{
    law_week_span(m, today.days as int);
}

} // verus!
