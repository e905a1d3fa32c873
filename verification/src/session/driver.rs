//! Pumping a feed into a session.
//!
//! This is the loop the desktop shell runs. A loop that can only be exercised
//! by launching a window is a loop nobody tests, and its failure modes
//! (starving the UI, silently swallowing feed errors, losing events on a full
//! channel) are exactly the ones that need testing.

use crate::feed::error::FeedError;
use crate::feed::source::{read_once, Feed};
use crate::primitives::market::MarketEvent;
use crate::session::events::AppEvent;
use crate::session::state::Session;
use vstd::prelude::*;

verus! {

use crate::feed::source::{is_call, is_trail};
use crate::primitives::market::EventView;
use crate::session::events::{events_view, AppEventView};
use crate::session::model::{event_fits, event_taken, SessionView};

/// Where driver output goes.
///
/// The shell takes what was collected and emits it to its window; tests look at
/// it. Nothing else about the loop changes.
pub trait EventSink {
    /// What was published so far.
    spec fn published(&self) -> Seq<AppEventView>;

    /// Publish one event.
    fn emit(&mut self, event: &AppEvent)
        ensures
            final(self).published() == old(self).published().push(event@),
    ;
}

/// Collects events into a vector. For tests and for replaying offline.
#[derive(Debug)]
pub struct CollectingSink {
    /// Everything emitted so far.
    pub events: Vec<AppEvent>,
}

impl Default for CollectingSink {
    fn default() -> (r: Self)
        ensures
            r.events@.len() == 0,
    {
        CollectingSink { events: Vec::new() }
    }
}

impl EventSink for CollectingSink {
    open spec fn published(&self) -> Seq<AppEventView> {
        events_view(self.events@)
    }

    fn emit(&mut self, event: &AppEvent) {
        let ghost before = self.events@;
        let copy = event.clone();
        self.events.push(copy);
        assert(events_view(self.events@) =~= events_view(before).push(event@));
    }
}

/// What a pump pass did.
#[derive(Debug, Clone, Copy, PartialEq, Eq, Structural)]
pub struct PumpReport {
    /// Market events taken from the feed.
    pub consumed: usize,
    /// Application events emitted to the sink.
    pub emitted: usize,
    /// Whether the feed had nothing left when the pass ended.
    pub drained: bool,
    /// Whether the pass stopped because it hit its budget.
    pub budget_exhausted: bool,
}

impl Default for PumpReport {
    fn default() -> (r: Self)
        ensures
            r == (PumpReport {
                consumed: 0,
                emitted: 0,
                drained: false,
                budget_exhausted: false,
            }),
    {
        PumpReport { consumed: 0, emitted: 0, drained: false, budget_exhausted: false }
    }
}

/// Running totals across the driver's life.
#[derive(Debug, Clone, Copy, PartialEq, Eq, Structural)]
pub struct DriverStats {
    /// Market events processed.
    pub consumed: u64,
    /// Application events emitted.
    pub emitted: u64,
    /// Feed errors survived.
    pub errors: u64,
}

impl Default for DriverStats {
    fn default() -> (r: Self)
        ensures
            r == (DriverStats { consumed: 0, emitted: 0, errors: 0 }),
    {
        DriverStats { consumed: 0, emitted: 0, errors: 0 }
    }
}

/// What became of one reading of the feed.
#[derive(Debug, Clone, Copy, PartialEq, Eq, Structural)]
pub enum Absorbed {
    /// The feed had nothing.
    Drained,
    /// A market event led to this many application events.
    Took(usize),
    /// The feed failed.
    Failed,
}

/// One reading of the feed.
pub enum Reading {
    Event(EventView),
    Drained,
    Failed(FeedError),
}

/// What a feed said.
pub open spec fn reading_of(next: Result<Option<MarketEvent>, FeedError>) -> Reading {
    match next {
        Ok(Some(event)) => Reading::Event(event@),
        Ok(None) => Reading::Drained,
        Err(e) => Reading::Failed(e),
    }
}

/// How many readings were events.
pub open spec fn events_in(readings: Seq<Reading>) -> nat
    decreases readings.len(),
{
    if readings.len() == 0 {
        0
    } else {
        events_in(readings.drop_last()) + if readings.last() is Event {
            1nat
        } else {
            0nat
        }
    }
}

/// How many readings were failures.
pub open spec fn failures_in(readings: Seq<Reading>) -> nat
    decreases readings.len(),
{
    if readings.len() == 0 {
        0
    } else {
        failures_in(readings.drop_last()) + if readings.last() is Failed {
            1nat
        } else {
            0nat
        }
    }
}

/// The most recent error once these readings were taken in: that of the last
/// failure among them, the one from before where none failed.
pub open spec fn fault_after(before: Option<FeedError>, readings: Seq<Reading>) -> Option<FeedError>
    decreases readings.len(),
{
    if readings.len() == 0 {
        before
    } else {
        match readings.last() {
            Reading::Failed(e) => Some(e),
            _ => fault_after(before, readings.drop_last()),
        }
    }
}

/// Drives one session from one feed.
pub struct SessionDriver<F, S> {
    session: Session,
    feed: F,
    sink: S,
    stats: DriverStats,
    last_error: Option<FeedError>,
    log: Ghost<Seq<Reading>>,
}

impl<F: Feed, S: EventSink> SessionDriver<F, S> {
    /// What the session holds.
    pub closed spec fn state(&self) -> SessionView {
        self.session@
    }

    /// Running totals.
    pub closed spec fn totals(&self) -> DriverStats {
        self.stats
    }

    /// What was published so far.
    pub closed spec fn published(&self) -> Seq<AppEventView> {
        self.sink.published()
    }

    /// The most recent feed error.
    pub closed spec fn fault(&self) -> Option<FeedError> {
        self.last_error
    }

    /// The state of the feed.
    pub closed spec fn source(&self) -> F {
        self.feed
    }

    /// What the driver took in from its feed so far, reading after reading.
    pub closed spec fn readings(&self) -> Seq<Reading> {
        self.log@
    }

    /// Build a driver.
    pub fn new(session: Session, feed: F, sink: S) -> (r: Self)
        ensures
            r.readings() == Seq::<Reading>::empty(),
            r.source() == feed,
            r.state() == session@,
            r.totals() == (DriverStats { consumed: 0, emitted: 0, errors: 0 }),
            r.published() == sink.published(),
            r.fault() is None,
    {
        SessionDriver {
            session,
            feed,
            sink,
            stats: DriverStats::default(),
            last_error: None,
            log: Ghost(Seq::empty()),
        }
    }

    /// The session being driven.
    pub fn session(&self) -> (r: &Session)
        ensures
            r@ == self.state(),
    {
        &self.session
    }

    /// Mutable access, for order commands arriving from the UI.
    pub fn session_mut(&mut self) -> (r: &mut Session)
        ensures
            r@ == old(self).state(),
            final(self).state() == final(r)@,
            final(self).totals() == old(self).totals(),
            final(self).published() == old(self).published(),
            final(self).fault() == old(self).fault(),
            final(self).readings() == old(self).readings(),
            final(self).source() == old(self).source(),
    {
        &mut self.session
    }

    /// The sink, for reading collected output.
    pub fn sink(&self) -> (r: &S)
        ensures
            r.published() == self.published(),
    {
        &self.sink
    }

    /// Mutable access to the sink, for taking collected output out.
    pub fn sink_mut(&mut self) -> (r: &mut S)
        ensures
            r.published() == old(self).published(),
            final(self).published() == final(r).published(),
            final(self).state() == old(self).state(),
            final(self).totals() == old(self).totals(),
            final(self).fault() == old(self).fault(),
            final(self).readings() == old(self).readings(),
            final(self).source() == old(self).source(),
    {
        &mut self.sink
    }

    /// Running totals.
    pub fn stats(&self) -> (r: DriverStats)
        ensures
            r == self.totals(),
    {
        self.stats
    }

    /// The most recent feed error, if any survived.
    pub fn last_error(&self) -> (r: Option<&FeedError>)
        ensures
            match r {
                Some(e) => self.fault() == Some(*e),
                None => self.fault() is None,
            },
    {
        match &self.last_error {
            Some(e) => Some(e),
            None => None,
        }
    }

    /// Take in one market event and publish what it led to. `None` where the
    /// numbers would leave 64 bits; the driver must not be used after that.
    fn dispatch(&mut self, event: &MarketEvent) -> (r: Option<usize>)
        requires
            old(self).state().wf(),
        ensures
            final(self).totals() == old(self).totals(),
            final(self).fault() == old(self).fault(),
            final(self).readings() == old(self).readings(),
            final(self).source() == old(self).source(),
            match r {
                Some(n) => {
                    &&& final(self).state().wf()
                    &&& n == final(self).published().len() - old(self).published().len()
                    &&& published_since(
                        old(self).state(),
                        event@,
                        final(self).state(),
                        old(self).published(),
                        final(self).published(),
                    )
                },
                None => !event_fits(old(self).state(), event@),
            },
    {
        let ghost before = self.session@;
        let batch = match self.session.try_on_market_event(event) {
            // Copied out before emitting: the events borrow the session.
            Some(events) => copy_events(events),
            None => {
                return None;
            },
        };
        let ghost shown = events_view(batch@);
        let ghost start = self.sink.published();
        let mut i: usize = 0;
        while i < batch.len()
            invariant
                i <= batch@.len(),
                shown == events_view(batch@),
                self.sink.published() == start + shown.take(i as int),
                self.stats == old(self).stats,
                self.last_error == old(self).last_error,
                self.log == old(self).log,
                self.feed == old(self).feed,
                self.session@.wf(),
                event_taken(before, event@, self.session@, shown),
            decreases batch@.len() - i,
        {
            self.sink.emit(&batch[i]);
            i += 1;
            assert(start + shown.take(i as int) =~= (start + shown.take(i - 1)).push(shown[i - 1]));
        }
        assert(shown.take(i as int) =~= shown);
        assert(self.sink.published().skip(start.len() as int) =~= shown);
        assert(self.sink.published().take(start.len() as int) =~= start);
        Some(batch.len())
    }

    /// Take in one reading of the feed. `None` where the numbers would leave 64
    /// bits; the driver must not be used after that.
    pub fn absorb(&mut self, next: Result<Option<MarketEvent>, FeedError>) -> (r: Option<Absorbed>)
        requires
            old(self).state().wf(),
        ensures
            r is Some ==> final(self).state().wf(),
            final(self).readings() == old(self).readings().push(reading_of(next)),
            final(self).source() == old(self).source(),
            match next {
                Ok(Some(event)) => match r {
                    Some(Absorbed::Took(n)) => {
                        &&& final(self).totals() == (DriverStats {
                            consumed: (old(self).totals().consumed + 1) as u64,
                            emitted: (old(self).totals().emitted + n) as u64,
                            ..old(self).totals()
                        })
                        &&& old(self).totals().consumed + 1 <= u64::MAX
                        &&& old(self).totals().emitted + n <= u64::MAX
                        &&& n == final(self).published().len() - old(self).published().len()
                        &&& final(self).fault() == old(self).fault()
                        &&& published_since(
                            old(self).state(),
                            event@,
                            final(self).state(),
                            old(self).published(),
                            final(self).published(),
                        )
                    },
                    Some(_) => false,
                    None => {
                        ||| !event_fits(old(self).state(), event@)
                        ||| old(self).totals().consumed == u64::MAX
                        ||| {
                            &&& old(self).totals().emitted + final(self).published().len()
                                - old(self).published().len() > u64::MAX
                            &&& published_since(
                                old(self).state(),
                                event@,
                                final(self).state(),
                                old(self).published(),
                                final(self).published(),
                            )
                        }
                    },
                },
                Ok(None) => {
                    &&& r == Some(Absorbed::Drained)
                    &&& final(self).totals() == old(self).totals()
                    &&& final(self).state() == old(self).state()
                    &&& final(self).published() == old(self).published()
                    &&& final(self).fault() == old(self).fault()
                },
                // A malformed message must not take the session down: the next
                // one is very likely fine, and a feed that kills the
                // application on one bad frame is worse than one that skips it.
                Err(e) => if old(self).totals().errors < u64::MAX {
                    &&& r == Some(Absorbed::Failed)
                    &&& final(self).totals() == (DriverStats {
                        errors: (old(self).totals().errors + 1) as u64,
                        ..old(self).totals()
                    })
                    &&& final(self).state() == old(self).state()
                    &&& final(self).published() == old(self).published()
                    &&& final(self).fault() == Some(e)
                } else {
                    r is None
                },
            },
    {
        self.log = Ghost(self.log@.push(reading_of(next)));
        match next {
            Ok(Some(event)) => {
                if self.stats.consumed == u64::MAX {
                    return None;
                }
                let n: usize = match self.dispatch(&event) {
                    Some(n) => n,
                    None => {
                        return None;
                    },
                };
                self.stats.consumed = self.stats.consumed + 1;
                match self.stats.emitted.checked_add(n as u64) {
                    Some(emitted) => {
                        self.stats.emitted = emitted;
                        Some(Absorbed::Took(n))
                    },
                    None => None,
                }
            },
            Ok(None) => Some(Absorbed::Drained),
            Err(e) => {
                if self.stats.errors == u64::MAX {
                    return None;
                }
                self.stats.errors = self.stats.errors + 1;
                self.last_error = Some(e);
                Some(Absorbed::Failed)
            },
        }
    }

    /// Process up to `budget` market events. `None` where the numbers would
    /// leave 64 bits; the driver must not be used after that.
    ///
    /// The budget is not a tuning knob to ignore: a live instrument can
    /// produce events faster than they can be rendered, and an unbounded loop
    /// would never return to the caller: the UI would freeze while the
    /// backlog grew. Bounding each pass keeps the shell responsive and lets
    /// backpressure build in the feed's own queue, where it belongs. Each
    /// failed read counts as work, or a permanently failing feed would spin
    /// inside one call for ever.
    ///
    /// Which events come is the feed's. Whatever they are, each reading is one
    /// call on the feed as the call before left it, so that none is lost in
    /// between; the session is led through them one after the other, and what
    /// they lead to is published in order.
    pub fn pump(&mut self, budget: usize) -> (r: Option<PumpReport>)
        requires
            old(self).state().wf(),
        ensures
            budget == 0 ==> r is Some,
            final(self).follows(*old(self)),
            exists|states: Seq<F>|
                {
                    &&& #[trigger] is_trail(
                        states,
                        old(self).source(),
                        final(self).source(),
                        final(self).since(*old(self)).len(),
                    )
                    &&& forall|i: int| #[trigger]
                        is_call(i, final(self).since(*old(self)).len()) ==> exists|
                            called: &mut F,
                            next: Result<Option<MarketEvent>, FeedError>,
                        | #[trigger]
                            call_ensures(F::next_event, (called,), next) && *called == states[i]
                                && *final(called) == states[i + 1]
                                && final(self).since(*old(self))[i] == reading_of(next)
                },
            match r {
                Some(report) => {
                    &&& final(self).state().wf()
                    &&& report.drained != report.budget_exhausted
                    &&& report.consumed <= budget
                    &&& report.budget_exhausted ==> report.consumed == budget
                    &&& report.drained ==> report.consumed < budget
                    &&& final(self).ran(*old(self), report)
                },
                None => final(self).gave_out(*old(self)),
            },
    {
        let (report, Ghost(states)) = self.pump_along(budget);
        assert(is_trail(
            states,
            old(self).source(),
            self.source(),
            self.since(*old(self)).len(),
        ));
        report
    }

    /// One pass, with the states that it led the feed through.
    fn pump_along(&mut self, budget: usize) -> (r: (Option<PumpReport>, Ghost<Seq<F>>))
        requires
            old(self).state().wf(),
        ensures
            budget == 0 ==> r.0 is Some,
            final(self).follows(*old(self)),
            is_trail(
                r.1@,
                old(self).source(),
                final(self).source(),
                final(self).since(*old(self)).len(),
            ),
            forall|i: int| #[trigger]
                is_call(i, final(self).since(*old(self)).len()) ==> exists|
                    called: &mut F,
                    next: Result<Option<MarketEvent>, FeedError>,
                | #[trigger]
                    call_ensures(F::next_event, (called,), next) && *called == r.1@[i]
                        && *final(called) == r.1@[i + 1]
                        && final(self).since(*old(self))[i] == reading_of(next),
            match r.0 {
                Some(report) => {
                    &&& final(self).state().wf()
                    &&& report.drained != report.budget_exhausted
                    &&& report.consumed <= budget
                    &&& report.budget_exhausted ==> report.consumed == budget
                    &&& report.drained ==> report.consumed < budget
                    &&& final(self).ran(*old(self), report)
                },
                None => final(self).gave_out(*old(self)),
            },
    {
        let mut report = PumpReport::default();
        let mut i: usize = 0;
        let ghost mut seen: Seq<RunStep> = Seq::empty();
        assert(self.readings() + readings_of(seen) =~= self.readings());
        let ghost mut states: Seq<F> = seq![self.source()];
        assert(self.readings().take(self.readings().len() as int) =~= self.readings());
        while i < budget
            invariant
                i <= budget,
                self.follows(*old(self)),
                is_trail(
                    states,
                    old(self).source(),
                    self.source(),
                    self.since(*old(self)).len(),
                ),
                forall|i: int| #[trigger]
                    is_call(i, self.since(*old(self)).len()) ==> exists|
                        called: &mut F,
                        next: Result<Option<MarketEvent>, FeedError>,
                    | #[trigger]
                        call_ensures(F::next_event, (called,), next) && *called == states[i]
                            && *final(called) == states[i + 1]
                            && self.since(*old(self))[i] == reading_of(next),
                self.state().wf(),
                report.consumed == i,
                !report.drained,
                !report.budget_exhausted,
                self.ran_through(*old(self), report, seen),
            decreases budget - i,
        {
            let ghost before = *self;
            let ghost had = self.since(*old(self));
            let ghost seen_states = states;
            let next = read_once(&mut self.feed);
            let ghost reading = reading_of(next);
            let absorbed = self.absorb(next);
            proof {
                states = states.push(self.source());
                let all = self.since(*old(self));
                assert(all =~= had.push(reading));
                assert(self.readings().take(old(self).readings().len() as int)
                    =~= before.readings().take(old(self).readings().len() as int));
                assert forall|i: int| #[trigger]
                    is_call(i, self.since(*old(self)).len()) implies exists|
                        called: &mut F,
                        next: Result<Option<MarketEvent>, FeedError>,
                    | #[trigger]
                        call_ensures(F::next_event, (called,), next) && *called == states[i]
                            && *final(called) == states[i + 1]
                            && self.since(*old(self))[i] == reading_of(next) by {
                    if i < had.len() {
                        assert(is_call(i, had.len()));
                        assert(all[i] == had[i]);
                        assert(states[i] == seen_states[i]);
                        assert(states[i + 1] == seen_states[i + 1]);
                    }
                }
            }
            let ghost step = RunStep {
                before: before.state(),
                published_before: before.published(),
                reading,
                after: self.state(),
                published_after: self.published(),
            };
            let ghost longer = seen.push(step);
            proof {
                lemma_one_more(seen, step);
                assert(self.readings() =~= old(self).readings() + readings_of(longer));
            }
            match absorbed {
                Some(Absorbed::Took(n)) => {
                    proof {
                        assert(step.holds()) by {
                            reveal(RunStep::holds);
                        }
                        lemma_played_one_more(
                            old(self).state(),
                            old(self).published(),
                            seen,
                            step,
                        );
                    }
                    report.consumed = report.consumed + 1;
                    match report.emitted.checked_add(n) {
                        Some(emitted) => {
                            report.emitted = emitted;
                        },
                        None => {
                            assert(self.gave_out_after(
                                *old(self),
                                longer,
                                self.state(),
                                self.published(),
                            ));
                            return (None, Ghost(states));
                        },
                    }
                },
                Some(Absorbed::Drained) => {
                    proof {
                        assert(step.holds()) by {
                            reveal(RunStep::holds);
                        }
                        lemma_played_one_more(
                            old(self).state(),
                            old(self).published(),
                            seen,
                            step,
                        );
                    }
                    report.drained = true;
                    assert(self.ran_through(*old(self), report, longer));
                    return (Some(report), Ghost(states));
                },
                Some(Absorbed::Failed) => {
                    proof {
                        assert(step.holds()) by {
                            reveal(RunStep::holds);
                        }
                        lemma_played_one_more(
                            old(self).state(),
                            old(self).published(),
                            seen,
                            step,
                        );
                    }
                    report.consumed = report.consumed + 1;
                },
                None => {
                    proof {
                        if self.refused(*old(self), seen, before.state()) {
                            assert(self.gave_out_after(
                                *old(self),
                                seen,
                                before.state(),
                                before.published(),
                            ));
                        } else {
                            assert(step.holds()) by {
                                reveal(RunStep::holds);
                            }
                            lemma_played_one_more(
                                old(self).state(),
                                old(self).published(),
                                seen,
                                step,
                            );
                            assert(self.gave_out_after(
                                *old(self),
                                longer,
                                self.state(),
                                self.published(),
                            ));
                        }
                    }
                    return (None, Ghost(states));
                },
            }
            proof {
                seen = longer;
            }
            i += 1;
        }
        report.budget_exhausted = true;
        assert(self.ran_through(*old(self), report, seen));
        (Some(report), Ghost(states))
    }

    /// Drain the feed completely, reading it as [`SessionDriver::pump`] does.
    /// Only safe on a finite feed such as a replay. `None` where the numbers would
    /// leave 64 bits; the driver must not be used after that.
    pub fn run_to_completion(&mut self) -> (r: Option<PumpReport>)
        requires
            old(self).state().wf(),
        ensures
            final(self).follows(*old(self)),
            exists|states: Seq<F>|
                {
                    &&& #[trigger] is_trail(
                        states,
                        old(self).source(),
                        final(self).source(),
                        final(self).since(*old(self)).len(),
                    )
                    &&& forall|i: int| #[trigger]
                        is_call(i, final(self).since(*old(self)).len()) ==> exists|
                            called: &mut F,
                            next: Result<Option<MarketEvent>, FeedError>,
                        | #[trigger]
                            call_ensures(F::next_event, (called,), next) && *called == states[i]
                                && *final(called) == states[i + 1]
                                && final(self).since(*old(self))[i] == reading_of(next)
                },
            match r {
                Some(report) => {
                    &&& final(self).state().wf()
                    &&& report.drained
                    &&& !report.budget_exhausted
                    &&& final(self).ran(*old(self), report)
                },
                None => final(self).gave_out(*old(self)),
            },
    {
        let mut total = PumpReport::default();
        let ghost mut seen: Seq<RunStep> = Seq::empty();
        assert(self.readings() + readings_of(seen) =~= self.readings());
        let ghost mut states: Seq<F> = seq![self.source()];
        assert(self.readings().take(self.readings().len() as int) =~= self.readings());
        loop
            invariant
                self.follows(*old(self)),
                is_trail(
                    states,
                    old(self).source(),
                    self.source(),
                    self.since(*old(self)).len(),
                ),
                forall|i: int| #[trigger]
                    is_call(i, self.since(*old(self)).len()) ==> exists|
                        called: &mut F,
                        next: Result<Option<MarketEvent>, FeedError>,
                    | #[trigger]
                        call_ensures(F::next_event, (called,), next) && *called == states[i]
                            && *final(called) == states[i + 1]
                            && self.since(*old(self))[i] == reading_of(next),
                self.state().wf(),
                !total.drained,
                !total.budget_exhausted,
                self.ran_through(*old(self), total, seen),
            decreases usize::MAX - total.consumed,
        {
            let ghost before = *self;
            let ghost had = self.since(*old(self));
            let ghost seen_states = states;
            let (passed, Ghost(pass_states)) = self.pump_along(4_096);
            proof {
                states = seen_states.drop_last() + pass_states;
                let n = old(self).readings().len() as int;
                let all = self.since(*old(self));
                let new = self.since(before);
                assert(self.readings().take(n) =~= self.readings().take(
                    before.readings().len() as int,
                ).take(n));
                assert(all =~= had + new) by {
                    assert(self.readings() =~= before.readings() + new);
                }
                assert forall|i: int| #[trigger]
                    is_call(i, self.since(*old(self)).len()) implies exists|
                        called: &mut F,
                        next: Result<Option<MarketEvent>, FeedError>,
                    | #[trigger]
                        call_ensures(F::next_event, (called,), next) && *called == states[i]
                            && *final(called) == states[i + 1]
                            && self.since(*old(self))[i] == reading_of(next) by {
                    if i < had.len() {
                        assert(is_call(i, had.len()));
                        assert(all[i] == had[i]);
                        assert(states[i] == seen_states[i]);
                        assert(states[i + 1] == seen_states[i + 1]);
                    } else {
                        let k = i - had.len();
                        assert(is_call(k, new.len()));
                        assert(all[i] == new[k]);
                        assert(states[i] == pass_states[k]);
                        assert(states[i + 1] == pass_states[k + 1]);
                    }
                }
                assert(is_trail(
                    states,
                    old(self).source(),
                    self.source(),
                    self.since(*old(self)).len(),
                ));
            }
            let pass = match passed {
                Some(pass) => pass,
                None => {
                    proof {
                        self.lemma_still_gave_out(before, *old(self), total, seen);
                    }
                    return None;
                },
            };
            let ghost more = choose|steps: Seq<RunStep>| self.ran_through(before, pass, steps);
            proof {
                lemma_played_joins(
                    old(self).state(),
                    old(self).published(),
                    seen,
                    before.state(),
                    before.published(),
                    more,
                    self.state(),
                    self.published(),
                );
                lemma_counts_join(seen, more);
                seen = seen + more;
                assert(self.readings() =~= old(self).readings() + readings_of(seen));
            }
            let consumed: usize = match total.consumed.checked_add(pass.consumed) {
                Some(consumed) => consumed,
                None => {
                    assert(self.gave_out_after(
                        *old(self),
                        seen,
                        self.state(),
                        self.published(),
                    ));
                    return None;
                },
            };
            let emitted: usize = match total.emitted.checked_add(pass.emitted) {
                Some(emitted) => emitted,
                None => {
                    assert(self.gave_out_after(
                        *old(self),
                        seen,
                        self.state(),
                        self.published(),
                    ));
                    return None;
                },
            };
            total.consumed = consumed;
            total.emitted = emitted;
            if pass.drained {
                total.drained = true;
                assert(self.ran_through(*old(self), total, seen));
                return Some(total);
            }
        }
    }

    /// What was taken in since.
    pub open spec fn since(&self, before: Self) -> Seq<Reading> {
        self.readings().skip(before.readings().len() as int)
    }

    /// Whether nothing that was taken in before is gone.
    pub open spec fn follows(&self, before: Self) -> bool {
        &&& before.readings().len() <= self.readings().len()
        &&& self.readings().take(before.readings().len() as int) == before.readings()
    }

    /// Whether these steps, one for each reading of the feed, led from one
    /// driver to this one, and the report counts them. A feed that was drained
    /// said so last, and once.
    pub open spec fn ran_through(
        &self,
        before: Self,
        report: PumpReport,
        steps: Seq<RunStep>,
    ) -> bool {
        let readings = readings_of(steps);
        &&& self.readings() == before.readings() + readings
        &&& played(
            before.state(),
            before.published(),
            steps,
            self.state(),
            self.published(),
        )
        &&& self.totals().consumed == before.totals().consumed + events_in(readings)
        &&& self.totals().errors == before.totals().errors + failures_in(readings)
        &&& self.totals().emitted == before.totals().emitted + report.emitted
        &&& self.fault() == fault_after(before.fault(), readings)
        &&& report.consumed == events_in(readings) + failures_in(readings)
        &&& report.emitted == self.published().len() - before.published().len()
        &&& steps.len() == report.consumed + if report.drained {
            1int
        } else {
            0
        }
        &&& report.drained ==> readings.last() is Drained
    }

    /// Whether some steps led from one driver to this one.
    pub open spec fn ran(&self, before: Self, report: PumpReport) -> bool {
        exists|steps: Seq<RunStep>| #[trigger] self.ran_through(before, report, steps)
    }

    /// Whether the last reading could not be taken in by the session that these
    /// steps led to: an event that does not fit it, or one more event or failure
    /// than the totals can count.
    pub open spec fn refused(
        &self,
        before: Self,
        steps: Seq<RunStep>,
        session: SessionView,
    ) -> bool {
        let readings = readings_of(steps);
        let last = self.readings().last();
        &&& self.readings() == (before.readings() + readings).push(last)
        &&& match last {
            Reading::Event(event) => !event_fits(session, event) || before.totals().consumed
                + events_in(readings) == u64::MAX,
            Reading::Drained => false,
            Reading::Failed(_) => before.totals().errors + failures_in(readings) == u64::MAX,
        }
    }

    /// Whether these steps took in every reading and led to more events than the
    /// totals or a report can count.
    pub open spec fn overran(&self, before: Self, steps: Seq<RunStep>) -> bool {
        let readings = readings_of(steps);
        let emitted = self.published().len() - before.published().len();
        &&& self.readings() == before.readings() + readings
        &&& {
            ||| before.totals().emitted + emitted > u64::MAX
            ||| emitted > usize::MAX
            ||| events_in(readings) + failures_in(readings) > usize::MAX
        }
    }

    /// Whether the numbers left 64 bits after these steps, which led to this
    /// state of the session.
    pub open spec fn gave_out_after(
        &self,
        before: Self,
        steps: Seq<RunStep>,
        session: SessionView,
        published: Seq<AppEventView>,
    ) -> bool {
        &&& played(before.state(), before.published(), steps, session, published)
        &&& {
            ||| self.refused(before, steps, session)
            ||| {
                &&& session == self.state()
                &&& published == self.published()
                &&& self.overran(before, steps)
            }
        }
    }

    /// Whether the numbers left 64 bits on the way from one driver to this one.
    pub open spec fn gave_out(&self, before: Self) -> bool {
        exists|steps: Seq<RunStep>, session: SessionView, published: Seq<AppEventView>|
            #[trigger] self.gave_out_after(before, steps, session, published)
    }

    proof fn lemma_still_gave_out(
        &self,
        middle: Self,
        before: Self,
        report: PumpReport,
        steps: Seq<RunStep>,
    )
        requires
            middle.ran_through(before, report, steps),
            self.gave_out(middle),
        ensures
            self.gave_out(before),
    {
        let (more, session, published) = choose|
            more: Seq<RunStep>,
            session: SessionView,
            published: Seq<AppEventView>,
        | #[trigger] self.gave_out_after(middle, more, session, published);
        lemma_played_joins(
            before.state(),
            before.published(),
            steps,
            middle.state(),
            middle.published(),
            more,
            session,
            published,
        );
        lemma_counts_join(steps, more);
        let all = steps + more;
        if self.refused(middle, more, session) {
            let last = self.readings().last();
            assert(self.readings() =~= (before.readings() + readings_of(all)).push(last));
            assert(self.refused(before, all, session));
        } else {
            assert(self.readings() =~= before.readings() + readings_of(all));
            assert(self.overran(before, all));
        }
        assert(self.gave_out_after(before, all, session, published));
    }
}

/// One reading of the feed, and what it did to the session.
pub struct RunStep {
    pub before: SessionView,
    pub published_before: Seq<AppEventView>,
    pub reading: Reading,
    pub after: SessionView,
    pub published_after: Seq<AppEventView>,
}

impl RunStep {
    /// Whether the reading led from the one state to the other: an event as the
    /// session takes it, with what it led to published; anything else to
    /// nothing.
    #[verifier::opaque]
    pub open spec fn holds(self) -> bool {
        match self.reading {
            Reading::Event(event) => published_since(
                self.before,
                event,
                self.after,
                self.published_before,
                self.published_after,
            ),
            _ => self.after == self.before && self.published_after == self.published_before,
        }
    }

    /// Whether another step starts where this one ended.
    pub open spec fn leads_to(self, next: RunStep) -> bool {
        next.before == self.after && next.published_before == self.published_after
    }
}

/// The readings behind steps.
pub open spec fn readings_of(steps: Seq<RunStep>) -> Seq<Reading> {
    steps.map_values(|step: RunStep| step.reading)
}

/// Whether steps lead from one state of a session to another, one after the
/// other, and what they lead to is published in order.
pub open spec fn played(
    before: SessionView,
    published_before: Seq<AppEventView>,
    steps: Seq<RunStep>,
    after: SessionView,
    published_after: Seq<AppEventView>,
) -> bool {
    if steps.len() == 0 {
        after == before && published_after == published_before
    } else {
        &&& steps[0].before == before
        &&& steps[0].published_before == published_before
        &&& steps.last().after == after
        &&& steps.last().published_after == published_after
        &&& forall|i: int| 0 <= i < steps.len() ==> (#[trigger] steps[i]).holds()
        &&& forall|i: int, j: int|
            0 <= i && j == i + 1 && j < steps.len() ==> (#[trigger] steps[i]).leads_to(
                #[trigger] steps[j],
            )
    }
}

proof fn lemma_one_more(steps: Seq<RunStep>, step: RunStep)
    ensures
        readings_of(steps.push(step)) == readings_of(steps).push(step.reading),
        events_in(readings_of(steps.push(step))) == events_in(readings_of(steps)) + (if step.reading
            is Event {
            1nat
        } else {
            0nat
        }),
        failures_in(readings_of(steps.push(step))) == failures_in(readings_of(steps)) + (
        if step.reading is Failed {
            1nat
        } else {
            0nat
        }),
        forall|before: Option<FeedError>|
            #![trigger fault_after(before, readings_of(steps.push(step)))]
            fault_after(before, readings_of(steps.push(step))) == match step.reading {
                Reading::Failed(e) => Some(e),
                _ => fault_after(before, readings_of(steps)),
            },
{
    let longer = readings_of(steps).push(step.reading);
    assert(readings_of(steps.push(step)) =~= longer);
    assert(longer.drop_last() =~= readings_of(steps));
}

proof fn lemma_counts_join(first: Seq<RunStep>, second: Seq<RunStep>)
    ensures
        readings_of(first + second) == readings_of(first) + readings_of(second),
        events_in(readings_of(first + second)) == events_in(readings_of(first)) + events_in(
            readings_of(second),
        ),
        failures_in(readings_of(first + second)) == failures_in(readings_of(first)) + failures_in(
            readings_of(second),
        ),
        forall|before: Option<FeedError>|
            #![trigger fault_after(before, readings_of(first + second))]
            fault_after(before, readings_of(first + second)) == fault_after(
                fault_after(before, readings_of(first)),
                readings_of(second),
            ),
    decreases second.len(),
{
    assert(readings_of(first + second) =~= readings_of(first) + readings_of(second));
    if second.len() == 0 {
        assert(first + second =~= first);
    } else {
        let less = second.drop_last();
        lemma_counts_join(first, less);
        lemma_one_more(first + less, second.last());
        lemma_one_more(less, second.last());
        assert((first + less).push(second.last()) =~= first + second);
        assert(less.push(second.last()) =~= second);
    }
}

proof fn lemma_played_one_more(
    before: SessionView,
    published_before: Seq<AppEventView>,
    steps: Seq<RunStep>,
    step: RunStep,
)
    requires
        played(before, published_before, steps, step.before, step.published_before),
        step.holds(),
    ensures
        played(
            before,
            published_before,
            steps.push(step),
            step.after,
            step.published_after,
        ),
{
}

proof fn lemma_played_joins(
    before: SessionView,
    published_before: Seq<AppEventView>,
    first: Seq<RunStep>,
    middle: SessionView,
    published_middle: Seq<AppEventView>,
    second: Seq<RunStep>,
    after: SessionView,
    published_after: Seq<AppEventView>,
)
    requires
        played(before, published_before, first, middle, published_middle),
        played(middle, published_middle, second, after, published_after),
    ensures
        played(before, published_before, first + second, after, published_after),
{
    if second.len() == 0 {
        assert(first + second =~= first);
    } else if first.len() == 0 {
        assert(first + second =~= second);
    }
}

/// Whether an event led from one state of a session to another, and what was
/// published since is what it led to, in order.
pub open spec fn published_since(
    before: SessionView,
    event: EventView,
    after: SessionView,
    published_before: Seq<AppEventView>,
    published_after: Seq<AppEventView>,
) -> bool {
    &&& published_after.len() >= published_before.len()
    &&& published_after.take(published_before.len() as int) == published_before
    &&& event_taken(before, event, after, published_after.skip(published_before.len() as int))
}

fn copy_events(events: &[AppEvent]) -> (r: Vec<AppEvent>)
    ensures
        events_view(r@) == events_view(events@),
{
    let mut out: Vec<AppEvent> = Vec::new();
    let mut i: usize = 0;
    while i < events.len()
        invariant
            i <= events@.len(),
            out@.len() == i,
            forall|k: int| 0 <= k < i ==> (#[trigger] out@[k])@ == events@[k]@,
        decreases events@.len() - i,
    {
        out.push(events[i].clone());
        i += 1;
    }
    assert(events_view(out@) =~= events_view(events@));
    out
}

} // verus!
