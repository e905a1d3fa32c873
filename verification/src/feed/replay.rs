//! Replay a stored tick history as a feed.
//!
//! The same aggregation and indicator code runs, fed from disk instead of a
//! socket. History is read in time windows rather than loaded into memory, so
//! replaying a busy day costs a bounded working set. Which window to read next
//! is decided here; reading it is left to the caller.

use crate::primitives::fixed::clamp_wide;
use crate::primitives::market::{MarketEvent, Trade};
use crate::primitives::time::Ts;
use std::collections::VecDeque;
use vstd::prelude::*;

verus! {

use crate::primitives::fixed::{clamped, in_range};
use crate::primitives::market::EventView;
use crate::store::laws::within;
use crate::store::segment::ordered;

/// Default replay window: one second of history per read.
pub const DEFAULT_CHUNK_NANOS: i64 = 1_000_000_000;

/// How far a replay has come.
#[verifier::ext_equal]
pub struct ReplayView {
    pub start: Ts,
    pub cursor: Ts,
    pub end: Ts,
    pub chunk_nanos: i64,
    pub span: i64,
    pub buffer: Seq<Trade>,
    pub emitted: u64,
}

/// A replay of `[from, to)` that has read nothing yet.
pub open spec fn fresh_replay(from: Ts, to: Ts) -> ReplayView {
    ReplayView {
        start: from,
        cursor: from,
        end: to,
        chunk_nanos: DEFAULT_CHUNK_NANOS,
        span: DEFAULT_CHUNK_NANOS,
        buffer: Seq::<Trade>::empty(),
        emitted: 0,
    }
}

/// Where a window of this span ends.
pub open spec fn window_end(cursor: Ts, span: i64, end: Ts) -> Ts {
    if clamped(cursor.0 + span) < end.0 {
        Ts(clamped(cursor.0 + span) as i64)
    } else {
        end
    }
}

impl ReplayView {
    pub open spec fn wf(self) -> bool {
        self.chunk_nanos > 0 && self.span > 0
    }

    /// Whether another window has to be read before an event can be taken.
    pub open spec fn hungry(self) -> bool {
        self.buffer.len() == 0 && self.cursor.0 < self.end.0
    }

    /// The window to read next.
    pub open spec fn window(self) -> (Ts, Ts) {
        (self.cursor, window_end(self.cursor, self.span, self.end))
    }

    /// The replay once that window was read. An empty window doubles the span
    /// for the next attempt.
    pub open spec fn filled(self, trades: Seq<Trade>) -> ReplayView {
        ReplayView {
            cursor: self.window().1,
            span: if trades.len() == 0 {
                clamped(2 * self.span) as i64
            } else {
                self.span
            },
            buffer: self.buffer + trades,
            ..self
        }
    }

    /// The trades of a history that are still to come.
    pub open spec fn pending(self, history: Seq<Trade>) -> Seq<Trade> {
        self.buffer + within(history, self.cursor, self.end)
    }
}

/// A feed that emits stored trades in time order.
#[derive(Debug)]
pub struct ReplayFeed {
    start: Ts,
    cursor: Ts,
    end: Ts,
    chunk_nanos: i64,
    span: i64,
    buffer: VecDeque<Trade>,
    emitted: u64,
}

impl View for ReplayFeed {
    type V = ReplayView;

    closed spec fn view(&self) -> ReplayView {
        ReplayView {
            start: self.start,
            cursor: self.cursor,
            end: self.end,
            chunk_nanos: self.chunk_nanos,
            span: self.span,
            buffer: self.buffer@,
            emitted: self.emitted,
        }
    }
}

/// How much of a window is done. The progress is the first over the second.
#[derive(Debug, Clone, Copy, PartialEq, Eq, Structural)]
pub struct ReplayProgress {
    /// Nanoseconds read.
    pub done: i64,
    /// Nanoseconds in all.
    pub total: i64,
}

impl ReplayFeed {
    /// Replay `[from, to)`.
    pub fn new(from: Ts, to: Ts) -> (r: Self)
        ensures
            r@ == fresh_replay(from, to),
            r@.wf(),
    {
        ReplayFeed {
            start: from,
            cursor: from,
            end: to,
            chunk_nanos: DEFAULT_CHUNK_NANOS,
            span: DEFAULT_CHUNK_NANOS,
            buffer: VecDeque::new(),
            emitted: 0,
        }
    }

    /// Replay an entire history, given its first and its last timestamp.
    pub fn all(first: Option<Ts>, last: Option<Ts>) -> (r: Self)
        requires
            last matches Some(t) ==> t.0 < i64::MAX,
        ensures
            r@ == fresh_replay(
                match first {
                    Some(t) => t,
                    None => Ts(0),
                },
                match last {
                    Some(t) => Ts((t.0 + 1) as i64),
                    None => Ts(0),
                },
            ),
            r@.wf(),
    {
        let from = match first {
            Some(t) => t,
            None => Ts(0),
        };
        // Ranges are half-open, so reach one nanosecond past the last record
        // to take it in.
        let to = match last {
            Some(t) => Ts(t.0 + 1),
            None => Ts(0),
        };
        ReplayFeed::new(from, to)
    }

    /// Set how much history is read per window.
    pub fn with_chunk_nanos(self, nanos: i64) -> (r: Self)
        requires
            nanos > 0,
        ensures
            r@ == (ReplayView { chunk_nanos: nanos, span: nanos, ..self@ }),
    {
        ReplayFeed { chunk_nanos: nanos, span: nanos, ..self }
    }

    /// How many events have been emitted so far.
    pub fn emitted(&self) -> (r: u64)
        ensures
            r == self@.emitted,
    {
        self.emitted
    }

    /// Whether the replay has reached its end.
    pub fn is_finished(&self) -> (r: bool)
        ensures
            r == (self@.buffer.len() == 0 && self@.cursor.0 >= self@.end.0),
    {
        self.buffer.len() == 0 && self.cursor.0 >= self.end.0
    }

    /// How far through the replay window the cursor has read; one of one for a
    /// window without length.
    ///
    /// This tracks the window, not the buffer: events already read from disk
    /// but not yet taken by the caller count as done.
    pub fn progress(&self) -> (r: ReplayProgress)
        requires
            in_range(self@.end.0 - self@.start.0),
            self@.end.0 > self@.start.0 ==> in_range(self@.cursor.0 - self@.start.0),
        ensures
            r == ({
                let total = self@.end.0 - self@.start.0;
                let done = self@.cursor.0 - self@.start.0;
                if total <= 0 {
                    ReplayProgress { done: 1, total: 1 }
                } else if done < 0 {
                    ReplayProgress { done: 0, total: total as i64 }
                } else if done > total {
                    ReplayProgress { done: total as i64, total: total as i64 }
                } else {
                    ReplayProgress { done: done as i64, total: total as i64 }
                }
            }),
            0 <= r.done <= r.total,
            r.total > 0,
            self@.cursor.0 >= self@.end.0 ==> r.done == r.total,
            self@.cursor.0 <= self@.start.0 < self@.end.0 ==> r.done == 0,
    {
        let total: i64 = self.end.0 - self.start.0;
        if total <= 0 {
            return ReplayProgress { done: 1, total: 1 };
        }
        let done: i64 = self.cursor.0 - self.start.0;
        ReplayProgress {
            done: if done < 0 {
                0
            } else if done > total {
                total
            } else {
                done
            },
            total,
        }
    }

    /// The window this feed replays, as `[from, to)`.
    pub fn window(&self) -> (r: (Ts, Ts))
        ensures
            r == (self@.start, self@.end),
    {
        (self.start, self.end)
    }

    /// Start to look for the next event: the span goes back to the configured
    /// chunk, so a dense replay keeps its bounded working set.
    pub fn begin_fill(&mut self)
        ensures
            final(self)@ == (ReplayView { span: old(self)@.chunk_nanos, ..old(self)@ }),
    {
        self.span = self.chunk_nanos;
    }

    /// The window to read before an event can be taken, if any.
    pub fn next_window(&self) -> (r: Option<(Ts, Ts)>)
        ensures
            r == if self@.hungry() {
                Some(self@.window())
            } else {
                None
            },
    {
        if self.buffer.len() == 0 && self.cursor.0 < self.end.0 {
            let end: i64 = clamp_wide(self.cursor.0 as i128 + self.span as i128);
            let end = if end < self.end.0 {
                Ts(end)
            } else {
                self.end
            };
            Some((self.cursor, end))
        } else {
            None
        }
    }

    /// Take the trades of the window that was asked for.
    ///
    /// An empty window doubles the span for the next attempt. Without that,
    /// skipping a quiet stretch costs one scan per chunk: an overnight gap at
    /// a one-second chunk is 30,000 wasted scans. Doubling bounds the empty
    /// scans to O(log span).
    pub fn fill(&mut self, trades: Vec<Trade>)
        requires
            old(self)@.hungry(),
        ensures
            final(self)@ == old(self)@.filled(trades@),
    {
        let ghost before = self@;
        if let Some((_, end)) = self.next_window() {
            self.cursor = end;
        }
        if trades.len() == 0 {
            self.span = clamp_wide(2 * self.span as i128);
        }
        let mut i: usize = 0;
        let ghost start = self@;
        while i < trades.len()
            invariant
                i <= trades@.len(),
                self@ == (ReplayView { buffer: start.buffer + trades@.take(i as int), ..start }),
            decreases trades@.len() - i,
        {
            self.buffer.push_back(trades[i]);
            i += 1;
            assert(self@.buffer =~= start.buffer + trades@.take(i as int));
        }
        assert(self@ =~= before.filled(trades@));
    }

    /// Take the next event, `None` at the end.
    pub fn next_event(&mut self) -> (r: Option<MarketEvent>)
        requires
            old(self)@.buffer.len() > 0 ==> old(self)@.emitted < u64::MAX,
        ensures
            if old(self)@.buffer.len() == 0 {
                r is None && final(self)@ == old(self)@
            } else {
                &&& r matches Some(event) && event@ == EventView::Trade(old(self)@.buffer[0])
                &&& final(self)@ == (ReplayView {
                    buffer: old(self)@.buffer.drop_first(),
                    emitted: (old(self)@.emitted + 1) as u64,
                    ..old(self)@
                })
            },
    {
        let ghost before = self@;
        match self.buffer.pop_front() {
            Some(trade) => {
                self.emitted = self.emitted + 1;
                assert(self@.buffer =~= before.buffer.drop_first());
                Some(MarketEvent::Trade(trade))
            },
            None => {
                assert(self@ =~= before);
                None
            },
        }
    }
}

/// What reading window after window gives, each from the history with
/// `cursor <= ts < end of window`; after a window with trades the span goes
/// back to the chunk.
pub open spec fn replayed(history: Seq<Trade>, cursor: Ts, end: Ts, span: i64, chunk: i64) -> Seq<
    Trade,
>
    decreases end.0 - cursor.0,
{
    if cursor.0 >= end.0 || span <= 0 || chunk <= 0 {
        Seq::<Trade>::empty()
    } else {
        let stop = window_end(cursor, span, end);
        let trades = within(history, cursor, stop);
        let next = if trades.len() == 0 {
            clamped(2 * span) as i64
        } else {
            chunk
        };
        trades + replayed(history, stop, end, next, chunk)
    }
}

proof fn lemma_windows_join(history: Seq<Trade>, a: Ts, b: Ts, c: Ts)
    requires
        ordered(history),
        a.0 <= b.0 <= c.0,
    ensures
        within(history, a, b) + within(history, b, c) == within(history, a, c),
    decreases history.len(),
{
    if history.len() == 0 {
        assert(within(history, a, b) + within(history, b, c) =~= within(history, a, c));
    } else {
        let before = history.drop_last();
        let last = history.last();
        assert(ordered(before)) by {
            assert forall|i: int, j: int| 0 <= i <= j < before.len() implies (
            #[trigger] before[i]).ts.0 <= (#[trigger] before[j]).ts.0 by {
                assert(before[i] == history[i]);
                assert(before[j] == history[j]);
            }
        }
        lemma_windows_join(before, a, b, c);
        if a.0 <= last.ts.0 < b.0 {
            lemma_nothing_later(before, b, c, last.ts);
            assert(within(history, a, b) + within(history, b, c) =~= within(history, a, c));
        } else {
            assert(within(history, a, b) + within(history, b, c) =~= within(history, a, c));
        }
    }
}

proof fn lemma_nothing_later(history: Seq<Trade>, from: Ts, to: Ts, last: Ts)
    requires
        forall|i: int| 0 <= i < history.len() ==> (#[trigger] history[i]).ts.0 <= last.0,
        last.0 < from.0,
    ensures
        within(history, from, to) == Seq::<Trade>::empty(),
    decreases history.len(),
{
    if history.len() > 0 {
        let before = history.drop_last();
        assert forall|i: int| 0 <= i < before.len() implies (#[trigger] before[i]).ts.0
            <= last.0 by {
            assert(before[i] == history[i]);
        }
        lemma_nothing_later(before, from, to, last);
        assert(history[history.len() - 1].ts.0 <= last.0);
    } else {
        assert(history =~= Seq::<Trade>::empty());
    }
}

/// The size of the windows is a detail of reading: whatever it is, and however
/// it grows on the way, a replay gives every stored trade of its range once and
/// in order.
pub proof fn law_chunk_size_does_not_change_the_replay(
    history: Seq<Trade>,
    cursor: Ts,
    end: Ts,
    span: i64,
    chunk: i64,
)
    requires
        ordered(history),
        span > 0,
        chunk > 0,
    ensures
        replayed(history, cursor, end, span, chunk) == within(history, cursor, end),
    decreases end.0 - cursor.0,
{
    if cursor.0 < end.0 {
        let stop = window_end(cursor, span, end);
        let trades = within(history, cursor, stop);
        let next = if trades.len() == 0 {
            clamped(2 * span) as i64
        } else {
            chunk
        };
        law_chunk_size_does_not_change_the_replay(history, stop, end, next, chunk);
        lemma_windows_join(history, cursor, stop, end);
    } else {
        lemma_empty_range(history, cursor, end);
    }
}

proof fn lemma_empty_range(history: Seq<Trade>, from: Ts, to: Ts)
    requires
        from.0 >= to.0,
    ensures
        within(history, from, to) == Seq::<Trade>::empty(),
    decreases history.len(),
{
    if history.len() > 0 {
        lemma_empty_range(history.drop_last(), from, to);
    } else {
        assert(history =~= Seq::<Trade>::empty());
    }
}

/// Every window moves the replay on, so it comes to its end.
pub proof fn law_windows_make_progress(v: ReplayView, trades: Seq<Trade>)
    requires
        v.wf(),
        v.hungry(),
    ensures
        v.cursor.0 < v.filled(trades).cursor.0 <= v.end.0,
        v.filled(trades).wf(),
{
}

/// Reading loses nothing and repeats nothing: a replay starts with every trade of
/// its range to come, filling in the trades of a window changes nothing of what is
/// to come, and at the end nothing is left.
pub proof fn law_reading_keeps_what_is_to_come(v: ReplayView, history: Seq<Trade>)
    requires
        ordered(history),
        v.wf(),
    ensures
        fresh_replay(v.start, v.end).pending(history) == within(history, v.start, v.end),
        v.hungry() ==> v.filled(within(history, v.window().0, v.window().1)).pending(history)
            == v.pending(history),
        v.buffer.len() == 0 && !v.hungry() ==> v.pending(history).len() == 0,
{
    assert(fresh_replay(v.start, v.end).pending(history) =~= within(history, v.start, v.end));
    if v.hungry() {
        let trades = within(history, v.window().0, v.window().1);
        lemma_windows_join(history, v.cursor, v.window().1, v.end);
        assert(v.filled(trades).pending(history) =~= v.pending(history));
    } else if v.buffer.len() == 0 {
        lemma_empty_range(history, v.cursor, v.end);
    }
}

} // verus!
