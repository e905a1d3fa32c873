//! Where market events come from.

use crate::feed::error::FeedError;
use crate::primitives::market::MarketEvent;
use vstd::prelude::*;

verus! {

/// A pull-based source of normalised market events.
///
/// Pull rather than push keeps backpressure with the consumer: if the
/// aggregation loop falls behind, events queue in the transport instead of
/// piling up in an unbounded channel until memory runs out.
pub trait Feed {
    /// Take the next event, or `None` when the source is exhausted.
    ///
    /// A live feed returns `None` while nothing has arrived and once it has
    /// been shut down; a replay returns `None` at the end of its window.
    fn next_event(&mut self) -> Result<Option<MarketEvent>, FeedError>;
}

/// Whether a feed can have gone through these states, one more than the calls
/// that were made on it: from the one before them to the one they left behind.
pub open spec fn is_trail<F>(states: Seq<F>, before: F, after: F, calls: nat) -> bool {
    &&& states.len() == calls + 1
    &&& states[0] == before
    &&& states.last() == after
}

/// Whether one of so many calls, counted from zero, has this number.
pub open spec fn is_call(i: int, calls: nat) -> bool {
    0 <= i < calls
}

/// Take the next event: one call of [`Feed::next_event`], and no other.
pub fn read_once<F: Feed>(feed: &mut F) -> (r: Result<Option<MarketEvent>, FeedError>)
    ensures
        exists|called: &mut F| #[trigger]
            call_ensures(F::next_event, (called,), r) && *called == *old(feed) && *final(called)
                == *final(feed),
{
    feed.next_event()
}

/// Whether these results of calls, one after the other, make up what draining a
/// feed gives: an event each, until the feed has none left or fails.
pub open spec fn drains_to(
    results: Seq<Result<Option<MarketEvent>, FeedError>>,
    r: Result<Vec<MarketEvent>, FeedError>,
) -> bool {
    &&& results.len() > 0
    &&& forall|i: int|
        0 <= i < results.len() - 1 ==> (#[trigger] results[i] is Ok && results[i]->Ok_0 is Some)
    &&& match r {
        Ok(events) => {
            &&& results.last() == Ok::<Option<MarketEvent>, FeedError>(None)
            &&& events@.len() == results.len() - 1
            &&& forall|i: int|
                0 <= i < events@.len() ==> #[trigger] results[i] == Ok::<
                    Option<MarketEvent>,
                    FeedError,
                >(Some(events@[i]))
        },
        Err(e) => results.last() == Err::<Option<MarketEvent>, FeedError>(e),
    }
}

/// Drain a feed into a vector. Intended for tests and bounded replays.
///
/// Each call is made on the feed as the call before left it, so that no event
/// is lost in between, and none is made after the feed had nothing or failed.
pub fn drain<F: Feed>(feed: &mut F) -> (r: Result<Vec<MarketEvent>, FeedError>)
    ensures
        exists|states: Seq<F>, results: Seq<Result<Option<MarketEvent>, FeedError>>|
            {
                &&& #[trigger] is_trail(states, *old(feed), *final(feed), results.len())
                &&& #[trigger] drains_to(results, r)
                &&& forall|i: int| #[trigger]
                    is_call(i, results.len()) ==> exists|called: &mut F| #[trigger]
                        call_ensures(F::next_event, (called,), results[i]) && *called
                            == states[i] && *final(called) == states[i + 1]
            },
{
    let mut out: Vec<MarketEvent> = Vec::new();
    let ghost mut states: Seq<F> = seq![*feed];
    let ghost mut results: Seq<Result<Option<MarketEvent>, FeedError>> = Seq::empty();
    loop
        invariant
            is_trail(states, *old(feed), *feed, results.len()),
            out@.len() == results.len(),
            forall|i: int|
                0 <= i < out@.len() ==> #[trigger] results[i] == Ok::<
                    Option<MarketEvent>,
                    FeedError,
                >(Some(out@[i])),
            forall|i: int| #[trigger]
                is_call(i, results.len()) ==> exists|called: &mut F| #[trigger]
                    call_ensures(F::next_event, (called,), results[i]) && *called == states[i]
                        && *final(called) == states[i + 1],
        decreases usize::MAX - out.len(),
    {
        let ghost seen = states;
        let ghost had = results;
        let next = read_once(feed);
        proof {
            states = states.push(*feed);
            results = results.push(next);
            assert forall|i: int| #[trigger]
                is_call(i, results.len()) implies exists|called: &mut F| #[trigger]
                call_ensures(F::next_event, (called,), results[i]) && *called == states[i]
                    && *final(called) == states[i + 1] by {
                if i < had.len() {
                    assert(is_call(i, had.len()));
                    assert(results[i] == had[i]);
                    assert(states[i] == seen[i]);
                    assert(states[i + 1] == seen[i + 1]);
                } else {
                    assert(results[i] == next);
                    assert(states[i] == seen.last());
                    assert(states[i + 1] == *feed);
                }
            }
        }
        match next {
            Ok(Some(event)) => {
                out.push(event);
            },
            Ok(None) => {
                assert(drains_to(results, Ok(out)));
                return Ok(out);
            },
            Err(e) => {
                assert(drains_to(results, Err(e)));
                return Err(e);
            },
        }
    }
}

} // verus!
