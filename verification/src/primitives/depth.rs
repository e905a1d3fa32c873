//! What updates do to an order book, price by price, and what is read from it.

use crate::primitives::book::{BookError, BookLevel, BookSide};
use crate::primitives::fixed::{Price, Qty};
use crate::primitives::time::Ts;
use vstd::prelude::*;

verus! {

use crate::primitives::book::{
    delta_refusal, filled, is_delta, is_snapshot, lemma_resting, place_of, resting, total_size,
    with_levels, BookView,
};

/// Whether this much rests at a price.
pub open spec fn rests(levels: Seq<BookLevel>, price: Price, qty: Qty) -> bool {
    levels.contains(BookLevel { price, qty })
}

/// Whether entry `j` is the last that speaks of a price.
pub open spec fn is_last_word(levels: Seq<(Price, Qty)>, price: Price, j: int) -> bool {
    &&& 0 <= j < levels.len()
    &&& levels[j].0 == price
    &&& forall|k: int| j < k < levels.len() ==> (#[trigger] levels[k]).0 != price
}

/// Whether entry `j` is the last that gives a price a size.
pub open spec fn is_last_size(levels: Seq<(Price, Qty)>, price: Price, j: int) -> bool {
    &&& 0 <= j < levels.len()
    &&& levels[j].0 == price
    &&& levels[j].1.0 > 0
    &&& forall|k: int|
        j < k < levels.len() ==> (#[trigger] levels[k]).0 != price || levels[k].1.0 <= 0
}

/// Whether a level is what the last entry with a size says of its price.
pub open spec fn is_given(entries: Seq<(Price, Qty)>, level: BookLevel) -> bool {
    exists|j: int| #[trigger] is_last_size(entries, level.price, j) && entries[j].1 == level.qty
}

/// One side after a snapshot: at each price what its last entry with a size says.
pub open spec fn is_side_of(side: Seq<BookLevel>, entries: Seq<(Price, Qty)>) -> bool {
    &&& forall|price: Price, j: int| #[trigger]
        is_last_size(entries, price, j) ==> rests(side, price, entries[j].1)
    &&& forall|i: int| 0 <= i < side.len() ==> is_given(entries, #[trigger] side[i])
}

/// One side after a delta: at each price that it speaks of what its last entry
/// says, nothing where that has no size, and what was there before at every other
/// price.
pub open spec fn is_side_after(
    before: Seq<BookLevel>,
    side: Seq<BookLevel>,
    entries: Seq<(Price, Qty)>,
) -> bool {
    &&& forall|price: Price, j: int, qty: Qty|
        #![trigger is_last_word(entries, price, j), rests(side, price, qty)]
        is_last_word(entries, price, j) ==> (rests(side, price, qty) <==> qty.0 > 0 && qty
            == entries[j].1)
    &&& forall|price: Price, qty: Qty|
        #![trigger rests(side, price, qty)]
        (forall|j: int| 0 <= j < entries.len() ==> (#[trigger] entries[j]).0 != price) ==> (rests(
            side,
            price,
            qty,
        ) <==> rests(before, price, qty))
}

proof fn lemma_rests(levels: Seq<BookLevel>, price: Price, qty: Qty)
    requires
        crate::primitives::book::side_ok(levels),
    ensures
        rests(levels, price, qty) <==> resting(levels).contains_key(price) && resting(
            levels,
        )[price] == qty,
        rests(levels, price, qty) ==> qty.0 > 0,
{
    if rests(levels, price, qty) {
        let i = levels.index_of(BookLevel { price, qty });
        lemma_resting(levels, i);
    }
    if resting(levels).contains_key(price) && resting(levels)[price] == qty {
        let i = place_of(levels, price);
        assert(levels[i].price == price);
        assert(levels[i] == BookLevel { price, qty });
    }
}

proof fn lemma_filled(entries: Seq<(Price, Qty)>, price: Price)
    ensures
        filled(entries).contains_key(price) ==> exists|j: int| #[trigger]
            is_last_size(entries, price, j) && entries[j].1 == filled(entries)[price],
        forall|j: int| #[trigger]
            is_last_size(entries, price, j) ==> filled(entries).contains_key(price) && filled(
                entries,
            )[price] == entries[j].1,
    decreases entries.len(),
{
    if entries.len() > 0 {
        let less = entries.drop_last();
        let n = less.len() as int;
        lemma_filled(less, price);
        if entries[n].0 == price && entries[n].1.0 > 0 {
            assert(is_last_size(entries, price, n));
            assert forall|j: int| #[trigger] is_last_size(entries, price, j) implies j == n by {
                if j < n {
                    assert(entries[n].0 != price || entries[n].1.0 <= 0);
                }
            }
        } else {
            if filled(less).contains_key(price) {
                let j = choose|j: int| #[trigger]
                    is_last_size(less, price, j) && less[j].1 == filled(less)[price];
                assert(is_last_size(entries, price, j)) by {
                    assert forall|k: int| j < k < entries.len() implies (
                    #[trigger] entries[k]).0 != price || entries[k].1.0 <= 0 by {
                        if k < n {
                            assert(less[k] == entries[k]);
                        }
                    }
                }
            }
            assert forall|j: int| #[trigger] is_last_size(entries, price, j) implies is_last_size(
                less,
                price,
                j,
            ) by {
                assert forall|k: int| j < k < less.len() implies (#[trigger] less[k]).0 != price
                    || less[k].1.0 <= 0 by {
                    assert(less[k] == entries[k]);
                }
            }
        }
    }
}

proof fn lemma_updated(m: Map<Price, Qty>, entries: Seq<(Price, Qty)>, price: Price)
    ensures
        forall|j: int| #[trigger]
            is_last_word(entries, price, j) ==> (with_levels(m, entries).contains_key(price)
                <==> entries[j].1.0 > 0) && (entries[j].1.0 > 0 ==> with_levels(m, entries)[price]
                == entries[j].1),
        (forall|j: int| 0 <= j < entries.len() ==> (#[trigger] entries[j]).0 != price) ==> (
        with_levels(m, entries).contains_key(price) <==> m.contains_key(price)) && (
        m.contains_key(price) ==> with_levels(m, entries)[price] == m[price]),
    decreases entries.len(),
{
    if entries.len() > 0 {
        let less = entries.drop_last();
        let n = less.len() as int;
        lemma_updated(m, less, price);
        if entries[n].0 == price {
            assert forall|j: int| #[trigger] is_last_word(entries, price, j) implies j == n by {
                if j < n {
                    assert(entries[n].0 != price);
                }
            }
        } else {
            assert forall|j: int| #[trigger] is_last_word(entries, price, j) implies is_last_word(
                less,
                price,
                j,
            ) by {
                assert forall|k: int| j < k < less.len() implies (#[trigger] less[k]).0
                    != price by {
                    assert(less[k] == entries[k]);
                }
            }
            if forall|j: int| 0 <= j < entries.len() ==> (#[trigger] entries[j]).0 != price {
                assert forall|j: int| 0 <= j < less.len() implies (#[trigger] less[j]).0
                    != price by {
                    assert(less[j] == entries[j]);
                }
            }
        }
    }
}

proof fn lemma_side_of(side: Seq<BookLevel>, entries: Seq<(Price, Qty)>)
    requires
        crate::primitives::book::side_ok(side),
        resting(side) == filled(entries),
    ensures
        is_side_of(side, entries),
{
    assert forall|price: Price, j: int| #[trigger] is_last_size(entries, price, j) implies rests(
        side,
        price,
        entries[j].1,
    ) by {
        lemma_filled(entries, price);
        lemma_rests(side, price, entries[j].1);
    }
    assert forall|i: int| 0 <= i < side.len() implies is_given(entries, #[trigger] side[i]) by {
        lemma_resting(side, i);
        lemma_filled(entries, side[i].price);
    }
}

proof fn lemma_side_after(
    before: Seq<BookLevel>,
    side: Seq<BookLevel>,
    entries: Seq<(Price, Qty)>,
)
    requires
        crate::primitives::book::side_ok(before),
        crate::primitives::book::side_ok(side),
        resting(side) == with_levels(resting(before), entries),
    ensures
        is_side_after(before, side, entries),
{
    assert forall|price: Price, j: int, qty: Qty|
        #![trigger is_last_word(entries, price, j), rests(side, price, qty)]
        is_last_word(entries, price, j) implies (rests(side, price, qty) <==> qty.0 > 0 && qty
        == entries[j].1) by {
        lemma_updated(resting(before), entries, price);
        lemma_rests(side, price, qty);
    }
    assert forall|price: Price, qty: Qty|
        #![trigger rests(side, price, qty)]
        (forall|j: int| 0 <= j < entries.len() ==> (#[trigger] entries[j]).0 != price) implies (
    rests(side, price, qty) <==> rests(before, price, qty)) by {
        lemma_updated(resting(before), entries, price);
        lemma_rests(side, price, qty);
        lemma_rests(before, price, qty);
    }
}

/// A snapshot replaces the book: see [`is_side_of`]. The book is live from then
/// on, at the snapshot's time and sequence.
pub proof fn law_a_snapshot_replaces_the_book(
    after: BookView,
    ts: Ts,
    bids: Seq<(Price, Qty)>,
    asks: Seq<(Price, Qty)>,
    sequence: u64,
)
    requires
        after.wf(),
        is_snapshot(after, ts, bids, asks, sequence),
    ensures
        is_side_of(after.bids, bids),
        is_side_of(after.asks, asks),
        after.ts == ts,
        after.sequence == sequence,
        after.initialised,
{
    lemma_side_of(after.bids, bids);
    lemma_side_of(after.asks, asks);
}

/// A delta sets the size at the prices that it speaks of and leaves the others:
/// see [`is_side_after`]. The time is the delta's, and so is the sequence where it
/// has one.
pub proof fn law_a_delta_sets_its_prices(
    before: BookView,
    after: BookView,
    ts: Ts,
    bids: Seq<(Price, Qty)>,
    asks: Seq<(Price, Qty)>,
    sequence: u64,
)
    requires
        before.wf(),
        after.wf(),
        is_delta(before, after, ts, bids, asks, sequence),
    ensures
        is_side_after(before.bids, after.bids, bids),
        is_side_after(before.asks, after.asks, asks),
        after.ts == ts,
        sequence != 0 ==> after.sequence == sequence,
        sequence == 0 ==> after.sequence == before.sequence,
        after.initialised,
{
    lemma_side_after(before.bids, after.bids, bids);
    lemma_side_after(before.asks, after.asks, asks);
}

/// A delta is taken by a live book if it has no sequence or a later one than the
/// book. Before a snapshot every delta is refused as such; a sequence that is not
/// later is reported together with the book's.
pub proof fn law_only_later_deltas_are_taken(book: BookView, sequence: u64)
    ensures
        delta_refusal(book, sequence) is None <==> book.initialised && (sequence == 0 || sequence
            > book.sequence),
        delta_refusal(book, sequence) == Some(BookError::NotInitialised) <==> !book.initialised,
        delta_refusal(book, sequence) matches Some(BookError::StaleSequence { received, current })
            ==> received == sequence && current == book.sequence,
{
}

/// The levels read from a book are those with the best prices, best first: as many
/// as were asked for, or all of them. What is left out is worse.
pub proof fn law_depth_is_the_best_prices(book: BookView, side: BookSide, depth: nat)
    requires
        book.wf(),
    ensures
        ({
            let all = match side {
                BookSide::Bid => book.bids,
                BookSide::Ask => book.asks,
            };
            let best = book.best(side, depth);
            &&& best.len() == if depth < all.len() {
                depth
            } else {
                all.len()
            }
            &&& forall|i: int| 0 <= i < best.len() ==> all.contains(#[trigger] best[i])
            &&& forall|i: int, j: int|
                0 <= i < j < best.len() ==> match side {
                    BookSide::Bid => (#[trigger] best[i]).price.0 > (#[trigger] best[j]).price.0,
                    BookSide::Ask => best[i].price.0 < best[j].price.0,
                }
            &&& forall|i: int, j: int|
                0 <= i < all.len() && 0 <= j < best.len() && !best.contains(#[trigger] all[i])
                    ==> match side {
                    BookSide::Bid => all[i].price.0 < (#[trigger] best[j]).price.0,
                    BookSide::Ask => all[i].price.0 > best[j].price.0,
                }
        }),
{
    let all = match side {
        BookSide::Bid => book.bids,
        BookSide::Ask => book.asks,
    };
    let best = book.best(side, depth);
    let n = all.len() as int;
    assert forall|i: int| 0 <= i < best.len() implies #[trigger] best[i] == (match side {
        BookSide::Bid => all[n - 1 - i],
        BookSide::Ask => all[i],
    }) by {}
    assert forall|i: int, j: int|
        0 <= i < all.len() && 0 <= j < best.len() && !best.contains(#[trigger] all[i]) implies (
    match side {
        BookSide::Bid => all[i].price.0 < (#[trigger] best[j]).price.0,
        BookSide::Ask => all[i].price.0 > best[j].price.0,
    }) by {
        match side {
            BookSide::Bid => {
                if n - 1 - i < best.len() {
                    assert(best[n - 1 - i] == all[i]);
                }
                assert(best[j] == all[n - 1 - j]);
            },
            BookSide::Ask => {
                if i < best.len() {
                    assert(best[i] == all[i]);
                }
                assert(best[j] == all[j]);
            },
        }
    }
}

/// The top of a side is the first of its best levels.
pub proof fn law_the_top_is_the_best_level(book: BookView, depth: nat)
    requires
        depth > 0,
    ensures
        book.top_bid() is Some <==> book.bids.len() > 0,
        book.top_ask() is Some <==> book.asks.len() > 0,
        book.top_bid() matches Some(level) ==> level == book.best(BookSide::Bid, depth)[0],
        book.top_ask() matches Some(level) ==> level == book.best(BookSide::Ask, depth)[0],
{
}

/// The size of some levels is what they hold together: nothing for none, and one
/// level more adds its size, wherever it stands.
pub proof fn law_sizes_add_up(levels: Seq<BookLevel>, at: int, level: BookLevel)
    requires
        0 <= at <= levels.len(),
    ensures
        total_size(Seq::<BookLevel>::empty()) == 0,
        total_size(levels.insert(at, level)) == total_size(levels) + level.qty.0,
    decreases levels.len(),
{
    let more = levels.insert(at, level);
    if at == levels.len() {
        assert(more.drop_last() =~= levels);
    } else {
        law_sizes_add_up(levels.drop_last(), at, level);
        assert(more.drop_last() =~= levels.drop_last().insert(at, level));
        assert(more.last() == levels.last());
    }
}

} // verus!
