//! How trades lie in records and records in segments.

use crate::primitives::market::Trade;
use crate::primitives::time::Ts;
use crate::store::error::StoreError;
use vstd::prelude::*;

verus! {

use crate::store::laws::{steps_back, within};
use crate::store::record::{le_bytes, lemma_le_bytes, record_of, trade_of, RecordError};
use crate::store::segment::SegmentView;
use crate::store::tick_store::{
    batch_refusal, marker_refusal, numbered, placed_segment, without_empty_tail, StoreView,
};
use crate::text::{trimmed, unsigned_text};

/// Byte `k` of a number, counted from the least significant.
pub open spec fn byte_of(x: nat, k: nat) -> int
    decreases k,
{
    if k == 0 {
        x as int % 256
    } else {
        byte_of(x / 256, (k - 1) as nat)
    }
}

/// A signed number as it is written in 64 bits.
pub open spec fn complement(x: int) -> nat {
    (if x < 0 {
        x + 0x1_0000_0000_0000_0000
    } else {
        x
    }) as nat
}

proof fn lemma_byte(x: nat, n: nat, k: nat)
    requires
        k < n,
    ensures
        le_bytes(x, n).len() == n,
        le_bytes(x, n)[k as int] == byte_of(x, k),
    decreases n,
{
    lemma_le_bytes(x, n);
    if k > 0 {
        lemma_byte(x / 256, (n - 1) as nat, (k - 1) as nat);
        lemma_le_bytes(x / 256, (n - 1) as nat);
    }
}

/// A record is forty bytes, least significant byte first: eight each for the time,
/// the price, the size and the id, then a one where buyers were aggressive and a
/// zero where sellers were, then zeros.
pub proof fn law_a_record_is_laid_out(trade: Trade, k: nat)
    requires
        k < 8,
    ensures
        ({
            let record = record_of(trade);
            let at = k as int;
            &&& record.len() == 40
            &&& record[at] == byte_of(complement(trade.ts.0 as int), k)
            &&& record[8 + at] == byte_of(complement(trade.price.0 as int), k)
            &&& record[16 + at] == byte_of(complement(trade.qty.0 as int), k)
            &&& record[24 + at] == byte_of(trade.id as nat, k)
            &&& record[32] == if trade.aggressor is Buy {
                1
            } else {
                0u8
            }
            &&& k > 0 ==> record[32 + at] == 0
        }),
{
    let record = record_of(trade);
    let at = k as int;
    let ts = complement(trade.ts.0 as int);
    let price = complement(trade.price.0 as int);
    let qty = complement(trade.qty.0 as int);
    let id = trade.id as nat;
    lemma_byte(ts, 8, k);
    lemma_byte(price, 8, k);
    lemma_byte(qty, 8, k);
    lemma_byte(id, 8, k);
    assert(record[at] == le_bytes(ts, 8)[at]);
    assert(record[8 + at] == le_bytes(price, 8)[at]);
    assert(record[16 + at] == le_bytes(qty, 8)[at]);
    assert(record[24 + at] == le_bytes(id, 8)[at]);
}

/// A record is refused exactly where its flag is neither a one nor a zero, and the
/// flag is reported.
pub proof fn law_unknown_flags_are_refused(record: Seq<u8>)
    requires
        record.len() == 40,
    ensures
        trade_of(record) is Ok <==> record[32] == 0 || record[32] == 1,
        trade_of(record) matches Err(e) ==> e == RecordError::UnknownFlags(record[32]),
        trade_of(record) matches Ok(trade) ==> (trade.aggressor is Buy <==> record[32] == 1),
{
}

/// The trades within a range are those from its start on and before its end, each
/// in its place.
pub proof fn law_a_range_takes_its_start_and_not_its_end(trades: Seq<Trade>, from: Ts, to: Ts)
    ensures
        within(trades, from, to) == trades.filter(|t: Trade| from.0 <= t.ts.0 && t.ts.0 < to.0),
    decreases trades.len(),
{
    reveal(Seq::filter);
    if trades.len() > 0 {
        law_a_range_takes_its_start_and_not_its_end(trades.drop_last(), from, to);
    } else {
        assert(trades.filter(|t: Trade| from.0 <= t.ts.0 && t.ts.0 < to.0) =~= trades);
    }
}

/// A write goes to the last segment while that has room, and else to a new one,
/// numbered one higher. It takes as much of the batch as there is room for, so no
/// segment grows beyond its size.
pub proof fn law_segments_fill_up_in_turn(store: StoreView, trades: Seq<Trade>, at: int)
    requires
        store.wf(),
        store.segments.len() > 0,
        store.segments.last().records <= store.segment_records,
        store.segments.last().index < u32::MAX,
        0 <= at < trades.len() <= usize::MAX,
        store.total + trades.len() <= u64::MAX,
    ensures
        ({
            let write = store.next_write(at, trades.len() as int);
            let last = store.segments.last();
            let after = store.written(write, trades);
            let roomy = last.records < store.segment_records;
            let left = trades.len() - at;
            let room = if roomy {
                store.segment_records - last.records
            } else {
                store.segment_records as int
            };
            &&& write.create <==> !roomy
            &&& write.index == if roomy {
                last.index as int
            } else {
                last.index + 1
            }
            &&& write.from == at
            &&& write.to - write.from == if left < room {
                left
            } else {
                room
            }
            &&& write.full <==> room <= left
            &&& after.segments.len() == store.segments.len() + if roomy {
                0int
            } else {
                1
            }
            &&& after.segments.last().index == write.index
            &&& after.segments.last().records <= store.segment_records
            &&& after.segments.last().last_ts == trades[write.to - 1].ts
            &&& after.segments.last().first_ts == if roomy {
                last.first_ts
            } else {
                trades[at].ts
            }
            &&& after.last_ts == trades[write.to - 1].ts
        }),
{
}

/// The first segment of a store is numbered zero.
pub proof fn law_segments_are_numbered_from_zero(store: StoreView, n: int)
    requires
        store.segments.len() == 0,
        store.segment_records > 0,
        0 < n <= usize::MAX,
    ensures
        store.next_write(0, n).create,
        store.next_write(0, n).index == 0,
        store.next_write(0, n).from == 0,
{
}

/// A refused batch is refused for the first trade that steps back: its time is
/// reported, with the time of the trade before it.
pub proof fn law_a_refusal_names_the_first_step_back(
    store: StoreView,
    past: Seq<Trade>,
    trades: Seq<Trade>,
    i: int,
)
    requires
        past.len() == store.total,
        store.total > 0 ==> past.last().ts == store.last_ts,
        0 <= i < trades.len(),
        steps_back(past, trades, i),
        forall|j: int| 0 <= j < i ==> !#[trigger] steps_back(past, trades, j),
    ensures
        batch_refusal(store, trades) == Some(
            StoreError::OutOfOrder {
                received: trades[i].ts,
                last: if i > 0 {
                    trades[i - 1].ts
                } else {
                    past.last().ts
                },
            },
        ),
    decreases trades.len(),
{
    let less = trades.drop_last();
    assert forall|j: int| 0 <= j < less.len() implies steps_back(past, less, j)
        == #[trigger] steps_back(past, trades, j) by {}
    if i < less.len() {
        assert(steps_back(past, less, i));
        assert forall|j: int| 0 <= j < i implies !#[trigger] steps_back(past, less, j) by {
            assert(!steps_back(past, trades, j));
        }
        law_a_refusal_names_the_first_step_back(store, past, less, i);
    } else {
        crate::store::laws::lemma_refusal_means(store, past, less);
        assert(batch_refusal(store, less) is None) by {
            if batch_refusal(store, less) is Some {
                let j = choose|j: int|
                    0 <= j < less.len() && #[trigger] steps_back(past, less, j);
                assert(steps_back(past, trades, j));
            }
        }
    }
}

proof fn lemma_placed(segments: Seq<SegmentView>, segment: SegmentView)
    requires
        forall|i: int, j: int|
            0 <= i <= j < segments.len() ==> (#[trigger] segments[i]).index <= (
            #[trigger] segments[j]).index,
    ensures
        ({
            let all = placed_segment(segments, segment);
            &&& forall|i: int, j: int|
                0 <= i <= j < all.len() ==> (#[trigger] all[i]).index <= (
                #[trigger] all[j]).index
            &&& all.to_multiset() == segments.to_multiset().insert(segment)
            &&& forall|i: int|
                0 <= i < all.len() ==> (#[trigger] all[i]).index <= segment.index || all[i].index
                    <= segments.last().index
        }),
    decreases segments.len(),
{
    broadcast use vstd::seq_lib::group_to_multiset_ensures;

    if segments.len() > 0 && segments.last().index > segment.index {
        let less = segments.drop_last();
        assert forall|i: int, j: int| 0 <= i <= j < less.len() implies (
        #[trigger] less[i]).index <= (#[trigger] less[j]).index by {
            assert(less[i] == segments[i] && less[j] == segments[j]);
        }
        lemma_placed(less, segment);
        let part = placed_segment(less, segment);
        let all = part.push(segments.last());
        assert(segments =~= less.push(segments.last()));
        assert forall|i: int| 0 <= i < part.len() implies (#[trigger] part[i]).index
            <= segments.last().index by {
            if less.len() > 0 {
                assert(less.last() == segments[less.len() - 1]);
                assert(segments[less.len() - 1].index <= segments[segments.len() - 1].index);
            } else {
                assert(part =~= less.push(segment));
            }
        }
        assert(all.to_multiset() =~= segments.to_multiset().insert(segment));
    } else {
        let all = segments.push(segment);
        assert forall|i: int, j: int| 0 <= i <= j < all.len() implies (#[trigger] all[i]).index <= (
        #[trigger] all[j]).index by {
            if j < segments.len() {
                assert(all[i] == segments[i] && all[j] == segments[j]);
            } else if i < segments.len() {
                assert(segments[i].index <= segments[segments.len() - 1].index);
            }
        }
        assert forall|i: int| 0 <= i < all.len() implies (#[trigger] all[i]).index
            <= segment.index by {
            assert(all[i].index <= all[all.len() - 1].index);
        }
    }
}

/// Opening a store puts its segments in the order of their numbers, whatever order
/// they were found in, and loses none.
pub proof fn law_segments_are_opened_in_order(segments: Seq<SegmentView>)
    ensures
        forall|i: int, j: int|
            0 <= i <= j < numbered(segments).len() ==> (#[trigger] numbered(segments)[i]).index <= (
            #[trigger] numbered(segments)[j]).index,
        numbered(segments).to_multiset() == segments.to_multiset(),
    decreases segments.len(),
{
    broadcast use vstd::seq_lib::group_to_multiset_ensures;

    if segments.len() > 0 {
        law_segments_are_opened_in_order(segments.drop_last());
        lemma_placed(numbered(segments.drop_last()), segments.last());
        assert(segments =~= segments.drop_last().push(segments.last()));
    }
}

/// Empty segments at the end are left out, and only those.
pub proof fn law_only_empty_segments_are_left_out(segments: Seq<SegmentView>) -> (k: int)
    ensures
        0 <= k <= segments.len(),
        without_empty_tail(segments) == segments.take(k),
        forall|i: int| k <= i < segments.len() ==> (#[trigger] segments[i]).records == 0,
        k > 0 ==> segments[k - 1].records > 0,
    decreases segments.len(),
{
    if segments.len() > 0 && segments.last().records == 0 {
        let less = segments.drop_last();
        let k = law_only_empty_segments_are_left_out(less);
        assert(less.take(k) =~= segments.take(k));
        assert forall|i: int| k <= i < segments.len() implies (
        #[trigger] segments[i]).records == 0 by {
            if i < less.len() {
                assert(less[i] == segments[i]);
            }
        }
        k
    } else {
        assert(segments.take(segments.len() as int) =~= segments);
        segments.len() as int
    }
}

/// A marker is accepted where it is the number of this format, white space around
/// it aside. Another number is refused with both, and anything else as no store.
pub proof fn law_a_marker_is_the_format_number(text: Seq<char>, found: u32)
    ensures
        unsigned_text(trimmed(text), u32::MAX as nat) == Some(1nat) ==> marker_refusal(text) is None,
        unsigned_text(trimmed(text), u32::MAX as nat) == Some(found as nat) && found != 1
            ==> marker_refusal(text) == Some(
            StoreError::UnsupportedVersion { found, expected: 1 },
        ),
        unsigned_text(trimmed(text), u32::MAX as nat) is None ==> marker_refusal(text) == Some(
            StoreError::NotAStore,
        ),
{
}

proof fn lemma_placed_keeps(segments: Seq<SegmentView>, segment: SegmentView, index: u32)
    ensures
        placed_segment(segments, segment).filter(|s: SegmentView| s.index == index)
            == segments.push(segment).filter(|s: SegmentView| s.index == index),
    decreases segments.len(),
{
    reveal_with_fuel(Seq::filter, 3);
    assert(segments.push(segment).drop_last() =~= segments);
    if segments.len() > 0 && segments.last().index > segment.index {
        let less = segments.drop_last();
        lemma_placed_keeps(less, segment, index);
        let part = placed_segment(less, segment);
        assert(part.push(segments.last()).drop_last() =~= part);
        assert(less.push(segment).drop_last() =~= less);
    }
}

/// Segments that bear the same number stay in the order in which they were found.
pub proof fn law_segments_of_one_number_keep_their_order(segments: Seq<SegmentView>, index: u32)
    ensures
        numbered(segments).filter(|s: SegmentView| s.index == index) == segments.filter(
            |s: SegmentView| s.index == index,
        ),
    decreases segments.len(),
{
    if segments.len() > 0 {
        reveal(Seq::filter);
        let less = segments.drop_last();
        law_segments_of_one_number_keep_their_order(less, index);
        lemma_placed_keeps(numbered(less), segments.last(), index);
        assert(numbered(less).push(segments.last()).drop_last() =~= numbered(less));
    }
}

} // verus!
