//! What a store gives back of what was written to it.

use crate::primitives::market::Trade;
use crate::primitives::time::Ts;
use crate::store::tick_store::Write;
use vstd::prelude::*;

verus! {

use crate::store::record::{
    law_records_read_back, record_of, signed_at, trade_of, RecordError,
};
use crate::store::segment::{
    count_before, empty_segment, law_search_narrows, lemma_count_before, lemma_search_brackets,
    ordered, ScanView, SearchView, SegmentView,
};
use crate::store::tick_store::{batch_refusal, earliest, record_total, StoreView};

/// Every stored trade, segment by segment.
pub open spec fn history(contents: Seq<Seq<Trade>>) -> Seq<Trade>
    decreases contents.len(),
{
    if contents.len() == 0 {
        Seq::<Trade>::empty()
    } else {
        history(contents.drop_last()) + contents.last()
    }
}

/// Whether what a store knows of its segments is true of what they hold.
pub open spec fn describes_all(store: StoreView, contents: Seq<Seq<Trade>>) -> bool {
    &&& contents.len() == store.segments.len()
    &&& forall|i: int|
        0 <= i < contents.len() ==> (#[trigger] store.segments[i]).describes(contents[i])
}

/// What the segments hold once a write is done.
pub open spec fn stored(contents: Seq<Seq<Trade>>, write: Write, trades: Seq<Trade>) -> Seq<
    Seq<Trade>,
> {
    let chunk = trades.subrange(write.from as int, write.to as int);
    if write.create {
        contents.push(chunk)
    } else {
        contents.update(contents.len() - 1, contents.last() + chunk)
    }
}

/// A write adds its trades to the end of the history, and the store still knows
/// what its segments hold.
pub proof fn law_a_write_extends_history(
    store: StoreView,
    contents: Seq<Seq<Trade>>,
    trades: Seq<Trade>,
    at: int,
)
    requires
        store.wf(),
        describes_all(store, contents),
        0 <= at < trades.len() <= usize::MAX,
        store.next_index() <= u32::MAX,
        store.total + (trades.len() - at) <= u64::MAX,
    ensures
        ({
            let write = store.next_write(at, trades.len() as int);
            let after = store.written(write, trades);
            &&& at < write.to <= trades.len()
            &&& write.from == at
            &&& after.wf()
            &&& after.total == store.total + (write.to - at)
            &&& describes_all(after, stored(contents, write, trades))
            &&& history(stored(contents, write, trades)) == history(contents) + trades.subrange(
                at,
                write.to as int,
            )
        }),
{
    let write = store.next_write(at, trades.len() as int);
    let after = store.written(write, trades);
    let next = stored(contents, write, trades);
    let chunk = trades.subrange(at, write.to as int);
    let mid = if write.create {
        store.segments.push(empty_segment(write.index))
    } else {
        store.segments
    };
    lemma_record_total_bound(store.segments);
    if write.create {
        assert(mid.drop_last() =~= store.segments);
        assert(next.drop_last() =~= contents);
    } else {
        assert(next.drop_last() =~= contents.drop_last());
        assert(history(next) =~= history(contents) + chunk);
        assert(store.segments[contents.len() - 1].describes(contents[contents.len() - 1]));
    }
    assert(after.segments.drop_last() =~= mid.drop_last());
    assert forall|i: int| 0 <= i < next.len() implies (#[trigger] after.segments[i]).describes(
        next[i],
    ) by {
        if i < next.len() - 1 {
            assert(after.segments[i] == store.segments[i]);
            assert(next[i] == contents[i]);
        }
    }
}

proof fn lemma_record_total_bound(segments: Seq<SegmentView>)
    ensures
        record_total(segments) >= 0,
        segments.len() > 0 ==> segments.last().records <= record_total(segments),
    decreases segments.len(),
{
    if segments.len() > 0 {
        lemma_record_total_bound(segments.drop_last());
    }
}

/// Whether the segment numbers suffice for the rest of a batch.
pub open spec fn has_numbers(store: StoreView, trades: Seq<Trade>, at: int) -> bool
    decreases trades.len() - at,
{
    if at < 0 || at >= trades.len() {
        true
    } else {
        let write = store.next_write(at, trades.len() as int);
        &&& store.next_index() <= u32::MAX
        &&& at < write.to <= trades.len()
        &&& has_numbers(store.written(write, trades), trades, write.to as int)
    }
}

/// The store after the rest of a batch was written.
pub open spec fn after_batch(store: StoreView, trades: Seq<Trade>, at: int) -> StoreView
    decreases trades.len() - at,
{
    let write = store.next_write(at, trades.len() as int);
    if at < 0 || at >= trades.len() || !(at < write.to <= trades.len()) {
        store
    } else {
        after_batch(store.written(write, trades), trades, write.to as int)
    }
}

/// What the segments hold after the rest of a batch was written.
pub open spec fn contents_after(
    store: StoreView,
    contents: Seq<Seq<Trade>>,
    trades: Seq<Trade>,
    at: int,
) -> Seq<Seq<Trade>>
    decreases trades.len() - at,
{
    let write = store.next_write(at, trades.len() as int);
    if at < 0 || at >= trades.len() || !(at < write.to <= trades.len()) {
        contents
    } else {
        contents_after(
            store.written(write, trades),
            stored(contents, write, trades),
            trades,
            write.to as int,
        )
    }
}

/// However a batch is split over segments, the history gains exactly its trades
/// in their order.
pub proof fn law_a_batch_extends_history(
    store: StoreView,
    contents: Seq<Seq<Trade>>,
    trades: Seq<Trade>,
    at: int,
)
    requires
        store.wf(),
        describes_all(store, contents),
        0 <= at <= trades.len() <= usize::MAX,
        store.total + (trades.len() - at) <= u64::MAX,
        has_numbers(store, trades, at),
    ensures
        after_batch(store, trades, at).wf(),
        describes_all(
            after_batch(store, trades, at),
            contents_after(store, contents, trades, at),
        ),
        history(contents_after(store, contents, trades, at)) == history(contents) + trades.skip(at),
    decreases trades.len() - at,
{
    if at < trades.len() {
        law_a_write_extends_history(store, contents, trades, at);
        let write = store.next_write(at, trades.len() as int);
        let next = store.written(write, trades);
        law_a_batch_extends_history(next, stored(contents, write, trades), trades, write.to as int);
        assert(trades.skip(at) =~= trades.subrange(at, write.to as int) + trades.skip(
            write.to as int,
        ));
    } else {
        assert(trades.skip(at) =~= Seq::<Trade>::empty());
    }
}

/// An accepted batch keeps the history in time order.
pub proof fn law_accepted_batches_keep_order(
    store: StoreView,
    contents: Seq<Seq<Trade>>,
    trades: Seq<Trade>,
)
    requires
        store.wf(),
        describes_all(store, contents),
        ordered(history(contents)),
        batch_refusal(store, trades) is None,
    ensures
        ordered(history(contents) + trades),
    decreases trades.len(),
{
    let past = history(contents);
    if trades.len() == 0 {
        assert(past + trades =~= past);
    } else {
        let before = trades.drop_last();
        law_accepted_batches_keep_order(store, contents, before);
        lemma_last_of_history(store, contents);
        let all = past + trades;
        let shorter = past + before;
        assert(all.drop_last() =~= shorter);
        assert forall|i: int, j: int| 0 <= i <= j < all.len() implies (#[trigger] all[i]).ts.0 <= (
        #[trigger] all[j]).ts.0 by {
            if j < shorter.len() {
                assert(all[i] == shorter[i]);
                assert(all[j] == shorter[j]);
            } else if i < shorter.len() {
                let last = shorter.len() - 1;
                assert(shorter[i].ts.0 <= shorter[last].ts.0);
                assert(all[i] == shorter[i]);
                if before.len() > 0 {
                    assert(shorter[last] == trades[trades.len() - 2]);
                } else {
                    assert(shorter[last] == past[past.len() - 1]);
                }
            }
        }
    }
}

proof fn lemma_last_of_history(store: StoreView, contents: Seq<Seq<Trade>>)
    requires
        store.wf(),
        describes_all(store, contents),
    ensures
        history(contents).len() == store.total,
        store.total > 0 ==> history(contents).last().ts == store.last_ts,
        store.total == 0 <==> store.segments.len() == 0,
{
    lemma_history_len(store.segments, contents);
    lemma_record_total_bound(store.segments);
    if store.segments.len() > 0 {
        let n = contents.len() - 1;
        assert(store.segments[n].describes(contents[n]));
    }
}

proof fn lemma_history_len(segments: Seq<SegmentView>, contents: Seq<Seq<Trade>>)
    requires
        contents.len() == segments.len(),
        forall|i: int| 0 <= i < contents.len() ==> (#[trigger] segments[i]).describes(contents[i]),
    ensures
        history(contents).len() == record_total(segments),
    decreases contents.len(),
{
    if contents.len() > 0 {
        let n = contents.len() - 1;
        assert(segments[n].describes(contents[n]));
        assert forall|i: int| 0 <= i < n implies (#[trigger] segments.drop_last()[i]).describes(
            contents.drop_last()[i],
        ) by {
            assert(segments[i].describes(contents[i]));
        }
        lemma_history_len(segments.drop_last(), contents.drop_last());
    }
}

/// The trades with `from <= ts < to`, in their order.
pub open spec fn within(trades: Seq<Trade>, from: Ts, to: Ts) -> Seq<Trade>
    decreases trades.len(),
{
    if trades.len() == 0 {
        trades
    } else if from.0 <= trades.last().ts.0 < to.0 {
        within(trades.drop_last(), from, to).push(trades.last())
    } else {
        within(trades.drop_last(), from, to)
    }
}

proof fn lemma_within_concat(a: Seq<Trade>, b: Seq<Trade>, from: Ts, to: Ts)
    ensures
        within(a + b, from, to) == within(a, from, to) + within(b, from, to),
    decreases b.len(),
{
    if b.len() == 0 {
        assert(a + b =~= a);
        assert(within(a, from, to) + within(b, from, to) =~= within(a, from, to));
    } else {
        lemma_within_concat(a, b.drop_last(), from, to);
        assert((a + b).drop_last() =~= a + b.drop_last());
        assert(within(a + b, from, to) =~= within(a, from, to) + within(b, from, to));
    }
}

proof fn lemma_within_none(trades: Seq<Trade>, from: Ts, to: Ts)
    requires
        forall|i: int|
            0 <= i < trades.len() ==> !(from.0 <= (#[trigger] trades[i]).ts.0 < to.0),
    ensures
        within(trades, from, to) == Seq::<Trade>::empty(),
    decreases trades.len(),
{
    if trades.len() > 0 {
        assert forall|i: int| 0 <= i < trades.drop_last().len() implies !(from.0 <= (
        #[trigger] trades.drop_last()[i]).ts.0 < to.0) by {
            assert(trades.drop_last()[i] == trades[i]);
        }
        lemma_within_none(trades.drop_last(), from, to);
        assert(!(from.0 <= trades[trades.len() - 1].ts.0 < to.0));
    } else {
        assert(trades =~= Seq::<Trade>::empty());
    }
}

proof fn lemma_within_all(trades: Seq<Trade>, from: Ts, to: Ts)
    requires
        forall|i: int| 0 <= i < trades.len() ==> from.0 <= (#[trigger] trades[i]).ts.0 < to.0,
    ensures
        within(trades, from, to) == trades,
    decreases trades.len(),
{
    if trades.len() > 0 {
        assert forall|i: int| 0 <= i < trades.drop_last().len() implies from.0 <= (
        #[trigger] trades.drop_last()[i]).ts.0 < to.0 by {
            assert(trades.drop_last()[i] == trades[i]);
        }
        lemma_within_all(trades.drop_last(), from, to);
        assert(from.0 <= trades[trades.len() - 1].ts.0 < to.0);
        assert(trades =~= trades.drop_last().push(trades.last()));
    }
}

/// What reading a segment gives: the records from the first at or after `from`
/// up to the first at or after `to`.
pub open spec fn read_segment(trades: Seq<Trade>, from: Ts, to: Ts) -> Seq<Trade> {
    let start = count_before(trades, from) as int;
    trades.subrange(start, start + count_before(trades.skip(start), to))
}

/// Whether reading a segment came upon a record at or after `to`.
pub open spec fn segment_reaches(trades: Seq<Trade>, from: Ts, to: Ts) -> bool {
    let start = count_before(trades, from) as int;
    start + count_before(trades.skip(start), to) < trades.len()
}

/// What a range query gives: the segments that may hold something are read in
/// turn, until one reaches the end of the range.
pub open spec fn scanned(
    store: StoreView,
    contents: Seq<Seq<Trade>>,
    at: int,
    from: Ts,
    to: Ts,
) -> Seq<Trade>
    decreases contents.len() - at,
{
    match store.next_segment(at, from, to) {
        None => Seq::<Trade>::empty(),
        Some(i) => if !(at <= i < contents.len()) {
            Seq::<Trade>::empty()
        } else if segment_reaches(contents[i], from, to) {
            read_segment(contents[i], from, to)
        } else {
            read_segment(contents[i], from, to) + scanned(store, contents, i + 1, from, to)
        },
    }
}

proof fn lemma_read_segment(trades: Seq<Trade>, from: Ts, to: Ts)
    requires
        ordered(trades),
        from.0 < to.0,
    ensures
        read_segment(trades, from, to) == within(trades, from, to),
        segment_reaches(trades, from, to) ==> exists|i: int|
            0 <= i < trades.len() && (#[trigger] trades[i]).ts.0 >= to.0,
{
    let start = count_before(trades, from) as int;
    lemma_count_before(trades, from);
    let tail = trades.skip(start);
    assert(ordered(tail)) by {
        assert forall|i: int, j: int| 0 <= i <= j < tail.len() implies (#[trigger] tail[i]).ts.0
            <= (#[trigger] tail[j]).ts.0 by {
            assert(tail[i] == trades[start + i]);
            assert(tail[j] == trades[start + j]);
        }
    }
    lemma_count_before(tail, to);
    let span = count_before(tail, to) as int;
    let head = trades.take(start);
    let body = trades.subrange(start, start + span);
    let rest = trades.skip(start + span);
    assert(trades =~= head + body + rest);
    lemma_within_concat(head + body, rest, from, to);
    lemma_within_concat(head, body, from, to);
    lemma_within_none(head, from, to);
    assert forall|i: int| 0 <= i < body.len() implies from.0 <= (#[trigger] body[i]).ts.0
        < to.0 by {
        assert(body[i] == tail[i]);
        assert(body[i] == trades[start + i]);
    }
    lemma_within_all(body, from, to);
    assert forall|i: int| 0 <= i < rest.len() implies !(from.0 <= (#[trigger] rest[i]).ts.0
        < to.0) by {
        assert(rest[i] == tail[span + i]);
    }
    lemma_within_none(rest, from, to);
    assert(within(trades, from, to) =~= body);
    if start + span < trades.len() {
        assert(tail[span] == trades[start + span]);
        assert(trades[start + span].ts.0 >= to.0);
    }
}

proof fn lemma_history_split(contents: Seq<Seq<Trade>>, at: int)
    requires
        0 <= at <= contents.len(),
    ensures
        history(contents) == history(contents.take(at)) + history(contents.skip(at)),
    decreases contents.len(),
{
    if at == contents.len() {
        assert(contents.take(at) =~= contents);
        assert(contents.skip(at) =~= Seq::<Seq<Trade>>::empty());
        assert(history(contents) =~= history(contents.take(at)) + history(contents.skip(at)));
    } else {
        lemma_history_split(contents.drop_last(), at);
        assert(contents.drop_last().take(at) =~= contents.take(at));
        assert(contents.drop_last().skip(at) =~= contents.skip(at).drop_last());
        assert(history(contents) =~= history(contents.take(at)) + history(contents.skip(at)));
    }
}

proof fn lemma_history_first(contents: Seq<Seq<Trade>>)
    requires
        contents.len() > 0,
    ensures
        history(contents) == contents[0] + history(contents.skip(1)),
{
    lemma_history_split(contents, 1);
    let one = contents.take(1);
    assert(one.drop_last() =~= Seq::<Seq<Trade>>::empty());
    assert(history(one.drop_last()) == Seq::<Trade>::empty());
    assert(history(one) == history(one.drop_last()) + one.last());
    assert(history(one) =~= contents[0]);
}

proof fn lemma_ordered_part(trades: Seq<Trade>, a: int, b: int)
    requires
        ordered(trades),
        0 <= a <= b <= trades.len(),
    ensures
        ordered(trades.subrange(a, b)),
{
    let part = trades.subrange(a, b);
    assert forall|i: int, j: int| 0 <= i <= j < part.len() implies (#[trigger] part[i]).ts.0 <= (
    #[trigger] part[j]).ts.0 by {
        assert(part[i] == trades[a + i]);
        assert(part[j] == trades[a + j]);
    }
}

proof fn lemma_scan_from(
    store: StoreView,
    contents: Seq<Seq<Trade>>,
    at: int,
    from: Ts,
    to: Ts,
)
    requires
        describes_all(store, contents),
        0 <= at <= contents.len(),
        ordered(history(contents.skip(at))),
        from.0 < to.0,
    ensures
        scanned(store, contents, at, from, to) == within(history(contents.skip(at)), from, to),
    decreases contents.len() - at,
{
    let left = contents.skip(at);
    if at == contents.len() {
        assert(history(left) =~= Seq::<Trade>::empty());
        lemma_within_none(history(left), from, to);
    } else {
        let here = contents[at];
        let later = history(contents.skip(at + 1));
        assert(left.skip(1) =~= contents.skip(at + 1));
        lemma_history_first(left);
        assert(left[0] == here);
        let all = history(left);
        assert(all == here + later);
        assert(here =~= all.subrange(0, here.len() as int));
        assert(later =~= all.subrange(here.len() as int, all.len() as int));
        lemma_ordered_part(all, 0, here.len() as int);
        lemma_ordered_part(all, here.len() as int, all.len() as int);
        lemma_within_concat(here, later, from, to);
        let segment = store.segments[at];
        assert(segment.describes(here));
        if segment.meets(from, to) {
            lemma_read_segment(here, from, to);
            if segment_reaches(here, from, to) {
                let k = choose|k: int| 0 <= k < here.len() && (#[trigger] here[k]).ts.0 >= to.0;
                assert forall|i: int| 0 <= i < later.len() implies !(from.0 <= (
                #[trigger] later[i]).ts.0 < to.0) by {
                    assert(all[k] == here[k]);
                    assert(all[here.len() + i] == later[i]);
                }
                lemma_within_none(later, from, to);
                assert(within(all, from, to) =~= within(here, from, to));
            } else {
                lemma_scan_from(store, contents, at + 1, from, to);
            }
        } else if segment.records > 0 && segment.first_ts.0 >= to.0 {
            assert forall|i: int| 0 <= i < all.len() implies !(from.0 <= (
            #[trigger] all[i]).ts.0 < to.0) by {
                assert(all[0] == here[0]);
                assert(all[0].ts.0 <= all[i].ts.0);
            }
            lemma_within_none(all, from, to);
        } else {
            assert forall|i: int| 0 <= i < here.len() implies !(from.0 <= (
            #[trigger] here[i]).ts.0 < to.0) by {
                assert(here[i].ts.0 <= here[here.len() - 1].ts.0);
            }
            lemma_within_none(here, from, to);
            assert(within(all, from, to) =~= within(later, from, to));
            lemma_scan_from(store, contents, at + 1, from, to);
            assert(scanned(store, contents, at, from, to) == scanned(
                store,
                contents,
                at + 1,
                from,
                to,
            )) by {
                assert(store.next_segment(at, from, to) == store.next_segment(at + 1, from, to));
                lemma_next_segment(store, at + 1, from, to);
            }
        }
    }
}

proof fn lemma_next_segment(store: StoreView, at: int, from: Ts, to: Ts)
    ensures
        store.next_segment(at, from, to) matches Some(i) ==> at <= i < store.segments.len(),
    decreases store.segments.len() - at,
{
    if 0 <= at < store.segments.len() && !store.segments[at].meets(from, to)
        && (store.segments[at].records == 0 || store.segments[at].first_ts.0 < to.0) {
        lemma_next_segment(store, at + 1, from, to);
    }
}

/// A range query gives back exactly the stored trades with `from <= ts < to`,
/// in time order, however they lie in segments. An empty segment among the
/// others does no harm.
pub proof fn law_range_queries_are_exact(
    store: StoreView,
    contents: Seq<Seq<Trade>>,
    from: Ts,
    to: Ts,
)
    requires
        describes_all(store, contents),
        ordered(history(contents)),
    ensures
        scanned(store, contents, 0, from, to) == within(history(contents), from, to),
{
    if from.0 < to.0 {
        assert(contents.skip(0) =~= contents);
        lemma_scan_from(store, contents, 0, from, to);
    } else {
        lemma_within_none(history(contents), from, to);
    }
}

proof fn lemma_earliest(segments: Seq<SegmentView>, contents: Seq<Seq<Trade>>)
    requires
        contents.len() == segments.len(),
        forall|i: int| 0 <= i < contents.len() ==> (#[trigger] segments[i]).describes(contents[i]),
    ensures
        earliest(segments) == if history(contents).len() > 0 {
            Some(history(contents)[0].ts)
        } else {
            None
        },
    decreases contents.len(),
{
    if contents.len() > 0 {
        assert(segments[0].describes(contents[0]));
        lemma_history_first(contents);
        assert forall|i: int| 0 <= i < contents.skip(1).len() implies (
        #[trigger] segments.skip(1)[i]).describes(contents.skip(1)[i]) by {
            assert(segments[i + 1].describes(contents[i + 1]));
        }
        lemma_earliest(segments.skip(1), contents.skip(1));
    }
}

/// Reading from the first timestamp to just past the last gives everything
/// back.
pub proof fn law_reading_all_gives_everything(store: StoreView, contents: Seq<Seq<Trade>>)
    requires
        store.wf(),
        describes_all(store, contents),
        ordered(history(contents)),
        store.total > 0,
        store.last_ts.0 < i64::MAX,
    ensures
        earliest(store.segments) == Some(history(contents)[0].ts),
        scanned(
            store,
            contents,
            0,
            earliest(store.segments)->0,
            Ts((store.last_ts.0 + 1) as i64),
        ) == history(contents),
{
    let all = history(contents);
    lemma_last_of_history(store, contents);
    lemma_earliest(store.segments, contents);
    let from = all[0].ts;
    let to = Ts((store.last_ts.0 + 1) as i64);
    assert forall|i: int| 0 <= i < all.len() implies from.0 <= (#[trigger] all[i]).ts.0 < to.0 by {
        assert(all[0].ts.0 <= all[i].ts.0 <= all[all.len() - 1].ts.0);
    }
    law_range_queries_are_exact(store, contents, from, to);
    lemma_within_all(all, from, to);
}

/// The bytes of a segment file that holds these trades.
pub open spec fn file_of(trades: Seq<Trade>) -> Seq<u8>
    decreases trades.len(),
{
    if trades.len() == 0 {
        Seq::<u8>::empty()
    } else {
        file_of(trades.drop_last()) + record_of(trades.last())
    }
}

/// The bytes of one record of a file.
pub open spec fn record_in(file: Seq<u8>, index: int) -> Seq<u8> {
    file.subrange(40 * index, 40 * index + 40)
}

proof fn lemma_record_behind(front: Seq<u8>, record: Seq<u8>, count: int, index: int)
    requires
        front.len() == 40 * count,
        record.len() == 40,
        0 <= index <= count,
    ensures
        record_in(front + record, index) == if index == count {
            record
        } else {
            record_in(front, index)
        },
{
    if index == count {
        assert(record_in(front + record, index) =~= record);
    } else {
        assert(record_in(front + record, index) =~= record_in(front, index));
    }
}

proof fn lemma_file_len(trades: Seq<Trade>)
    ensures
        file_of(trades).len() == 40 * trades.len(),
    decreases trades.len(),
{
    if trades.len() > 0 {
        law_records_read_back(trades.last());
        lemma_file_len(trades.drop_last());
    }
}

proof fn lemma_records_in(trades: Seq<Trade>, index: int)
    requires
        0 <= index < trades.len(),
    ensures
        record_in(file_of(trades), index) == record_of(trades[index]),
    decreases trades.len(),
{
    let before = trades.drop_last();
    law_records_read_back(trades.last());
    lemma_file_len(before);
    lemma_record_behind(file_of(before), record_of(trades.last()), before.len() as int, index);
    if index < before.len() {
        lemma_records_in(before, index);
    }
}

/// A crash in the middle of an append costs the record that was being written
/// and no other: cut back to whole records, a file with a torn tail is the file
/// of the trades before it, and each of them reads back.
pub proof fn law_a_torn_tail_is_repaired(trades: Seq<Trade>, torn: Seq<u8>)
    requires
        torn.len() < 40,
    ensures
        ({
            let file = file_of(trades) + torn;
            let count = file.len() as int / 40;
            &&& count == trades.len()
            &&& file.take(40 * count) == file_of(trades)
            &&& forall|i: int|
                0 <= i < count ==> trade_of(#[trigger] record_in(file, i)) == Ok::<
                    Trade,
                    RecordError,
                >(trades[i])
            &&& forall|i: int|
                0 <= i < count ==> signed_at(#[trigger] record_in(file, i), 0) == trades[i].ts.0
        }),
{
    lemma_file_len(trades);
    let file = file_of(trades) + torn;
    assert(file.take(40 * (file.len() as int / 40)) =~= file_of(trades));
    assert forall|i: int| 0 <= i < trades.len() implies trade_of(#[trigger] record_in(file, i))
        == Ok::<Trade, RecordError>(trades[i]) && signed_at(record_in(file, i), 0)
        == trades[i].ts.0 by {
        lemma_records_in(trades, i);
        law_records_read_back(trades[i]);
        assert(record_in(file, i) =~= record_in(file_of(trades), i));
    }
}

/// What a sequential read of a file gives, and whether it came upon a record at
/// or after its end. A record that cannot be decoded ends it.
pub open spec fn read_on(v: ScanView, file: Seq<u8>) -> (Seq<Trade>, bool)
    decreases v.end - v.next,
{
    if v.stopped || v.next >= v.end {
        (Seq::<Trade>::empty(), v.stopped)
    } else {
        let record = record_in(file, v.next as int);
        match v.outcome(record) {
            Ok(Some(trade)) => {
                let rest = read_on(ScanView { next: (v.next + 1) as u64, ..v }, file);
                (seq![trade] + rest.0, rest.1)
            },
            _ => (Seq::<Trade>::empty(), v.moved(record).stopped),
        }
    }
}

proof fn lemma_read_on(trades: Seq<Trade>, v: ScanView)
    requires
        v.next <= v.end,
        v.end == trades.len(),
        !v.stopped,
    ensures
        ({
            let n = count_before(trades.skip(v.next as int), v.until) as int;
            &&& n <= trades.len() - v.next
            &&& read_on(v, file_of(trades)) == (
                trades.subrange(v.next as int, v.next + n),
                v.next + n < trades.len(),
            )
        }),
    decreases v.end - v.next,
{
    let at = v.next as int;
    let tail = trades.skip(at);
    if at < trades.len() {
        lemma_records_in(trades, at);
        law_records_read_back(trades[at]);
        if trades[at].ts.0 < v.until.0 {
            let next = ScanView { next: (v.next + 1) as u64, ..v };
            lemma_read_on(trades, next);
            assert(tail.drop_first() =~= trades.skip(at + 1));
            let n = count_before(trades.skip(at + 1), v.until) as int;
            assert(seq![trades[at]] + trades.subrange(at + 1, at + 1 + n) =~= trades.subrange(
                at,
                at + 1 + n,
            ));
        } else {
            assert(trades.subrange(at, at) =~= Seq::<Trade>::empty());
        }
    } else {
        assert(trades.subrange(at, at) =~= Seq::<Trade>::empty());
    }
}

/// Reading a segment file from the bound of a range gives the stored trades of
/// that range, and tells whether later segments can hold more of it.
pub proof fn law_a_read_gives_the_segment(trades: Seq<Trade>, from: Ts, to: Ts)
    requires
        ordered(trades),
        trades.len() <= u64::MAX,
    ensures
        read_on(
            ScanView {
                next: count_before(trades, from) as u64,
                end: trades.len() as u64,
                until: to,
                stopped: false,
            },
            file_of(trades),
        ) == (read_segment(trades, from, to), segment_reaches(trades, from, to)),
{
    lemma_count_before(trades, from);
    lemma_read_on(
        trades,
        ScanView {
            next: count_before(trades, from) as u64,
            end: trades.len() as u64,
            until: to,
            stopped: false,
        },
    );
}

/// Where a search ends that looks the timestamps up in a file.
pub open spec fn searched(v: SearchView, file: Seq<u8>) -> u64
    decreases v.hi - v.lo,
{
    if v.lo >= v.hi {
        v.lo
    } else {
        searched(v.narrowed(Ts(signed_at(record_in(file, v.middle()), 0) as i64)), file)
    }
}

proof fn lemma_searched(v: SearchView, trades: Seq<Trade>)
    requires
        ordered(trades),
        v.brackets(trades),
    ensures
        searched(v, file_of(trades)) == count_before(trades, v.ts),
    decreases v.hi - v.lo,
{
    if v.lo < v.hi {
        let at = v.middle();
        lemma_records_in(trades, at);
        law_records_read_back(trades[at]);
        law_search_narrows(v, trades, trades[at].ts);
        lemma_searched(v.narrowed(trades[at].ts), trades);
    }
}

/// What a range query gives that takes its steps on the files of a store: find
/// the next segment that may hold something, search its file for the start of the
/// range, read on from there, and go to the next segment unless the end of the
/// range was met.
pub open spec fn queried(
    store: StoreView,
    files: Seq<Seq<u8>>,
    at: int,
    from: Ts,
    to: Ts,
) -> Seq<Trade>
    decreases files.len() - at,
{
    match store.next_segment(at, from, to) {
        None => Seq::<Trade>::empty(),
        Some(i) => if !(at <= i < files.len()) {
            Seq::<Trade>::empty()
        } else {
            let segment = store.segments[i];
            let start = searched(segment.search_for(from), files[i]);
            let read = read_on(segment.scan_at(start, to), files[i]);
            if read.1 {
                read.0
            } else {
                read.0 + queried(store, files, i + 1, from, to)
            }
        },
    }
}

proof fn lemma_queried(
    store: StoreView,
    contents: Seq<Seq<Trade>>,
    files: Seq<Seq<u8>>,
    at: int,
    from: Ts,
    to: Ts,
)
    requires
        describes_all(store, contents),
        ordered(history(contents)),
        files.len() == contents.len(),
        forall|i: int| 0 <= i < contents.len() ==> #[trigger] files[i] == file_of(contents[i]),
    ensures
        queried(store, files, at, from, to) == scanned(store, contents, at, from, to),
    decreases contents.len() - at,
{
    if let Some(i) = store.next_segment(at, from, to) {
        if at <= i < contents.len() {
            lemma_next_segment(store, at, from, to);
            if 0 <= i {
                let trades = contents[i];
                let segment = store.segments[i];
                assert(segment.describes(trades));
                assert(files[i] == file_of(trades));
                lemma_part_ordered(contents, i);
                lemma_search_brackets(segment, trades, from);
                lemma_searched(segment.search_for(from), trades);
                lemma_count_before(trades, from);
                law_a_read_gives_the_segment(trades, from, to);
                lemma_queried(store, contents, files, i + 1, from, to);
            }
        }
    }
}

proof fn lemma_part_ordered(contents: Seq<Seq<Trade>>, i: int)
    requires
        ordered(history(contents)),
        0 <= i < contents.len(),
    ensures
        ordered(contents[i]),
{
    lemma_history_split(contents, i);
    let left = contents.skip(i);
    lemma_history_first(left);
    let a = history(contents.take(i)).len() as int;
    let all = history(contents);
    assert(left[0] == contents[i]);
    assert(contents[i] =~= all.subrange(a, a + contents[i].len()));
    lemma_ordered_part(all, a, a + contents[i].len());
}

/// A range query that takes its steps on the files of a store visits each stored
/// trade with `from <= ts < to` once and in time order, and nothing else; nothing
/// at all where the range is empty.
pub proof fn law_queries_read_the_files(
    store: StoreView,
    contents: Seq<Seq<Trade>>,
    files: Seq<Seq<u8>>,
    from: Ts,
    to: Ts,
)
    requires
        describes_all(store, contents),
        ordered(history(contents)),
        files.len() == contents.len(),
        forall|i: int| 0 <= i < contents.len() ==> #[trigger] files[i] == file_of(contents[i]),
    ensures
        queried(store, files, 0, from, to) == within(history(contents), from, to),
        from.0 >= to.0 ==> queried(store, files, 0, from, to).len() == 0,
{
    lemma_queried(store, contents, files, 0, from, to);
    law_range_queries_are_exact(store, contents, from, to);
    if from.0 >= to.0 {
        lemma_within_none(history(contents), from, to);
    }
}

/// Whether a trade of a batch is older than the one before it, which for the
/// first is the last one stored.
pub open spec fn steps_back(past: Seq<Trade>, trades: Seq<Trade>, i: int) -> bool {
    if i > 0 {
        trades[i].ts.0 < trades[i - 1].ts.0
    } else {
        past.len() > 0 && trades[i].ts.0 < past.last().ts.0
    }
}

pub proof fn lemma_refusal_means(store: StoreView, past: Seq<Trade>, trades: Seq<Trade>)
    requires
        past.len() == store.total,
        store.total > 0 ==> past.last().ts == store.last_ts,
    ensures
        batch_refusal(store, trades) is Some <==> exists|i: int|
            0 <= i < trades.len() && #[trigger] steps_back(past, trades, i),
        batch_refusal(store, trades) is Some ==> batch_refusal(store, trades)->0 is OutOfOrder,
    decreases trades.len(),
{
    if trades.len() > 0 {
        let before = trades.drop_last();
        let last = trades.len() - 1;
        lemma_refusal_means(store, past, before);
        assert forall|i: int| 0 <= i < before.len() implies steps_back(past, before, i)
            == #[trigger] steps_back(past, trades, i) by {}
        if batch_refusal(store, before) is Some {
            let i = choose|i: int| 0 <= i < before.len() && #[trigger] steps_back(past, before, i);
            assert(steps_back(past, trades, i));
        } else {
            assert forall|i: int| 0 <= i < last implies !#[trigger] steps_back(past, trades, i) by {
                assert(!steps_back(past, before, i));
            }
            assert(batch_refusal(store, trades) is Some <==> steps_back(past, trades, last));
        }
    }
}

/// A batch is refused if and only if one of its trades is older than the one
/// before it, the last stored trade before the first. One that is accepted is
/// read back whole: a full read gives the old history followed by the batch, and
/// the store counts both. Accepting or refusing writes nothing by itself, so a
/// refused batch leaves the store as it was.
pub proof fn law_an_accepted_batch_is_read_back(
    store: StoreView,
    contents: Seq<Seq<Trade>>,
    trades: Seq<Trade>,
)
    requires
        store.wf(),
        describes_all(store, contents),
        ordered(history(contents)),
        trades.len() <= usize::MAX,
        store.total + trades.len() <= u64::MAX,
        has_numbers(store, trades, 0),
        store.last_ts.0 < i64::MAX,
        forall|i: int| 0 <= i < trades.len() ==> (#[trigger] trades[i]).ts.0 < i64::MAX,
    ensures
        batch_refusal(store, trades) is Some <==> exists|i: int|
            0 <= i < trades.len() && #[trigger] steps_back(history(contents), trades, i),
        batch_refusal(store, trades) is Some ==> batch_refusal(store, trades)->0 is OutOfOrder,
        batch_refusal(store, trades) is None ==> ({
            let after = after_batch(store, trades, 0);
            let held = contents_after(store, contents, trades, 0);
            &&& after.wf()
            &&& describes_all(after, held)
            &&& after.total == store.total + trades.len()
            &&& history(held) == history(contents) + trades
            &&& after.total > 0 ==> earliest(after.segments) is Some && scanned(
                after,
                held,
                0,
                earliest(after.segments)->0,
                Ts((after.last_ts.0 + 1) as i64),
            ) == history(contents) + trades
        }),
{
    lemma_last_of_history(store, contents);
    lemma_refusal_means(store, history(contents), trades);
    if batch_refusal(store, trades) is None {
        let after = after_batch(store, trades, 0);
        let held = contents_after(store, contents, trades, 0);
        law_a_batch_extends_history(store, contents, trades, 0);
        assert(trades.skip(0) =~= trades);
        law_accepted_batches_keep_order(store, contents, trades);
        lemma_last_of_history(after, held);
        let all = history(contents) + trades;
        if after.total > 0 {
            if trades.len() > 0 {
                assert(all.last() == trades[trades.len() - 1]);
            } else {
                assert(all =~= history(contents));
            }
            law_reading_all_gives_everything(after, held);
        }
    }
}

} // verus!
