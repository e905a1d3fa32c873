//! The tick store: which segment takes which trades, and which segments a range
//! query reads.
//!
//! # Guarantees
//!
//! - Records are stored in non-decreasing timestamp order. Out-of-order
//!   appends are rejected rather than accepted and silently unsearchable.
//! - A torn final record is repaired on the next open.
//! - Range queries are `O(log n)` seeks plus a sequential read of the matched
//!   span, with no index file to corrupt or rebuild.

use crate::primitives::market::Trade;
use crate::primitives::time::Ts;
use crate::store::error::StoreError;
use crate::store::segment::Segment;
use crate::text::{parse_unsigned, trim_chars};
use vstd::prelude::*;

verus! {

use crate::store::segment::{empty_segment, SegmentView};
use crate::text::{trimmed, unsigned_text};

/// On-disk format version, written to the marker file at creation.
pub const FORMAT_VERSION: u32 = 1;

/// Records per segment before rolling to a new file.
///
/// A million 40-byte records is a 40 MB file: small enough that a corrupt
/// segment loses a bounded amount of history, large enough that a busy day
/// does not sprawl into thousands of files.
pub const DEFAULT_SEGMENT_RECORDS: u64 = 1_000_000;

/// What a store knows of its segments.
#[verifier::ext_equal]
pub struct StoreView {
    pub segments: Seq<SegmentView>,
    pub segment_records: u64,
    pub last_ts: Ts,
    pub total: u64,
}

/// What is known of some segments.
pub open spec fn views(segments: Seq<Segment>) -> Seq<SegmentView> {
    Seq::new(segments.len(), |i: int| segments[i]@)
}

/// The number of records in some segments.
pub open spec fn record_total(segments: Seq<SegmentView>) -> int
    decreases segments.len(),
{
    if segments.len() == 0 {
        0
    } else {
        record_total(segments.drop_last()) + segments.last().records
    }
}

/// The timestamp of the earliest record in some segments, which lie in time
/// order. A segment without records has none.
pub open spec fn earliest(segments: Seq<SegmentView>) -> Option<Ts>
    decreases segments.len(),
{
    if segments.len() == 0 {
        None
    } else if segments[0].records > 0 {
        Some(segments[0].first_ts)
    } else {
        earliest(segments.skip(1))
    }
}

/// A segment put in its place: behind every one that is not numbered higher.
pub open spec fn placed_segment(segments: Seq<SegmentView>, segment: SegmentView) -> Seq<
    SegmentView,
>
    decreases segments.len(),
{
    if segments.len() == 0 || segments.last().index <= segment.index {
        segments.push(segment)
    } else {
        placed_segment(segments.drop_last(), segment).push(segments.last())
    }
}

/// Segments in the order of their numbers; those with the same number keep
/// their order.
pub open spec fn numbered(segments: Seq<SegmentView>) -> Seq<SegmentView>
    decreases segments.len(),
{
    if segments.len() == 0 {
        segments
    } else {
        placed_segment(numbered(segments.drop_last()), segments.last())
    }
}

/// Segments without the empty ones at the end.
pub open spec fn without_empty_tail(segments: Seq<SegmentView>) -> Seq<SegmentView>
    decreases segments.len(),
{
    if segments.len() > 0 && segments.last().records == 0 {
        without_empty_tail(segments.drop_last())
    } else {
        segments
    }
}

/// Whether a marker text names this format.
pub open spec fn marker_refusal(text: Seq<char>) -> Option<StoreError> {
    match unsigned_text(trimmed(text), u32::MAX as nat) {
        None => Some(StoreError::NotAStore),
        Some(found) => if found == FORMAT_VERSION {
            None
        } else {
            Some(StoreError::UnsupportedVersion { found: found as u32, expected: FORMAT_VERSION })
        },
    }
}

/// Why a batch is refused: the first trade that is older than the one before
/// it, or than the last stored one.
pub open spec fn batch_refusal(store: StoreView, trades: Seq<Trade>) -> Option<StoreError>
    decreases trades.len(),
{
    if trades.len() == 0 {
        None
    } else {
        match batch_refusal(store, trades.drop_last()) {
            Some(e) => Some(e),
            None => {
                let n = trades.len();
                let previous = if n > 1 {
                    trades[n - 2].ts
                } else {
                    store.last_ts
                };
                if (store.total > 0 || n > 1) && trades.last().ts.0 < previous.0 {
                    Some(StoreError::OutOfOrder { received: trades.last().ts, last: previous })
                } else {
                    None
                }
            },
        }
    }
}

/// One write of a batch: the trades `from..to` go to the end of a segment.
#[derive(Debug, Clone, Copy, PartialEq, Eq, Structural)]
pub struct Write {
    /// The segment to append to.
    pub index: u32,
    /// Whether that segment has to be created first.
    pub create: bool,
    /// The first trade of the batch to write.
    pub from: usize,
    /// The trade of the batch to stop before.
    pub to: usize,
    /// Whether the segment is full after this write.
    pub full: bool,
}

impl StoreView {
    /// Whether the next write opens a segment.
    pub open spec fn needs_segment(self) -> bool {
        self.segments.len() == 0 || self.segments.last().records >= self.segment_records
    }

    /// The number of the segment that the next write goes to.
    pub open spec fn next_index(self) -> int {
        if self.segments.len() == 0 {
            0
        } else if self.needs_segment() {
            self.segments.last().index + 1
        } else {
            self.segments.last().index as int
        }
    }

    /// How many records that segment still takes.
    pub open spec fn room(self) -> int {
        if self.needs_segment() {
            self.segment_records as int
        } else {
            self.segment_records - self.segments.last().records
        }
    }

    /// The next write of a batch of `n` trades of which `at` are written.
    pub open spec fn next_write(self, at: int, n: int) -> Write {
        let take = if self.room() < n - at {
            self.room()
        } else {
            n - at
        };
        Write {
            index: self.next_index() as u32,
            create: self.needs_segment(),
            from: at as usize,
            to: (at + take) as usize,
            full: self.room() <= take,
        }
    }

    /// The store once a write is done.
    pub open spec fn written(self, write: Write, trades: Seq<Trade>) -> StoreView {
        let before = if write.create {
            self.segments.push(empty_segment(write.index))
        } else {
            self.segments
        };
        let count = write.to - write.from;
        let first = trades[write.from as int].ts;
        let last = trades[write.to - 1].ts;
        StoreView {
            segments: before.update(
                before.len() - 1,
                before.last().appended(count, first, last),
            ),
            total: (self.total + count) as u64,
            last_ts: last,
            ..self
        }
    }

    /// What holds of every store: segments take at least one record, and the
    /// total counts them all.
    pub open spec fn wf(self) -> bool {
        &&& self.segment_records > 0
        &&& self.total == record_total(self.segments)
        &&& self.segments.len() > 0 ==> self.last_ts == self.segments.last().last_ts
            && self.segments.last().records > 0
        &&& self.segments.len() == 0 ==> self.last_ts == Ts(0)
    }

    /// The next segment from `at` on that may hold records in `[from, to)`,
    /// which none does where the range is empty. Segments are in time order, so
    /// the first with records that start at or after `to` ends the search.
    pub open spec fn next_segment(self, at: int, from: Ts, to: Ts) -> Option<int>
        decreases self.segments.len() - at,
    {
        if at < 0 || at >= self.segments.len() || from.0 >= to.0 {
            None
        } else if self.segments[at].meets(from, to) {
            Some(at)
        } else if self.segments[at].records > 0 && self.segments[at].first_ts.0 >= to.0 {
            None
        } else {
            self.next_segment(at + 1, from, to)
        }
    }
}

/// Append-only tick history for one instrument.
#[derive(Debug)]
pub struct TickStore {
    segments: Vec<Segment>,
    segment_records: u64,
    last_ts: Ts,
    total: u64,
}

impl View for TickStore {
    type V = StoreView;

    closed spec fn view(&self) -> StoreView {
        StoreView {
            segments: views(self.segments@),
            segment_records: self.segment_records,
            last_ts: self.last_ts,
            total: self.total,
        }
    }
}

fn place_segment(segments: &mut Vec<Segment>, segment: Segment)
    ensures
        views(final(segments)@) == placed_segment(views(old(segments)@), segment@),
        final(segments)@.len() == old(segments)@.len() + 1,
    decreases old(segments)@.len(),
{
    let ghost before = segments@;
    let n: usize = segments.len();
    if n == 0 || segments[n - 1].index() <= segment.index() {
        segments.push(segment);
        assert(views(segments@) =~= views(before).push(segment@));
    } else {
        let last = segments[n - 1];
        segments.pop();
        assert(views(segments@) =~= views(before).drop_last());
        place_segment(segments, segment);
        let ghost mid = segments@;
        segments.push(last);
        assert(views(segments@) =~= views(mid).push(last@));
    }
}

impl TickStore {
    /// Open the store over the segments that were found, in any order.
    ///
    /// A crash can leave empty trailing segments; they are harmless, but
    /// dropping them keeps the last timestamp simple. They are handed back, last
    /// first, for their files to be removed.
    pub fn open_dir(found: &[Segment]) -> (r: (Self, Vec<Segment>))
        requires
            record_total(without_empty_tail(numbered(views(found@)))) <= u64::MAX,
        ensures
            ({
                let all = numbered(views(found@));
                let kept = without_empty_tail(all);
                &&& r.0@ == (StoreView {
                    segments: kept,
                    segment_records: DEFAULT_SEGMENT_RECORDS,
                    last_ts: if kept.len() > 0 {
                        kept.last().last_ts
                    } else {
                        Ts(0)
                    },
                    total: record_total(kept) as u64,
                })
                &&& r.0@.wf()
                &&& views(r.1@) == all.skip(kept.len() as int).reverse()
            }),
    {
        let mut segments: Vec<Segment> = Vec::new();
        let mut i: usize = 0;
        let ghost given = views(found@);
        assert(given.take(0) =~= Seq::<SegmentView>::empty());
        assert(views(segments@) =~= Seq::<SegmentView>::empty());
        while i < found.len()
            invariant
                i <= found@.len(),
                given == views(found@),
                views(segments@) == numbered(given.take(i as int)),
            decreases found@.len() - i,
        {
            assert(given.take(i + 1).drop_last() =~= given.take(i as int));
            place_segment(&mut segments, found[i]);
            i += 1;
        }
        assert(given.take(i as int) =~= given);
        let ghost all = views(segments@);
        let mut removed: Vec<Segment> = Vec::new();
        assert(views(removed@) =~= all.skip(all.len() as int).reverse());
        while segments.len() > 0 && segments[segments.len() - 1].is_empty()
            invariant
                all.len() >= segments@.len(),
                views(segments@) == all.take(segments@.len() as int),
                without_empty_tail(views(segments@)) == without_empty_tail(all),
                views(removed@) == all.skip(segments@.len() as int).reverse(),
            decreases segments@.len(),
        {
            let n: usize = segments.len();
            let last = segments[n - 1];
            assert(last@ == views(segments@).last());
            let ghost before = segments@;
            let ghost gone = removed@;
            segments.pop();
            removed.push(last);
            assert(views(segments@) =~= views(before).drop_last());
            assert(views(segments@) =~= all.take(segments@.len() as int));
            assert(views(removed@) =~= views(gone).push(last@));
            assert(views(removed@) =~= all.skip(segments@.len() as int).reverse());
        }
        let ghost kept = views(segments@);
        assert(kept == without_empty_tail(all)) by {
            if segments@.len() > 0 {
                assert(kept.last() == segments@[segments@.len() - 1]@);
            }
        }
        let mut total: u64 = 0;
        let mut k: usize = 0;
        assert(kept.take(0) =~= Seq::<SegmentView>::empty());
        while k < segments.len()
            invariant
                k <= segments@.len(),
                kept == views(segments@),
                record_total(kept) <= u64::MAX,
                total == record_total(kept.take(k as int)),
            decreases segments@.len() - k,
        {
            assert(kept.take(k + 1).drop_last() =~= kept.take(k as int));
            assert(kept.take(k + 1).last() == segments@[k as int]@);
            proof {
                lemma_total_grows(kept, k + 1);
            }
            total = total + segments[k].len();
            k += 1;
        }
        assert(kept.take(k as int) =~= kept);
        let last_ts = if segments.len() > 0 {
            segments[segments.len() - 1].last_ts()
        } else {
            Ts(0)
        };
        let store = TickStore {
            segments,
            segment_records: DEFAULT_SEGMENT_RECORDS,
            last_ts,
            total,
        };
        (store, removed)
    }

    /// Decide what the marker file says. `true` where there is none yet and it
    /// has to be written; a directory that already holds unrelated files is not
    /// claimed.
    pub fn check_marker(marker: Option<&str>, occupied: bool) -> (r: Result<bool, StoreError>)
        ensures
            match marker {
                Some(text) => match marker_refusal(text@) {
                    Some(e) => r == Err::<bool, StoreError>(e),
                    None => r == Ok::<bool, StoreError>(false),
                },
                None => if occupied {
                    r == Err::<bool, StoreError>(StoreError::NotAStore)
                } else {
                    r == Ok::<bool, StoreError>(true)
                },
            },
    {
        match marker {
            Some(text) => {
                let chars = trim_chars(text);
                match parse_unsigned(&chars, u32::MAX as u128) {
                    Some(found) => if found as u32 == FORMAT_VERSION {
                        Ok(false)
                    } else {
                        Err(
                            StoreError::UnsupportedVersion {
                                found: found as u32,
                                expected: FORMAT_VERSION,
                            },
                        )
                    },
                    None => Err(StoreError::NotAStore),
                }
            },
            None => if occupied {
                Err(StoreError::NotAStore)
            } else {
                Ok(true)
            },
        }
    }

    /// Override how many records a segment holds before rolling.
    pub fn with_segment_records(self, records: u64) -> (r: Self)
        requires
            self@.wf(),
            records > 0,
        ensures
            r@ == (StoreView { segment_records: records, ..self@ }),
            r@.wf(),
    {
        TickStore { segment_records: records, ..self }
    }

    /// Total records stored.
    pub fn len(&self) -> (r: u64)
        ensures
            r == self@.total,
    {
        self.total
    }

    /// Whether no record has been stored.
    pub fn is_empty(&self) -> (r: bool)
        ensures
            r == (self@.total == 0),
    {
        self.total == 0
    }

    /// Number of segment files.
    pub fn segment_count(&self) -> (r: usize)
        ensures
            r == self@.segments.len(),
    {
        self.segments.len()
    }

    /// What is known of one segment.
    pub fn segment(&self, at: usize) -> (r: Segment)
        requires
            at < self@.segments.len(),
        ensures
            r@ == self@.segments[at as int],
    {
        self.segments[at]
    }

    /// Timestamp of the earliest stored record.
    pub fn first_ts(&self) -> (r: Option<Ts>)
        ensures
            r == earliest(self@.segments),
    {
        let ghost all = views(self.segments@);
        assert(all.skip(0) =~= all);
        let mut i: usize = 0;
        while i < self.segments.len()
            invariant
                i <= self.segments@.len(),
                all == views(self.segments@),
                all == self@.segments,
                earliest(all.skip(i as int)) == earliest(all),
            decreases self.segments@.len() - i,
        {
            let segment = self.segments[i];
            assert(all.skip(i as int)[0] == segment@);
            assert(all.skip(i as int).skip(1) =~= all.skip(i + 1));
            if !segment.is_empty() {
                return Some(segment.first_ts());
            }
            i += 1;
        }
        None
    }

    /// Timestamp of the latest stored record.
    pub fn last_ts(&self) -> (r: Option<Ts>)
        ensures
            r == if self@.total == 0 {
                None
            } else {
                Some(self@.last_ts)
            },
    {
        if self.total == 0 {
            None
        } else {
            Some(self.last_ts)
        }
    }

    /// Check a batch of trades, which must be in non-decreasing time order.
    ///
    /// The batch is validated before anything is written, so a bad batch
    /// leaves the store exactly as it was rather than half-applied.
    pub fn append_batch(&self, trades: &[Trade]) -> (r: Result<(), StoreError>)
        ensures
            match batch_refusal(self@, trades@) {
                Some(e) => r == Err::<(), StoreError>(e),
                None => r is Ok,
            },
    {
        let mut previous = self.last_ts;
        let has_history = self.total > 0;
        let mut i: usize = 0;
        assert(trades@.take(0) =~= Seq::<Trade>::empty());
        while i < trades.len()
            invariant
                i <= trades@.len(),
                has_history == (self@.total > 0),
                previous == if i > 0 {
                    trades@[i - 1].ts
                } else {
                    self@.last_ts
                },
                batch_refusal(self@, trades@.take(i as int)) is None,
            decreases trades@.len() - i,
        {
            let ts = trades[i].ts;
            let ghost next = trades@.take(i + 1);
            assert(next.drop_last() =~= trades@.take(i as int));
            assert(next.last() == trades@[i as int]);
            if i > 0 {
                assert(next[next.len() - 2] == trades@[i - 1]);
            }
            if (has_history || i > 0) && ts.0 < previous.0 {
                proof {
                    lemma_refusal_is_kept(self@, trades@, i + 1);
                }
                return Err(StoreError::OutOfOrder { received: ts, last: previous });
            }
            previous = ts;
            i += 1;
        }
        assert(trades@.take(i as int) =~= trades@);
        Ok(())
    }

    /// The next write of a batch of `n` trades, of which the first `at` are
    /// written: into the last segment while it has room, else into a new one.
    pub fn next_write(&self, at: usize, n: usize) -> (r: Write)
        requires
            self@.wf(),
            at < n,
            self@.next_index() <= u32::MAX,
        ensures
            r == self@.next_write(at as int, n as int),
            r.from == at < r.to <= n,
    {
        let count: usize = self.segments.len();
        let create = count == 0 || self.segments[count - 1].len() >= self.segment_records;
        assert(count > 0 ==> self@.segments.last() == self.segments@[count - 1]@);
        let index: u32 = if count == 0 {
            0
        } else if create {
            self.segments[count - 1].index() + 1
        } else {
            self.segments[count - 1].index()
        };
        let room: u64 = if create {
            self.segment_records
        } else {
            self.segment_records - self.segments[count - 1].len()
        };
        let left: usize = n - at;
        let take: usize = if room < left as u64 {
            room as usize
        } else {
            left
        };
        Write { index, create, from: at, to: at + take, full: room <= take as u64 }
    }

    /// Account for a write that is done.
    pub fn commit(&mut self, write: &Write, trades: &[Trade])
        requires
            old(self)@.wf(),
            write.from < write.to <= trades@.len(),
            write.create || old(self)@.segments.len() > 0,
            old(self)@.total + (write.to - write.from) <= u64::MAX,
        ensures
            final(self)@ == old(self)@.written(*write, trades@),
            final(self)@.wf(),
    {
        let ghost before = self@;
        if write.create {
            self.segments.push(Segment::create(write.index));
        }
        let ghost mid = views(self.segments@);
        assert(mid =~= if write.create {
            before.segments.push(empty_segment(write.index))
        } else {
            before.segments
        });
        let n: usize = self.segments.len();
        let count: u64 = (write.to - write.from) as u64;
        let first = trades[write.from].ts;
        let last = trades[write.to - 1].ts;
        let mut segment = self.segments[n - 1];
        assert(segment@ == mid.last());
        proof {
            assert(record_total(mid) == before.total) by {
                if write.create {
                    assert(mid.drop_last() =~= before.segments);
                }
            }
            lemma_total_natural(mid.drop_last());
            assert(record_total(mid) == record_total(mid.drop_last()) + mid.last().records);
        }
        segment.note_appended(count, first, last);
        self.segments.set(n - 1, segment);
        self.total = self.total + count;
        self.last_ts = last;
        proof {
            let after = views(self.segments@);
            assert(after =~= mid.update(n - 1, mid.last().appended(count as int, first, last)));
            assert(after.drop_last() =~= mid.drop_last());
            assert(self@ =~= before.written(*write, trades@));
        }
    }

    /// The next segment from `at` on to read for the range `[from, to)`.
    pub fn next_segment(&self, at: usize, from: Ts, to: Ts) -> (r: Option<usize>)
        ensures
            match self@.next_segment(at as int, from, to) {
                Some(i) => r == Some(i as usize) && at <= i < self@.segments.len(),
                None => r is None,
            },
    {
        if from.0 >= to.0 {
            return None;
        }
        let mut i: usize = at;
        while i < self.segments.len()
            invariant
                at <= i,
                from.0 < to.0,
                self@.segments == views(self.segments@),
                self@.next_segment(i as int, from, to) == self@.next_segment(
                    at as int,
                    from,
                    to,
                ),
            decreases self.segments@.len() - i,
        {
            let segment = self.segments[i];
            assert(segment@ == self@.segments[i as int]);
            if segment.overlaps(from, to) {
                return Some(i);
            }
            if !segment.is_empty() && segment.first_ts().0 >= to.0 {
                return None;
            }
            i += 1;
        }
        None
    }

    /// The range that holds every stored trade, `None` for an empty store.
    pub fn read_all(&self) -> (r: Option<(Ts, Ts)>)
        requires
            earliest(self@.segments) is Some && self@.total > 0 ==> self@.last_ts.0 < i64::MAX,
        ensures
            r == match earliest(self@.segments) {
                Some(first) => if self@.total > 0 {
                    Some((first, Ts((self@.last_ts.0 + 1) as i64)))
                } else {
                    None
                },
                None => None,
            },
    {
        match (self.first_ts(), self.last_ts()) {
            (Some(first), Some(last)) => Some((first, Ts(last.0 + 1))),
            _ => None,
        }
    }
}

proof fn lemma_refusal_is_kept(store: StoreView, trades: Seq<Trade>, k: int)
    requires
        0 <= k <= trades.len(),
        batch_refusal(store, trades.take(k)) is Some,
    ensures
        batch_refusal(store, trades) == batch_refusal(store, trades.take(k)),
    decreases trades.len() - k,
{
    if k == trades.len() {
        assert(trades.take(k) =~= trades);
    } else {
        assert(trades.take(k + 1).drop_last() =~= trades.take(k));
        lemma_refusal_is_kept(store, trades, k + 1);
    }
}

proof fn lemma_total_natural(segments: Seq<SegmentView>)
    ensures
        record_total(segments) >= 0,
    decreases segments.len(),
{
    if segments.len() > 0 {
        lemma_total_natural(segments.drop_last());
    }
}

proof fn lemma_total_grows(segments: Seq<SegmentView>, k: int)
    requires
        0 <= k <= segments.len(),
    ensures
        record_total(segments.take(k)) <= record_total(segments),
    decreases segments.len(),
{
    if k == segments.len() {
        assert(segments.take(k) =~= segments);
    } else {
        lemma_total_grows(segments.drop_last(), k);
        assert(segments.drop_last().take(k) =~= segments.take(k));
    }
}

} // verus!
