//! A single segment: a contiguous, time-ordered run of tick records.

use crate::primitives::market::Trade;
use crate::primitives::time::Ts;
use crate::store::error::StoreError;
use crate::store::record::{decode, decode_ts, RECORD_SIZE};
use crate::text::{chars_of, parse_unsigned, push_decimal, push_padded, stands_at};
use vstd::prelude::*;

verus! {

use crate::primitives::fixed::{lemma_padded_digits, pow10};
use crate::store::record::{signed_at, trade_of};
use crate::text::{decimal, padded, unsigned_text};

/// Six digits at least, zeros in front.
pub open spec fn segment_digits(index: nat) -> Seq<char> {
    if index < 1_000_000 {
        padded(index, 6)
    } else {
        decimal(index)
    }
}

/// The filename of a segment.
pub open spec fn name_of(index: u32) -> Seq<char> {
    "seg-"@ + segment_digits(index as nat) + ".tick"@
}

/// The segment index in a filename.
pub open spec fn index_in(name: Seq<char>) -> Option<nat> {
    if name.len() >= 9 && name.take(4) == "seg-"@ && name.skip(name.len() - 5) == ".tick"@ {
        unsigned_text(name.subrange(4, name.len() - 5), u32::MAX as nat)
    } else {
        None
    }
}

/// Filename for segment `index`, zero-padded so a directory listing sorts
/// in the same order as the segment sequence.
pub fn segment_name(index: u32) -> (r: String)
    ensures
        r@ == name_of(index),
{
    let mut out = "seg-".to_owned();
    if index < 1_000_000 {
        push_padded(&mut out, index as u128, 6);
    } else {
        push_decimal(&mut out, index as u128);
    }
    out.append(".tick");
    out
}

/// Parse a segment index back out of a filename.
pub fn parse_segment_name(name: &str) -> (r: Option<u32>)
    ensures
        match r {
            Some(index) => index_in(name@) == Some(index as nat),
            None => index_in(name@) is None,
        },
{
    let chars = chars_of(name);
    proof {
        reveal_strlit("seg-");
        reveal_strlit(".tick");
    }
    let n: usize = chars.len();
    if n < 9 {
        return None;
    }
    let front = stands_at(&chars, 0, "seg-");
    let back = stands_at(&chars, n - 5, ".tick");
    assert(chars@.subrange(0, 4) =~= name@.take(4));
    assert(chars@.subrange(n - 5, n as int) =~= name@.skip(n - 5));
    if !front || !back {
        return None;
    }
    let mut middle: Vec<char> = Vec::new();
    let mut i: usize = 4;
    while i < n - 5
        invariant
            n == chars@.len(),
            n >= 9,
            4 <= i <= n - 5,
            middle@ == chars@.subrange(4, i as int),
        decreases n - 5 - i,
    {
        middle.push(chars[i]);
        i += 1;
        assert(middle@ =~= chars@.subrange(4, i as int));
    }
    match parse_unsigned(&middle, u32::MAX as u128) {
        Some(v) => Some(v as u32),
        None => None,
    }
}

/// A segment's filename gives its index back.
pub proof fn law_segment_names_read_back(index: u32)
    ensures
        index_in(name_of(index)) == Some(index as nat),
{
    reveal_strlit("seg-");
    reveal_strlit(".tick");
    let digits = segment_digits(index as nat);
    let name = name_of(index);
    if index < 1_000_000 {
        reveal_with_fuel(crate::primitives::fixed::pow10, 7);
        crate::primitives::fixed::lemma_padded_digits(index as nat, 6);
    } else {
        crate::text::lemma_decimal_number(index as nat);
    }
    assert(name.take(4) =~= "seg-"@);
    assert(name.skip(name.len() - 5) =~= ".tick"@);
    assert(name.subrange(4, name.len() - 5) =~= digits);
    assert(crate::text::digit(digits[0]));
}

/// Whether a directory listing puts one name before another: they agree up to a
/// place where the first ends or has the smaller character.
pub open spec fn lists_before(a: Seq<char>, b: Seq<char>) -> bool {
    exists|k: int|
        #![trigger a.take(k)]
        0 <= k <= a.len() && k < b.len() && a.take(k) == b.take(k) && (k == a.len() || a[k] < b[k])
}

proof fn lemma_padded_order(m: nat, n: nat, width: nat) -> (k: int)
    requires
        m < n,
        n < pow10(width),
    ensures
        padded(m, width).len() == width,
        padded(n, width).len() == width,
        0 <= k < width,
        padded(m, width).take(k) == padded(n, width).take(k),
        padded(m, width)[k] < padded(n, width)[k],
    decreases width,
{
    lemma_padded_digits(n, width);
    lemma_padded_digits(m, width);
    let less = (width - 1) as nat;
    assert(n / 10 < pow10(less));
    let (a, b) = (padded(m, width), padded(n, width));
    let (p, q) = (padded(m / 10, less), padded(n / 10, less));
    lemma_padded_digits(m / 10, less);
    lemma_padded_digits(n / 10, less);
    if m / 10 == n / 10 {
        assert(a.take(less as int) =~= b.take(less as int));
        less as int
    } else {
        let k = lemma_padded_order(m / 10, n / 10, less);
        assert(a.take(k) =~= p.take(k));
        assert(b.take(k) =~= q.take(k));
        k
    }
}

/// A directory listing puts segments in the order of their numbers, as long as
/// six digits hold them.
pub proof fn law_segment_names_sort_in_order(index: u32, later: u32)
    requires
        index < later < 1_000_000,
    ensures
        lists_before(name_of(index), name_of(later)),
{
    reveal_strlit("seg-");
    reveal_strlit(".tick");
    reveal_with_fuel(pow10, 7);
    let k = lemma_padded_order(index as nat, later as nat, 6);
    let (a, b) = (name_of(index), name_of(later));
    let (p, q) = (segment_digits(index as nat), segment_digits(later as nat));
    assert(a.take(4 + k) =~= "seg-"@ + p.take(k));
    assert(b.take(4 + k) =~= "seg-"@ + q.take(k));
    assert(a[4 + k] == p[k] && b[4 + k] == q[k]);
}

/// How many whole records fit into a file of `len` bytes.
pub fn record_count(len: u64) -> (r: u64)
    ensures
        r == len as int / 40,
{
    len / RECORD_SIZE as u64
}

/// The length a file of `len` bytes is cut back to.
///
/// A process killed mid-append leaves a partial record. Because records are
/// fixed width, the damage is always confined to the final one, and
/// truncating it back to a record boundary is a complete repair.
pub fn whole_len(len: u64) -> (r: u64)
    ensures
        r == len - len as int % 40,
        r == 40 * (len as int / 40),
{
    len - len % RECORD_SIZE as u64
}

/// What is known of one segment without reading it.
#[derive(Debug, Clone, Copy, PartialEq, Eq, Structural)]
pub struct Segment {
    index: u32,
    records: u64,
    first_ts: Ts,
    last_ts: Ts,
}

/// What is known of one segment without reading it.
pub struct SegmentView {
    pub index: u32,
    pub records: u64,
    pub first_ts: Ts,
    pub last_ts: Ts,
}

impl View for Segment {
    type V = SegmentView;

    closed spec fn view(&self) -> SegmentView {
        SegmentView {
            index: self.index,
            records: self.records,
            first_ts: self.first_ts,
            last_ts: self.last_ts,
        }
    }
}

/// A segment without records.
pub open spec fn empty_segment(index: u32) -> SegmentView {
    SegmentView { index, records: 0, first_ts: Ts(0), last_ts: Ts(0) }
}

impl SegmentView {
    /// Whether a segment could hold records in `[from, to)`.
    pub open spec fn meets(self, from: Ts, to: Ts) -> bool {
        self.records > 0 && self.first_ts.0 < to.0 && self.last_ts.0 >= from.0
    }

    /// Whether this is what is known of a segment with these records.
    pub open spec fn describes(self, trades: Seq<Trade>) -> bool {
        &&& self.records == trades.len()
        &&& trades.len() > 0 ==> self.first_ts == trades.first().ts && self.last_ts
            == trades.last().ts
        &&& trades.len() == 0 ==> self.first_ts == Ts(0) && self.last_ts == Ts(0)
    }

    /// The search for the first record at or after `ts`, narrowed by what is
    /// known without reading.
    pub open spec fn search_for(self, ts: Ts) -> SearchView {
        if self.records == 0 || ts.0 <= self.first_ts.0 {
            SearchView { ts, lo: 0, hi: 0 }
        } else if ts.0 > self.last_ts.0 {
            SearchView { ts, lo: self.records, hi: self.records }
        } else {
            SearchView { ts, lo: 0, hi: self.records }
        }
    }

    /// The read of the records from `start` on that are before `until`.
    pub open spec fn scan_at(self, start: u64, until: Ts) -> ScanView {
        ScanView {
            next: if start < self.records {
                start
            } else {
                self.records
            },
            end: self.records,
            until,
            stopped: false,
        }
    }

    /// The segment after an append.
    pub open spec fn appended(self, count: int, first_ts: Ts, last_ts: Ts) -> SegmentView {
        SegmentView {
            index: self.index,
            records: (self.records + count) as u64,
            first_ts: if self.records == 0 {
                first_ts
            } else {
                self.first_ts
            },
            last_ts,
        }
    }
}

/// Whether trades are in non-decreasing time order.
pub open spec fn ordered(trades: Seq<Trade>) -> bool {
    forall|i: int, j: int|
        0 <= i <= j < trades.len() ==> (#[trigger] trades[i]).ts.0 <= (#[trigger] trades[j]).ts.0
}

/// How many trades come before `ts`, in a list that is in time order.
pub open spec fn count_before(trades: Seq<Trade>, ts: Ts) -> nat
    decreases trades.len(),
{
    if trades.len() == 0 || trades[0].ts.0 >= ts.0 {
        0
    } else {
        1 + count_before(trades.drop_first(), ts)
    }
}

/// What the count means: everything in front is earlier, everything behind not.
pub proof fn lemma_count_before(trades: Seq<Trade>, ts: Ts)
    requires
        ordered(trades),
    ensures
        count_before(trades, ts) <= trades.len(),
        forall|i: int| 0 <= i < count_before(trades, ts) ==> (#[trigger] trades[i]).ts.0 < ts.0,
        forall|i: int|
            count_before(trades, ts) <= i < trades.len() ==> (#[trigger] trades[i]).ts.0 >= ts.0,
    decreases trades.len(),
{
    if trades.len() > 0 && trades[0].ts.0 < ts.0 {
        let rest = trades.drop_first();
        assert(ordered(rest)) by {
            assert forall|i: int, j: int| 0 <= i <= j < rest.len() implies (
            #[trigger] rest[i]).ts.0 <= (#[trigger] rest[j]).ts.0 by {
                assert(rest[i] == trades[i + 1]);
                assert(rest[j] == trades[j + 1]);
            }
        }
        lemma_count_before(rest, ts);
        assert forall|i: int| 0 <= i < count_before(trades, ts) implies (
        #[trigger] trades[i]).ts.0 < ts.0 by {
            if i > 0 {
                assert(rest[i - 1] == trades[i]);
            }
        }
        assert forall|i: int| count_before(trades, ts) <= i < trades.len() implies (
        #[trigger] trades[i]).ts.0 >= ts.0 by {
            assert(rest[i - 1] == trades[i]);
        }
    }
}

/// What is known of a segment without reading it narrows the search rightly.
pub proof fn lemma_search_brackets(segment: SegmentView, trades: Seq<Trade>, ts: Ts)
    requires
        ordered(trades),
        segment.describes(trades),
    ensures
        segment.search_for(ts).brackets(trades),
{
    lemma_count_before(trades, ts);
    let n = count_before(trades, ts);
    if trades.len() > 0 {
        if n > 0 {
            assert(trades[0].ts.0 < ts.0);
        }
        if n < trades.len() {
            assert(trades[trades.len() - 1].ts.0 >= ts.0);
        }
    }
}

impl Segment {
    /// A segment found on disk: its records, and the timestamps of the first
    /// and the last of them.
    pub fn open(index: u32, records: u64, first_ts: Ts, last_ts: Ts) -> (r: Self)
        ensures
            r@ == if records == 0 {
                empty_segment(index)
            } else {
                SegmentView { index, records, first_ts, last_ts }
            },
    {
        if records == 0 {
            Segment::create(index)
        } else {
            Segment { index, records, first_ts, last_ts }
        }
    }

    /// An empty segment.
    pub fn create(index: u32) -> (r: Self)
        ensures
            r@ == empty_segment(index),
    {
        Segment { index, records: 0, first_ts: Ts(0), last_ts: Ts(0) }
    }

    /// Sequence number of this segment.
    pub fn index(&self) -> (r: u32)
        ensures
            r == self@.index,
    {
        self.index
    }

    /// Number of complete records.
    pub fn len(&self) -> (r: u64)
        ensures
            r == self@.records,
    {
        self.records
    }

    /// Whether the segment holds no records.
    pub fn is_empty(&self) -> (r: bool)
        ensures
            r == (self@.records == 0),
    {
        self.records == 0
    }

    /// Timestamp of the first record.
    pub fn first_ts(&self) -> (r: Ts)
        ensures
            r == self@.first_ts,
    {
        self.first_ts
    }

    /// Timestamp of the last record.
    pub fn last_ts(&self) -> (r: Ts)
        ensures
            r == self@.last_ts,
    {
        self.last_ts
    }

    /// Whether this segment could hold records in `[from, to)`.
    pub fn overlaps(&self, from: Ts, to: Ts) -> (r: bool)
        ensures
            r == self@.meets(from, to),
    {
        self.records > 0 && self.first_ts.0 < to.0 && self.last_ts.0 >= from.0
    }

    /// Account for appended records.
    pub fn note_appended(&mut self, count: u64, first_ts: Ts, last_ts: Ts)
        requires
            old(self)@.records + count <= u64::MAX,
        ensures
            final(self)@ == old(self)@.appended(count as int, first_ts, last_ts),
    {
        if self.records == 0 {
            self.first_ts = first_ts;
        }
        self.records = self.records + count;
        self.last_ts = last_ts;
    }

    /// The byte offset of a record, or `None` if it is out of range.
    pub fn record_at(&self, index: u64) -> (r: Option<u64>)
        requires
            self@.records * 40 <= u64::MAX,
        ensures
            r == if index < self@.records {
                Some((index * 40) as u64)
            } else {
                None
            },
    {
        if index >= self.records {
            None
        } else {
            Some(index * RECORD_SIZE as u64)
        }
    }

    /// Start the search for the first record with a timestamp at or after `ts`.
    ///
    /// It ends at [`Segment::len`] when every record predates `ts`.
    pub fn lower_bound(&self, ts: Ts) -> (r: BoundSearch)
        ensures
            r@ == self@.search_for(ts),
            r@.lo <= r@.hi <= self@.records,
            forall|trades: Seq<Trade>|
                #![trigger ordered(trades)]
                ordered(trades) && self@.describes(trades) ==> r@.brackets(trades),
    {
        let (lo, hi): (u64, u64) = if self.records == 0 || ts.0 <= self.first_ts.0 {
            (0, 0)
        } else if ts.0 > self.last_ts.0 {
            (self.records, self.records)
        } else {
            (0, self.records)
        };
        let search = BoundSearch { ts, lo, hi };
        assert forall|trades: Seq<Trade>|
            #![trigger ordered(trades)]
            ordered(trades) && self@.describes(trades) implies search@.brackets(trades) by {
            lemma_search_brackets(self@, trades, ts);
        }
        search
    }

    /// Start reading records from `start` while their timestamp is below
    /// `until`.
    pub fn scan_from(&self, start: u64, until: Ts) -> (r: RecordScan)
        ensures
            r@ == self@.scan_at(start, until),
    {
        RecordScan {
            next: if start < self.records {
                start
            } else {
                self.records
            },
            end: self.records,
            until,
            stopped: false,
        }
    }
}

/// A binary search that asks for timestamps one at a time.
#[derive(Debug, Clone, Copy, PartialEq, Eq, Structural)]
pub struct BoundSearch {
    ts: Ts,
    lo: u64,
    hi: u64,
}

/// How far a search has come: the answer lies between `lo` and `hi`.
pub struct SearchView {
    pub ts: Ts,
    pub lo: u64,
    pub hi: u64,
}

impl View for BoundSearch {
    type V = SearchView;

    closed spec fn view(&self) -> SearchView {
        SearchView { ts: self.ts, lo: self.lo, hi: self.hi }
    }
}

impl SearchView {
    /// The record to look at next.
    pub open spec fn middle(self) -> int {
        self.lo + (self.hi - self.lo) / 2
    }

    /// Whether the answer for these records lies between the ends.
    pub open spec fn brackets(self, trades: Seq<Trade>) -> bool {
        self.lo <= count_before(trades, self.ts) <= self.hi <= trades.len()
    }

    /// The search after the timestamp in the middle was seen.
    pub open spec fn narrowed(self, seen: Ts) -> SearchView {
        if seen.0 < self.ts.0 {
            SearchView { lo: (self.middle() + 1) as u64, ..self }
        } else {
            SearchView { hi: self.middle() as u64, ..self }
        }
    }
}

/// Seeing the right timestamp keeps the answer between the ends, and brings
/// them closer.
pub proof fn law_search_narrows(search: SearchView, trades: Seq<Trade>, seen: Ts)
    requires
        ordered(trades),
        search.brackets(trades),
        search.lo < search.hi,
        seen == trades[search.middle()].ts,
    ensures
        search.narrowed(seen).brackets(trades),
        search.narrowed(seen).hi - search.narrowed(seen).lo < search.hi - search.lo,
{
    lemma_count_before(trades, search.ts);
}

impl BoundSearch {
    /// The record whose timestamp to look at, or `None` once the answer is
    /// known.
    pub fn probe(&self) -> (r: Option<u64>)
        ensures
            r == if self@.lo < self@.hi {
                Some(self@.middle() as u64)
            } else {
                None
            },
    {
        if self.lo < self.hi {
            Some(self.lo + (self.hi - self.lo) / 2)
        } else {
            None
        }
    }

    /// Take the timestamp that was asked for.
    pub fn observe(&mut self, seen: Ts)
        requires
            old(self)@.lo < old(self)@.hi,
        ensures
            final(self)@ == old(self)@.narrowed(seen),
            final(self)@.lo <= final(self)@.hi <= old(self)@.hi,
            final(self)@.hi - final(self)@.lo < old(self)@.hi - old(self)@.lo,
    {
        let mid: u64 = self.lo + (self.hi - self.lo) / 2;
        if seen.0 < self.ts.0 {
            self.lo = mid + 1;
        } else {
            self.hi = mid;
        }
    }

    /// The answer, once there is nothing left to look at.
    pub fn found(&self) -> (r: u64)
        requires
            self@.lo == self@.hi,
        ensures
            r == self@.lo,
            forall|trades: Seq<Trade>|
                #![trigger count_before(trades, self@.ts)]
                self@.brackets(trades) ==> r == count_before(trades, self@.ts),
    {
        self.lo
    }
}

/// A sequential read that asks for records one at a time.
#[derive(Debug, Clone, Copy, PartialEq, Eq, Structural)]
pub struct RecordScan {
    next: u64,
    end: u64,
    until: Ts,
    stopped: bool,
}

/// How far a read has come.
pub struct ScanView {
    pub next: u64,
    pub end: u64,
    pub until: Ts,
    pub stopped: bool,
}

impl View for RecordScan {
    type V = ScanView;

    closed spec fn view(&self) -> ScanView {
        ScanView { next: self.next, end: self.end, until: self.until, stopped: self.stopped }
    }
}

impl ScanView {
    /// What a record leads to: the trade it holds, or nothing where the time is
    /// reached, which is looked at first.
    pub open spec fn outcome(self, record: Seq<u8>) -> Result<Option<Trade>, StoreError> {
        if signed_at(record, 0) >= self.until.0 {
            Ok(None)
        } else {
            match trade_of(record) {
                Ok(trade) => Ok(Some(trade)),
                Err(e) => Err(StoreError::Record(e)),
            }
        }
    }

    /// The read after a record.
    pub open spec fn moved(self, record: Seq<u8>) -> ScanView {
        match self.outcome(record) {
            Ok(Some(_)) => ScanView { next: (self.next + 1) as u64, ..self },
            Ok(None) => ScanView { stopped: true, ..self },
            Err(_) => self,
        }
    }
}

impl RecordScan {
    /// The record to read next, or `None` when the read is over.
    pub fn position(&self) -> (r: Option<u64>)
        ensures
            r == if !self@.stopped && self@.next < self@.end {
                Some(self@.next)
            } else {
                None
            },
    {
        if !self.stopped && self.next < self.end {
            Some(self.next)
        } else {
            None
        }
    }

    /// Take the record that was asked for. `None` ends the read.
    pub fn on_record(&mut self, record: &[u8; 40]) -> (r: Result<Option<Trade>, StoreError>)
        requires
            old(self)@.next < old(self)@.end,
        ensures
            r == old(self)@.outcome(record@),
            final(self)@ == old(self)@.moved(record@),
    {
        if decode_ts(record).0 >= self.until.0 {
            self.stopped = true;
            return Ok(None);
        }
        match decode(record) {
            Ok(trade) => {
                self.next = self.next + 1;
                Ok(Some(trade))
            },
            Err(e) => Err(StoreError::Record(e)),
        }
    }

    /// Whether the read ended because a record reached the time, meaning no
    /// later segment can contribute either.
    pub fn reached_end(&self) -> (r: bool)
        ensures
            r == self@.stopped,
    {
        self.stopped
    }
}

} // verus!
