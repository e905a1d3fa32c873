//! Cumulative volume delta.
//!
//! CVD is the running sum of signed aggressive volume. On its own it is a
//! line; its value is in divergence: price making a new high while CVD does
//! not means the move up was not paid for by aggressive buying, and is the
//! single most-used order-flow read there is. [`Cvd`] therefore tracks the
//! swing extremes needed to detect that, rather than only the running total.

use crate::engine::bar::Bar;
use crate::indicators::traits::BarIndicator;
use crate::primitives::fixed::{Price, Qty};
use vstd::prelude::*;

verus! {

use crate::engine::bar::BarView;
use crate::primitives::fixed::in_range;

/// A divergence between price and cumulative delta.
#[derive(Debug, Clone, Copy, PartialEq, Eq, Structural)]
pub enum Divergence {
    /// Price made a higher high, CVD did not: the rally was not bought.
    Bearish,
    /// Price made a lower low, CVD did not: the decline was not sold.
    Bullish,
}

/// What a CVD holds.
pub struct CvdView {
    pub total: int,
    pub bars: u64,
    /// Highest price seen and the CVD at that moment.
    pub high: Option<(Price, Qty)>,
    /// Lowest price seen and the CVD at that moment.
    pub low: Option<(Price, Qty)>,
    pub divergence: Option<Divergence>,
}

/// A CVD at zero.
pub open spec fn fresh_cvd() -> CvdView {
    CvdView { total: 0, bars: 0, high: None, low: None, divergence: None }
}

impl CvdView {
    pub open spec fn wf(self) -> bool {
        &&& in_range(self.total)
        &&& self.bars == 0 <==> self.high is None
        &&& self.bars == 0 <==> self.low is None
    }

    /// Whether a bar can be folded in.
    pub open spec fn can_take(self, bar: BarView) -> bool {
        in_range(bar.net()) && in_range(self.total + bar.net()) && self.bars < u64::MAX
    }

    /// Whether a bar makes a new high.
    pub open spec fn new_high(self, bar: BarView) -> bool {
        self.high matches Some((price, _)) ==> bar.high.0 > price.0
    }

    /// Whether a bar makes a new low.
    pub open spec fn new_low(self, bar: BarView) -> bool {
        self.low matches Some((price, _)) ==> bar.low.0 < price.0
    }

    /// The divergence that a bar shows. A lower low on a higher CVD counts
    /// above a higher high on a lower one.
    pub open spec fn diverged(self, bar: BarView) -> Option<Divergence> {
        let total = self.total + bar.net();
        if self.new_low(bar) && (self.low matches Some((_, at)) && total > at.0) {
            Some(Divergence::Bullish)
        } else if self.new_high(bar) && (self.high matches Some((_, at)) && total < at.0) {
            Some(Divergence::Bearish)
        } else {
            None
        }
    }

    /// The CVD after a bar.
    pub open spec fn taken(self, bar: BarView) -> CvdView {
        let total = self.total + bar.net();
        CvdView {
            total,
            bars: (self.bars + 1) as u64,
            high: if self.new_high(bar) {
                Some((bar.high, Qty(total as i64)))
            } else {
                self.high
            },
            low: if self.new_low(bar) {
                Some((bar.low, Qty(total as i64)))
            } else {
                self.low
            },
            divergence: self.diverged(bar),
        }
    }
}

/// The net volume of a list of bars.
pub open spec fn net_of(bars: Seq<BarView>) -> int
    decreases bars.len(),
{
    if bars.len() == 0 {
        0
    } else {
        net_of(bars.drop_last()) + bars.last().net()
    }
}

/// A CVD after a list of bars.
pub open spec fn cvd_after(v: CvdView, bars: Seq<BarView>) -> CvdView
    decreases bars.len(),
{
    if bars.len() == 0 {
        v
    } else {
        cvd_after(v, bars.drop_last()).taken(bars.last())
    }
}

/// The CVD is the running sum of the deltas of the bars folded in.
pub proof fn law_cvd_sums_deltas(v: CvdView, bars: Seq<BarView>)
    ensures
        cvd_after(v, bars).total == v.total + net_of(bars),
    decreases bars.len(),
{
    if bars.len() > 0 {
        law_cvd_sums_deltas(v, bars.drop_last());
    }
}

/// A divergence does not latch: a bar that makes neither a new high nor a new
/// low clears it.
pub proof fn law_divergence_does_not_latch(v: CvdView, bar: BarView)
    requires
        v.bars > 0,
        v.wf(),
        !v.new_high(bar),
        !v.new_low(bar),
    ensures
        v.taken(bar).divergence is None,
{
}

/// Whether every bar of a list can be folded in, one after the other.
pub open spec fn can_fold(v: CvdView, bars: Seq<BarView>) -> bool
    decreases bars.len(),
{
    bars.len() == 0 || (can_fold(v, bars.drop_last()) && cvd_after(v, bars.drop_last()).can_take(
        bars.last(),
    ))
}

/// Bought minus sold volume of the first `n` bars of a list.
pub open spec fn bought_less_sold(bars: Seq<BarView>, n: int) -> int
    decreases n,
{
    if n <= 0 {
        0
    } else {
        bought_less_sold(bars, n - 1) + bars[n - 1].ladder.total_ask - bars[n - 1].ladder.total_bid
    }
}

/// Whether bar `j` set the high that stands among the first `n`: no bar before
/// it reached as high, and none since went higher.
pub open spec fn set_the_high(bars: Seq<BarView>, n: int, j: int) -> bool {
    &&& 0 <= j < n
    &&& forall|k: int| 0 <= k < j ==> (#[trigger] bars[k]).high.0 < bars[j].high.0
    &&& forall|k: int| j <= k < n ==> (#[trigger] bars[k]).high.0 <= bars[j].high.0
}

/// Whether bar `j` set the low that stands among the first `n`.
pub open spec fn set_the_low(bars: Seq<BarView>, n: int, j: int) -> bool {
    &&& 0 <= j < n
    &&& forall|k: int| 0 <= k < j ==> (#[trigger] bars[k]).low.0 > bars[j].low.0
    &&& forall|k: int| j <= k < n ==> (#[trigger] bars[k]).low.0 >= bars[j].low.0
}

proof fn lemma_watermarks(bars: Seq<BarView>)
    requires
        can_fold(fresh_cvd(), bars),
    ensures
        ({
            let v = cvd_after(fresh_cvd(), bars);
            let n = bars.len() as int;
            &&& v.bars == n
            &&& v.total == bought_less_sold(bars, n)
            &&& in_range(v.total)
            &&& n > 0 ==> v.high is Some && v.low is Some
            &&& forall|j: int| #[trigger]
                set_the_high(bars, n, j) ==> v.high == Some(
                    (bars[j].high, Qty(bought_less_sold(bars, j + 1) as i64)),
                ) && in_range(bought_less_sold(bars, j + 1))
            &&& forall|j: int| #[trigger]
                set_the_low(bars, n, j) ==> v.low == Some(
                    (bars[j].low, Qty(bought_less_sold(bars, j + 1) as i64)),
                ) && in_range(bought_less_sold(bars, j + 1))
            &&& n > 0 ==> exists|j: int| #[trigger] set_the_high(bars, n, j)
            &&& n > 0 ==> exists|j: int| #[trigger] set_the_low(bars, n, j)
        }),
    decreases bars.len(),
{
    if bars.len() > 0 {
        let less = bars.drop_last();
        let m = less.len() as int;
        let bar = bars[m];
        lemma_watermarks(less);
        lemma_same_sums(bars, m);
        let was = cvd_after(fresh_cvd(), less);
        let v = cvd_after(fresh_cvd(), bars);
        assert(v == was.taken(bar));
        assert forall|j: int| 0 <= j < m implies #[trigger] less[j] == bars[j] by {}
        if m > 0 {
            let j = choose|j: int| #[trigger] set_the_high(less, m, j);
            assert(less[j] == bars[j]);
            if bar.high.0 > bars[j].high.0 {
                assert(set_the_high(bars, m + 1, m)) by {
                    assert forall|k: int| 0 <= k < m implies (#[trigger] bars[k]).high.0
                        < bar.high.0 by {
                        assert(less[k] == bars[k]);
                    }
                }
            } else {
                assert(set_the_high(bars, m + 1, j)) by {
                    assert forall|k: int| 0 <= k < j implies (#[trigger] bars[k]).high.0
                        < bars[j].high.0 by {
                        assert(less[k] == bars[k]);
                    }
                    assert forall|k: int| j <= k < m + 1 implies (#[trigger] bars[k]).high.0
                        <= bars[j].high.0 by {
                        if k < m {
                            assert(less[k] == bars[k]);
                        }
                    }
                }
            }
            let l = choose|l: int| #[trigger] set_the_low(less, m, l);
            assert(less[l] == bars[l]);
            if bar.low.0 < bars[l].low.0 {
                assert(set_the_low(bars, m + 1, m)) by {
                    assert forall|k: int| 0 <= k < m implies (#[trigger] bars[k]).low.0
                        > bar.low.0 by {
                        assert(less[k] == bars[k]);
                    }
                }
            } else {
                assert(set_the_low(bars, m + 1, l)) by {
                    assert forall|k: int| 0 <= k < l implies (#[trigger] bars[k]).low.0
                        > bars[l].low.0 by {
                        assert(less[k] == bars[k]);
                    }
                    assert forall|k: int| l <= k < m + 1 implies (#[trigger] bars[k]).low.0
                        >= bars[l].low.0 by {
                        if k < m {
                            assert(less[k] == bars[k]);
                        }
                    }
                }
            }
        } else {
            assert(set_the_high(bars, 1, 0));
            assert(set_the_low(bars, 1, 0));
        }
        assert forall|j: int| #[trigger] set_the_high(bars, m + 1, j) implies v.high == Some(
            (bars[j].high, Qty(bought_less_sold(bars, j + 1) as i64)),
        ) && in_range(bought_less_sold(bars, j + 1)) by {
            if j < m {
                assert(set_the_high(less, m, j));
                assert(bars[m].high.0 <= bars[j].high.0);
                lemma_same_sums(bars, j + 1);
            } else if m > 0 {
                let i = choose|i: int| #[trigger] set_the_high(less, m, i);
                assert(bars[i].high.0 < bars[j].high.0);
                assert(less[i] == bars[i]);
            }
        }
        assert forall|j: int| #[trigger] set_the_low(bars, m + 1, j) implies v.low == Some(
            (bars[j].low, Qty(bought_less_sold(bars, j + 1) as i64)),
        ) && in_range(bought_less_sold(bars, j + 1)) by {
            if j < m {
                assert(set_the_low(less, m, j));
                assert(bars[m].low.0 >= bars[j].low.0);
                lemma_same_sums(bars, j + 1);
            } else if m > 0 {
                let i = choose|i: int| #[trigger] set_the_low(less, m, i);
                assert(bars[i].low.0 > bars[j].low.0);
                assert(less[i] == bars[i]);
            }
        }
    }
}

proof fn lemma_same_sums(bars: Seq<BarView>, n: int)
    requires
        0 <= n < bars.len(),
    ensures
        bought_less_sold(bars.drop_last(), n) == bought_less_sold(bars, n),
    decreases n,
{
    if n > 0 {
        lemma_same_sums(bars, n - 1);
    }
}

/// What a divergence is. After any run of bars from the start, the CVD is what
/// was bought less what was sold in all of them. The last bar shows a bullish
/// divergence exactly where it went below every low before it while the CVD is
/// above what it was when the standing low was set; failing that, a bearish one
/// exactly where it went above every high before it while the CVD is below what
/// it was when the standing high was set. So a new high on a CVD that is not
/// lower shows no bearish divergence, and a new low on one that is not higher
/// shows no bullish one.
pub proof fn law_a_divergence_is_price_without_delta(bars: Seq<BarView>, high: int, low: int)
    requires
        can_fold(fresh_cvd(), bars),
        bars.len() > 1,
        set_the_high(bars, bars.len() - 1, high),
        set_the_low(bars, bars.len() - 1, low),
    ensures
        ({
            let v = cvd_after(fresh_cvd(), bars);
            let n = bars.len() as int;
            let last = bars[n - 1];
            let bullish = last.low.0 < bars[low].low.0 && bought_less_sold(bars, n)
                > bought_less_sold(bars, low + 1);
            let bearish = last.high.0 > bars[high].high.0 && bought_less_sold(bars, n)
                < bought_less_sold(bars, high + 1);
            &&& v.total == bought_less_sold(bars, n)
            &&& v.bars == n
            &&& v.divergence == Some(Divergence::Bullish) <==> bullish
            &&& v.divergence == Some(Divergence::Bearish) <==> bearish && !bullish
            &&& v.divergence is None <==> !bearish && !bullish
        }),
{
    let less = bars.drop_last();
    let m = less.len() as int;
    lemma_watermarks(less);
    lemma_watermarks(bars);
    assert forall|j: int| 0 <= j < m implies #[trigger] less[j] == bars[j] by {}
    assert(set_the_high(less, m, high)) by {
        assert forall|k: int| 0 <= k < high implies (#[trigger] less[k]).high.0
            < less[high].high.0 by {
            assert(bars[k].high.0 < bars[high].high.0);
        }
        assert forall|k: int| high <= k < m implies (#[trigger] less[k]).high.0
            <= less[high].high.0 by {
            assert(bars[k].high.0 <= bars[high].high.0);
        }
    }
    assert(set_the_low(less, m, low)) by {
        assert forall|k: int| 0 <= k < low implies (#[trigger] less[k]).low.0
            > less[low].low.0 by {
            assert(bars[k].low.0 > bars[low].low.0);
        }
        assert forall|k: int| low <= k < m implies (#[trigger] less[k]).low.0
            >= less[low].low.0 by {
            assert(bars[k].low.0 >= bars[low].low.0);
        }
    }
    lemma_same_sums(bars, high + 1);
    lemma_same_sums(bars, low + 1);
    assert(cvd_after(fresh_cvd(), bars) == cvd_after(fresh_cvd(), less).taken(bars[m]));
}

/// The first bar shows no divergence: there is nothing to diverge from.
pub proof fn law_the_first_bar_shows_no_divergence(bar: BarView)
    ensures
        fresh_cvd().taken(bar).divergence is None,
{
}

/// Cumulative volume delta with divergence detection.
#[derive(Debug, Clone, Copy)]
pub struct Cvd {
    total: Qty,
    bars: u64,
    high_watermark: Option<(Price, Qty)>,
    low_watermark: Option<(Price, Qty)>,
    last_divergence: Option<Divergence>,
}

impl View for Cvd {
    type V = CvdView;

    closed spec fn view(&self) -> CvdView {
        CvdView {
            total: self.total.0 as int,
            bars: self.bars,
            high: self.high_watermark,
            low: self.low_watermark,
            divergence: self.last_divergence,
        }
    }
}

impl Default for Cvd {
    fn default() -> (r: Self)
        ensures
            r@ == fresh_cvd(),
            r@.wf(),
    {
        Cvd {
            total: Qty(0),
            bars: 0,
            high_watermark: None,
            low_watermark: None,
            last_divergence: None,
        }
    }
}

impl Cvd {
    /// A fresh CVD at zero.
    pub fn new() -> (r: Self)
        ensures
            r@ == fresh_cvd(),
            r@.wf(),
    {
        Cvd::default()
    }

    /// The running total.
    pub fn total(&self) -> (r: Qty)
        ensures
            r.0 == self@.total,
    {
        self.total
    }

    /// How many bars have been folded in.
    pub fn bars(&self) -> (r: u64)
        ensures
            r == self@.bars,
    {
        self.bars
    }

    /// The divergence detected on the most recent bar, if any.
    pub fn divergence(&self) -> (r: Option<Divergence>)
        ensures
            r == self@.divergence,
    {
        self.last_divergence
    }
}

impl BarIndicator for Cvd {
    type Value = Qty;

    open spec fn valid(&self) -> bool {
        self@.wf()
    }

    open spec fn accepts(&self, bar: BarView) -> bool {
        self@.can_take(bar)
    }

    fn name(&self) -> (r: &str)
        ensures
            r@ == "CVD"@,
    {
        "CVD"
    }

    fn can_update(&self, bar: &Bar) -> (r: bool) {
        match bar.clusters.total_ask().checked_sub(bar.clusters.total_bid()) {
            Some(net) => self.total.checked_add(net).is_some() && self.bars < u64::MAX,
            None => false,
        }
    }

    fn update(&mut self, bar: &Bar) -> (r: Qty)
        ensures
            final(self)@ == old(self)@.taken(bar@),
            r.0 == final(self)@.total,
    {
        self.total = Qty(self.total.0 + bar.delta().0);
        self.bars = self.bars + 1;
        self.last_divergence = None;
        match self.high_watermark {
            Some((price, cvd_at_high)) => {
                if bar.high.0 > price.0 {
                    // A higher high on lower cumulative delta: buyers were less
                    // aggressive into this high than the last one.
                    if self.total.0 < cvd_at_high.0 {
                        self.last_divergence = Some(Divergence::Bearish);
                    }
                    self.high_watermark = Some((bar.high, self.total));
                }
            },
            None => {
                self.high_watermark = Some((bar.high, self.total));
            },
        }
        match self.low_watermark {
            Some((price, cvd_at_low)) => {
                if bar.low.0 < price.0 {
                    if self.total.0 > cvd_at_low.0 {
                        self.last_divergence = Some(Divergence::Bullish);
                    }
                    self.low_watermark = Some((bar.low, self.total));
                }
            },
            None => {
                self.low_watermark = Some((bar.low, self.total));
            },
        }
        self.total
    }

    fn value(&self) -> (r: Option<Qty>)
        ensures
            r == if self@.bars > 0 {
                Some(Qty(self@.total as i64))
            } else {
                None
            },
    {
        if self.bars > 0 {
            Some(self.total)
        } else {
            None
        }
    }

    fn reset(&mut self)
        ensures
            final(self)@ == fresh_cvd(),
    {
        *self = Cvd::default();
    }
}

} // verus!
