//! Timestamps.
//!
//! Every event in the system carries a nanosecond timestamp. Exchanges publish
//! milliseconds, but bar boundaries, latency measurement and replay ordering
//! all want finer resolution.

use crate::primitives::fixed::clamp_wide;
use crate::text::{push_decimal, push_padded};
use vstd::prelude::*;

verus! {

use crate::primitives::fixed::{clamped, in_range, magnitude_of, sign_text};
use crate::text::{decimal, padded};

/// Nanoseconds since the Unix epoch.
///
/// `i64` nanoseconds covers years 1678 to 2262, which comfortably brackets any
/// market data this platform will see.
#[derive(Debug, Clone, Copy, PartialEq, Eq, PartialOrd, Ord, Hash, Structural)]
pub struct Ts(pub i64);

/// Nanoseconds in a millisecond.
pub const NANOS_PER_MILLI: i64 = 1_000_000;

/// Nanoseconds in a second.
pub const NANOS_PER_SEC: i64 = 1_000_000_000;

/// The start of the interval that `nanos` falls in.
pub open spec fn interval_start(nanos: int, interval: int) -> int {
    nanos - nanos % interval
}

/// Seconds, a point and nine digits of nanoseconds.
pub open spec fn timestamp_text(nanos: int) -> Seq<char> {
    let secs = nanos / 1_000_000_000;
    sign_text(secs) + decimal(magnitude_of(secs)) + seq!['.'] + padded(
        (nanos % 1_000_000_000) as nat,
        9,
    )
}

impl Ts {
    /// The Unix epoch.
    pub fn epoch() -> (r: Ts)
        ensures
            r.0 == 0,
    {
        Ts(0)
    }

    /// The largest representable timestamp. Useful as an open range end.
    pub fn max_value() -> (r: Ts)
        ensures
            r.0 == i64::MAX,
    {
        Ts(i64::MAX)
    }

    /// The smallest representable timestamp.
    pub fn min_value() -> (r: Ts)
        ensures
            r.0 == i64::MIN,
    {
        Ts(i64::MIN)
    }

    /// Build from nanoseconds since the epoch.
    pub fn from_nanos(nanos: i64) -> (r: Self)
        ensures
            r.0 == nanos,
    {
        Ts(nanos)
    }

    /// Build from milliseconds since the epoch, the form exchanges send.
    ///
    /// Saturates rather than overflowing: these values come off the wire, and
    /// a venue sending a nonsense timestamp must not panic the process or wrap
    /// into a valid-looking past date.
    pub fn from_millis(millis: i64) -> (r: Self)
        ensures
            r.0 == clamped(millis * NANOS_PER_MILLI),
            in_range(millis * 1_000_000) ==> r.0 == millis * 1_000_000,
    {
        Ts(clamp_wide(millis as i128 * NANOS_PER_MILLI as i128))
    }

    /// Build from whole seconds since the epoch. Saturates like
    /// [`Ts::from_millis`].
    pub fn from_secs(secs: i64) -> (r: Self)
        ensures
            r.0 == clamped(secs * NANOS_PER_SEC),
            in_range(secs * 1_000_000_000) ==> r.0 == secs * 1_000_000_000,
    {
        Ts(clamp_wide(secs as i128 * NANOS_PER_SEC as i128))
    }

    /// Nanoseconds since the epoch.
    pub fn nanos(self) -> (r: i64)
        ensures
            r == self.0,
    {
        self.0
    }

    /// Whole milliseconds since the epoch, the started one left out.
    pub fn millis(self) -> (r: i64)
        ensures
            r == self.0 as int / NANOS_PER_MILLI as int,
            r * 1_000_000 <= self.0 < (r + 1) * 1_000_000,
    {
        match self.0.checked_div_euclid(NANOS_PER_MILLI) {
            Some(v) => v,
            None => 0,
        }
    }

    /// Whole seconds since the epoch, the started one left out.
    pub fn secs(self) -> (r: i64)
        ensures
            r == self.0 as int / NANOS_PER_SEC as int,
            r * 1_000_000_000 <= self.0 < (r + 1) * 1_000_000_000,
    {
        match self.0.checked_div_euclid(NANOS_PER_SEC) {
            Some(v) => v,
            None => 0,
        }
    }

    /// Snap down to a multiple of `interval_nanos`.
    ///
    /// This is how time bars find their opening boundary: every timestamp in
    /// the same bucket floors to the same value, before the epoch too.
    pub fn floor_to(self, interval_nanos: i64) -> (r: Self)
        requires
            interval_nanos > 0,
            in_range(interval_start(self.0 as int, interval_nanos as int)),
        ensures
            r.0 == interval_start(self.0 as int, interval_nanos as int),
    {
        let rem: i64 = match self.0.checked_rem_euclid(interval_nanos) {
            Some(v) => v,
            None => 0,
        };
        Ts(self.0 - rem)
    }

    /// Nanoseconds elapsed since `earlier` (negative if `earlier` is later).
    pub fn since(self, earlier: Ts) -> (r: i64)
        requires
            in_range(self.0 - earlier.0),
        ensures
            r == self.0 - earlier.0,
            r > 0 <==> self.0 > earlier.0,
    {
        self.0 - earlier.0
    }

    /// Renders as `<seconds>.<nanos>`, deliberately not a calendar format.
    pub fn to_string(&self) -> (r: String)
        ensures
            r@ == timestamp_text(self.0 as int),
    {
        let secs: i64 = self.secs();
        let nanos: i64 = match self.0.checked_rem_euclid(NANOS_PER_SEC) {
            Some(v) => v,
            None => 0,
        };
        let mut out = String::new();
        if secs < 0 {
            out.push('-');
        }
        assert(out@ =~= sign_text(secs as int));
        let abs: u128 = if secs < 0 {
            -(secs as i128) as u128
        } else {
            secs as u128
        };
        push_decimal(&mut out, abs);
        out.push('.');
        push_padded(&mut out, nanos as u128, 9);
        assert(out@ =~= timestamp_text(self.0 as int));
        out
    }
}

impl Default for Ts {
    fn default() -> (r: Self)
        ensures
            r.0 == 0,
    {
        Ts(0)
    }
}

impl std::ops::Add<i64> for Ts {
    type Output = Ts;

    fn add(self, nanos: i64) -> Ts {
        Ts(self.0 + nanos)
    }
}

impl vstd::std_specs::ops::AddSpecImpl<i64> for Ts {
    open spec fn obeys_add_spec() -> bool {
        true
    }

    open spec fn add_req(self, nanos: i64) -> bool {
        in_range(self.0 + nanos)
    }

    open spec fn add_spec(self, nanos: i64) -> Ts {
        Ts((self.0 + nanos) as i64)
    }
}

impl std::ops::Sub<i64> for Ts {
    type Output = Ts;

    fn sub(self, nanos: i64) -> Ts {
        Ts(self.0 - nanos)
    }
}

impl vstd::std_specs::ops::SubSpecImpl<i64> for Ts {
    open spec fn obeys_sub_spec() -> bool {
        true
    }

    open spec fn sub_req(self, nanos: i64) -> bool {
        in_range(self.0 - nanos)
    }

    open spec fn sub_spec(self, nanos: i64) -> Ts {
        Ts((self.0 - nanos) as i64)
    }
}

impl std::ops::Sub for Ts {
    type Output = i64;

    fn sub(self, other: Ts) -> i64 {
        self.0 - other.0
    }
}

impl vstd::std_specs::ops::SubSpecImpl for Ts {
    open spec fn obeys_sub_spec() -> bool {
        true
    }

    open spec fn sub_req(self, other: Ts) -> bool {
        in_range(self.0 - other.0)
    }

    open spec fn sub_spec(self, other: Ts) -> i64 {
        (self.0 - other.0) as i64
    }
}

/// An interval starts at a multiple of its length, at or before the time that
/// falls in it and less than one length before; its start is its own start.
pub proof fn law_interval_start(nanos: int, interval: int)
    requires
        interval > 0,
    ensures
        interval_start(nanos, interval) % interval == 0,
        interval_start(nanos, interval) <= nanos < interval_start(nanos, interval) + interval,
        interval_start(interval_start(nanos, interval), interval) == interval_start(
            nanos,
            interval,
        ),
{
    vstd::arithmetic::div_mod::lemma_fundamental_div_mod(nanos, interval);
    let q = nanos / interval;
    assert(interval * q == q * interval) by (nonlinear_arith);
    vstd::arithmetic::div_mod::lemma_mod_multiples_basic(q, interval);
}

/// Two times share an interval exactly when they floor to the same start.
pub proof fn law_same_interval_same_start(a: int, b: int, interval: int)
    requires
        interval > 0,
    ensures
        (a / interval == b / interval) <==> interval_start(a, interval) == interval_start(
            b,
            interval,
        ),
{
    vstd::arithmetic::div_mod::lemma_fundamental_div_mod(a, interval);
    vstd::arithmetic::div_mod::lemma_fundamental_div_mod(b, interval);
    let q = a / interval;
    let w = b / interval;
    assert((q == w) <==> interval * q == interval * w) by (nonlinear_arith)
        requires
            interval > 0,
    ;
}

} // verus!
