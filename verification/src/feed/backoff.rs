//! Reconnect backoff.
//!
//! A client that reconnects in a tight loop against a venue that is rejecting
//! it will be rate-limited or banned, which turns a transient outage into a
//! long one. Jitter matters as much as the delay: without it, every client
//! that dropped on the same venue hiccup returns at the same instant and
//! recreates the thundering herd that caused it.
//!
//! Delays are counted in nanoseconds.

use vstd::arithmetic::power2::pow2;
use vstd::prelude::*;

verus! {

/// One step of a 64-bit xorshift generator.
pub open spec fn xorshift(state: u64) -> u64 {
    let a = state ^ (state << 13);
    let b = a ^ (a >> 7);
    b ^ (b << 17)
}

/// One step of a 64-bit xorshift generator.
pub fn next_state(state: u64) -> (r: u64)
    ensures
        r == xorshift(state),
{
    let a: u64 = state ^ (state << 13);
    let b: u64 = a ^ (a >> 7);
    b ^ (b << 17)
}

/// A generator that is not stuck at zero never gets stuck.
pub proof fn law_xorshift_never_sticks(state: u64)
    requires
        state != 0,
    ensures
        xorshift(state) != 0,
{
    assert(state != 0 ==> ({
        let a = state ^ (state << 13);
        let b = a ^ (a >> 7);
        b ^ (b << 17)
    }) != 0) by (bit_vector);
}

/// What a backoff holds.
pub struct BackoffView {
    pub base: u64,
    pub max: u64,
    pub attempt: u32,
    pub state: u64,
}

impl BackoffView {
    pub open spec fn wf(self) -> bool {
        0 < self.base <= self.max
    }

    /// How often the base delay is doubled, at most.
    pub open spec fn doublings(self) -> nat {
        if self.attempt < 24 {
            self.attempt as nat
        } else {
            24
        }
    }

    /// The largest delay that can come next.
    pub open spec fn ceiling(self) -> int {
        if self.base * pow2(self.doublings()) < self.max {
            self.base * pow2(self.doublings())
        } else {
            self.max as int
        }
    }

    /// The delay that comes next.
    pub open spec fn delay(self) -> int {
        xorshift(self.state) as int % (self.ceiling() + 1)
    }

    /// The backoff once that delay was taken.
    pub open spec fn advanced(self) -> BackoffView {
        BackoffView {
            attempt: if self.attempt < u32::MAX {
                (self.attempt + 1) as u32
            } else {
                u32::MAX
            },
            state: xorshift(self.state),
            ..self
        }
    }
}

/// Exponential backoff with full jitter.
#[derive(Debug, Clone, Copy, PartialEq, Eq, Structural)]
pub struct Backoff {
    base: u64,
    max: u64,
    attempt: u32,
    /// Deterministic jitter source, so tests are reproducible and the type
    /// carries no dependency on a random number generator.
    state: u64,
}

impl View for Backoff {
    type V = BackoffView;

    closed spec fn view(&self) -> BackoffView {
        BackoffView { base: self.base, max: self.max, attempt: self.attempt, state: self.state }
    }
}

impl Default for Backoff {
    fn default() -> (r: Self)
        ensures
            r@ == (BackoffView {
                base: 500_000_000,
                max: 60_000_000_000,
                attempt: 0,
                state: 0x2545_F491_4F6C_DD1D,
            }),
            r@.wf(),
    {
        Backoff::new(500_000_000, 60_000_000_000)
    }
}

impl Backoff {
    /// A backoff from `base`, doubling up to `max`.
    pub fn new(base: u64, max: u64) -> (r: Self)
        requires
            0 < base <= max,
        ensures
            r@ == (BackoffView { base, max, attempt: 0, state: 0x2545_F491_4F6C_DD1D }),
            r@.wf(),
    {
        Backoff { base, max, attempt: 0, state: 0x2545_F491_4F6C_DD1D }
    }

    /// Seed the jitter, so a fleet of clients does not share a delay sequence.
    pub fn with_seed(self, seed: u64) -> (r: Self)
        ensures
            r@ == (BackoffView { state: seed | 1, ..self@ }),
    {
        Backoff { state: seed | 1, ..self }
    }

    /// How many failures have accumulated since the last success.
    pub fn attempt(&self) -> (r: u32)
        ensures
            r == self@.attempt,
    {
        self.attempt
    }

    /// The delay before the next attempt, advancing the sequence.
    ///
    /// Uses full jitter, a uniform draw from `[0, ceiling]` rather than
    /// `ceiling` itself, which spreads returning clients across the whole
    /// window instead of clustering them at its end.
    pub fn next_delay(&mut self) -> (r: u64)
        requires
            old(self)@.wf(),
        ensures
            r == old(self)@.delay(),
            r <= old(self)@.ceiling(),
            final(self)@ == old(self)@.advanced(),
            final(self)@.wf(),
    {
        let ceiling: u64 = self.ceiling();
        if self.attempt < u32::MAX {
            self.attempt = self.attempt + 1;
        }
        self.state = next_state(self.state);
        (self.state as u128 % (ceiling as u128 + 1)) as u64
    }

    /// The ceiling the next delay will be drawn from, without advancing.
    pub fn ceiling(&self) -> (r: u64)
        requires
            self@.wf(),
        ensures
            r == self@.ceiling(),
            r <= self@.max,
    {
        let shift: u32 = if self.attempt < 24 {
            self.attempt
        } else {
            24
        };
        let mut factor: u128 = 1;
        let mut i: u32 = 0;
        proof {
            vstd::arithmetic::power2::lemma2_to64();
        }
        while i < shift
            invariant
                i <= shift <= 24,
                factor == pow2(i as nat),
                1 <= factor <= 0x100_0000,
                factor * pow2((24 - i) as nat) == 0x100_0000,
            decreases shift - i,
        {
            proof {
                vstd::arithmetic::power2::lemma_pow2_unfold((i + 1) as nat);
                vstd::arithmetic::power2::lemma_pow2_unfold((24 - i) as nat);
                vstd::arithmetic::power2::lemma_pow2_pos((24 - i - 1) as nat);
                let rest = pow2((24 - i - 1) as nat) as int;
                let f = factor as int;
                assert((2 * f) * rest == 0x100_0000) by (nonlinear_arith)
                    requires
                        f * (2 * rest) == 0x100_0000,
                ;
                assert(2 * f <= 0x100_0000) by (nonlinear_arith)
                    requires
                        (2 * f) * rest == 0x100_0000,
                        rest >= 1,
                        f >= 1,
                ;
            }
            factor = factor * 2;
            i += 1;
        }
        let b: u128 = self.base as u128;
        assert(b * factor <= 0xffff_ffff_ffff_ffff * 0x100_0000) by (nonlinear_arith)
            requires
                0 <= b <= 0xffff_ffff_ffff_ffff,
                0 <= factor <= 0x100_0000,
        ;
        let grown: u128 = b * factor;
        if grown < self.max as u128 {
            grown as u64
        } else {
            self.max
        }
    }

    /// Record a successful connection, returning to the base delay.
    pub fn reset(&mut self)
        ensures
            final(self)@ == (BackoffView { attempt: 0, ..old(self)@ }),
    {
        self.attempt = 0;
    }
}

/// A delay lies within its ceiling, and the ceiling between the base and the
/// maximum.
pub proof fn law_delays_stay_within_bounds(b: BackoffView)
    requires
        b.wf(),
    ensures
        0 <= b.delay() <= b.ceiling(),
        b.base <= b.ceiling() <= b.max,
{
    vstd::arithmetic::power2::lemma_pow2_pos(b.doublings());
    let f = pow2(b.doublings()) as int;
    let base = b.base as int;
    assert(base <= base * f) by (nonlinear_arith)
        requires
            base > 0,
            f >= 1,
    ;
}

/// Each failure doubles the ceiling until the maximum cuts it off; the
/// doubling ends after 24 failures.
pub proof fn law_the_ceiling_doubles(b: BackoffView)
    requires
        b.wf(),
        b.attempt < 24,
    ensures
        b.advanced().ceiling() == if 2 * b.ceiling() < b.max {
            2 * b.ceiling()
        } else {
            b.max as int
        },
{
    vstd::arithmetic::power2::lemma_pow2_unfold(b.advanced().doublings());
    let f = pow2(b.doublings()) as int;
    let base = b.base as int;
    assert(base * (2 * f) == 2 * (base * f)) by (nonlinear_arith);
}

/// A success brings the ceiling back to the base delay.
pub proof fn law_success_resets_the_ceiling(b: BackoffView)
    requires
        b.wf(),
    ensures
        (BackoffView { attempt: 0, ..b }).ceiling() == b.base,
{
    vstd::arithmetic::power2::lemma2_to64();
    assert(b.base * pow2(0) == b.base) by (nonlinear_arith)
        requires
            pow2(0) == 1,
    ;
}

} // verus!
