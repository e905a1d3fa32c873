//! How instrument ticks are grouped into ladder rows.

use crate::primitives::fixed::Price;
use vstd::prelude::*;

verus! {

use crate::primitives::fixed::in_range;

/// The tick size of an instrument and the number of ticks in a ladder row.
#[derive(Debug, Clone, Copy, PartialEq, Eq, Structural)]
pub struct LadderSpec {
    tick_size: Price,
    ticks_per_row: u32,
}

/// Why a ladder cannot be laid out.
#[derive(Debug, Clone, Copy, PartialEq, Eq, Structural)]
pub enum LadderSpecError {
    /// The tick size was zero or negative.
    NonPositiveTick,
    /// A row held no ticks.
    EmptyRow,
    /// A row would be larger than any price.
    RowOutOfRange,
}

/// Why this grouping is refused.
pub open spec fn ladder_refusal(tick_size: Price, ticks_per_row: u32) -> Option<LadderSpecError> {
    if tick_size.0 <= 0 {
        Some(LadderSpecError::NonPositiveTick)
    } else if ticks_per_row == 0 {
        Some(LadderSpecError::EmptyRow)
    } else if !in_range(tick_size.0 * ticks_per_row) {
        Some(LadderSpecError::RowOutOfRange)
    } else {
        None
    }
}

impl LadderSpec {
    /// The instrument tick size.
    pub closed spec fn tick(self) -> Price {
        self.tick_size
    }

    /// The number of ticks in a row.
    pub closed spec fn per_row(self) -> u32 {
        self.ticks_per_row
    }

    /// The height of a row.
    pub open spec fn row(self) -> Price {
        Price((self.tick().0 * self.per_row()) as i64)
    }

    pub open spec fn wf(self) -> bool {
        ladder_refusal(self.tick(), self.per_row()) is None
    }

    /// Group `ticks_per_row` ticks into each row.
    pub fn new(tick_size: Price, ticks_per_row: u32) -> (r: Result<Self, LadderSpecError>)
        ensures
            match r {
                Ok(spec) => ladder_refusal(tick_size, ticks_per_row) is None && spec.tick()
                    == tick_size && spec.per_row() == ticks_per_row && spec.wf(),
                Err(e) => ladder_refusal(tick_size, ticks_per_row) == Some(e),
            },
    {
        if tick_size.0 <= 0 {
            return Err(LadderSpecError::NonPositiveTick);
        }
        if ticks_per_row == 0 {
            return Err(LadderSpecError::EmptyRow);
        }
        match tick_size.0.checked_mul(ticks_per_row as i64) {
            Some(_) => Ok(LadderSpec { tick_size, ticks_per_row }),
            None => Err(LadderSpecError::RowOutOfRange),
        }
    }

    /// One row per tick.
    pub fn per_tick(tick_size: Price) -> (r: Self)
        requires
            tick_size.0 > 0,
        ensures
            r.tick() == tick_size,
            r.per_row() == 1,
            r.row() == tick_size,
            r.wf(),
    {
        LadderSpec { tick_size, ticks_per_row: 1 }
    }

    /// The instrument tick size.
    pub fn tick_size(&self) -> (r: Price)
        ensures
            r == self.tick(),
    {
        self.tick_size
    }

    /// Instrument ticks per row.
    pub fn ticks_per_row(&self) -> (r: u32)
        ensures
            r == self.per_row(),
    {
        self.ticks_per_row
    }

    /// The height of a row.
    pub fn row_size(&self) -> (r: Price)
        requires
            self.wf(),
        ensures
            r == self.row(),
            r.0 == self.tick().0 * self.per_row(),
            r.0 > 0,
    {
        assert(self.tick_size.0 * self.ticks_per_row > 0) by (nonlinear_arith)
            requires
                self.tick_size.0 > 0,
                self.ticks_per_row > 0,
        ;
        Price(self.tick_size.0 * self.ticks_per_row as i64)
    }
}

} // verus!
