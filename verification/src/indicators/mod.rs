//! Indicators.
//!
//! Order-flow studies live here alongside the classical ones, but they are not
//! the same kind of object: a moving average summarises price, while CVD,
//! profiles and the scanners summarise *who was aggressive and where*.

pub mod averages;
pub mod classic;
pub mod cvd;
pub mod levels;
pub mod profile;
pub mod scanners;
pub mod scans;
pub mod tpo;
pub mod traits;
pub mod vwap;
