//! Market data feed adapters.
//!
//! Wire-format translation, where a misread field inverts every delta in the
//! platform, lives in [`binance`] and [`bybit`]. Transport (sockets, reconnect,
//! backfill) is a thin shell outside this library that feeds those functions.

pub mod backoff;
pub mod binance;
pub mod bybit;
pub mod error;
pub mod json;
pub mod laws;
pub mod live;
pub mod replay;
pub mod source;
pub mod sync;
pub mod synthetic;
pub mod wire;
