//! Storage errors.

use crate::primitives::time::Ts;
use crate::store::record::RecordError;
use vstd::prelude::*;

verus! {

/// Anything that can go wrong with tick history.
#[derive(Debug, Clone, Copy, PartialEq, Eq, Structural)]
pub enum StoreError {
    /// The filesystem failed. What it reported stays with whoever called it.
    Io,
    /// A record on disk could not be decoded.
    Record(RecordError),
    /// An append arrived with a timestamp before the last stored record.
    ///
    /// The store refuses it because binary-search range queries depend on
    /// records being ordered; accepting it would silently break every later
    /// read of this instrument's history.
    OutOfOrder {
        /// Timestamp of the rejected trade.
        received: Ts,
        /// Timestamp already on disk.
        last: Ts,
    },
    /// The directory holds data written by an incompatible format version.
    UnsupportedVersion {
        /// Version read from the marker file.
        found: u32,
        /// Version this build writes.
        expected: u32,
    },
    /// The directory exists but is not a tick store.
    NotAStore,
}

} // verus!
