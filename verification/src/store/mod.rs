//! Append-only, segmented, time-ordered trade history.
//!
//! The modules decide what is written where, what is read next and what comes
//! out of it; reading and writing files is left to the caller.

pub mod error;
pub mod laws;
pub mod layout;
pub mod record;
pub mod segment;
pub mod tick_store;
