//! Order-flow analytics on exact fixed-point prices and quantities.

pub mod engine;
pub mod feed;
pub mod indicators;
pub mod primitives;
pub mod session;
pub mod store;
pub mod text;
pub mod trading;
