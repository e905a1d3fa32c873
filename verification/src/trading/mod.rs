//! Paper trading: orders, positions and the matching engine.

pub mod desk;
pub mod engine;
pub mod laws;
pub mod matching;
pub mod order;
pub mod pnl;
pub mod position;
pub mod tape;
