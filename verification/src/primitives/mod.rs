//! The vocabulary that every other module speaks: prices, quantities, time,
//! instruments, trades and the order book.

pub mod book;
pub mod decimals;
pub mod depth;
pub mod fixed;
pub mod instrument;
pub mod market;
pub mod ratio;
pub mod time;
