//! The application layer: one session per instrument, wired end to end.
//!
//! Everything the application does to market data happens here, with no window
//! toolkit anywhere near it. The shell around it is a transport: it hands
//! market events to a session and forwards the application events that come
//! back.

pub mod dto;
pub mod events;
pub mod config;
pub mod model;
pub mod state;
pub mod driver;
pub mod commands;
pub mod laws;
