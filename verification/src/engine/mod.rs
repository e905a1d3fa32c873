//! Bars and their cluster ladders.

pub mod aggregator;
pub mod bar;
pub mod cluster;
pub mod footprint;
pub mod ladder;
pub mod laws;
pub mod stacks;
