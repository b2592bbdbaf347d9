//! An abelian sandpile: a grid of grain counts that topples synchronously,
//! random grain injection, and rolling statistics of avalanche sizes.

pub mod config;
pub mod engine;
pub mod grid;
mod random;
pub mod speed;
pub mod stats;
