//! Board simulation for a falling-block matching puzzle: blocks are swapped
//! in pairs, matched in runs of three or more, cleared, pulled down by
//! gravity and lifted towards a kill line.
//!
//! Lengths are measured in thousandths of a pixel and times in
//! milliseconds, so that every step of the simulation is exact integer
//! arithmetic.

pub mod actions;
pub mod block;
pub mod board;
pub mod column;
pub mod cursor;
pub mod despawn;
pub mod game;
pub mod geometry;
pub mod gravity;
pub mod laws;
pub mod lift;
pub mod matching;
mod random;
pub mod spawn;
pub mod swap;
pub mod timer;
