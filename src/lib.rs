//! An interpreter for Karel, a small line-oriented language that drives a robot
//! over a bounded grid.
//!
//! `world` holds the grid and the robot; `syntax` loads program texts and runs
//! them, one line per step, against a world.
use vstd::prelude::*;

pub mod syntax;
pub mod world;

verus! {

} // verus!
