//! Conway's Game of Life on a fixed-size grid: pattern setup, the B3/S23
//! transition on a bounded or toroidal topology, the text format of a saved
//! board, the command vocabulary and the control state of the simulation loop.

pub mod board;
pub mod commands;
pub mod consts;
pub mod simulation;
pub mod utils;
