//! A verified simulation of carts on a track, with a handful of smaller puzzle solvers.
//!
//! The cart simulation is built from `track` (tiles, directions, the grid), `carts`
//! (one cart and its step), `order` (the order in which carts move within a tick),
//! `engine` (ticks, collisions and whole runs) and `laws` (what holds over many steps
//! and ticks). The other modules each hold one small solver.
use vstd::prelude::*;

pub mod track;
pub mod carts;
pub mod order;
pub mod engine;
pub mod laws;
pub mod stars;
pub mod marbles;
pub mod coordinates;
pub mod frequency;
pub mod fabric;
pub mod power_grid;
pub mod polymer;
pub mod inventory;
pub mod plants;
mod text;

verus! {

} // verus!
