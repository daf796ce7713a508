//! Core of a tile-based battlefield simulation: a grid terrain with
//! walkability classification, shortest-path search over it, and a
//! population of mobile units that follow routes while steering away
//! from each other.
//!
//! World coordinates are fixed-point integers in milli-units
//! (1000 per world unit), so all motion arithmetic is exact.

pub mod game_module;
pub mod geometry;
pub mod level_module;
pub mod pathfinding_module;
pub mod selection_module;
pub mod unit_module;

pub use geometry::Vec2i;
