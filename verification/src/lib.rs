//! Perfect mazes dug into a rectangular wall map by a randomised walk.
//!
//! A [`wall_map::WallMap`] starts as solid rock. A [`carver::Carver`] walks through
//! it, digging one cell at a time where the [`rule`] allows, and jumps to a cell of
//! its [`frontier::Frontier`] whenever the walk is stuck. The mathematical model
//! of the map is the [`plan::Plan`]; what makes a maze perfect is stated there
//! and proved to hold after every step of the walk.

pub mod geometry;
pub mod plan;
pub mod wall_map;
pub mod rule;
pub mod frontier;
pub mod session;
pub mod carver;
pub mod random;
pub mod generate;
pub mod options;
pub mod render;
pub mod theorems;
