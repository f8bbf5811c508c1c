//! Simulation core of a tile-based, top-down tank combat game.

pub mod geometry;
pub mod collision;
pub mod bullet;
pub mod motion;
pub mod shoot;
pub mod grid;
pub mod pathfinder;
pub mod search_laws;
pub mod enemy;
pub mod editor;
