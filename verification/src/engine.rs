//! The game engine: cell values, the mathematical model, the executable
//! game state and the automated opponent.

pub mod cell;
pub mod model;
pub mod game;
pub mod bot;
pub mod laws;
pub mod geometry;
