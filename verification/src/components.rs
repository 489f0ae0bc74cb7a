//! Presentation state: the board of a match against the automated
//! opponent, its cells, and the events that the board hands to them.

pub mod constants;
pub mod state;
pub mod overlay;
pub mod cell;
pub mod board;
