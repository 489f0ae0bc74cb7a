//! Rule engine for the pencil-and-paper game SOS on a rectangular grid,
//! together with a one-ply automated opponent and the state of a board
//! that shows a match between a person and that opponent.
//!
//! The contracts of the executable types in [`engine::game`] and
//! [`engine::bot`] are stated over the mathematical model in
//! [`engine::model`]. [`engine::laws`] holds what is proved of whole games,
//! [`engine::geometry`] that the runs found are the straight runs of the
//! grid. [`components`] holds the presentation state: what each message does
//! to a board and to a cell, and which lines are drawn over a completed run.

pub mod components;
pub mod engine;
