//! What the board announces to its cells.

use vstd::prelude::*;
use std::collections::HashMap;
use crate::engine::cell::CellValue;

verus! {

/// An announcement of the board.
#[derive(Clone, PartialEq)]
pub enum BoardEvents {
    Idle,
    /// No cell takes input.
    Lock,
    /// Cells take input again.
    Unlock,
    /// By position: the half-lines to add, and the symbol that was placed
    /// there, if one was.
    Update(HashMap<u16, (u8, Option<CellValue>)>),
}

/// The state that the board shares with its cells.
#[derive(Clone, PartialEq)]
pub struct BoardState {
    pub events: BoardEvents,
}

} // verus!
