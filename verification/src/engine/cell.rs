//! What a single grid position can hold.

use vstd::prelude::*;

verus! {

/// The content of one grid position. `S` is the outer symbol of a scoring
/// run, `O` the inner one.
#[derive(Clone, Copy, Debug, PartialEq, Eq, Structural)]
pub enum CellValue {
    Empty,
    S,
    O,
}

} // verus!
