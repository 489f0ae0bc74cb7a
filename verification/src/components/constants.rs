//! Player indices and the bits that name the eight half-lines a cell can
//! show, from its centre to each neighbour.

use vstd::prelude::*;

verus! {

pub const PLAYER_TURN: u8 = 0;

pub const COMPUTER_TURN: u8 = 1;

pub const LINE_TOP_LEFT: u8 = 1;

pub const LINE_TOP_CENTER: u8 = 2;

pub const LINE_TOP_RIGHT: u8 = 4;

pub const LINE_CENTER_LEFT: u8 = 8;

pub const LINE_CENTER_RIGHT: u8 = 16;

pub const LINE_BOTTOM_LEFT: u8 = 32;

pub const LINE_BOTTOM_CENTER: u8 = 64;

pub const LINE_BOTTOM_RIGHT: u8 = 128;

} // verus!
