//! The state of one cell of the board: the symbol it shows, whether it
//! takes input, and the half-lines drawn over it.

use vstd::prelude::*;
use std::rc::Rc;
use crate::components::constants::{
    LINE_BOTTOM_CENTER, LINE_BOTTOM_LEFT, LINE_BOTTOM_RIGHT, LINE_CENTER_LEFT, LINE_CENTER_RIGHT,
    LINE_TOP_CENTER, LINE_TOP_LEFT, LINE_TOP_RIGHT,
};
use crate::components::state::{BoardEvents, BoardState};
use crate::engine::cell::CellValue;

verus! {

broadcast use vstd::std_specs::hash::group_hash_axioms;

/// What a cell reacts to.
#[derive(Clone, PartialEq)]
pub enum Msg {
    /// The person asks for the next symbol in the cycle.
    UpdateValue,
    /// The board announced something.
    ContextChanged(Rc<BoardState>),
}

/// One cell of the board.
#[derive(Clone, Copy, Debug, PartialEq, Eq)]
pub struct Cell {
    /// The position of the cell on the grid.
    pub id: u16,
    /// The board has locked every cell.
    pub sys_lock: bool,
    /// A symbol was placed here for good.
    pub is_lock: bool,
    /// The symbol shown: the one placed, or the one the person is about to
    /// place.
    pub value: CellValue,
    pub top_left: bool,
    pub top_center: bool,
    pub top_right: bool,
    pub center_left: bool,
    pub center_right: bool,
    pub bottom_left: bool,
    pub bottom_center: bool,
    pub bottom_right: bool,
}

/// Whether `pattern` holds every bit of `line`.
pub open spec fn has_line(pattern: u8, line: u8) -> bool {
    pattern & line == line
}

/// Whether `pattern` holds every bit of `line`.
fn holds(pattern: u8, line: u8) -> (b: bool)
    ensures
        b == has_line(pattern, line),
{
    pattern & line == line
}

/// The symbol that follows `value` in the cycle S, O, empty.
pub open spec fn cycled(value: CellValue) -> CellValue {
    match value {
        CellValue::S => CellValue::O,
        CellValue::O => CellValue::Empty,
        CellValue::Empty => CellValue::S,
    }
}

impl Cell {
    /// The cell once the board has announced `pattern` and `placed` for
    /// its position: half-lines are added, never removed, and a placed
    /// symbol is shown and locks the cell.
    pub open spec fn marked(self, pattern: u8, placed: Option<CellValue>) -> Cell {
        Cell {
            id: self.id,
            sys_lock: self.sys_lock,
            is_lock: self.is_lock || placed is Some,
            value: match placed {
                Some(v) => v,
                None => self.value,
            },
            top_left: self.top_left || has_line(pattern, LINE_TOP_LEFT),
            top_center: self.top_center || has_line(pattern, LINE_TOP_CENTER),
            top_right: self.top_right || has_line(pattern, LINE_TOP_RIGHT),
            center_left: self.center_left || has_line(pattern, LINE_CENTER_LEFT),
            center_right: self.center_right || has_line(pattern, LINE_CENTER_RIGHT),
            bottom_left: self.bottom_left || has_line(pattern, LINE_BOTTOM_LEFT),
            bottom_center: self.bottom_center || has_line(pattern, LINE_BOTTOM_CENTER),
            bottom_right: self.bottom_right || has_line(pattern, LINE_BOTTOM_RIGHT),
        }
    }

    /// The cell after the announcement `events`. An update that does not
    /// name the cell clears a symbol that was not placed for good.
    pub open spec fn after_event(self, events: BoardEvents) -> Cell {
        match events {
            BoardEvents::Idle => self,
            BoardEvents::Lock => Cell { sys_lock: true, ..self },
            BoardEvents::Unlock => Cell { sys_lock: false, ..self },
            BoardEvents::Update(map) => if map@.contains_key(self.id) {
                self.marked(map@[self.id].0, map@[self.id].1)
            } else if self.is_lock {
                self
            } else {
                Cell { value: CellValue::Empty, ..self }
            },
        }
    }

    /// The cell after the message `msg`. A locked cell does not cycle.
    pub open spec fn after(self, msg: Msg) -> Cell {
        match msg {
            Msg::UpdateValue => if self.sys_lock || self.is_lock {
                self
            } else {
                Cell { value: cycled(self.value), ..self }
            },
            Msg::ContextChanged(state) => self.after_event(state.events),
        }
    }

    /// Whether the cell is drawn again after the message `msg`: not where a
    /// locked cell is asked to cycle, and not where an update passes by a
    /// cell whose symbol was placed for good.
    pub open spec fn renders(self, msg: Msg) -> bool {
        match msg {
            Msg::UpdateValue => !(self.sys_lock || self.is_lock),
            Msg::ContextChanged(state) => match state.events {
                BoardEvents::Update(map) => map@.contains_key(self.id) || !self.is_lock,
                _ => true,
            },
        }
    }

    /// An empty, unlocked cell at position `id`, with no line over it.
    pub fn create(id: u16) -> (cell: Cell)
        ensures
            cell == (Cell {
                id,
                sys_lock: false,
                is_lock: false,
                value: CellValue::Empty,
                top_left: false,
                top_center: false,
                top_right: false,
                center_left: false,
                center_right: false,
                bottom_left: false,
                bottom_center: false,
                bottom_right: false,
            }),
    {
        Cell {
            id,
            sys_lock: false,
            is_lock: false,
            value: CellValue::Empty,
            top_left: false,
            top_center: false,
            top_right: false,
            center_left: false,
            center_right: false,
            bottom_left: false,
            bottom_center: false,
            bottom_right: false,
        }
    }

    /// Adds the half-lines of `pattern` and shows the symbol `placed`.
    fn mark(&mut self, pattern: u8, placed: Option<CellValue>)
        ensures
            *final(self) == old(self).marked(pattern, placed),
    {
        match placed {
            Some(val) => {
                self.value = val;
                self.is_lock = true;
            },
            None => {},
        }
        self.top_left = self.top_left || holds(pattern, LINE_TOP_LEFT);
        self.top_center = self.top_center || holds(pattern, LINE_TOP_CENTER);
        self.top_right = self.top_right || holds(pattern, LINE_TOP_RIGHT);
        self.center_left = self.center_left || holds(pattern, LINE_CENTER_LEFT);
        self.center_right = self.center_right || holds(pattern, LINE_CENTER_RIGHT);
        self.bottom_left = self.bottom_left || holds(pattern, LINE_BOTTOM_LEFT);
        self.bottom_center = self.bottom_center || holds(pattern, LINE_BOTTOM_CENTER);
        self.bottom_right = self.bottom_right || holds(pattern, LINE_BOTTOM_RIGHT);
    }

    /// Reacts to `msg` and says whether the cell is to be drawn again.
    pub fn update(&mut self, msg: Msg) -> (render: bool)
        ensures
            *final(self) == old(self).after(msg),
            render == old(self).renders(msg),
    {
        match msg {
            Msg::ContextChanged(state) => {
                match &state.events {
                    BoardEvents::Lock => {
                        self.sys_lock = true;
                    },
                    BoardEvents::Unlock => {
                        self.sys_lock = false;
                    },
                    BoardEvents::Update(map) => {
                        let entry = match map.get(&self.id) {
                            Some(entry) => Some(*entry),
                            None => None,
                        };
                        match entry {
                            None => {
                                if !self.is_lock {
                                    self.value = CellValue::Empty;
                                    return true;
                                }
                                return false;
                            },
                            Some((pattern, val)) => {
                                self.mark(pattern, val);
                            },
                        }
                    },
                    BoardEvents::Idle => {},
                }
                true
            },
            Msg::UpdateValue => {
                if self.sys_lock {
                    return false;
                }
                if self.is_lock {
                    return false;
                }
                if self.value == CellValue::S {
                    self.value = CellValue::O;
                } else if self.value == CellValue::O {
                    self.value = CellValue::Empty;
                } else {
                    self.value = CellValue::S;
                }
                true
            },
        }
    }
}

} // verus!
