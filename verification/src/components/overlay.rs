//! The lines drawn over completed runs: for every position of a run, the
//! half-lines that join it to its neighbours in the run.

use vstd::prelude::*;
use std::collections::HashMap;
use crate::components::constants::{
    LINE_BOTTOM_CENTER, LINE_BOTTOM_LEFT, LINE_BOTTOM_RIGHT, LINE_CENTER_LEFT, LINE_CENTER_RIGHT,
    LINE_TOP_CENTER, LINE_TOP_LEFT, LINE_TOP_RIGHT,
};
use crate::engine::cell::CellValue;

verus! {

broadcast use vstd::std_specs::hash::group_hash_axioms;

/// Half-lines and placed symbol by position.
pub type Marks = Map<u16, (u8, Option<CellValue>)>;

/// `m` with an entry for `pos`: the one it has, or one without lines and
/// symbol.
pub open spec fn with_key(m: Marks, pos: u16) -> Marks {
    if m.contains_key(pos) {
        m
    } else {
        m.insert(pos, (0u8, None))
    }
}

/// `m` with `lines` added to the entry of `pos`, where it has one.
pub open spec fn with_lines(m: Marks, pos: u16, lines: u8) -> Marks {
    if m.contains_key(pos) {
        m.insert(pos, (m[pos].0 | lines, m[pos].1))
    } else {
        m
    }
}

/// `m` with the line through the run `t`: `ahead` is the half-line from a
/// position to the next of the run, `back` the one to the previous.
pub open spec fn with_run(m: Marks, t: (u16, u16, u16), ahead: u8, back: u8) -> Marks {
    with_lines(with_lines(with_lines(m, t.0, ahead), t.1, ahead | back), t.2, back)
}

/// `m` after the run `t` on a grid of `cols` columns: its three positions
/// have entries, and where the distance from the first to the last is that
/// of a diagonal, a vertical, an anti-diagonal or a horizontal run (looked
/// for in this order), the line through the run is added.
pub open spec fn grouped_run(m: Marks, t: (u16, u16, u16), cols: int) -> Marks {
    let keyed = with_key(with_key(with_key(m, t.0), t.1), t.2);
    if t.0 + 2 + cols * 2 == t.2 {
        with_run(keyed, t, LINE_BOTTOM_RIGHT, LINE_TOP_LEFT)
    } else if t.0 + cols * 2 == t.2 {
        with_run(keyed, t, LINE_BOTTOM_CENTER, LINE_TOP_CENTER)
    } else if t.0 - 2 + cols * 2 == t.2 {
        with_run(keyed, t, LINE_BOTTOM_LEFT, LINE_TOP_RIGHT)
    } else if t.0 + 2 == t.2 {
        with_run(keyed, t, LINE_CENTER_RIGHT, LINE_CENTER_LEFT)
    } else {
        keyed
    }
}

/// `m` after every run of `runs`, first to last.
pub open spec fn grouped(m: Marks, runs: Seq<(u16, u16, u16)>, cols: int) -> Marks
    decreases runs.len(),
{
    if runs.len() == 0 {
        m
    } else {
        grouped_run(grouped(m, runs.drop_last(), cols), runs.last(), cols)
    }
}

/// Gives `pos` an entry without lines and symbol unless it has one.
pub(crate) fn touch(map: &mut HashMap<u16, (u8, Option<CellValue>)>, pos: u16)
    ensures
        final(map)@ == with_key(old(map)@, pos),
{
    if !map.contains_key(&pos) {
        map.insert(pos, (0, None));
    }
}

/// Adds `lines` to the entry of `pos`.
fn draw(map: &mut HashMap<u16, (u8, Option<CellValue>)>, pos: u16, lines: u8)
    ensures
        final(map)@ == with_lines(old(map)@, pos, lines),
{
    let entry = match map.get(&pos) {
        Some(entry) => Some(*entry),
        None => None,
    };
    match entry {
        Some((a, val)) => {
            map.insert(pos, (a | lines, val));
        },
        None => {},
    }
}

/// Adds the line through the run `t`.
pub(crate) fn draw_run(map: &mut HashMap<u16, (u8, Option<CellValue>)>, t: (u16, u16, u16), ahead: u8, back: u8)
    ensures
        final(map)@ == with_run(old(map)@, t, ahead, back),
{
    draw(map, t.0, ahead);
    draw(map, t.1, ahead | back);
    draw(map, t.2, back);
}

} // verus!
