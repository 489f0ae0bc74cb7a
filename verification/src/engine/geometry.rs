//! Why the scan is right: the candidate runs that pass the row check are
//! the straight runs of three neighbouring positions through the placement,
//! no more and no fewer.

use vstd::prelude::*;
use vstd::arithmetic::div_mod::{lemma_fundamental_div_mod, lemma_fundamental_div_mod_converse};
use crate::engine::cell::CellValue;
use crate::engine::model::{
    lemma_scan_complete, lemma_scan_found, o_runs, runs_through, s_runs, GameState,
};

verus! {

/// The three positions from row `r`, column `c` on, each `dr` rows and
/// `dc` columns from the one before.
pub open spec fn line(r: int, c: int, dr: int, dc: int, cols: int) -> (int, int, int) {
    (r * cols + c, (r + dr) * cols + (c + dc), (r + 2 * dr) * cols + (c + 2 * dc))
}

/// Along a row, down a column, or down one of the two diagonals.
pub open spec fn is_direction(dr: int, dc: int) -> bool {
    ||| dr == 0 && dc == 1
    ||| dr == 1 && dc == 0
    ||| dr == 1 && dc == 1
    ||| dr == 1 && dc == -1
}

/// The run from row `r`, column `c` in direction `dr`, `dc` stays on a
/// grid of `rows` by `cols`.
pub open spec fn fits(r: int, c: int, dr: int, dc: int, rows: int, cols: int) -> bool {
    &&& is_direction(dr, dc)
    &&& 0 <= r
    &&& r + 2 * dr < rows
    &&& 0 <= c < cols
    &&& 0 <= c + 2 * dc < cols
}

/// `t` is a straight run of three neighbouring positions on a grid of
/// `rows` by `cols`.
pub open spec fn is_straight(t: (int, int, int), rows: int, cols: int) -> bool {
    exists|r: int, c: int, dr: int, dc: int|
        fits(r, c, dr, dc, rows, cols) && t == #[trigger] line(r, c, dr, dc, cols)
}

/// The row of position `q * cols + rem`, where `rem` is a column, is `q`.
proof fn lemma_row(cols: int, q: int, rem: int)
    requires
        cols >= 1,
        0 <= rem < cols,
    ensures
        (q * cols + rem) / cols == q,
        (q * cols + rem) % cols == rem,
{
    lemma_fundamental_div_mod_converse(q * cols + rem, cols, q, rem);
}

/// A run that starts at `a`, steps by one of the four distances between
/// neighbours, ends on the grid and passes the row check is straight.
proof fn lemma_step_is_straight(a: int, d: int, rows: int, cols: int)
    requires
        rows >= 1,
        cols >= 1,
        0 <= a,
        a + 2 * d < rows * cols,
        d > 0,
        d == 1 || d == cols - 1 || d == cols || d == cols + 1,
        (a + 2 * d) / cols - a / cols == 0 || (a + 2 * d) / cols - a / cols == 2,
    ensures
        is_straight((a, a + d, a + 2 * d), rows, cols),
{
    let r = a / cols;
    let c = a % cols;
    lemma_fundamental_div_mod(a, cols);
    assert(a == r * cols + c) by (nonlinear_arith)
        requires
            a == cols * r + c,
    ;
    assert(0 <= c < cols);
    assert(r >= 0) by (nonlinear_arith)
        requires
            a == r * cols + c,
            0 <= a,
            0 <= c < cols,
            cols >= 1,
    ;
    assert((r + 1) * cols == r * cols + cols && (r + 2) * cols == r * cols + 2 * cols
        && (r + 3) * cols == r * cols + 3 * cols && (r + 4) * cols == r * cols + 4 * cols)
        by (nonlinear_arith);
    let t = (a, a + d, a + 2 * d);
    if d == cols {
        lemma_row(cols, r + 2, c);
        assert(r + 2 < rows) by (nonlinear_arith)
            requires
                (r + 2) * cols + c < rows * cols,
                0 <= c,
                cols >= 1,
        ;
        assert(fits(r, c, 1, 0, rows, cols));
        assert(t == line(r, c, 1, 0, cols));
    } else if d == 1 {
        // here cols >= 2
        if c + 2 >= cols {
            lemma_row(cols, r + 1, c + 2 - cols);
            assert(false);
        }
        assert(r < rows) by (nonlinear_arith)
            requires
                r * cols + c < rows * cols,
                0 <= c,
                cols >= 1,
        ;
        assert(fits(r, c, 0, 1, rows, cols));
        assert(t == line(r, c, 0, 1, cols));
    } else if d == cols + 1 {
        if c + 2 >= 2 * cols {
            lemma_row(cols, r + 4, c + 2 - 2 * cols);
            assert(false);
        } else if c + 2 >= cols {
            lemma_row(cols, r + 3, c + 2 - cols);
            assert(false);
        }
        assert(r + 2 < rows) by (nonlinear_arith)
            requires
                (r + 2) * cols + c + 2 < rows * cols,
                0 <= c,
                cols >= 1,
        ;
        assert(fits(r, c, 1, 1, rows, cols));
        assert(t == line(r, c, 1, 1, cols));
    } else {
        // d == cols - 1 and cols >= 3
        if c < 2 {
            lemma_row(cols, r + 1, c + cols - 2);
            assert(false);
        }
        assert(r + 2 < rows) by (nonlinear_arith)
            requires
                (r + 2) * cols + c - 2 < rows * cols,
                2 <= c,
                cols >= 1,
        ;
        assert(fits(r, c, 1, -1, rows, cols));
        assert(t == line(r, c, 1, -1, cols));
    }
}

/// Every run that a placement newly completes is a straight run of three
/// neighbouring positions: along a row, down a column or down a diagonal,
/// never around the edge of the grid.
pub proof fn law_reported_runs_are_straight(s: GameState, pos: int, symbol: CellValue, n: int)
    requires
        s.rows >= 1,
        s.cols >= 1,
        0 <= n < s.new_triples(pos, symbol).len(),
    ensures
        is_straight(s.new_triples(pos, symbol)[n], s.rows, s.cols),
{
    let runs = runs_through(pos, symbol, s.cols);
    let t = s.new_triples(pos, symbol)[n];
    lemma_scan_found(s, runs, pos, symbol);
    assert(runs.contains(t));
    let k = choose|k: int| 0 <= k < runs.len() && runs[k] == t;
    assert(s.completes(t, pos, symbol));
    assert(t.0 != t.1);
    let d = t.1 - t.0;
    lemma_step_is_straight(t.0, d, s.rows, s.cols);
}

/// The positions of a straight run lie on the grid and pass the row check,
/// and each step of the run is the same distance.
proof fn lemma_straight_on_grid(r: int, c: int, dr: int, dc: int, rows: int, cols: int)
    requires
        rows >= 1,
        cols >= 1,
        fits(r, c, dr, dc, rows, cols),
    ensures
        ({
            let t = line(r, c, dr, dc, cols);
            let d = dr * cols + dc;
            &&& t.1 == t.0 + d
            &&& t.2 == t.0 + 2 * d
            &&& 0 <= t.0 <= t.1 <= t.2 < rows * cols
            &&& t.0 / cols == r
            &&& t.2 / cols == r + 2 * dr
        }),
{
    let t = line(r, c, dr, dc, cols);
    assert((r + dr) * cols == r * cols + dr * cols && (r + 2 * dr) * cols == r * cols + 2 * (dr
        * cols)) by (nonlinear_arith);
    assert(0 * cols == 0 && 1 * cols == cols);
    lemma_row(cols, r, c);
    lemma_row(cols, r + 2 * dr, c + 2 * dc);
    assert(r * cols >= 0 && (r + 2 * dr) * cols + cols <= rows * cols) by (nonlinear_arith)
        requires
            0 <= r,
            r + 2 * dr < rows,
            cols >= 1,
    ;
}

/// The scan misses no run: a straight run through `pos`, with `pos` at
/// one of its ends for an `S` and in its middle for an `O`, that spells
/// S, O, S once the symbol is placed and was not credited before is among
/// the runs that the placement newly completes.
pub proof fn law_straight_run_is_reported(
    s: GameState,
    pos: int,
    symbol: CellValue,
    t: (int, int, int),
)
    requires
        s.rows >= 1,
        s.cols >= 1,
        is_straight(t, s.rows, s.cols),
        t.0 == pos || t.1 == pos || t.2 == pos,
        s.placed(t.0, pos, symbol) == CellValue::S,
        s.placed(t.1, pos, symbol) == CellValue::O,
        s.placed(t.2, pos, symbol) == CellValue::S,
        !s.completed.contains(t),
    ensures
        s.new_triples(pos, symbol).contains(t),
{
    let (r, c, dr, dc) = choose|r: int, c: int, dr: int, dc: int|
        fits(r, c, dr, dc, s.rows, s.cols) && t == #[trigger] line(r, c, dr, dc, s.cols);
    lemma_straight_on_grid(r, c, dr, dc, s.rows, s.cols);
    let d = dr * s.cols + dc;
    assert(d == 1 || d == s.cols || d == s.cols + 1 || d == s.cols - 1) by (nonlinear_arith)
        requires
            d == dr * s.cols + dc,
            is_direction(dr, dc),
    ;
    assert(s.on_grid(t));
    assert(s.completes(t, pos, symbol));
    let runs = runs_through(pos, symbol, s.cols);
    if t.1 == pos {
        // the middle of a run that spells S, O, S holds the O
        assert(symbol == CellValue::O);
        let o = o_runs(pos, s.cols);
        assert(o[0] == t || o[1] == t || o[2] == t || o[3] == t);
    } else {
        assert(symbol == CellValue::S);
        let o = s_runs(pos, s.cols);
        assert(o[0] == t || o[1] == t || o[2] == t || o[3] == t || o[4] == t || o[5] == t || o[6]
            == t || o[7] == t);
    }
    assert(runs.contains(t));
    lemma_scan_complete(s, runs, pos, symbol, t);
}

} // verus!
