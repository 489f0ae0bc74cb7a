//! The mathematical model of a game: its state as plain sequences and
//! integers, the runs of three positions that a placement can complete, and
//! the transition that an accepted move performs.

use vstd::prelude::*;
use crate::engine::cell::CellValue;
use crate::engine::game::GameError;

verus! {

/// Number of positions of `cells` that hold a symbol.
pub open spec fn count_filled(cells: Seq<CellValue>) -> int
    decreases cells.len(),
{
    if cells.len() == 0 {
        0
    } else {
        count_filled(cells.drop_last()) + if cells.last() != CellValue::Empty {
            1int
        } else {
            0int
        }
    }
}

/// Sum of all entries of `scores`.
pub open spec fn score_total(scores: Seq<int>) -> int
    decreases scores.len(),
{
    if scores.len() == 0 {
        0
    } else {
        score_total(scores.drop_last()) + scores.last()
    }
}

/// The eight runs in which `pos` is the first or the last position: the
/// runs that end at `pos` (diagonal, vertical, anti-diagonal, horizontal),
/// then those that start there.
pub open spec fn s_runs(pos: int, cols: int) -> Seq<(int, int, int)> {
    seq![
        (pos - 2 * cols - 2, pos - cols - 1, pos),
        (pos - 2 * cols, pos - cols, pos),
        (pos - 2 * cols + 2, pos - cols + 1, pos),
        (pos - 2, pos - 1, pos),
        (pos, pos + 1, pos + 2),
        (pos, pos + cols - 1, pos + 2 * cols - 2),
        (pos, pos + cols, pos + 2 * cols),
        (pos, pos + cols + 1, pos + 2 * cols + 2),
    ]
}

/// The four runs in which `pos` is the middle position, one per
/// orientation.
pub open spec fn o_runs(pos: int, cols: int) -> Seq<(int, int, int)> {
    seq![
        (pos - cols - 1, pos, pos + cols + 1),
        (pos - cols, pos, pos + cols),
        (pos - cols + 1, pos, pos + cols - 1),
        (pos - 1, pos, pos + 1),
    ]
}

/// The runs that placing `symbol` at `pos` could complete, in the order in
/// which they are examined.
pub open spec fn runs_through(pos: int, symbol: CellValue, cols: int) -> Seq<(int, int, int)> {
    match symbol {
        CellValue::S => s_runs(pos, cols),
        CellValue::O => o_runs(pos, cols),
        CellValue::Empty => Seq::empty(),
    }
}

/// A request to place `symbol` at `pos` on behalf of `player`.
pub struct Move {
    pub player: int,
    pub pos: int,
    pub symbol: CellValue,
}

/// The state of a game as mathematical values.
pub struct GameState {
    /// Number of players.
    pub players: int,
    /// The player expected to move next.
    pub turn: int,
    /// Points of each player, by player index.
    pub scores: Seq<int>,
    pub rows: int,
    pub cols: int,
    /// The grid in row-major order: position `row * cols + col`.
    pub cells: Seq<CellValue>,
    /// Every run credited so far, oldest first.
    pub completed: Seq<(int, int, int)>,
}

impl GameState {
    /// The state of a game before the first move.
    pub open spec fn initial(rows: int, cols: int, players: int) -> GameState {
        GameState {
            players,
            turn: 0,
            scores: Seq::new(players as nat, |p: int| 0int),
            rows,
            cols,
            cells: Seq::new((rows * cols) as nat, |p: int| CellValue::Empty),
            completed: Seq::empty(),
        }
    }

    pub open spec fn total(self) -> int {
        self.rows * self.cols
    }

    /// Number of positions that hold a symbol.
    pub open spec fn occupied(self) -> int {
        count_filled(self.cells)
    }

    pub open spec fn is_over(self) -> bool {
        self.occupied() == self.total()
    }

    /// The three positions lie on the grid and the rows of the first and the
    /// last are zero or two apart, which rules out a run that wraps around
    /// the edge of the grid.
    pub open spec fn on_grid(self, t: (int, int, int)) -> bool {
        &&& 0 <= t.0 < self.total()
        &&& 0 <= t.1 < self.total()
        &&& 0 <= t.2 < self.total()
        &&& (t.2 / self.cols - t.0 / self.cols == 0 || t.2 / self.cols - t.0 / self.cols == 2)
    }

    /// The run `t` spells S, O, S on the grid as it is.
    pub open spec fn formed(self, t: (int, int, int)) -> bool {
        &&& self.on_grid(t)
        &&& self.cells[t.0] == CellValue::S
        &&& self.cells[t.1] == CellValue::O
        &&& self.cells[t.2] == CellValue::S
    }

    /// What position `at` holds once `symbol` is placed at `pos`.
    pub open spec fn placed(self, at: int, pos: int, symbol: CellValue) -> CellValue {
        if at == pos {
            symbol
        } else {
            self.cells[at]
        }
    }

    /// The run `t` spells S, O, S once `symbol` is placed at `pos`.
    pub open spec fn completes(self, t: (int, int, int), pos: int, symbol: CellValue) -> bool {
        &&& self.on_grid(t)
        &&& self.placed(t.0, pos, symbol) == CellValue::S
        &&& self.placed(t.1, pos, symbol) == CellValue::O
        &&& self.placed(t.2, pos, symbol) == CellValue::S
    }

    /// Those of `runs` that placing `symbol` at `pos` completes and that
    /// were not credited before, each once, in the order of `runs`.
    pub open spec fn scan(self, runs: Seq<(int, int, int)>, pos: int, symbol: CellValue) -> Seq<
        (int, int, int),
    >
        decreases runs.len(),
    {
        if runs.len() == 0 {
            Seq::empty()
        } else {
            let found = self.scan(runs.drop_last(), pos, symbol);
            let t = runs.last();
            if self.completes(t, pos, symbol) && !self.completed.contains(t) && !found.contains(t) {
                found.push(t)
            } else {
                found
            }
        }
    }

    /// The runs that placing `symbol` at `pos` newly completes.
    pub open spec fn new_triples(self, pos: int, symbol: CellValue) -> Seq<(int, int, int)> {
        self.scan(runs_through(pos, symbol, self.cols), pos, symbol)
    }

    /// Why the move is turned down, or `None` where it is accepted. The
    /// conditions are examined in this order.
    pub open spec fn rejection(self, player: int, pos: int, symbol: CellValue) -> Option<
        GameError,
    > {
        if self.is_over() {
            Some(GameError::GameFinished)
        } else if !(0 <= pos < self.total()) {
            Some(GameError::InvalidPosition)
        } else if self.cells[pos] != CellValue::Empty {
            Some(GameError::PositionAlreadyOccupied)
        } else if player != self.turn {
            Some(GameError::InvalidPlayer)
        } else if !(0 <= player < self.players) {
            Some(GameError::InvalidPlayer)
        } else if symbol == CellValue::Empty {
            Some(GameError::InvalidMove)
        } else {
            None
        }
    }

    /// The state that an accepted move leaves.
    pub open spec fn after_move(self, player: int, pos: int, symbol: CellValue) -> GameState {
        let found = self.new_triples(pos, symbol);
        GameState {
            players: self.players,
            turn: (self.turn + 1) % self.players,
            scores: self.scores.update(player, self.scores[player] + found.len()),
            rows: self.rows,
            cols: self.cols,
            cells: self.cells.update(pos, symbol),
            completed: self.completed + found,
        }
    }

    /// The state after the request `m`: changed where it is accepted, the
    /// same where it is turned down.
    pub open spec fn step(self, m: Move) -> GameState {
        if self.rejection(m.player, m.pos, m.symbol) is None {
            self.after_move(m.player, m.pos, m.symbol)
        } else {
            self
        }
    }

    /// The runs that the request `m` reports as newly completed.
    pub open spec fn reported(self, m: Move) -> Seq<(int, int, int)> {
        if self.rejection(m.player, m.pos, m.symbol) is None {
            self.new_triples(m.pos, m.symbol)
        } else {
            Seq::empty()
        }
    }

    /// The state after the requests `moves`, made one after the other.
    pub open spec fn play(self, moves: Seq<Move>) -> GameState
        decreases moves.len(),
    {
        if moves.len() == 0 {
            self
        } else {
            self.play(moves.drop_last()).step(moves.last())
        }
    }

    /// Every run that one of the requests `moves` reported, in the order of
    /// the reports.
    pub open spec fn all_reported(self, moves: Seq<Move>) -> Seq<(int, int, int)>
        decreases moves.len(),
    {
        if moves.len() == 0 {
            Seq::empty()
        } else {
            self.all_reported(moves.drop_last()) + self.play(moves.drop_last()).reported(
                moves.last(),
            )
        }
    }

    /// The number of requests among `moves`, made one after the other, that
    /// are accepted.
    pub open spec fn accepted(self, moves: Seq<Move>) -> int
        decreases moves.len(),
    {
        if moves.len() == 0 {
            0
        } else {
            let m = moves.last();
            self.accepted(moves.drop_last()) + if self.play(moves.drop_last()).rejection(
                m.player,
                m.pos,
                m.symbol,
            ) is None {
                1int
            } else {
                0int
            }
        }
    }

    /// What holds of every state that a game can reach: the grid and the
    /// number of players are not empty, the turn is a player's, there is one
    /// score for each player and none is negative, the grid has a value for
    /// each position, no run is credited twice, every credited run spells
    /// S, O, S on the grid, the scores sum to the number of credited runs,
    /// and at most eight runs are credited for each symbol on the grid.
    pub open spec fn valid(self) -> bool {
        &&& self.rows >= 1
        &&& self.cols >= 1
        &&& self.players >= 1
        &&& 0 <= self.turn < self.players
        &&& self.scores.len() == self.players
        &&& forall|p: int| 0 <= p < self.scores.len() ==> self.scores[p] >= 0
        &&& self.cells.len() == self.total()
        &&& self.completed.no_duplicates()
        &&& forall|n: int| 0 <= n < self.completed.len() ==> self.formed(#[trigger] self.completed[n])
        &&& score_total(self.scores) == self.completed.len()
        &&& self.completed.len() <= 8 * self.occupied()
    }
}

/// Between none and all of the positions hold a symbol.
pub proof fn lemma_count_filled_bounds(cells: Seq<CellValue>)
    ensures
        0 <= count_filled(cells) <= cells.len(),
    decreases cells.len(),
{
    if cells.len() > 0 {
        lemma_count_filled_bounds(cells.drop_last());
    }
}

/// Filling an empty position raises the count by one.
pub proof fn lemma_count_filled_update(cells: Seq<CellValue>, pos: int, symbol: CellValue)
    requires
        0 <= pos < cells.len(),
        cells[pos] == CellValue::Empty,
        symbol != CellValue::Empty,
    ensures
        count_filled(cells.update(pos, symbol)) == count_filled(cells) + 1,
    decreases cells.len(),
{
    let after = cells.update(pos, symbol);
    if pos == cells.len() - 1 {
        assert(after.drop_last() =~= cells.drop_last());
    } else {
        assert(after.drop_last() =~= cells.drop_last().update(pos, symbol));
        lemma_count_filled_update(cells.drop_last(), pos, symbol);
    }
}

/// Where not every position holds a symbol, some position is empty.
pub proof fn lemma_some_empty(cells: Seq<CellValue>) -> (pos: int)
    requires
        count_filled(cells) < cells.len(),
    ensures
        0 <= pos < cells.len(),
        cells[pos] == CellValue::Empty,
    decreases cells.len(),
{
    if cells.last() == CellValue::Empty {
        cells.len() - 1
    } else {
        lemma_some_empty(cells.drop_last())
    }
}

/// A grid of empty positions holds no symbol.
pub proof fn lemma_count_filled_blank(cells: Seq<CellValue>)
    requires
        forall|p: int| 0 <= p < cells.len() ==> cells[p] == CellValue::Empty,
    ensures
        count_filled(cells) == 0,
    decreases cells.len(),
{
    if cells.len() > 0 {
        lemma_count_filled_blank(cells.drop_last());
    }
}

/// No entry of a sequence of non-negative scores exceeds their sum.
pub proof fn lemma_score_total_bounds(scores: Seq<int>, player: int)
    requires
        forall|p: int| 0 <= p < scores.len() ==> scores[p] >= 0,
        0 <= player < scores.len(),
    ensures
        0 <= scores[player] <= score_total(scores),
    decreases scores.len(),
{
    lemma_score_total_nonnegative(scores.drop_last());
    if player < scores.len() - 1 {
        lemma_score_total_bounds(scores.drop_last(), player);
    }
}

/// A sum of non-negative scores is not negative.
pub proof fn lemma_score_total_nonnegative(scores: Seq<int>)
    requires
        forall|p: int| 0 <= p < scores.len() ==> scores[p] >= 0,
    ensures
        0 <= score_total(scores),
    decreases scores.len(),
{
    if scores.len() > 0 {
        lemma_score_total_nonnegative(scores.drop_last());
    }
}

/// Raising one entry by `gain` raises the sum by `gain`.
pub proof fn lemma_score_total_update(scores: Seq<int>, player: int, gain: int)
    requires
        0 <= player < scores.len(),
    ensures
        score_total(scores.update(player, scores[player] + gain)) == score_total(scores) + gain,
    decreases scores.len(),
{
    let after = scores.update(player, scores[player] + gain);
    if player == scores.len() - 1 {
        assert(after.drop_last() =~= scores.drop_last());
    } else {
        assert(after.drop_last() =~= scores.drop_last().update(
            player,
            scores.drop_last()[player] + gain,
        ));
        lemma_score_total_update(scores.drop_last(), player, gain);
    }
}

/// A sequence of zeros sums to zero.
pub proof fn lemma_score_total_zeros(scores: Seq<int>)
    requires
        forall|p: int| 0 <= p < scores.len() ==> scores[p] == 0,
    ensures
        score_total(scores) == 0,
    decreases scores.len(),
{
    if scores.len() > 0 {
        lemma_score_total_zeros(scores.drop_last());
    }
}

/// What a scan finds: no more runs than it examined, none twice, none that
/// was credited before, and only runs among those examined that the
/// placement completes.
pub proof fn lemma_scan_found(
    s: GameState,
    runs: Seq<(int, int, int)>,
    pos: int,
    symbol: CellValue,
)
    ensures
        s.scan(runs, pos, symbol).len() <= runs.len(),
        s.scan(runs, pos, symbol).no_duplicates(),
        forall|n: int|
            0 <= n < s.scan(runs, pos, symbol).len() ==> {
                let t = #[trigger] s.scan(runs, pos, symbol)[n];
                &&& s.completes(t, pos, symbol)
                &&& !s.completed.contains(t)
                &&& runs.contains(t)
            },
    decreases runs.len(),
{
    if runs.len() > 0 {
        let before = runs.drop_last();
        lemma_scan_found(s, before, pos, symbol);
        let found = s.scan(before, pos, symbol);
        assert forall|n: int| 0 <= n < found.len() implies runs.contains(#[trigger] found[n]) by {
            let t = found[n];
            assert(before.contains(t));
            let m = choose|m: int| 0 <= m < before.len() && before[m] == t;
            assert(runs[m] == t);
        }
        assert(runs[runs.len() - 1] == runs.last());
    }
}

/// A scan finds every run among those examined that the placement
/// completes and that was not credited before.
pub proof fn lemma_scan_complete(
    s: GameState,
    runs: Seq<(int, int, int)>,
    pos: int,
    symbol: CellValue,
    t: (int, int, int),
)
    requires
        runs.contains(t),
        s.completes(t, pos, symbol),
        !s.completed.contains(t),
    ensures
        s.scan(runs, pos, symbol).contains(t),
    decreases runs.len(),
{
    let before = runs.drop_last();
    let found = s.scan(before, pos, symbol);
    if runs.last() == t {
        if found.contains(t) {
            let m = choose|m: int| 0 <= m < found.len() && found[m] == t;
            assert(s.scan(runs, pos, symbol)[m] == t);
        } else {
            assert(found.push(t)[found.len() as int] == t);
        }
    } else {
        let m = choose|m: int| 0 <= m < runs.len() && runs[m] == t;
        assert(before[m] == t);
        lemma_scan_complete(s, before, pos, symbol, t);
        let k = choose|k: int| 0 <= k < found.len() && found[k] == t;
        assert(s.scan(runs, pos, symbol)[k] == t);
    }
}

/// A placement newly completes at most eight runs.
pub proof fn lemma_new_triples_len(s: GameState, pos: int, symbol: CellValue)
    ensures
        s.new_triples(pos, symbol).len() <= 8,
{
    lemma_scan_found(s, runs_through(pos, symbol, s.cols), pos, symbol);
}

/// The state before the first move is valid.
pub proof fn lemma_initial_valid(rows: int, cols: int, players: int)
    requires
        rows >= 1,
        cols >= 1,
        players >= 1,
    ensures
        GameState::initial(rows, cols, players).valid(),
{
    let s = GameState::initial(rows, cols, players);
    assert(rows * cols >= 0) by (nonlinear_arith)
        requires
            rows >= 1,
            cols >= 1,
    ;
    lemma_count_filled_blank(s.cells);
    lemma_score_total_zeros(s.scores);
}

/// An accepted move leaves a valid state.
pub proof fn lemma_after_move_valid(s: GameState, player: int, pos: int, symbol: CellValue)
    requires
        s.valid(),
        s.rejection(player, pos, symbol) is None,
    ensures
        s.after_move(player, pos, symbol).valid(),
        s.after_move(player, pos, symbol).occupied() == s.occupied() + 1,
{
    let after = s.after_move(player, pos, symbol);
    let found = s.new_triples(pos, symbol);
    lemma_scan_found(s, runs_through(pos, symbol, s.cols), pos, symbol);
    lemma_count_filled_update(s.cells, pos, symbol);
    lemma_score_total_update(s.scores, player, found.len() as int);
    assert(after.total() == s.total());
    assert forall|n: int| 0 <= n < after.completed.len() implies after.formed(
        #[trigger] after.completed[n],
    ) by {
        let t = after.completed[n];
        if n < s.completed.len() {
            assert(t == s.completed[n]);
            assert(s.formed(t));
        } else {
            assert(t == found[n - s.completed.len()]);
            assert(s.completes(t, pos, symbol));
        }
    }
    assert(after.completed.no_duplicates()) by {
        assert forall|a: int, b: int|
            0 <= a < after.completed.len() && 0 <= b < after.completed.len() && a
                != b implies after.completed[a] != after.completed[b] by {
            let old_len = s.completed.len() as int;
            if a < old_len && b >= old_len {
                assert(found[b - old_len] == after.completed[b]);
                assert(s.completed[a] == after.completed[a]);
                assert(s.completed.contains(s.completed[a]));
            } else if b < old_len && a >= old_len {
                assert(found[a - old_len] == after.completed[a]);
                assert(s.completed[b] == after.completed[b]);
                assert(s.completed.contains(s.completed[b]));
            } else if a >= old_len && b >= old_len {
                assert(found[a - old_len] == after.completed[a]);
                assert(found[b - old_len] == after.completed[b]);
            }
        }
    }
}

/// Every request leaves a valid state.
pub proof fn lemma_step_valid(s: GameState, m: Move)
    requires
        s.valid(),
    ensures
        s.step(m).valid(),
{
    if s.rejection(m.player, m.pos, m.symbol) is None {
        lemma_after_move_valid(s, m.player, m.pos, m.symbol);
    }
}

} // verus!
