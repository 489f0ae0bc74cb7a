//! What holds of whole games: statements over every state that a game can
//! reach and every sequence of requests, proved from the model.

use vstd::prelude::*;
use crate::engine::cell::CellValue;
use crate::engine::game::GameError;
use crate::engine::model::{
    lemma_after_move_valid, lemma_count_filled_bounds, lemma_initial_valid, lemma_step_valid,
    score_total, GameState, Move,
};

verus! {

/// Playing on from a valid state leaves a valid state on the same grid
/// with the same players, and the runs credited at the end are those
/// credited at the start followed by those reported on the way.
pub proof fn lemma_play(s: GameState, moves: Seq<Move>)
    requires
        s.valid(),
    ensures
        s.play(moves).valid(),
        s.play(moves).rows == s.rows,
        s.play(moves).cols == s.cols,
        s.play(moves).players == s.players,
        s.play(moves).completed == s.completed + s.all_reported(moves),
    decreases moves.len(),
{
    if moves.len() == 0 {
        assert(s.completed + Seq::<(int, int, int)>::empty() =~= s.completed);
    } else {
        let before = moves.drop_last();
        lemma_play(s, before);
        let mid = s.play(before);
        lemma_step_valid(mid, moves.last());
        assert(s.play(moves).completed =~= s.completed + s.all_reported(moves));
    }
}

/// In every game, whatever requests are made and whether they are accepted
/// or turned down, the scores of all players sum to the number of runs
/// reported as newly completed.
pub proof fn law_scores_sum_to_reports(rows: int, cols: int, players: int, moves: Seq<Move>)
    requires
        rows >= 1,
        cols >= 1,
        players >= 1,
    ensures
        score_total(GameState::initial(rows, cols, players).play(moves).scores)
            == GameState::initial(rows, cols, players).all_reported(moves).len(),
{
    let start = GameState::initial(rows, cols, players);
    lemma_initial_valid(rows, cols, players);
    lemma_play(start, moves);
    assert(start.completed + start.all_reported(moves) =~= start.all_reported(moves));
}

/// In every game, no run is reported as newly completed twice: not by one
/// request, and not by two.
pub proof fn law_no_run_reported_twice(rows: int, cols: int, players: int, moves: Seq<Move>)
    requires
        rows >= 1,
        cols >= 1,
        players >= 1,
    ensures
        GameState::initial(rows, cols, players).all_reported(moves).no_duplicates(),
{
    let start = GameState::initial(rows, cols, players);
    lemma_initial_valid(rows, cols, players);
    lemma_play(start, moves);
    assert(start.completed + start.all_reported(moves) =~= start.all_reported(moves));
}

/// Every run reported in a game spells S, O, S on the grid from then on.
pub proof fn law_reported_runs_stay_formed(
    rows: int,
    cols: int,
    players: int,
    moves: Seq<Move>,
    n: int,
)
    requires
        rows >= 1,
        cols >= 1,
        players >= 1,
        0 <= n < GameState::initial(rows, cols, players).all_reported(moves).len(),
    ensures
        GameState::initial(rows, cols, players).play(moves).formed(
            GameState::initial(rows, cols, players).all_reported(moves)[n],
        ),
{
    let start = GameState::initial(rows, cols, players);
    lemma_initial_valid(rows, cols, players);
    lemma_play(start, moves);
    assert(start.completed + start.all_reported(moves) =~= start.all_reported(moves));
    assert(start.play(moves).completed[n] == start.all_reported(moves)[n]);
}

/// While the game is not over, a request for a position outside the grid
/// is turned down as `InvalidPosition` and changes nothing.
pub proof fn law_position_outside_grid(s: GameState, m: Move)
    requires
        !s.is_over(),
        !(0 <= m.pos < s.total()),
    ensures
        s.rejection(m.player, m.pos, m.symbol) == Some(GameError::InvalidPosition),
        s.step(m) == s,
        s.reported(m) == Seq::<(int, int, int)>::empty(),
{
}

/// A request for an empty position of the grid by a player whose turn it
/// is not, made while the game is not over, is turned down as
/// `InvalidPlayer` and changes nothing.
pub proof fn law_wrong_player(s: GameState, m: Move)
    requires
        !s.is_over(),
        0 <= m.pos < s.total(),
        s.cells[m.pos] == CellValue::Empty,
        m.player != s.turn,
    ensures
        s.rejection(m.player, m.pos, m.symbol) == Some(GameError::InvalidPlayer),
        s.step(m) == s,
        s.reported(m) == Seq::<(int, int, int)>::empty(),
{
}

/// A request for a position that holds a symbol, made while the game is
/// not over, is turned down as `PositionAlreadyOccupied`, whoever asks and
/// whatever the symbol.
pub proof fn law_occupied_position(s: GameState, m: Move)
    requires
        !s.is_over(),
        0 <= m.pos < s.total(),
        s.cells[m.pos] != CellValue::Empty,
    ensures
        s.rejection(m.player, m.pos, m.symbol) == Some(GameError::PositionAlreadyOccupied),
        s.step(m) == s,
{
}

/// An accepted move passes the turn to the next player in the round and
/// fills exactly one more position, with the symbol asked for.
pub proof fn law_accepted_move(s: GameState, m: Move)
    requires
        s.valid(),
        s.rejection(m.player, m.pos, m.symbol) is None,
    ensures
        s.step(m).turn == (s.turn + 1) % s.players,
        s.step(m).occupied() == s.occupied() + 1,
        s.step(m).cells == s.cells.update(m.pos, m.symbol),
        s.step(m).scores[m.player] == s.scores[m.player] + s.reported(m).len(),
        forall|p: int|
            0 <= p < s.players && p != m.player ==> s.step(m).scores[p] == s.scores[p],
{
    lemma_after_move_valid(s, m.player, m.pos, m.symbol);
}

/// No request ever empties or overwrites a position that holds a symbol.
pub proof fn law_symbols_stay(s: GameState, moves: Seq<Move>, pos: int)
    requires
        s.valid(),
        0 <= pos < s.total(),
        s.cells[pos] != CellValue::Empty,
    ensures
        s.play(moves).cells.len() == s.cells.len(),
        s.play(moves).cells[pos] == s.cells[pos],
    decreases moves.len(),
{
    if moves.len() > 0 {
        law_symbols_stay(s, moves.drop_last(), pos);
        lemma_play(s, moves.drop_last());
    }
}

/// Every accepted request fills one position: after any requests the grid
/// holds as many symbols more as requests were accepted, so a grid of
/// `rows * cols` positions accepts no more than that many.
pub proof fn law_occupied_counts_accepted(s: GameState, moves: Seq<Move>)
    requires
        s.valid(),
    ensures
        s.play(moves).occupied() == s.occupied() + s.accepted(moves),
        0 <= s.accepted(moves) <= s.rows * s.cols - s.occupied(),
    decreases moves.len(),
{
    lemma_play(s, moves);
    lemma_count_filled_bounds(s.play(moves).cells);
    if moves.len() > 0 {
        let before = moves.drop_last();
        let m = moves.last();
        law_occupied_counts_accepted(s, before);
        lemma_play(s, before);
        if s.play(before).rejection(m.player, m.pos, m.symbol) is None {
            lemma_after_move_valid(s.play(before), m.player, m.pos, m.symbol);
        }
    }
}

/// The game is over exactly when every position holds a symbol, and from
/// then on every request is turned down as `GameFinished`: no sequence of
/// requests changes the state or reports a run.
pub proof fn law_over_is_final(s: GameState, moves: Seq<Move>)
    requires
        s.valid(),
        s.is_over(),
    ensures
        s.occupied() == s.rows * s.cols,
        forall|player: int, pos: int, symbol: CellValue|
            #[trigger] s.rejection(player, pos, symbol) == Some(GameError::GameFinished),
        s.play(moves) == s,
        s.all_reported(moves) == Seq::<(int, int, int)>::empty(),
    decreases moves.len(),
{
    if moves.len() > 0 {
        law_over_is_final(s, moves.drop_last());
    }
}

/// A game that is not over has an empty position, and placing `S` or `O`
/// there for the player whose turn it is is accepted.
pub proof fn law_not_over_has_move(s: GameState) -> (pos: int)
    requires
        s.valid(),
        !s.is_over(),
    ensures
        s.rejection(s.turn, pos, CellValue::S) is None,
        s.rejection(s.turn, pos, CellValue::O) is None,
{
    lemma_count_filled_bounds(s.cells);
    crate::engine::model::lemma_some_empty(s.cells)
}

} // verus!
