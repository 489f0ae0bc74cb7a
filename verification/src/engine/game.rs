//! The executable game state: construction, move validation and
//! application, detection of newly completed runs, and the read accessors.

use vstd::prelude::*;
use crate::engine::bot::{choices, lemma_choices, Bot};
use crate::engine::cell::CellValue;
use crate::engine::model::{
    count_filled, lemma_after_move_valid, lemma_count_filled_blank, lemma_count_filled_bounds,
    lemma_new_triples_len, lemma_score_total_bounds, lemma_score_total_zeros, o_runs, s_runs,
    GameState,
};

verus! {

/// Why a move was turned down.
#[derive(Clone, Copy, Debug, PartialEq, Eq, Structural)]
pub enum GameError {
    /// The acting player is not the one whose turn it is.
    InvalidPlayer,
    /// The position lies outside the grid.
    InvalidPosition,
    /// The position already holds a symbol.
    PositionAlreadyOccupied,
    /// The symbol to place is `Empty`.
    InvalidMove,
    /// Every position of the grid is occupied.
    GameFinished,
}

/// What an accepted move reports.
#[derive(Debug)]
pub struct UpdateResponse {
    /// The runs that the move newly completed.
    pub new_sos: Vec<(u16, u16, u16)>,
    /// The points of every player after the move.
    pub scores: Vec<u32>,
    /// The player expected to move next.
    pub next_turn: u8,
}

/// A list of runs as mathematical triples.
pub open spec fn triples_view(list: Seq<(u16, u16, u16)>) -> Seq<(int, int, int)> {
    list.map_values(|t: (u16, u16, u16)| (t.0 as int, t.1 as int, t.2 as int))
}

/// A list of candidate runs as mathematical triples.
pub open spec fn runs_view(list: Seq<(i32, i32, i32)>) -> Seq<(int, int, int)> {
    list.map_values(|t: (i32, i32, i32)| (t.0 as int, t.1 as int, t.2 as int))
}

/// A list of scores as mathematical integers.
pub open spec fn scores_view(list: Seq<u32>) -> Seq<int> {
    list.map_values(|v: u32| v as int)
}

/// One match of SOS. The state changes only through [`Game::update`] and
/// [`Game::bot_move`].
#[derive(Clone, Debug)]
pub struct Game {
    num_of_players: u8,
    turn: u8,
    scores: Vec<u32>,
    row: u16,
    col: u16,
    total: u16,
    cells: Vec<CellValue>,
    total_occupied: u16,
    sos: Vec<(u16, u16, u16)>,
}

impl View for Game {
    type V = GameState;

    closed spec fn view(&self) -> GameState {
        GameState {
            players: self.num_of_players as int,
            turn: self.turn as int,
            scores: scores_view(self.scores@),
            rows: self.row as int,
            cols: self.col as int,
            cells: self.cells@,
            completed: triples_view(self.sos@),
        }
    }
}

/// Whether `list` holds the run `t`.
fn contains_triple(list: &Vec<(u16, u16, u16)>, t: (u16, u16, u16)) -> (b: bool)
    ensures
        b == triples_view(list@).contains((t.0 as int, t.1 as int, t.2 as int)),
{
    let ghost want = (t.0 as int, t.1 as int, t.2 as int);
    let mut n: usize = 0;
    while n < list.len()
        invariant
            n <= list.len(),
            want == (t.0 as int, t.1 as int, t.2 as int),
            forall|m: int| 0 <= m < n ==> triples_view(list@)[m] != want,
        decreases list.len() - n,
    {
        let e = list[n];
        if e.0 == t.0 && e.1 == t.1 && e.2 == t.2 {
            assert(triples_view(list@)[n as int] == want);
            return true;
        }
        n += 1;
    }
    false
}

/// Appends the runs of `extra` to `list`, in their order.
fn append_triples(list: &mut Vec<(u16, u16, u16)>, extra: &Vec<(u16, u16, u16)>)
    ensures
        final(list)@ == old(list)@ + extra@,
{
    let mut n: usize = 0;
    while n < extra.len()
        invariant
            n <= extra.len(),
            list@ == old(list)@ + extra@.take(n as int),
        decreases extra.len() - n,
    {
        list.push(extra[n]);
        assert(list@ =~= old(list)@ + extra@.take(n + 1));
        n += 1;
    }
    assert(extra@.take(n as int) =~= extra@);
}

/// The eight candidate runs of an `S` placed at `pos`.
fn s_groups(pos: i32, col: i32) -> (groups: Vec<(i32, i32, i32)>)
    requires
        -0x10000 <= pos <= 0x10000,
        0 <= col <= 0x10000,
    ensures
        runs_view(groups@) == s_runs(pos as int, col as int),
{
    let mut groups: Vec<(i32, i32, i32)> = Vec::new();
    groups.push((pos - (col * 2) - 2, pos - col - 1, pos));
    groups.push((pos - (col * 2), pos - col, pos));
    groups.push((pos - (col * 2) + 2, pos - col + 1, pos));
    groups.push((pos - 2, pos - 1, pos));
    groups.push((pos, pos + 1, pos + 2));
    groups.push((pos, pos + col - 1, pos + (col * 2) - 2));
    groups.push((pos, pos + col, pos + (col * 2)));
    groups.push((pos, pos + col + 1, pos + (col * 2) + 2));
    assert(runs_view(groups@) =~= s_runs(pos as int, col as int));
    groups
}

/// The four candidate runs of an `O` placed at `pos`.
fn o_groups(pos: i32, col: i32) -> (groups: Vec<(i32, i32, i32)>)
    requires
        -0x10000 <= pos <= 0x10000,
        0 <= col <= 0x10000,
    ensures
        runs_view(groups@) == o_runs(pos as int, col as int),
{
    let mut groups: Vec<(i32, i32, i32)> = Vec::new();
    groups.push((pos - col - 1, pos, pos + col + 1));
    groups.push((pos - col, pos, pos + col));
    groups.push((pos - col + 1, pos, pos + col - 1));
    groups.push((pos - 1, pos, pos + 1));
    assert(runs_view(groups@) =~= o_runs(pos as int, col as int));
    groups
}

impl Game {
    /// The invariant of the representation: the state is one that a game
    /// can reach, and the cached counts agree with the grid.
    pub closed spec fn wf(&self) -> bool {
        &&& self@.valid()
        &&& self.total as int == self.row as int * self.col as int
        &&& self.total_occupied as int == count_filled(self.cells@)
    }

    /// What well-formedness says of the model.
    pub proof fn lemma_wf(&self)
        requires
            self.wf(),
        ensures
            self@.valid(),
            self@.total() <= u16::MAX,
            self@.players <= u8::MAX,
    {
    }

    /// A fresh game on a grid of `row` by `col` empty positions, with
    /// `players` players at zero points, player 0 to move.
    pub fn new(row: u16, col: u16, players: u8) -> (g: Game)
        requires
            row >= 1,
            col >= 1,
            players >= 1,
            row * col <= u16::MAX,
        ensures
            g.wf(),
            g@ == GameState::initial(row as int, col as int, players as int),
    {
        let total: u16 = row * col;
        let mut scores: Vec<u32> = Vec::new();
        let mut p: u8 = 0;
        while p < players
            invariant
                p <= players,
                scores@.len() == p,
                forall|i: int| 0 <= i < p ==> scores@[i] == 0,
            decreases players - p,
        {
            scores.push(0);
            p += 1;
        }
        let mut cells: Vec<CellValue> = Vec::new();
        let mut c: u16 = 0;
        while c < total
            invariant
                c <= total,
                cells@.len() == c,
                forall|i: int| 0 <= i < c ==> cells@[i] == CellValue::Empty,
            decreases total - c,
        {
            cells.push(CellValue::Empty);
            c += 1;
        }
        let g = Game {
            num_of_players: players,
            turn: 0,
            scores,
            row,
            col,
            total,
            cells,
            total_occupied: 0,
            sos: Vec::new(),
        };
        proof {
            let init = GameState::initial(row as int, col as int, players as int);
            assert(g@.scores =~= init.scores);
            assert(g@.cells =~= init.cells);
            assert(g@.completed =~= init.completed);
            lemma_count_filled_blank(g.cells@);
            lemma_score_total_zeros(g@.scores);
        }
        g
    }

    /// Those of the candidate runs `groups` that placing `value` at `pos`
    /// completes and that were not credited before, each once, in the order
    /// of `groups`.
    ///
    /// A credited run holds no empty position, so a run through an empty
    /// `pos` was not credited before: the list of credited runs is searched
    /// only where `pos` is occupied or the run does not pass through it. For
    /// a placement on an empty position the work depends on the number of
    /// candidates alone.
    pub fn get_sos_candidates(
        &self,
        groups: &Vec<(i32, i32, i32)>,
        pos: i32,
        value: CellValue,
    ) -> (found: Vec<(u16, u16, u16)>)
        requires
            self.wf(),
        ensures
            triples_view(found@) == self@.scan(runs_view(groups@), pos as int, value),
    {
        let ghost runs = runs_view(groups@);
        let total: i32 = self.total as i32;
        let cols: u32 = self.col as u32;
        let fresh: bool = 0 <= pos && pos < total && self.cells[pos as usize] == CellValue::Empty;
        let mut found: Vec<(u16, u16, u16)> = Vec::new();
        let mut n: usize = 0;
        while n < groups.len()
            invariant
                n <= groups.len(),
                self.wf(),
                runs == runs_view(groups@),
                total == self.total,
                cols == self.col,
                fresh == (0 <= pos < total && self.cells@[pos as int] == CellValue::Empty),
                triples_view(found@) == self@.scan(runs.take(n as int), pos as int, value),
            decreases groups.len() - n,
        {
            let (i, j, k) = groups[n];
            proof {
                assert(runs.take(n + 1).drop_last() =~= runs.take(n as int));
                assert(runs.take(n + 1).last() == (i as int, j as int, k as int));
            }
            let ghost before = found@;
            if 0 <= i && i < total && 0 <= j && j < total && 0 <= k && k < total {
                let irow: u32 = (i as u32) / cols;
                let krow: u32 = (k as u32) / cols;
                if krow == irow || krow == irow + 2 {
                    let x = if i == pos {
                        value
                    } else {
                        self.cells[i as usize]
                    };
                    let y = if j == pos {
                        value
                    } else {
                        self.cells[j as usize]
                    };
                    let z = if k == pos {
                        value
                    } else {
                        self.cells[k as usize]
                    };
                    if x == CellValue::S && y == CellValue::O && z == CellValue::S {
                        let t = (i as u16, j as u16, k as u16);
                        let through = i == pos || j == pos || k == pos;
                        if !contains_triple(&found, t) {
                            if (fresh && through) || !contains_triple(&self.sos, t) {
                                proof {
                                    let tv = (i as int, j as int, k as int);
                                    if self@.completed.contains(tv) {
                                        let m = choose|m: int|
                                            0 <= m < self@.completed.len() && self@.completed[m]
                                                == tv;
                                        assert(self@.formed(self@.completed[m]));
                                    }
                                }
                                found.push(t);
                                assert(triples_view(found@) =~= triples_view(before).push(
                                    (i as int, j as int, k as int),
                                ));
                            }
                        }
                    }
                }
            }
            n += 1;
        }
        assert(runs.take(n as int) =~= runs);
        found
    }

    /// The runs that placing `value` at `pos` would newly complete.
    pub(crate) fn detect(&self, pos: i32, value: CellValue) -> (found: Vec<(u16, u16, u16)>)
        requires
            self.wf(),
            -0x10000 <= pos <= 0x10000,
        ensures
            triples_view(found@) == self@.new_triples(pos as int, value),
    {
        let col: i32 = self.col as i32;
        match value {
            CellValue::S => {
                let groups = s_groups(pos, col);
                self.get_sos_candidates(&groups, pos, value)
            },
            CellValue::O => {
                let groups = o_groups(pos, col);
                self.get_sos_candidates(&groups, pos, value)
            },
            CellValue::Empty => {
                let found: Vec<(u16, u16, u16)> = Vec::new();
                assert(triples_view(found@) =~= Seq::empty());
                found
            },
        }
    }

    /// The runs that an `S` placed at `pos` would newly complete; none
    /// where `pos` lies outside the grid.
    pub fn add_s(&self, pos: i16) -> (found: Vec<(u16, u16, u16)>)
        requires
            self.wf(),
        ensures
            triples_view(found@) == self@.new_triples(pos as int, CellValue::S),
    {
        self.detect(pos as i32, CellValue::S)
    }

    /// The runs that an `O` placed at `pos` would newly complete; none
    /// where `pos` lies outside the grid.
    pub fn add_o(&self, pos: i16) -> (found: Vec<(u16, u16, u16)>)
        requires
            self.wf(),
        ensures
            triples_view(found@) == self@.new_triples(pos as int, CellValue::O),
    {
        self.detect(pos as i32, CellValue::O)
    }

    /// The points of every player, by player index.
    pub fn get_scores(&self) -> (scores: Vec<u32>)
        ensures
            scores_view(scores@) == self@.scores,
    {
        let mut scores: Vec<u32> = Vec::new();
        let mut p: usize = 0;
        while p < self.scores.len()
            invariant
                p <= self.scores.len(),
                scores@ == self.scores@.take(p as int),
            decreases self.scores.len() - p,
        {
            scores.push(self.scores[p]);
            assert(scores@ =~= self.scores@.take(p + 1));
            p += 1;
        }
        assert(self.scores@.take(p as int) =~= self.scores@);
        scores
    }

    /// The number of columns of the grid.
    pub fn get_col(&self) -> (col: u16)
        ensures
            col as int == self@.cols,
    {
        self.col
    }

    /// The number of positions of the grid.
    pub fn get_total(&self) -> (total: u16)
        requires
            self.wf(),
        ensures
            total as int == self@.total(),
    {
        self.total
    }

    /// Every run credited so far, oldest first.
    pub fn get_sos(&self) -> (runs: Vec<(u16, u16, u16)>)
        ensures
            triples_view(runs@) == self@.completed,
    {
        let mut runs: Vec<(u16, u16, u16)> = Vec::new();
        append_triples(&mut runs, &self.sos);
        assert(runs@ =~= self.sos@);
        runs
    }

    /// The player expected to move next.
    pub fn get_current_turn(&self) -> (turn: u8)
        ensures
            turn as int == self@.turn,
    {
        self.turn
    }

    /// Whether every position holds a symbol.
    pub fn is_game_over(&self) -> (over: bool)
        requires
            self.wf(),
        ensures
            over == self@.is_over(),
    {
        proof {
            lemma_count_filled_bounds(self.cells@);
        }
        self.total_occupied >= self.total
    }

    /// What position `pos` holds, or `None` where `pos` lies outside the
    /// grid.
    pub fn get_cell(&self, pos: u16) -> (cell: Option<CellValue>)
        requires
            self.wf(),
        ensures
            cell == if pos < self@.total() {
                Some(self@.cells[pos as int])
            } else {
                None
            },
    {
        if pos < self.total {
            Some(self.cells[pos as usize])
        } else {
            None
        }
    }

    /// Places `value` at `pos` for `player`, or turns the move down and
    /// leaves the game as it was. An accepted move credits the runs it
    /// newly completes to `player` and passes the turn on.
    pub fn update(&mut self, player: u8, pos: u16, value: CellValue) -> (res: Result<
        UpdateResponse,
        GameError,
    >)
        requires
            old(self).wf(),
        ensures
            final(self).wf(),
            match old(self)@.rejection(player as int, pos as int, value) {
                Some(e) => res == Err::<UpdateResponse, GameError>(e) && *final(self) == *old(self),
                None => match res {
                    Ok(r) => {
                        &&& final(self)@ == old(self)@.after_move(player as int, pos as int, value)
                        &&& triples_view(r.new_sos@) == old(self)@.new_triples(pos as int, value)
                        &&& scores_view(r.scores@) == final(self)@.scores
                        &&& r.next_turn as int == final(self)@.turn
                    },
                    Err(_) => false,
                },
            },
    {
        proof {
            lemma_count_filled_bounds(self.cells@);
        }
        if self.total_occupied >= self.total {
            return Err(GameError::GameFinished);
        }
        if pos >= self.total {
            return Err(GameError::InvalidPosition);
        }
        if self.cells[pos as usize] != CellValue::Empty {
            return Err(GameError::PositionAlreadyOccupied);
        }
        if self.turn != player {
            return Err(GameError::InvalidPlayer);
        }
        if player >= self.num_of_players {
            return Err(GameError::InvalidPlayer);
        }
        if value == CellValue::Empty {
            return Err(GameError::InvalidMove);
        }
        let ret = self.detect(pos as i32, value);
        proof {
            lemma_new_triples_len(self@, pos as int, value);
            lemma_after_move_valid(self@, player as int, pos as int, value);
            lemma_score_total_bounds(self@.scores, player as int);
            assert(triples_view(ret@).len() == ret@.len());
        }
        let gained: u32 = ret.len() as u32;
        self.cells[pos as usize] = value;
        self.scores[player as usize] = self.scores[player as usize] + gained;
        self.turn = (self.turn + 1) % self.num_of_players;
        append_triples(&mut self.sos, &ret);
        self.total_occupied += 1;
        proof {
            let after = old(self)@.after_move(player as int, pos as int, value);
            assert(self@.scores =~= after.scores);
            assert(self@.completed =~= after.completed);
            assert(self@ == after);
        }
        let scores = self.get_scores();
        Ok(UpdateResponse { next_turn: self.turn, scores, new_sos: ret })
    }

    /// Lets the automated opponent move for the player whose turn it is:
    /// it places one of its choices, drawn at random, or fails with
    /// `GameFinished` where the game is over.
    pub fn bot_move(&mut self) -> (res: Result<(u16, CellValue, Vec<(u16, u16, u16)>), GameError>)
        requires
            old(self).wf(),
        ensures
            final(self).wf(),
            old(self)@.is_over() ==> res == Err::<(u16, CellValue, Vec<(u16, u16, u16)>), GameError>(
                GameError::GameFinished,
            ) && *final(self) == *old(self),
            !old(self)@.is_over() ==> match res {
                Ok((pos, val, found)) => {
                    &&& choices(old(self)@).contains((pos as int, val))
                    &&& final(self)@ == old(self)@.after_move(old(self)@.turn, pos as int, val)
                    &&& triples_view(found@) == old(self)@.new_triples(pos as int, val)
                },
                Err(_) => false,
            },
    {
        if self.is_game_over() {
            return Err(GameError::GameFinished);
        }
        let (pos, val) = Bot::make_move(self);
        proof {
            lemma_choices(self@);
            let m = (pos as int, val);
            let n = choose|n: int| 0 <= n < choices(self@).len() && choices(self@)[n] == m;
            assert(crate::engine::bot::legal(self@, choices(self@)[n]));
        }
        let turn: u8 = self.turn;
        match self.update(turn, pos, val) {
            Ok(res) => Ok((pos, val, res.new_sos)),
            Err(e) => Err(e),
        }
    }
}

} // verus!
