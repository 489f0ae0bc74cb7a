//! The board of a match between a person, who is player 0, and the
//! automated opponent, who is player 1: what each message does to it.

use vstd::prelude::*;
use std::collections::HashMap;
use std::rc::Rc;
use crate::components::constants::{
    COMPUTER_TURN, LINE_BOTTOM_CENTER, LINE_BOTTOM_LEFT, LINE_BOTTOM_RIGHT, LINE_CENTER_LEFT,
    LINE_CENTER_RIGHT, LINE_TOP_CENTER, LINE_TOP_LEFT, LINE_TOP_RIGHT, PLAYER_TURN,
};
use crate::components::overlay::{draw_run, grouped, touch, Marks};
use crate::components::state::{BoardEvents, BoardState};
use crate::engine::bot::choices;
use crate::engine::cell::CellValue;
use crate::engine::game::{triples_view, Game};
use crate::engine::model::GameState;

verus! {

broadcast use vstd::std_specs::hash::group_hash_axioms;

/// The size of a board.
#[derive(Clone, Copy, Debug, PartialEq, Eq)]
pub struct BoardProps {
    pub col: u16,
    pub row: u16,
}

/// What a board reacts to.
#[derive(Clone, Copy, Debug, PartialEq, Eq)]
pub enum BoardMsg {
    /// The person chose a symbol for a position.
    Selecting((u16, CellValue)),
    LockCells,
    UnlockCells,
    /// The automated opponent is to move.
    BotMove,
    /// The person's choice is to be placed.
    ProcessUpdate(u16, CellValue),
    CheckGameOver,
}

/// What is to be done after a message.
#[derive(Clone, Copy, Debug, PartialEq, Eq)]
pub enum Outcome {
    /// Nothing.
    Skip,
    /// The board is to be drawn again.
    Render,
    /// The messages of [`Board::sequence`] for this choice are to be sent,
    /// one after the other.
    Start(u16, CellValue),
}

/// What the board says above the grid.
#[derive(Clone, Copy, Debug, PartialEq, Eq)]
pub enum Standing {
    Won,
    Lost,
    Draw,
    PlayerTurn,
    ComputerTurn,
}

/// The board: the game, a copy of what the game says of turn and scores,
/// and the latest announcement to the cells.
pub struct Board {
    col: u16,
    row: u16,
    state: Rc<BoardState>,
    game_engine: Game,
    turn: u8,
    player_score: u32,
    bot_score: u32,
}

/// Runs as lists of positions.
pub open spec fn runs_of(runs: Seq<(int, int, int)>) -> Seq<(u16, u16, u16)> {
    runs.map_values(|t: (int, int, int)| (t.0 as u16, t.1 as u16, t.2 as u16))
}

/// What is announced after `val` was placed at `pos` and completed `runs`
/// on a grid of `cols` columns: the symbol at `pos`, and the lines through
/// the runs.
pub open spec fn shown(pos: u16, val: CellValue, runs: Seq<(int, int, int)>, cols: int) -> Marks {
    grouped(Map::empty().insert(pos, (0u8, Some(val))), runs_of(runs), cols)
}

impl Board {
    /// The game on the board.
    pub closed spec fn game(&self) -> GameState {
        self.game_engine@
    }

    /// The number of columns of the board.
    pub closed spec fn cols(&self) -> int {
        self.col as int
    }

    /// The latest announcement.
    pub closed spec fn events(&self) -> BoardEvents {
        self.state.events
    }

    /// The invariant of the representation: the game is well-formed, has
    /// two players and the size of the board, and turn and scores are those
    /// of the game.
    pub closed spec fn wf(&self) -> bool {
        &&& self.game_engine.wf()
        &&& self.game_engine@.players == 2
        &&& self.game_engine@.rows == self.row
        &&& self.game_engine@.cols == self.col
        &&& self.game_engine@.turn == self.turn
        &&& self.game_engine@.scores[0] == self.player_score
        &&& self.game_engine@.scores[1] == self.bot_score
    }

    /// What well-formedness says of the game on the board.
    pub proof fn lemma_wf(&self)
        requires
            self.wf(),
        ensures
            self.game().valid(),
            self.game().players == 2,
            self.game().cols == self.cols(),
            self.game().total() <= u16::MAX,
    {
        self.game_engine.lemma_wf();
    }

    /// `after` shows that `val` was placed at `pos` for the player whose
    /// turn it was on `self`.
    pub open spec fn placed(&self, after: &Board, pos: u16, val: CellValue) -> bool {
        &&& after.game() == self.game().after_move(self.game().turn, pos as int, val)
        &&& match after.events() {
            BoardEvents::Update(map) => map@ == shown(
                pos,
                val,
                self.game().new_triples(pos as int, val),
                self.game().cols,
            ),
            _ => false,
        }
    }

    /// What the message `msg` makes of the board `self`: the board `after`
    /// and the outcome `out`.
    pub open spec fn reacts(&self, msg: BoardMsg, after: &Board, out: Outcome) -> bool {
        match msg {
            BoardMsg::Selecting((id, val)) => {
                &&& *after == *self
                &&& out == if self.game().turn == COMPUTER_TURN || val == CellValue::Empty {
                    Outcome::Skip
                } else {
                    Outcome::Start(id, val)
                }
            },
            BoardMsg::LockCells => {
                &&& after.game() == self.game()
                &&& after.events() == BoardEvents::Lock
                &&& out == Outcome::Render
            },
            BoardMsg::ProcessUpdate(id, val) => if self.game().rejection(
                self.game().turn,
                id as int,
                val,
            ) is None {
                self.placed(after, id, val) && out == Outcome::Render
            } else {
                *after == *self && out == Outcome::Skip
            },
            BoardMsg::UnlockCells => if self.game().is_over() {
                *after == *self && out == Outcome::Skip
            } else {
                &&& after.game() == self.game()
                &&& after.events() == BoardEvents::Unlock
                &&& out == Outcome::Render
            },
            BoardMsg::BotMove => if self.game().turn != COMPUTER_TURN || self.game().is_over() {
                *after == *self && out == Outcome::Skip
            } else {
                &&& out == Outcome::Render
                &&& exists|n: int|
                    0 <= n < choices(self.game()).len() && self.placed(
                        after,
                        (#[trigger] choices(self.game())[n]).0 as u16,
                        choices(self.game())[n].1,
                    )
            },
            BoardMsg::CheckGameOver => if self.game().is_over() {
                &&& after.game() == self.game()
                &&& after.events() == BoardEvents::Lock
                &&& out == Outcome::Render
            } else {
                *after == *self && out == Outcome::Skip
            },
        }
    }

    /// What the board says above the grid: the result once the game is
    /// over, else whose turn it is.
    pub open spec fn standing_of(s: GameState) -> Standing {
        if s.is_over() {
            if s.scores[0] > s.scores[1] {
                Standing::Won
            } else if s.scores[0] < s.scores[1] {
                Standing::Lost
            } else {
                Standing::Draw
            }
        } else if s.turn == 0 {
            Standing::PlayerTurn
        } else {
            Standing::ComputerTurn
        }
    }

    /// A board of the size `props` with a fresh game, the person to move.
    pub fn create(props: &BoardProps) -> (board: Board)
        requires
            props.row >= 1,
            props.col >= 1,
            props.row * props.col <= u16::MAX,
        ensures
            board.wf(),
            board.game() == GameState::initial(props.row as int, props.col as int, 2),
            board.events() == BoardEvents::Idle,
    {
        let state = Rc::new(BoardState { events: BoardEvents::Idle });
        Board {
            turn: PLAYER_TURN,
            state,
            col: props.col,
            row: props.row,
            game_engine: Game::new(props.row, props.col, 2),
            player_score: 0,
            bot_score: 0,
        }
    }

    /// The messages that place the person's choice and let the opponent
    /// answer, in the order in which they are to be sent.
    pub fn sequence(id: u16, val: CellValue) -> (msgs: Vec<BoardMsg>)
        ensures
            msgs@ == seq![
                BoardMsg::LockCells,
                BoardMsg::ProcessUpdate(id, val),
                BoardMsg::BotMove,
                BoardMsg::CheckGameOver,
                BoardMsg::UnlockCells,
            ],
    {
        let mut msgs: Vec<BoardMsg> = Vec::new();
        msgs.push(BoardMsg::LockCells);
        msgs.push(BoardMsg::ProcessUpdate(id, val));
        msgs.push(BoardMsg::BotMove);
        msgs.push(BoardMsg::CheckGameOver);
        msgs.push(BoardMsg::UnlockCells);
        assert(msgs@ =~= seq![
            BoardMsg::LockCells,
            BoardMsg::ProcessUpdate(id, val),
            BoardMsg::BotMove,
            BoardMsg::CheckGameOver,
            BoardMsg::UnlockCells,
        ]);
        msgs
    }

    /// Enters the runs of `result` into `map`: every position of a run gets
    /// an entry, and the half-lines that join it to its neighbours in the
    /// run.
    pub fn grouping_sos(
        &self,
        result: &Vec<(u16, u16, u16)>,
        map: &mut HashMap<u16, (u8, Option<CellValue>)>,
    )
        ensures
            final(map)@ == grouped(old(map)@, result@, self.cols()),
    {
        let step: i32 = (self.col as i32) * 2;
        let mut n: usize = 0;
        while n < result.len()
            invariant
                n <= result.len(),
                step == self.col * 2,
                map@ == grouped(old(map)@, result@.take(n as int), self.col as int),
            decreases result.len() - n,
        {
            let t = result[n];
            proof {
                assert(result@.take(n + 1).drop_last() =~= result@.take(n as int));
                assert(result@.take(n + 1).last() == t);
            }
            touch(map, t.0);
            touch(map, t.1);
            touch(map, t.2);
            let i: i32 = t.0 as i32;
            let k: i32 = t.2 as i32;
            if (i + 2) + step == k {
                draw_run(map, t, LINE_BOTTOM_RIGHT, LINE_TOP_LEFT);
            } else if i + step == k {
                draw_run(map, t, LINE_BOTTOM_CENTER, LINE_TOP_CENTER);
            } else if (i - 2) + step == k {
                draw_run(map, t, LINE_BOTTOM_LEFT, LINE_TOP_RIGHT);
            } else if i + 2 == k {
                draw_run(map, t, LINE_CENTER_RIGHT, LINE_CENTER_LEFT);
            }
            n += 1;
        }
        assert(result@.take(n as int) =~= result@);
    }

    /// Announces that `val` was placed at `pos` and completed `runs`.
    fn announce(&mut self, pos: u16, val: CellValue, runs: &Vec<(u16, u16, u16)>)
        ensures
            final(self).game_engine == old(self).game_engine,
            final(self).col == old(self).col,
            final(self).row == old(self).row,
            final(self).turn == old(self).turn,
            final(self).player_score == old(self).player_score,
            final(self).bot_score == old(self).bot_score,
            match final(self).state.events {
                BoardEvents::Update(map) => map@ == shown(
                    pos,
                    val,
                    triples_view(runs@),
                    old(self).col as int,
                ),
                _ => false,
            },
    {
        let mut map: HashMap<u16, (u8, Option<CellValue>)> = HashMap::new();
        map.insert(pos, (0, Some(val)));
        self.grouping_sos(runs, &mut map);
        proof {
            assert(runs_of(triples_view(runs@)) =~= runs@);
        }
        self.state = Rc::new(BoardState { events: BoardEvents::Update(map) });
    }

    /// Reacts to `msg` and says what is to be done next.
    pub fn update(&mut self, msg: BoardMsg) -> (out: Outcome)
        requires
            old(self).wf(),
        ensures
            final(self).wf(),
            old(self).reacts(msg, final(self), out),
    {
        proof {
            self.game_engine.lemma_wf();
        }
        match msg {
            BoardMsg::Selecting((id, val)) => {
                if self.turn == COMPUTER_TURN {
                    return Outcome::Skip;
                }
                if val == CellValue::Empty {
                    return Outcome::Skip;
                }
                Outcome::Start(id, val)
            },
            BoardMsg::LockCells => {
                self.state = Rc::new(BoardState { events: BoardEvents::Lock });
                Outcome::Render
            },
            BoardMsg::ProcessUpdate(id, val) => {
                let res = self.game_engine.update(self.turn, id, val);
                match res {
                    Ok(result) => {
                        proof {
                            self.game_engine.lemma_wf();
                        }
                        self.player_score = result.scores[0];
                        self.bot_score = result.scores[1];
                        self.turn = result.next_turn;
                        self.announce(id, val, &result.new_sos);
                        Outcome::Render
                    },
                    Err(_) => Outcome::Skip,
                }
            },
            BoardMsg::UnlockCells => {
                if self.game_engine.is_game_over() {
                    return Outcome::Skip;
                }
                self.state = Rc::new(BoardState { events: BoardEvents::Unlock });
                Outcome::Render
            },
            BoardMsg::BotMove => {
                if self.turn != COMPUTER_TURN || self.game_engine.is_game_over() {
                    return Outcome::Skip;
                }
                let response = self.game_engine.bot_move();
                match response {
                    Ok((pos, val, sos)) => {
                        proof {
                            self.game_engine.lemma_wf();
                        }
                        self.turn = self.game_engine.get_current_turn();
                        let scores = self.game_engine.get_scores();
                        self.player_score = scores[0];
                        self.bot_score = scores[1];
                        self.announce(pos, val, &sos);
                        proof {
                            let g = old(self).game();
                            let m = (pos as int, val);
                            let n = choose|n: int| 0 <= n < choices(g).len() && choices(g)[n] == m;
                            assert(old(self).placed(
                                self,
                                choices(g)[n].0 as u16,
                                choices(g)[n].1,
                            ));
                        }
                    },
                    Err(_e) => {},
                }
                Outcome::Render
            },
            BoardMsg::CheckGameOver => {
                if self.game_engine.is_game_over() {
                    self.state = Rc::new(BoardState { events: BoardEvents::Lock });
                    return Outcome::Render;
                }
                Outcome::Skip
            },
        }
    }

    /// What the board says above the grid.
    pub fn standing(&self) -> (standing: Standing)
        requires
            self.wf(),
        ensures
            standing == Board::standing_of(self.game()),
    {
        if self.game_engine.is_game_over() {
            if self.player_score > self.bot_score {
                Standing::Won
            } else if self.player_score < self.bot_score {
                Standing::Lost
            } else {
                Standing::Draw
            }
        } else if self.turn == 0 {
            Standing::PlayerTurn
        } else {
            Standing::ComputerTurn
        }
    }

    /// The number of columns of the grid.
    pub fn get_col(&self) -> (col: u16)
        ensures
            col as int == self.cols(),
    {
        self.col
    }

    /// The number of rows of the grid.
    pub fn get_row(&self) -> (row: u16)
        requires
            self.wf(),
        ensures
            row as int == self.game().rows,
    {
        self.row
    }

    /// The player expected to move next.
    pub fn get_turn(&self) -> (turn: u8)
        requires
            self.wf(),
        ensures
            turn as int == self.game().turn,
    {
        self.turn
    }

    /// The points of the person.
    pub fn get_player_score(&self) -> (score: u32)
        requires
            self.wf(),
        ensures
            score as int == self.game().scores[0],
    {
        self.player_score
    }

    /// The points of the automated opponent.
    pub fn get_bot_score(&self) -> (score: u32)
        requires
            self.wf(),
        ensures
            score as int == self.game().scores[1],
    {
        self.bot_score
    }

    /// The state that the board shares with its cells.
    pub fn get_state(&self) -> (state: Rc<BoardState>)
        ensures
            state.events == self.events(),
    {
        self.state.clone()
    }

    /// Whether the game on the board is over.
    pub fn is_game_over(&self) -> (over: bool)
        requires
            self.wf(),
        ensures
            over == self.game().is_over(),
    {
        self.game_engine.is_game_over()
    }
}

} // verus!
