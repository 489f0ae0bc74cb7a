//! The automated opponent: a one-ply lookahead that ranks every legal
//! placement by the runs it would complete at once, with a defensive
//! preference where nothing can be completed.

use vstd::prelude::*;
use rand::Rng;
use crate::engine::cell::CellValue;
use crate::engine::game::Game;
use crate::engine::model::{
    lemma_count_filled_bounds, lemma_scan_complete, lemma_some_empty, o_runs, GameState,
};

verus! {

/// A list of placements as mathematical pairs.
pub open spec fn moves_view(list: Seq<(u16, CellValue)>) -> Seq<(int, CellValue)> {
    list.map_values(|m: (u16, CellValue)| (m.0 as int, m.1))
}

/// Every placement on an empty position below `limit`: positions
/// ascending, `S` before `O`.
pub open spec fn open_moves(s: GameState, limit: int) -> Seq<(int, CellValue)>
    decreases limit,
{
    if limit <= 0 {
        Seq::empty()
    } else {
        let before = open_moves(s, limit - 1);
        if s.cells[limit - 1] == CellValue::Empty {
            before.push((limit - 1, CellValue::S)).push((limit - 1, CellValue::O))
        } else {
            before
        }
    }
}

/// The number of runs that the placement `m` would newly complete.
pub open spec fn gain(s: GameState, m: (int, CellValue)) -> int {
    s.new_triples(m.0, m.1).len() as int
}

/// The largest gain among `moves`; zero where there is none.
pub open spec fn best_gain(s: GameState, moves: Seq<(int, CellValue)>) -> int
    decreases moves.len(),
{
    if moves.len() == 0 {
        0
    } else {
        let before = best_gain(s, moves.drop_last());
        if gain(s, moves.last()) > before {
            gain(s, moves.last())
        } else {
            before
        }
    }
}

/// Those of `moves` whose gain is `g`, in their order.
pub open spec fn with_gain(s: GameState, moves: Seq<(int, CellValue)>, g: int) -> Seq<
    (int, CellValue),
>
    decreases moves.len(),
{
    if moves.len() == 0 {
        Seq::empty()
    } else {
        let before = with_gain(s, moves.drop_last(), g);
        if gain(s, moves.last()) == g {
            before.push(moves.last())
        } else {
            before
        }
    }
}

/// The legal placements of the largest gain.
pub open spec fn top_moves(s: GameState) -> Seq<(int, CellValue)> {
    let all = open_moves(s, s.total());
    with_gain(s, all, best_gain(s, all))
}

/// Positions `x` and `z` lie on the grid, their rows are zero or two
/// apart, and both hold an `S`.
pub open spec fn flanked(s: GameState, x: int, z: int) -> bool {
    &&& 0 <= x < s.total()
    &&& 0 <= z < s.total()
    &&& (z / s.cols - x / s.cols == 0 || z / s.cols - x / s.cols == 2)
    &&& s.cells[x] == CellValue::S
    &&& s.cells[z] == CellValue::S
}

/// In one of the four orientations the two neighbours of `pos` both hold
/// an `S`.
pub open spec fn is_defensive(s: GameState, pos: int) -> bool {
    ||| flanked(s, pos - s.cols - 1, pos + s.cols + 1)
    ||| flanked(s, pos - s.cols + 1, pos + s.cols - 1)
    ||| flanked(s, pos - s.cols, pos + s.cols)
    ||| flanked(s, pos - 1, pos + 1)
}

/// Those of `moves` that place an `O` between two `S`, in their order.
pub open spec fn defensive_moves(s: GameState, moves: Seq<(int, CellValue)>) -> Seq<
    (int, CellValue),
>
    decreases moves.len(),
{
    if moves.len() == 0 {
        Seq::empty()
    } else {
        let before = defensive_moves(s, moves.drop_last());
        if moves.last().1 == CellValue::O && is_defensive(s, moves.last().0) {
            before.push(moves.last())
        } else {
            before
        }
    }
}

/// The defensive placements among `moves`, or all of `moves` where none
/// is defensive.
pub open spec fn strategic(s: GameState, moves: Seq<(int, CellValue)>) -> Seq<(int, CellValue)> {
    let guarded = defensive_moves(s, moves);
    if guarded.len() == 0 {
        moves
    } else {
        guarded
    }
}

/// The placements among which the opponent chooses: the legal placements
/// of the largest gain, narrowed by the defensive preference where that
/// gain is zero.
pub open spec fn choices(s: GameState) -> Seq<(int, CellValue)> {
    if best_gain(s, open_moves(s, s.total())) == 0 {
        strategic(s, top_moves(s))
    } else {
        top_moves(s)
    }
}

/// A placement on an empty position of the grid, of `S` or `O`.
pub open spec fn legal(s: GameState, m: (int, CellValue)) -> bool {
    &&& 0 <= m.0 < s.cells.len()
    &&& s.cells[m.0] == CellValue::Empty
    &&& m.1 != CellValue::Empty
}

/// No gain in `moves` exceeds the best, and the best is not negative.
pub proof fn lemma_best_gain_bounds(s: GameState, moves: Seq<(int, CellValue)>)
    ensures
        0 <= best_gain(s, moves),
        forall|n: int| 0 <= n < moves.len() ==> gain(s, #[trigger] moves[n]) <= best_gain(s, moves),
    decreases moves.len(),
{
    if moves.len() > 0 {
        lemma_best_gain_bounds(s, moves.drop_last());
        assert forall|n: int| 0 <= n < moves.len() implies gain(s, #[trigger] moves[n])
            <= best_gain(s, moves) by {
            if n < moves.len() - 1 {
                assert(moves.drop_last()[n] == moves[n]);
            }
        }
    }
}

/// No placement has a gain above the best.
pub proof fn lemma_with_gain_above(s: GameState, moves: Seq<(int, CellValue)>, g: int)
    requires
        g > best_gain(s, moves),
    ensures
        with_gain(s, moves, g) == Seq::<(int, CellValue)>::empty(),
    decreases moves.len(),
{
    if moves.len() > 0 {
        lemma_with_gain_above(s, moves.drop_last(), g);
    }
}

/// Every placement selected by gain is one of `moves`.
pub proof fn lemma_with_gain_within(s: GameState, moves: Seq<(int, CellValue)>, g: int)
    ensures
        forall|n: int|
            0 <= n < with_gain(s, moves, g).len() ==> moves.contains(
                #[trigger] with_gain(s, moves, g)[n],
            ),
    decreases moves.len(),
{
    if moves.len() > 0 {
        let before = moves.drop_last();
        lemma_with_gain_within(s, before, g);
        let kept = with_gain(s, before, g);
        assert forall|n: int| 0 <= n < kept.len() implies moves.contains(#[trigger] kept[n]) by {
            assert(before.contains(kept[n]));
            let m = choose|m: int| 0 <= m < before.len() && before[m] == kept[n];
            assert(moves[m] == kept[n]);
        }
        assert(moves[moves.len() - 1] == moves.last());
    }
}

/// Every defensive placement is one of `moves`.
pub proof fn lemma_defensive_within(s: GameState, moves: Seq<(int, CellValue)>)
    ensures
        forall|n: int|
            0 <= n < defensive_moves(s, moves).len() ==> moves.contains(
                #[trigger] defensive_moves(s, moves)[n],
            ),
    decreases moves.len(),
{
    if moves.len() > 0 {
        let before = moves.drop_last();
        lemma_defensive_within(s, before);
        let kept = defensive_moves(s, before);
        assert forall|n: int| 0 <= n < kept.len() implies moves.contains(#[trigger] kept[n]) by {
            assert(before.contains(kept[n]));
            let m = choose|m: int| 0 <= m < before.len() && before[m] == kept[n];
            assert(moves[m] == kept[n]);
        }
        assert(moves[moves.len() - 1] == moves.last());
    }
}

/// Among placements of which there is at least one, some reach the best
/// gain.
pub proof fn lemma_best_gain_reached(s: GameState, moves: Seq<(int, CellValue)>)
    requires
        moves.len() > 0,
    ensures
        with_gain(s, moves, best_gain(s, moves)).len() > 0,
    decreases moves.len(),
{
    let before = moves.drop_last();
    let g = gain(s, moves.last());
    let b = best_gain(s, before);
    if g <= b {
        if before.len() > 0 {
            lemma_best_gain_reached(s, before);
        }
    }
}

/// Every open placement is legal, and an empty position below `limit`
/// gives one.
pub proof fn lemma_open_moves(s: GameState, limit: int)
    requires
        limit <= s.cells.len(),
    ensures
        forall|n: int| 0 <= n < open_moves(s, limit).len() ==> legal(s, #[trigger] open_moves(s, limit)[n]),
        forall|p: int|
            0 <= p < limit && s.cells[p] == CellValue::Empty ==> open_moves(s, limit).len() > 0,
    decreases limit,
{
    if limit > 0 {
        lemma_open_moves(s, limit - 1);
        let before = open_moves(s, limit - 1);
        let now = open_moves(s, limit);
        assert forall|n: int| 0 <= n < now.len() implies legal(s, #[trigger] now[n]) by {
            if n < before.len() {
                assert(now[n] == before[n]);
            }
        }
    }
}

/// The opponent chooses among legal placements only, and has a choice as
/// long as the game is not over.
pub proof fn lemma_choices(s: GameState)
    requires
        s.valid(),
    ensures
        forall|n: int| 0 <= n < choices(s).len() ==> legal(s, #[trigger] choices(s)[n]),
        !s.is_over() ==> choices(s).len() > 0,
{
    let all = open_moves(s, s.total());
    let top = top_moves(s);
    lemma_open_moves(s, s.total());
    lemma_with_gain_within(s, all, best_gain(s, all));
    lemma_defensive_within(s, top);
    assert forall|n: int| 0 <= n < top.len() implies legal(s, #[trigger] top[n]) by {
        assert(all.contains(top[n]));
    }
    assert forall|n: int| 0 <= n < choices(s).len() implies legal(s, #[trigger] choices(s)[n]) by {
        let m = choices(s)[n];
        if choices(s) != top {
            assert(m == defensive_moves(s, top)[n]);
            assert(top.contains(m));
        }
    }
    if !s.is_over() {
        lemma_count_filled_bounds(s.cells);
        let p = lemma_some_empty(s.cells);
        assert(all.len() > 0);
        lemma_best_gain_reached(s, all);
    }
}

/// Every defensive placement puts an `O` between two `S`.
pub proof fn lemma_defensive_are_defensive(s: GameState, moves: Seq<(int, CellValue)>)
    ensures
        forall|n: int|
            0 <= n < defensive_moves(s, moves).len() ==> {
                let m = #[trigger] defensive_moves(s, moves)[n];
                m.1 == CellValue::O && is_defensive(s, m.0)
            },
    decreases moves.len(),
{
    if moves.len() > 0 {
        lemma_defensive_are_defensive(s, moves.drop_last());
    }
}

/// An `O` placed on an empty position between two `S` completes a run.
pub proof fn lemma_defensive_position_scores(s: GameState, pos: int)
    requires
        s.valid(),
        0 <= pos < s.total(),
        s.cells[pos] == CellValue::Empty,
        is_defensive(s, pos),
    ensures
        gain(s, (pos, CellValue::O)) >= 1,
{
    let runs = o_runs(pos, s.cols);
    let n: int = if flanked(s, pos - s.cols - 1, pos + s.cols + 1) {
        0
    } else if flanked(s, pos - s.cols, pos + s.cols) {
        1
    } else if flanked(s, pos - s.cols + 1, pos + s.cols - 1) {
        2
    } else {
        3
    };
    let t = runs[n];
    assert(runs.contains(t));
    assert(s.completes(t, pos, CellValue::O));
    if s.completed.contains(t) {
        let k = choose|k: int| 0 <= k < s.completed.len() && s.completed[k] == t;
        assert(s.formed(s.completed[k]));
    }
    lemma_scan_complete(s, runs, pos, CellValue::O, t);
    assert(s.new_triples(pos, CellValue::O).len() > 0);
}

/// In every state that a game can reach the defensive preference leaves
/// the choice as it is: an empty position between two `S` is one where an
/// `O` completes a run, so where no placement completes a run no placement
/// is defensive.
pub proof fn law_defensive_preference_never_narrows(s: GameState)
    requires
        s.valid(),
    ensures
        choices(s) == top_moves(s),
{
    let all = open_moves(s, s.total());
    let top = top_moves(s);
    let guarded = defensive_moves(s, top);
    if best_gain(s, all) == 0 && guarded.len() > 0 {
        let m = guarded[0];
        lemma_defensive_are_defensive(s, top);
        lemma_defensive_within(s, top);
        lemma_with_gain_within(s, all, 0);
        lemma_open_moves(s, s.total());
        lemma_best_gain_bounds(s, all);
        assert(top.contains(m));
        let k = choose|k: int| 0 <= k < top.len() && top[k] == m;
        assert(all.contains(top[k]));
        let j = choose|j: int| 0 <= j < all.len() && all[j] == m;
        assert(legal(s, all[j]));
        lemma_defensive_position_scores(s, m.0);
        assert(gain(s, all[j]) <= 0);
    }
}

/// The open placements below `limit` are the legal placements below
/// `limit`.
pub proof fn lemma_open_moves_exact(s: GameState, limit: int, m: (int, CellValue))
    requires
        limit <= s.cells.len(),
    ensures
        open_moves(s, limit).contains(m) <==> legal(s, m) && m.0 < limit,
    decreases limit,
{
    if limit > 0 {
        let before = open_moves(s, limit - 1);
        let now = open_moves(s, limit);
        lemma_open_moves_exact(s, limit - 1, m);
        if now.contains(m) {
            let n = choose|n: int| 0 <= n < now.len() && now[n] == m;
            if n < before.len() {
                assert(before[n] == m);
            }
        }
        if legal(s, m) && m.0 < limit {
            if m.0 < limit - 1 {
                let n = choose|n: int| 0 <= n < before.len() && before[n] == m;
                assert(now[n] == m);
            } else if m.1 == CellValue::S {
                assert(now[before.len() as int] == m);
            } else {
                assert(now[before.len() as int + 1] == m);
            }
        }
    }
}

/// The placements selected by gain are those of `moves` whose gain is `g`.
pub proof fn lemma_with_gain_exact(
    s: GameState,
    moves: Seq<(int, CellValue)>,
    g: int,
    m: (int, CellValue),
)
    ensures
        with_gain(s, moves, g).contains(m) <==> moves.contains(m) && gain(s, m) == g,
    decreases moves.len(),
{
    if moves.len() > 0 {
        let before = moves.drop_last();
        let kept = with_gain(s, before, g);
        let now = with_gain(s, moves, g);
        lemma_with_gain_exact(s, before, g, m);
        if now.contains(m) {
            let n = choose|n: int| 0 <= n < now.len() && now[n] == m;
            if n < kept.len() {
                assert(kept[n] == m);
                let k = choose|k: int| 0 <= k < before.len() && before[k] == m;
                assert(moves[k] == m);
            } else {
                assert(moves[moves.len() - 1] == m);
            }
        }
        if moves.contains(m) && gain(s, m) == g {
            let k = choose|k: int| 0 <= k < moves.len() && moves[k] == m;
            if k < before.len() {
                assert(before[k] == m);
                let n = choose|n: int| 0 <= n < kept.len() && kept[n] == m;
                assert(now[n] == m);
            } else {
                assert(now[kept.len() as int] == m);
            }
        }
    }
}

/// In every state that a game can reach, the opponent chooses among the
/// legal placements than which no legal placement completes more runs,
/// and among all of them.
pub proof fn law_choice_is_best(s: GameState, m: (int, CellValue))
    requires
        s.valid(),
    ensures
        choices(s).contains(m) <==> legal(s, m) && forall|other: (int, CellValue)|
            #[trigger] legal(s, other) ==> gain(s, other) <= gain(s, m),
{
    let all = open_moves(s, s.total());
    let best = best_gain(s, all);
    law_defensive_preference_never_narrows(s);
    lemma_with_gain_exact(s, all, best, m);
    lemma_open_moves_exact(s, s.total(), m);
    lemma_best_gain_bounds(s, all);
    if choices(s).contains(m) {
        assert forall|other: (int, CellValue)| #[trigger] legal(s, other) implies gain(s, other)
            <= gain(s, m) by {
            lemma_open_moves_exact(s, s.total(), other);
            let k = choose|k: int| 0 <= k < all.len() && all[k] == other;
            assert(gain(s, all[k]) <= best);
        }
    }
    if legal(s, m) && (forall|other: (int, CellValue)| #[trigger]
        legal(s, other) ==> gain(s, other) <= gain(s, m)) {
        let k = choose|k: int| 0 <= k < all.len() && all[k] == m;
        assert(gain(s, all[k]) <= best);
        lemma_best_gain_reached(s, all);
        let top = with_gain(s, all, best);
        let reached = top[0];
        assert(top.contains(reached));
        lemma_with_gain_exact(s, all, best, reached);
        lemma_open_moves_exact(s, s.total(), reached);
        assert(legal(s, reached));
    }
}

/// The random number generator of the calling thread.
#[verifier::external_type_specification]
#[verifier::external_body]
pub struct ExThreadRng(rand::rngs::ThreadRng);

/// `rand::thread_rng` hands out the calling thread's generator, seeded by
/// the system. Nothing is claimed of it.
pub assume_specification[ rand::thread_rng ]() -> (rng: rand::rngs::ThreadRng);

/// `Rng::gen_range` on the half-open range from zero to `len`: it panics on
/// an empty range, which `requires` leaves out, and returns a value of the
/// range. Which one is left open.
#[verifier::external_body]
fn random_index(rng: &mut rand::rngs::ThreadRng, len: usize) -> (index: usize)
    requires
        len > 0,
    ensures
        index < len,
{
    rng.gen_range(0..len)
}

/// The automated opponent. It holds no state.
pub struct Bot {}

impl Bot {
    /// Takes the placement `(pos, value)`, whose gain is `len`, into
    /// account: `candidates` holds the placements of the largest gain seen
    /// so far, and `highest` that gain.
    fn consider(
        game: &Game,
        Ghost(seen): Ghost<Seq<(int, CellValue)>>,
        candidates: &mut Vec<(u16, CellValue)>,
        highest: &mut usize,
        pos: u16,
        value: CellValue,
        len: usize,
    )
        requires
            len as int == gain(game@, (pos as int, value)),
            *old(highest) as int == best_gain(game@, seen),
            moves_view(old(candidates)@) == with_gain(game@, seen, *old(highest) as int),
        ensures
            *final(highest) as int == best_gain(game@, seen.push((pos as int, value))),
            moves_view(final(candidates)@) == with_gain(
                game@,
                seen.push((pos as int, value)),
                *final(highest) as int,
            ),
    {
        let ghost m = (pos as int, value);
        proof {
            assert(seen.push(m).drop_last() =~= seen);
            assert(seen.push(m).last() == m);
        }
        if len > *highest {
            proof {
                lemma_with_gain_above(game@, seen, len as int);
            }
            *highest = len;
            let mut fresh: Vec<(u16, CellValue)> = Vec::new();
            fresh.push((pos, value));
            *candidates = fresh;
            assert(moves_view(candidates@) =~= Seq::<(int, CellValue)>::empty().push(m));
        } else if len == *highest {
            let ghost before = candidates@;
            candidates.push((pos, value));
            assert(moves_view(candidates@) =~= moves_view(before).push(m));
        }
    }

    /// Whether positions `x` and `z` lie on the grid, in rows zero or two
    /// apart, and both hold an `S`.
    fn is_flanked(game: &Game, x: i32, z: i32) -> (b: bool)
        requires
            game.wf(),
        ensures
            b == flanked(game@, x as int, z as int),
    {
        let total: i32 = game.get_total() as i32;
        if x < 0 || z < 0 || x >= total || z >= total {
            return false;
        }
        let cols: u32 = game.get_col() as u32;
        proof {
            game.lemma_wf();
        }
        let irow: u32 = (x as u32) / cols;
        let krow: u32 = (z as u32) / cols;
        if !(krow == irow || krow == irow + 2) {
            return false;
        }
        match (game.get_cell(x as u16), game.get_cell(z as u16)) {
            (Some(CellValue::S), Some(CellValue::S)) => true,
            _ => false,
        }
    }

    /// Whether, in one of the four orientations, the two neighbours of
    /// `pos` both hold an `S`.
    pub fn is_defensive_move(game: &Game, pos: u16) -> (b: bool)
        requires
            game.wf(),
        ensures
            b == is_defensive(game@, pos as int),
    {
        let col: i32 = game.get_col() as i32;
        let p: i32 = pos as i32;
        Bot::is_flanked(game, p - col - 1, p + col + 1) || Bot::is_flanked(
            game,
            p - col + 1,
            p + col - 1,
        ) || Bot::is_flanked(game, p - col, p + col) || Bot::is_flanked(game, p - 1, p + 1)
    }

    /// The defensive placements among `moves`, or a copy of `moves` where
    /// none is defensive.
    pub fn strategic_moves(moves: &Vec<(u16, CellValue)>, game: &Game) -> (kept: Vec<
        (u16, CellValue),
    >)
        requires
            game.wf(),
        ensures
            moves_view(kept@) == strategic(game@, moves_view(moves@)),
    {
        let ghost all = moves_view(moves@);
        let mut candidates: Vec<(u16, CellValue)> = Vec::new();
        let mut copy: Vec<(u16, CellValue)> = Vec::new();
        let mut i: usize = 0;
        while i < moves.len()
            invariant
                i <= moves.len(),
                game.wf(),
                all == moves_view(moves@),
                copy@ == moves@.take(i as int),
                moves_view(candidates@) == defensive_moves(game@, all.take(i as int)),
            decreases moves.len() - i,
        {
            let (pos, val) = moves[i];
            proof {
                assert(all.take(i + 1).drop_last() =~= all.take(i as int));
                assert(all.take(i + 1).last() == (pos as int, val));
            }
            let ghost before = candidates@;
            if val == CellValue::O && Bot::is_defensive_move(game, pos) {
                candidates.push((pos, CellValue::O));
                assert(moves_view(candidates@) =~= moves_view(before).push((pos as int, val)));
            }
            copy.push((pos, val));
            assert(copy@ =~= moves@.take(i + 1));
            i += 1;
        }
        proof {
            assert(all.take(i as int) =~= all);
            assert(moves@.take(i as int) =~= moves@);
            assert(moves_view(candidates@).len() == candidates@.len());
        }
        if candidates.len() == 0 {
            return copy;
        }
        candidates
    }

    /// The placements among which the opponent chooses.
    pub fn candidate_moves(game: &Game) -> (moves: Vec<(u16, CellValue)>)
        requires
            game.wf(),
        ensures
            moves_view(moves@) == choices(game@),
    {
        let total: u16 = game.get_total();
        let mut candidates: Vec<(u16, CellValue)> = Vec::new();
        let mut highest: usize = 0;
        let mut i: u16 = 0;
        assert(moves_view(candidates@) =~= Seq::empty());
        while i < total
            invariant
                i <= total,
                game.wf(),
                total as int == game@.total(),
                highest as int == best_gain(game@, open_moves(game@, i as int)),
                moves_view(candidates@) == with_gain(
                    game@,
                    open_moves(game@, i as int),
                    highest as int,
                ),
            decreases total - i,
        {
            let ghost seen = open_moves(game@, i as int);
            match game.get_cell(i) {
                Some(CellValue::Empty) => {
                    let s = game.detect(i as i32, CellValue::S);
                    let o = game.detect(i as i32, CellValue::O);
                    Bot::consider(
                        game,
                        Ghost(seen),
                        &mut candidates,
                        &mut highest,
                        i,
                        CellValue::S,
                        s.len(),
                    );
                    Bot::consider(
                        game,
                        Ghost(seen.push((i as int, CellValue::S))),
                        &mut candidates,
                        &mut highest,
                        i,
                        CellValue::O,
                        o.len(),
                    );
                },
                _ => {},
            }
            i += 1;
        }
        if highest == 0 {
            candidates = Bot::strategic_moves(&candidates, game);
        }
        candidates
    }

    /// The candidate at `index`.
    pub fn pick(candidates: &Vec<(u16, CellValue)>, index: usize) -> (m: (u16, CellValue))
        requires
            index < candidates@.len(),
        ensures
            m == candidates@[index as int],
    {
        candidates[index]
    }

    /// The opponent's next placement: one of [`choices`], drawn at random.
    pub fn make_move(game: &Game) -> (m: (u16, CellValue))
        requires
            game.wf(),
            !game@.is_over(),
        ensures
            choices(game@).contains((m.0 as int, m.1)),
    {
        let candidates = Bot::candidate_moves(game);
        proof {
            game.lemma_wf();
            lemma_choices(game@);
            assert(moves_view(candidates@).len() == candidates@.len());
        }
        let mut rng = rand::thread_rng();
        let index = random_index(&mut rng, candidates.len());
        let m = Bot::pick(&candidates, index);
        assert(moves_view(candidates@)[index as int] == (m.0 as int, m.1));
        m
    }
}

} // verus!
