use sos_game::engine::bot::Bot;
use sos_game::engine::cell::CellValue;
use sos_game::engine::game::{Game, GameError};

/// A 3 x 5 grid filled but for position 7; `fill` names the positions that
/// hold an `S`, every other one holds an `O`.
///
///  0  1  2  3  4
///  5  6  7  8  9
/// 10 11 12 13 14
fn all_but_centre(outer: &[u16]) -> Game {
    let mut game = Game::new(3, 5, 2);
    for pos in 0..15u16 {
        if pos == 7 {
            continue;
        }
        let symbol = if outer.contains(&pos) { CellValue::S } else { CellValue::O };
        let player = game.get_current_turn();
        let res = game.update(player, pos, symbol).unwrap();
        assert!(res.new_sos.is_empty());
    }
    assert!(!game.is_game_over());
    game
}

#[test]
fn last_empty_position_with_the_better_symbol_is_chosen() {
    let game = all_but_centre(&[5, 2, 12, 9]);
    assert_eq!(game.add_s(7), vec![(5, 6, 7), (7, 8, 9)]);
    assert_eq!(game.add_o(7), vec![(2, 7, 12)]);
    assert_eq!(Bot::candidate_moves(&game), vec![(7, CellValue::S)]);
    for _ in 0..50 {
        assert_eq!(Bot::make_move(&game), (7, CellValue::S));
    }
}

#[test]
fn last_empty_position_with_equal_symbols_gives_either() {
    let game = all_but_centre(&[5, 2, 12]);
    assert_eq!(game.add_s(7), vec![(5, 6, 7)]);
    assert_eq!(game.add_o(7), vec![(2, 7, 12)]);
    assert_eq!(
        Bot::candidate_moves(&game),
        vec![(7, CellValue::S), (7, CellValue::O)]
    );
    let mut outer = 0;
    let mut inner = 0;
    for _ in 0..400 {
        let (pos, symbol) = Bot::make_move(&game);
        assert_eq!(pos, 7);
        match symbol {
            CellValue::S => outer += 1,
            CellValue::O => inner += 1,
            CellValue::Empty => panic!("the empty symbol is no placement"),
        }
    }
    assert_eq!(outer + inner, 400);
    // each symbol is drawn with probability one half
    assert!(outer >= 100);
    assert!(inner >= 100);
}

#[test]
fn blank_grid_offers_every_placement() {
    let game = Game::new(1, 3, 2);
    assert_eq!(
        Bot::candidate_moves(&game),
        vec![
            (0, CellValue::S),
            (0, CellValue::O),
            (1, CellValue::S),
            (1, CellValue::O),
            (2, CellValue::S),
            (2, CellValue::O),
        ]
    );
    let mut seen = [false; 3];
    for _ in 0..300 {
        let (pos, symbol) = Bot::make_move(&game);
        assert!(pos < 3);
        assert!(symbol != CellValue::Empty);
        seen[pos as usize] = true;
    }
    assert_eq!(seen, [true, true, true]);
}

#[test]
fn scoring_placement_is_preferred_to_all_others() {
    let mut game = Game::new(1, 5, 2);
    game.update(0, 0, CellValue::S).unwrap();
    game.update(1, 1, CellValue::O).unwrap();
    assert_eq!(Bot::candidate_moves(&game), vec![(2, CellValue::S)]);
    assert_eq!(Bot::make_move(&game), (2, CellValue::S));
    let mut gap = Game::new(1, 5, 2);
    gap.update(0, 1, CellValue::S).unwrap();
    gap.update(1, 3, CellValue::S).unwrap();
    assert_eq!(Bot::candidate_moves(&gap), vec![(2, CellValue::O)]);
    assert_eq!(Bot::make_move(&gap), (2, CellValue::O));
}

#[test]
fn finished_game_offers_nothing() {
    let mut game = Game::new(1, 2, 2);
    game.update(0, 0, CellValue::S).unwrap();
    game.update(1, 1, CellValue::O).unwrap();
    assert!(game.is_game_over());
    assert!(Bot::candidate_moves(&game).is_empty());
}

#[test]
fn defensive_position_lies_between_two_outer_symbols() {
    //  0  1  2  3
    //  4  5  6  7
    //  8  9 10 11
    let mut game = Game::new(3, 4, 2);
    game.update(0, 0, CellValue::S).unwrap();
    game.update(1, 2, CellValue::S).unwrap();
    game.update(0, 11, CellValue::S).unwrap();
    game.update(1, 3, CellValue::S).unwrap();
    game.update(0, 8, CellValue::S).unwrap();
    // horizontal: 0 and 2 around 1
    assert!(Bot::is_defensive_move(&game, 1));
    // anti-diagonal: 2 and 8 around 5
    assert!(Bot::is_defensive_move(&game, 5));
    // vertical: 3 and 11 around 7
    assert!(Bot::is_defensive_move(&game, 7));
    // vertical: 0 and 8 around 4
    assert!(Bot::is_defensive_move(&game, 4));
    assert!(!Bot::is_defensive_move(&game, 6));
    assert!(!Bot::is_defensive_move(&game, 9));
    assert!(!Bot::is_defensive_move(&game, 10));
    assert!(!Bot::is_defensive_move(&game, 0));
    assert!(!Bot::is_defensive_move(&game, 500));
    // 3 and 5 are two apart but in different rows
    let mut wrapped = Game::new(3, 4, 2);
    wrapped.update(0, 3, CellValue::S).unwrap();
    wrapped.update(1, 5, CellValue::S).unwrap();
    assert!(!Bot::is_defensive_move(&wrapped, 4));
    // diagonal: 0 and 10 around 5
    let mut diagonal = Game::new(3, 4, 2);
    diagonal.update(0, 0, CellValue::S).unwrap();
    assert!(!Bot::is_defensive_move(&diagonal, 5));
    diagonal.update(1, 10, CellValue::S).unwrap();
    assert!(Bot::is_defensive_move(&diagonal, 5));
}

#[test]
fn strategic_moves_keep_the_defensive_inner_placements() {
    let mut game = Game::new(1, 7, 2);
    game.update(0, 0, CellValue::S).unwrap();
    game.update(1, 2, CellValue::S).unwrap();
    let moves = vec![
        (1, CellValue::S),
        (3, CellValue::O),
        (1, CellValue::O),
        (4, CellValue::S),
        (1, CellValue::O),
    ];
    assert_eq!(
        Bot::strategic_moves(&moves, &game),
        vec![(1, CellValue::O), (1, CellValue::O)]
    );
    let none = vec![(1, CellValue::S), (3, CellValue::O), (5, CellValue::O)];
    assert_eq!(Bot::strategic_moves(&none, &game), none);
    assert!(Bot::strategic_moves(&Vec::new(), &game).is_empty());
}

#[test]
fn pick_returns_the_candidate_at_the_index() {
    let moves = vec![(4, CellValue::S), (9, CellValue::O), (2, CellValue::S)];
    assert_eq!(Bot::pick(&moves, 0), (4, CellValue::S));
    assert_eq!(Bot::pick(&moves, 1), (9, CellValue::O));
    assert_eq!(Bot::pick(&moves, 2), (2, CellValue::S));
}

#[test]
fn bot_move_places_its_choice_for_the_player_to_move() {
    let mut game = all_but_centre(&[5, 2, 12, 9]);
    assert_eq!(game.get_current_turn(), 0);
    let (pos, symbol, runs) = game.bot_move().unwrap();
    assert_eq!((pos, symbol), (7, CellValue::S));
    assert_eq!(runs, vec![(5, 6, 7), (7, 8, 9)]);
    assert_eq!(game.get_scores(), vec![2, 0]);
    assert_eq!(game.get_current_turn(), 1);
    assert_eq!(game.get_cell(7), Some(CellValue::S));
    assert!(game.is_game_over());
    assert_eq!(game.bot_move().unwrap_err(), GameError::GameFinished);
}

fn is_straight(run: (u16, u16, u16), rows: u16, cols: u16) -> bool {
    let (a, b, c) = (run.0 as i32, run.1 as i32, run.2 as i32);
    let cols = cols as i32;
    let (ra, ca) = (a / cols, a % cols);
    let (rb, cb) = (b / cols, b % cols);
    let (rc, cc) = (c / cols, c % cols);
    let (dr, dc) = (rb - ra, cb - ca);
    rc < rows as i32
        && (rc - rb, cc - cb) == (dr, dc)
        && [(0, 1), (1, 0), (1, 1), (1, -1)].contains(&(dr, dc))
}

#[test]
fn bot_plays_whole_games_against_itself() {
    for (rows, cols) in [(4u16, 4u16), (5, 6), (1, 9), (7, 1), (2, 3), (6, 2)] {
        let mut game = Game::new(rows, cols, 2);
        let mut moves = 0;
        let mut reported: Vec<(u16, u16, u16)> = Vec::new();
        while !game.is_game_over() {
            let player = game.get_current_turn();
            let before = game.get_scores();
            let offered = Bot::candidate_moves(&game);
            let (pos, symbol, runs) = game.bot_move().unwrap();
            moves += 1;
            assert!(offered.contains(&(pos, symbol)));
            assert!(pos < rows * cols);
            assert_eq!(game.get_cell(pos), Some(symbol));
            assert_eq!(game.get_current_turn(), (player + 1) % 2);
            let after = game.get_scores();
            assert_eq!((after[player as usize] - before[player as usize]) as usize, runs.len());
            assert_eq!(after[1 - player as usize], before[1 - player as usize]);
            for run in runs {
                assert!(is_straight(run, rows, cols));
                assert!(run.0 == pos || run.1 == pos || run.2 == pos);
                assert_eq!(game.get_cell(run.0), Some(CellValue::S));
                assert_eq!(game.get_cell(run.1), Some(CellValue::O));
                assert_eq!(game.get_cell(run.2), Some(CellValue::S));
                assert!(!reported.contains(&run));
                reported.push(run);
            }
        }
        assert_eq!(moves, rows * cols);
        let sum: u32 = game.get_scores().iter().sum();
        assert_eq!(sum as usize, reported.len());
        assert_eq!(game.get_sos(), reported);
    }
}

#[test]
fn every_choice_gains_as_much_as_any_placement() {
    let mut game = Game::new(4, 5, 2);
    while !game.is_game_over() {
        let offered = Bot::candidate_moves(&game);
        assert!(!offered.is_empty());
        let gain = |pos: u16, symbol: CellValue| match symbol {
            CellValue::S => game.add_s(pos as i16).len(),
            _ => game.add_o(pos as i16).len(),
        };
        let best = gain(offered[0].0, offered[0].1);
        for pos in 0..20u16 {
            for symbol in [CellValue::S, CellValue::O] {
                let empty = game.get_cell(pos) == Some(CellValue::Empty);
                let expected = empty && gain(pos, symbol) == best;
                assert_eq!(offered.contains(&(pos, symbol)), expected);
                if empty {
                    assert!(gain(pos, symbol) <= best);
                }
            }
        }
        game.bot_move().unwrap();
    }
}
