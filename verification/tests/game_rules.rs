use sos_game::engine::cell::CellValue;
use sos_game::engine::game::{Game, GameError};

fn line_of_five() -> Game {
    Game::new(1, 5, 2)
}

#[test]
fn new_game_is_blank() {
    let game = Game::new(3, 4, 2);
    assert_eq!(game.get_scores(), vec![0, 0]);
    assert_eq!(game.get_current_turn(), 0);
    assert!(!game.is_game_over());
    assert_eq!(game.get_total(), 12);
    assert_eq!(game.get_col(), 4);
    for pos in 0..12 {
        assert_eq!(game.get_cell(pos), Some(CellValue::Empty));
    }
    assert_eq!(game.get_cell(12), None);
}

#[test]
fn outer_symbol_last_completes_the_run() {
    let mut game = line_of_five();
    let first = game.update(0, 0, CellValue::S).unwrap();
    assert!(first.new_sos.is_empty());
    assert_eq!(first.next_turn, 1);
    let second = game.update(1, 1, CellValue::O).unwrap();
    assert!(second.new_sos.is_empty());
    assert_eq!(second.next_turn, 0);
    let third = game.update(0, 2, CellValue::S).unwrap();
    assert_eq!(third.new_sos, vec![(0, 1, 2)]);
    assert_eq!(third.scores, vec![1, 0]);
    assert_eq!(third.next_turn, 1);
    assert_eq!(game.get_scores(), vec![1, 0]);
}

#[test]
fn inner_symbol_last_completes_the_run() {
    let mut game = line_of_five();
    game.update(0, 0, CellValue::S).unwrap();
    game.update(1, 2, CellValue::S).unwrap();
    let third = game.update(0, 1, CellValue::O).unwrap();
    assert_eq!(third.new_sos, vec![(0, 1, 2)]);
    assert_eq!(third.scores, vec![1, 0]);
    assert_eq!(game.get_scores(), vec![1, 0]);
}

#[test]
fn inner_symbol_last_credits_the_second_player() {
    let mut game = line_of_five();
    game.update(0, 0, CellValue::S).unwrap();
    game.update(1, 2, CellValue::S).unwrap();
    game.update(0, 4, CellValue::O).unwrap();
    let fourth = game.update(1, 1, CellValue::O).unwrap();
    assert_eq!(fourth.new_sos, vec![(0, 1, 2)]);
    assert_eq!(fourth.scores, vec![0, 1]);
}

#[test]
fn occupied_position_is_rejected_for_any_player_and_symbol() {
    let mut game = line_of_five();
    game.update(0, 3, CellValue::S).unwrap();
    for player in 0..4u8 {
        for symbol in [CellValue::S, CellValue::O, CellValue::Empty] {
            let res = game.update(player, 3, symbol);
            assert_eq!(res.unwrap_err(), GameError::PositionAlreadyOccupied);
        }
    }
    assert_eq!(game.get_cell(3), Some(CellValue::S));
    assert_eq!(game.get_current_turn(), 1);
    assert_eq!(game.get_scores(), vec![0, 0]);
}

#[test]
fn position_outside_grid_is_rejected_and_changes_nothing() {
    let mut game = line_of_five();
    game.update(0, 0, CellValue::S).unwrap();
    for pos in [5u16, 6, 100, u16::MAX] {
        for player in 0..3u8 {
            let res = game.update(player, pos, CellValue::S);
            assert_eq!(res.unwrap_err(), GameError::InvalidPosition);
        }
    }
    assert_eq!(game.get_current_turn(), 1);
    assert_eq!(game.get_scores(), vec![0, 0]);
    assert_eq!(game.get_cell(0), Some(CellValue::S));
    for pos in 1..5 {
        assert_eq!(game.get_cell(pos), Some(CellValue::Empty));
    }
    assert!(!game.is_game_over());
}

#[test]
fn wrong_player_is_rejected_and_changes_nothing() {
    let mut game = line_of_five();
    assert_eq!(game.update(1, 0, CellValue::S).unwrap_err(), GameError::InvalidPlayer);
    assert_eq!(game.update(2, 0, CellValue::O).unwrap_err(), GameError::InvalidPlayer);
    assert_eq!(game.update(255, 0, CellValue::Empty).unwrap_err(), GameError::InvalidPlayer);
    assert_eq!(game.get_current_turn(), 0);
    assert_eq!(game.get_cell(0), Some(CellValue::Empty));
    assert_eq!(game.get_scores(), vec![0, 0]);
    game.update(0, 0, CellValue::S).unwrap();
    assert_eq!(game.update(0, 1, CellValue::S).unwrap_err(), GameError::InvalidPlayer);
    assert_eq!(game.get_current_turn(), 1);
}

#[test]
fn empty_symbol_is_rejected() {
    let mut game = line_of_five();
    assert_eq!(game.update(0, 0, CellValue::Empty).unwrap_err(), GameError::InvalidMove);
    assert_eq!(game.get_cell(0), Some(CellValue::Empty));
    assert_eq!(game.get_current_turn(), 0);
}

#[test]
fn rejections_are_examined_in_order() {
    let mut game = line_of_five();
    game.update(0, 0, CellValue::S).unwrap();
    // outside the grid comes before the wrong player and the empty symbol
    assert_eq!(game.update(0, 9, CellValue::Empty).unwrap_err(), GameError::InvalidPosition);
    // an occupied position comes before the wrong player
    assert_eq!(game.update(0, 0, CellValue::Empty).unwrap_err(), GameError::PositionAlreadyOccupied);
    // the wrong player comes before the empty symbol
    assert_eq!(game.update(0, 1, CellValue::Empty).unwrap_err(), GameError::InvalidPlayer);
    assert_eq!(game.update(1, 1, CellValue::Empty).unwrap_err(), GameError::InvalidMove);
}

#[test]
fn turn_rotates_and_occupation_grows() {
    let mut game = Game::new(2, 3, 3);
    let mut filled = 0;
    for (n, pos) in [4u16, 0, 5, 2].into_iter().enumerate() {
        let player = (n % 3) as u8;
        assert_eq!(game.get_current_turn(), player);
        let res = game.update(player, pos, CellValue::O).unwrap();
        filled += 1;
        assert_eq!(res.next_turn, ((n + 1) % 3) as u8);
        assert_eq!(game.get_current_turn(), res.next_turn);
        let occupied = (0..6).filter(|p| game.get_cell(*p) != Some(CellValue::Empty)).count();
        assert_eq!(occupied, filled);
    }
}

#[test]
fn single_player_keeps_the_turn() {
    let mut game = Game::new(1, 3, 1);
    assert_eq!(game.update(0, 0, CellValue::S).unwrap().next_turn, 0);
    assert_eq!(game.update(0, 1, CellValue::O).unwrap().next_turn, 0);
    let last = game.update(0, 2, CellValue::S).unwrap();
    assert_eq!(last.new_sos, vec![(0, 1, 2)]);
    assert_eq!(last.scores, vec![1]);
    assert!(game.is_game_over());
}

#[test]
fn game_is_over_exactly_when_grid_is_full() {
    let mut game = Game::new(2, 2, 2);
    for pos in 0..4u16 {
        assert!(!game.is_game_over());
        game.update((pos % 2) as u8, pos, CellValue::S).unwrap();
    }
    assert!(game.is_game_over());
    // from now on every request fails in the same way, whatever it asks
    assert_eq!(game.update(0, 0, CellValue::S).unwrap_err(), GameError::GameFinished);
    assert_eq!(game.update(1, 9, CellValue::O).unwrap_err(), GameError::GameFinished);
    assert_eq!(game.update(7, 2, CellValue::Empty).unwrap_err(), GameError::GameFinished);
    assert_eq!(game.bot_move().unwrap_err(), GameError::GameFinished);
    assert!(game.is_game_over());
    assert_eq!(game.get_scores(), vec![0, 0]);
    assert_eq!(game.get_current_turn(), 0);
}

#[test]
fn run_across_the_row_edge_is_not_credited() {
    // 0 1 2
    // 3 4 5
    let mut game = Game::new(2, 3, 2);
    game.update(0, 2, CellValue::S).unwrap();
    game.update(1, 3, CellValue::O).unwrap();
    let res = game.update(0, 4, CellValue::S).unwrap();
    assert!(res.new_sos.is_empty());
    assert_eq!(res.scores, vec![0, 0]);
    let mut other = Game::new(2, 3, 2);
    other.update(0, 1, CellValue::S).unwrap();
    other.update(1, 3, CellValue::S).unwrap();
    let res = other.update(0, 2, CellValue::O).unwrap();
    assert!(res.new_sos.is_empty());
}

#[test]
fn diagonal_across_the_row_edge_is_not_credited() {
    //  0  1  2  3
    //  4  5  6  7
    //  8  9 10 11
    // 12 13 14 15
    let mut game = Game::new(4, 4, 2);
    // 2, 7, 12 are five apart but 7 to 12 wraps around the edge
    game.update(0, 2, CellValue::S).unwrap();
    game.update(1, 7, CellValue::O).unwrap();
    let res = game.update(0, 12, CellValue::S).unwrap();
    assert!(res.new_sos.is_empty());
    // 1, 4, 7 are three apart but stay within two rows
    let mut other = Game::new(4, 4, 2);
    other.update(0, 1, CellValue::S).unwrap();
    other.update(1, 4, CellValue::O).unwrap();
    let res = other.update(0, 7, CellValue::S).unwrap();
    assert!(res.new_sos.is_empty());
}

#[test]
fn vertical_and_diagonal_runs_are_credited() {
    // 0 1 2
    // 3 4 5
    // 6 7 8
    let mut game = Game::new(3, 3, 2);
    game.update(0, 1, CellValue::S).unwrap();
    game.update(1, 4, CellValue::O).unwrap();
    assert_eq!(game.update(0, 7, CellValue::S).unwrap().new_sos, vec![(1, 4, 7)]);
    game.update(1, 0, CellValue::S).unwrap();
    assert_eq!(game.update(0, 8, CellValue::S).unwrap().new_sos, vec![(0, 4, 8)]);
    game.update(1, 6, CellValue::S).unwrap();
    assert_eq!(game.update(0, 2, CellValue::S).unwrap().new_sos, vec![(2, 4, 6)]);
    assert_eq!(game.get_scores(), vec![3, 0]);
}

#[test]
fn one_move_can_complete_four_runs() {
    let mut game = Game::new(3, 3, 2);
    let mut player = 0u8;
    for pos in [0u16, 1, 2, 3, 5, 6, 7, 8] {
        let res = game.update(player, pos, CellValue::S).unwrap();
        assert!(res.new_sos.is_empty());
        player = res.next_turn;
    }
    assert_eq!(player, 0);
    let res = game.update(0, 4, CellValue::O).unwrap();
    assert_eq!(res.new_sos, vec![(0, 4, 8), (1, 4, 7), (2, 4, 6), (3, 4, 5)]);
    assert_eq!(res.scores, vec![4, 0]);
    assert_eq!(res.next_turn, 1);
    assert!(game.is_game_over());
    assert_eq!(game.get_sos(), vec![(0, 4, 8), (1, 4, 7), (2, 4, 6), (3, 4, 5)]);
}

#[test]
fn outer_symbol_in_the_centre_completes_runs_both_ways() {
    // 1 x 5: S O _ O S
    let mut game = line_of_five();
    game.update(0, 0, CellValue::S).unwrap();
    game.update(1, 1, CellValue::O).unwrap();
    game.update(0, 3, CellValue::O).unwrap();
    game.update(1, 4, CellValue::S).unwrap();
    let res = game.update(0, 2, CellValue::S).unwrap();
    assert_eq!(res.new_sos, vec![(0, 1, 2), (2, 3, 4)]);
    assert_eq!(res.scores, vec![2, 0]);
}

#[test]
fn single_column_run_is_reported_once() {
    let mut game = Game::new(3, 1, 2);
    game.update(0, 0, CellValue::S).unwrap();
    game.update(1, 1, CellValue::O).unwrap();
    let res = game.update(0, 2, CellValue::S).unwrap();
    assert_eq!(res.new_sos, vec![(0, 1, 2)]);
    assert_eq!(res.scores, vec![1, 0]);
    let mut other = Game::new(3, 1, 2);
    other.update(0, 2, CellValue::S).unwrap();
    other.update(1, 1, CellValue::O).unwrap();
    let res = other.update(0, 0, CellValue::S).unwrap();
    assert_eq!(res.new_sos, vec![(0, 1, 2)]);
}

#[test]
fn scores_sum_to_reported_runs_and_no_run_repeats() {
    // a full game on 3 x 4 with a fixed script
    let mut game = Game::new(3, 4, 2);
    let script = [
        (0u16, CellValue::S),
        (1, CellValue::O),
        (2, CellValue::S),
        (5, CellValue::O),
        (10, CellValue::S),
        (4, CellValue::S),
        (6, CellValue::S),
        (8, CellValue::S),
        (9, CellValue::O),
        (3, CellValue::O),
        (7, CellValue::O),
        (11, CellValue::S),
    ];
    let mut reported: Vec<(u16, u16, u16)> = Vec::new();
    for (pos, symbol) in script {
        let player = game.get_current_turn();
        let before = game.get_scores();
        let res = game.update(player, pos, symbol).unwrap();
        for run in &res.new_sos {
            assert!(!reported.contains(run));
            reported.push(*run);
        }
        let gained = res.scores[player as usize] - before[player as usize];
        assert_eq!(gained as usize, res.new_sos.len());
        let sum: u32 = game.get_scores().iter().sum();
        assert_eq!(sum as usize, reported.len());
    }
    assert!(game.is_game_over());
    assert_eq!(game.get_sos(), reported);
    assert_eq!(
        reported,
        vec![(0, 1, 2), (0, 5, 10), (4, 5, 6), (2, 5, 8), (8, 9, 10)]
    );
    assert_eq!(game.get_scores(), vec![4, 1]);
}

#[test]
fn add_s_and_add_o_preview_a_placement() {
    let mut game = line_of_five();
    game.update(0, 0, CellValue::S).unwrap();
    game.update(1, 1, CellValue::O).unwrap();
    assert_eq!(game.add_s(2), vec![(0, 1, 2)]);
    assert!(game.add_o(2).is_empty());
    assert!(game.add_s(3).is_empty());
    assert!(game.add_s(-1).is_empty());
    assert!(game.add_o(-3).is_empty());
    assert!(game.add_s(5).is_empty());
    assert!(game.add_s(i16::MAX).is_empty());
    assert!(game.add_o(i16::MIN).is_empty());
    // a preview changes nothing
    assert_eq!(game.get_cell(2), Some(CellValue::Empty));
    assert_eq!(game.get_scores(), vec![0, 0]);
    game.update(0, 2, CellValue::S).unwrap();
    // the run is credited now, so a second look does not report it again
    assert!(game.add_s(2).is_empty());
    assert!(game.add_s(0).is_empty());
    assert!(game.add_o(1).is_empty());
}

#[test]
fn add_o_finds_the_run_around_a_gap() {
    let mut game = Game::new(3, 3, 2);
    game.update(0, 0, CellValue::S).unwrap();
    game.update(1, 8, CellValue::S).unwrap();
    game.update(0, 3, CellValue::S).unwrap();
    game.update(1, 5, CellValue::S).unwrap();
    assert_eq!(game.add_o(4), vec![(0, 4, 8), (3, 4, 5)]);
    assert!(game.add_s(4).is_empty());
}

#[test]
fn candidate_runs_are_filtered_in_their_order() {
    let mut game = line_of_five();
    game.update(0, 0, CellValue::S).unwrap();
    game.update(1, 1, CellValue::O).unwrap();
    game.update(0, 3, CellValue::O).unwrap();
    game.update(1, 4, CellValue::S).unwrap();
    let groups = vec![(2, 3, 4), (0, 1, 2), (2, 3, 4), (-1, 0, 1), (3, 4, 5), (1, 2, 3)];
    assert_eq!(game.get_sos_candidates(&groups, 2, CellValue::S), vec![(2, 3, 4), (0, 1, 2)]);
    assert!(game.get_sos_candidates(&groups, 2, CellValue::O).is_empty());
    assert!(game.get_sos_candidates(&Vec::new(), 2, CellValue::S).is_empty());
}

#[test]
fn largest_grid_takes_a_move_at_its_last_position() {
    let mut game = Game::new(255, 257, 2);
    assert_eq!(game.get_total(), 65535);
    game.update(0, 65532, CellValue::S).unwrap();
    game.update(1, 65533, CellValue::O).unwrap();
    let res = game.update(0, 65534, CellValue::S).unwrap();
    assert_eq!(res.new_sos, vec![(65532, 65533, 65534)]);
    assert_eq!(game.update(1, 65535, CellValue::S).unwrap_err(), GameError::InvalidPosition);
}
