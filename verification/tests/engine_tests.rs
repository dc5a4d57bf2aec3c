use fianco_ai::board::{Board, BLACK, WHITE};
use fianco_ai::clock::Clock;
use fianco_ai::engine::{iterative_deepening, negamax, QueryError, TABLE_CAPACITY};
use fianco_ai::eval::{evaluate_board, Weights, LOSE_SCORE, WIN_SCORE};
use fianco_ai::moves::{get_valid_moves, is_capture_move};
use fianco_ai::play::make_move;
use fianco_ai::zobrist::{initialize_zobrist_table, ZobristTable};

const GENEROUS: u128 = 10_000_000_000;

fn standard() -> Weights {
    Weights {
        piece_value: 100_000,
        advancement_value: 10_000,
        unstoppable_pawn_bonus: 500_000,
        opponent_unstoppable_pawn_penalty: -500_000,
        center_control_value: 5_000,
        mobility_value: 2_000,
        edge_pawn_bonus: 3_000,
    }
}

fn place(list: &[(usize, usize, i32)]) -> Board {
    let mut board = Board::new();
    for &(r, c, p) in list {
        board.set(r, c, p);
    }
    board
}

fn initial_position() -> Board {
    let mut board = Board::new();
    for c in 0..9 {
        board.set(0, c, BLACK);
        board.set(8, c, WHITE);
    }
    for &(r, c) in &[(1usize, 1usize), (1, 7), (2, 2), (2, 6), (3, 3), (3, 5)] {
        board.set(r, c, BLACK);
        board.set(8 - r, c, WHITE);
    }
    board
}

fn fixed_keys() -> ZobristTable {
    let keys: Vec<u64> = (0..243u64).map(|i| (i + 11).wrapping_mul(0xD6E8_FEB8_6659_FD93)).collect();
    ZobristTable::from_keys(keys).unwrap()
}

#[test]
fn the_table_of_a_query_has_room_for_a_million_positions() {
    assert_eq!(TABLE_CAPACITY, 1 << 20);
}

#[test]
fn a_side_other_than_black_or_white_is_rejected() {
    let board = initial_position();
    assert_eq!(negamax(&board, 3, 0, &standard(), GENEROUS).err(), Some(QueryError::InvalidSide));
    assert_eq!(negamax(&board, 3, 2, &standard(), GENEROUS).err(), Some(QueryError::InvalidSide));
    assert_eq!(negamax(&board, 0, -2, &standard(), GENEROUS).err(), Some(QueryError::InvalidSide));
}

#[test]
fn depth_zero_is_rejected() {
    let board = initial_position();
    assert_eq!(negamax(&board, 0, BLACK, &standard(), GENEROUS).err(), Some(QueryError::InvalidDepth));
}

#[test]
fn oversized_weights_are_rejected() {
    let board = initial_position();
    let mut w = standard();
    w.piece_value = i64::MAX;
    assert_eq!(negamax(&board, 2, BLACK, &w, GENEROUS).err(), Some(QueryError::InvalidWeights));
    assert_eq!(negamax(&board, 0, BLACK, &w, GENEROUS).err(), Some(QueryError::InvalidDepth));
}

#[test]
fn opening_move_is_a_legal_step_with_a_non_negative_score() {
    let board = initial_position();
    let (best, score, pv) = negamax(&board, 3, BLACK, &standard(), GENEROUS).unwrap();
    let m = best.unwrap();
    assert!(get_valid_moves(&board, BLACK).contains(&m));
    assert!(!is_capture_move(&m));
    assert_eq!(board.get(m.0, m.1), BLACK);
    assert!(m.2 == m.0 + 1 && m.3 == m.1 || m.2 == m.0 && m.3.abs_diff(m.1) == 1);
    assert!(score >= 0);
    assert_eq!(pv[0], m);
    assert_eq!(pv.len(), 3);
}

#[test]
fn white_facing_a_pawn_steps_from_its_cell() {
    let board = place(&[(1, 4, WHITE), (2, 4, BLACK)]);
    let (best, score, pv) = negamax(&board, 1, WHITE, &standard(), GENEROUS).unwrap();
    let m = best.unwrap();
    assert_eq!((m.0, m.1), (1, 4));
    assert!(!is_capture_move(&m));
    assert_eq!(m, (1, 4, 0, 4));
    assert_eq!(score, WIN_SCORE);
    assert_eq!(pv, vec![m]);
}

#[test]
fn the_only_capture_is_played_at_any_depth() {
    let board = place(&[(3, 4, BLACK), (4, 5, WHITE)]);
    for depth in 1..=4u32 {
        let (best, score, pv) = negamax(&board, depth, BLACK, &standard(), GENEROUS).unwrap();
        assert_eq!(best, Some((3, 4, 5, 6)));
        assert_eq!(pv, vec![(3, 4, 5, 6)]);
        assert_eq!(score, evaluate_board(&board, BLACK, &standard()));
    }
    let mut after = board.copy();
    let mut hash = 0;
    let captured = make_move(&mut after, &(3, 4, 5, 6), BLACK, &mut hash, &fixed_keys());
    assert_eq!(captured, WHITE);
    assert_eq!(after.get(4, 5), 0);
    assert_eq!(after.get(5, 6), BLACK);
}

#[test]
fn a_capture_gates_the_step_of_another_pawn() {
    let board = place(&[(3, 4, BLACK), (4, 5, WHITE), (0, 0, BLACK)]);
    let (best, _, pv) = negamax(&board, 1, BLACK, &standard(), GENEROUS).unwrap();
    assert_eq!(best, Some((3, 4, 5, 6)));
    assert_ne!(best, Some((0, 0, 1, 0)));
    assert_eq!(pv, vec![(3, 4, 5, 6)]);
}

#[test]
fn among_two_captures_one_is_searched_and_played() {
    let board = place(&[(3, 4, BLACK), (4, 5, WHITE), (4, 3, WHITE), (0, 0, BLACK), (8, 8, WHITE)]);
    let (best, _, pv) = negamax(&board, 2, BLACK, &standard(), GENEROUS).unwrap();
    let m = best.unwrap();
    assert!(m == (3, 4, 5, 6) || m == (3, 4, 5, 2));
    assert_eq!(pv[0], m);
}

#[test]
fn a_side_without_a_move_loses() {
    let board = place(&[(8, 0, BLACK)]);
    let found = negamax(&board, 3, WHITE, &standard(), GENEROUS).unwrap();
    assert_eq!(found, (None, LOSE_SCORE, Vec::new()));
}

#[test]
fn a_finished_game_with_one_move_left_scores_as_lost() {
    let board = place(&[(8, 0, BLACK), (5, 8, WHITE), (4, 8, BLACK)]);
    let moves = get_valid_moves(&board, WHITE);
    assert_eq!(moves, vec![(5, 8, 5, 7)]);
    let found = negamax(&board, 3, WHITE, &standard(), GENEROUS).unwrap();
    assert_eq!(found, (Some((5, 8, 5, 7)), LOSE_SCORE, vec![(5, 8, 5, 7)]));
}

#[test]
fn a_blocked_side_has_lost_though_the_game_goes_on() {
    let board = place(&[(5, 0, WHITE), (4, 0, BLACK), (5, 1, BLACK)]);
    let found = negamax(&board, 2, WHITE, &standard(), GENEROUS).unwrap();
    assert_eq!(found, (None, LOSE_SCORE, Vec::new()));
}

#[test]
fn a_lost_position_is_answered_with_a_move_and_the_lost_score() {
    let board = place(&[(4, 8, WHITE), (7, 0, BLACK)]);
    let (best, score, pv) = negamax(&board, 2, WHITE, &standard(), GENEROUS).unwrap();
    let m = best.unwrap();
    assert!(get_valid_moves(&board, WHITE).contains(&m));
    assert_eq!(score, LOSE_SCORE);
    assert_eq!(pv.len(), 2);
    assert_eq!(pv[0], m);
    assert_eq!(pv[1], (7, 0, 8, 0));
    let (best, score, _) = negamax(&board, 4, WHITE, &standard(), GENEROUS).unwrap();
    assert!(best.is_some());
    assert_eq!(score, LOSE_SCORE);
}

#[test]
fn without_time_nothing_is_found() {
    let board = initial_position();
    let found = negamax(&board, 3, BLACK, &standard(), 0).unwrap();
    assert_eq!(found, (None, 0, Vec::new()));
}

#[test]
fn without_time_nothing_is_found_at_any_depth_for_either_side() {
    let board = place(&[(1, 4, WHITE), (2, 4, BLACK)]);
    for depth in 1..=4u32 {
        assert_eq!(negamax(&board, depth, WHITE, &standard(), 0).unwrap(), (None, 0, Vec::new()));
        assert_eq!(negamax(&board, depth, BLACK, &standard(), 0).unwrap(), (None, 0, Vec::new()));
    }
}

#[test]
fn without_time_a_single_move_is_still_played() {
    let board = place(&[(3, 4, BLACK), (4, 5, WHITE)]);
    let found = negamax(&board, 3, BLACK, &standard(), 0).unwrap();
    assert_eq!(found.0, Some((3, 4, 5, 6)));
    let board = place(&[(8, 0, BLACK)]);
    let found = negamax(&board, 3, WHITE, &standard(), 0).unwrap();
    assert_eq!(found, (None, LOSE_SCORE, Vec::new()));
}

#[test]
fn deepening_with_given_keys_is_repeatable() {
    let board = initial_position();
    let keys = fixed_keys();
    let mut clock = Clock::start(GENEROUS);
    let first = iterative_deepening(&board, 2, BLACK, &standard(), &keys, 4096, &mut clock);
    assert!(!clock.expired);
    let mut clock = Clock::start(GENEROUS);
    let second = iterative_deepening(&board, 2, BLACK, &standard(), &keys, 4096, &mut clock);
    assert_eq!(first, second);
    assert!(get_valid_moves(&board, BLACK).contains(&first.0.unwrap()));
    assert_eq!(first.2.len(), 2);
}

#[test]
fn deepening_does_not_depend_on_the_keys_drawn() {
    let board = place(&[
        (1, 1, BLACK),
        (2, 4, BLACK),
        (3, 6, BLACK),
        (6, 2, WHITE),
        (5, 5, WHITE),
        (7, 7, WHITE),
    ]);
    let mut clock = Clock::start(GENEROUS);
    let fixed = iterative_deepening(&board, 3, WHITE, &standard(), &fixed_keys(), 0, &mut clock);
    let drawn = initialize_zobrist_table();
    let mut clock = Clock::start(GENEROUS);
    let random = iterative_deepening(&board, 3, WHITE, &standard(), &drawn, 0, &mut clock);
    assert_eq!(fixed, random);
}

#[test]
fn an_expired_clock_stops_deepening_before_it_starts() {
    let board = initial_position();
    let mut clock = Clock::start(0);
    let found = iterative_deepening(&board, 5, BLACK, &standard(), &fixed_keys(), 64, &mut clock);
    assert_eq!(found, (None, 0, Vec::new()));
    assert!(clock.expired);
}

#[test]
fn the_answer_is_always_a_legal_move() {
    let boards = [
        initial_position(),
        place(&[(1, 1, BLACK), (2, 4, BLACK), (6, 2, WHITE), (5, 5, WHITE)]),
        place(&[(3, 4, BLACK), (4, 5, WHITE), (4, 3, WHITE), (0, 0, BLACK), (8, 8, WHITE)]),
    ];
    for board in &boards {
        for &side in &[BLACK, WHITE] {
            for &budget in &[0u128, 200_000, GENEROUS] {
                let (best, _, pv) = negamax(board, 2, side, &standard(), budget).unwrap();
                match best {
                    Some(m) => {
                        assert!(get_valid_moves(board, side).contains(&m));
                        assert_eq!(pv[0], m);
                    }
                    None => assert!(pv.is_empty()),
                }
            }
        }
    }
}
