use fianco_ai::board::{Board, Move, BLACK, WHITE};
use fianco_ai::clock::Clock;
use fianco_ai::eval::{evaluate_board, Weights, LOSE_SCORE, WIN_SCORE};
use fianco_ai::moves::get_valid_moves;
use fianco_ai::ordering::{code_of, ordered_moves, same_move};
use fianco_ai::play::make_move;
use fianco_ai::search::{
    negamax_search, negated, visits_of, DRAW_SCORE, INFINITY, NEG_INFINITY,
};
use fianco_ai::table::{NodeType, TranspositionTable};
use fianco_ai::winner::get_winner;
use fianco_ai::zobrist::{compute_zobrist_hash, ZobristTable};
use std::collections::HashMap;

fn tuned() -> Weights {
    Weights {
        piece_value: 100_000,
        advancement_value: 10_000,
        unstoppable_pawn_bonus: 500_000,
        opponent_unstoppable_pawn_penalty: -500_000,
        center_control_value: 5_000,
        mobility_value: 2_000,
        edge_pawn_bonus: 3_000,
    }
}

fn keys() -> ZobristTable {
    let mut state: u64 = 0x0123_4567_89AB_CDEF;
    let mut keys = Vec::new();
    for _ in 0..243 {
        state ^= state << 13;
        state ^= state >> 7;
        state ^= state << 17;
        keys.push(state);
    }
    ZobristTable::from_keys(keys).unwrap()
}

fn setup(list: &[(usize, usize, i32)]) -> Board {
    let mut board = Board::new();
    for &(r, c, p) in list {
        board.set(r, c, p);
    }
    board
}

fn middle_game() -> Board {
    setup(&[
        (1, 1, BLACK),
        (2, 4, BLACK),
        (3, 6, BLACK),
        (0, 8, BLACK),
        (6, 2, WHITE),
        (5, 5, WHITE),
        (7, 7, WHITE),
        (6, 0, WHITE),
    ])
}

struct Run {
    value: i64,
    best_move: Option<Move>,
    pv: Vec<Move>,
    table: TranspositionTable,
    counts: HashMap<u64, u32>,
}

fn search_with(
    board: &Board,
    depth: u32,
    player: i32,
    capacity: usize,
    counts: HashMap<u64, u32>,
    first: Option<Move>,
) -> Run {
    let zobrist = keys();
    let hash = compute_zobrist_hash(board, &zobrist);
    let mut table = TranspositionTable::new(capacity);
    let mut counts = counts;
    let mut clock = Clock::start(u128::MAX);
    let (value, best_move, pv) = negamax_search(
        board,
        depth,
        player,
        NEG_INFINITY,
        INFINITY,
        &tuned(),
        hash,
        &zobrist,
        &mut table,
        &mut counts,
        &mut clock,
        first,
    );
    assert!(!clock.expired);
    Run { value, best_move, pv, table, counts }
}

fn plain_negamax(board: &Board, depth: u32, player: i32) -> i64 {
    if depth == 0 || get_winner(board).is_some() {
        return evaluate_board(board, player, &tuned());
    }
    let moves = get_valid_moves(board, player);
    if moves.is_empty() {
        return LOSE_SCORE;
    }
    let zobrist = keys();
    let mut best: Option<i64> = None;
    for m in moves {
        let mut next = board.copy();
        let mut hash = 0;
        make_move(&mut next, &m, player, &mut hash, &zobrist);
        let value = -plain_negamax(&next, depth - 1, -player);
        if best.map_or(true, |b| value > b) {
            best = Some(value);
        }
    }
    best.unwrap()
}

#[test]
fn window_bounds_and_draw_score() {
    assert_eq!(INFINITY, i64::MAX);
    assert_eq!(NEG_INFINITY, -i64::MAX);
    assert_eq!(DRAW_SCORE, 0);
}

#[test]
fn negation_is_total() {
    assert_eq!(negated(5), -5);
    assert_eq!(negated(-5), 5);
    assert_eq!(negated(0), 0);
    assert_eq!(negated(i64::MAX), -i64::MAX);
    assert_eq!(negated(i64::MIN), i64::MAX);
    assert_eq!(negated(LOSE_SCORE), WIN_SCORE);
}

#[test]
fn visits_are_read_from_the_counts() {
    let mut counts = HashMap::new();
    counts.insert(7u64, 2u32);
    assert_eq!(visits_of(&counts, 7), Some(2));
    assert_eq!(visits_of(&counts, 8), None);
}

#[test]
fn moves_are_compared_field_by_field() {
    assert!(same_move(&(1, 2, 3, 4), &(1, 2, 3, 4)));
    assert!(!same_move(&(1, 2, 3, 4), &(0, 2, 3, 4)));
    assert!(!same_move(&(1, 2, 3, 4), &(1, 0, 3, 4)));
    assert!(!same_move(&(1, 2, 3, 4), &(1, 2, 0, 4)));
    assert!(!same_move(&(1, 2, 3, 4), &(1, 2, 3, 0)));
}

#[test]
fn a_move_on_the_board_has_a_code_of_its_own() {
    assert_eq!(code_of(&(0, 0, 0, 0)), Some(0));
    assert_eq!(code_of(&(0, 0, 0, 1)), Some(1));
    assert_eq!(code_of(&(0, 0, 1, 0)), Some(9));
    assert_eq!(code_of(&(0, 1, 0, 0)), Some(81));
    assert_eq!(code_of(&(1, 0, 0, 0)), Some(729));
    assert_eq!(code_of(&(3, 4, 5, 6)), Some(3 * 729 + 4 * 81 + 5 * 9 + 6));
    assert_eq!(code_of(&(8, 8, 8, 8)), Some(6560));
    assert_eq!(code_of(&(9, 0, 0, 0)), None);
    assert_eq!(code_of(&(0, 9, 0, 0)), None);
    assert_eq!(code_of(&(0, 0, 9, 0)), None);
    assert_eq!(code_of(&(0, 0, 0, 9)), None);
    let mut seen = std::collections::HashSet::new();
    for a in 0..9 {
        for b in 0..9 {
            for c in 0..9 {
                for d in 0..9 {
                    assert!(seen.insert(code_of(&(a, b, c, d)).unwrap()));
                }
            }
        }
    }
}

#[test]
fn a_hint_off_the_board_is_left_out() {
    let moves: Vec<Move> = vec![(0, 0, 1, 0), (0, 0, 0, 1)];
    assert_eq!(ordered_moves(&moves, Some((0, 0, 0, 9)), Some((9, 0, 1, 0))), moves);
    assert_eq!(
        ordered_moves(&moves, Some((usize::MAX, 0, 1, 0)), Some((0, 0, 0, 1))),
        vec![(0, 0, 0, 1), (0, 0, 1, 0)]
    );
}

#[test]
fn a_move_that_occurs_twice_is_kept_twice_unless_it_goes_first() {
    let moves: Vec<Move> = vec![(0, 0, 1, 0), (0, 0, 0, 1), (0, 0, 1, 0)];
    assert_eq!(ordered_moves(&moves, None, None), moves);
    assert_eq!(ordered_moves(&moves, Some((0, 0, 1, 0)), None), vec![(0, 0, 1, 0), (0, 0, 0, 1)]);
}

#[test]
fn ordering_puts_hint_then_table_move_then_captures_then_steps() {
    let moves: Vec<Move> =
        vec![(0, 0, 1, 0), (3, 4, 5, 6), (0, 0, 0, 1), (3, 4, 5, 2), (2, 2, 3, 2)];
    assert_eq!(
        ordered_moves(&moves, None, None),
        vec![(3, 4, 5, 6), (3, 4, 5, 2), (0, 0, 1, 0), (0, 0, 0, 1), (2, 2, 3, 2)]
    );
    assert_eq!(
        ordered_moves(&moves, Some((0, 0, 0, 1)), Some((3, 4, 5, 2))),
        vec![(0, 0, 0, 1), (3, 4, 5, 2), (3, 4, 5, 6), (0, 0, 1, 0), (2, 2, 3, 2)]
    );
    assert_eq!(
        ordered_moves(&moves, Some((2, 2, 3, 2)), Some((2, 2, 3, 2))),
        vec![(2, 2, 3, 2), (3, 4, 5, 6), (3, 4, 5, 2), (0, 0, 1, 0), (0, 0, 0, 1)]
    );
    assert_eq!(
        ordered_moves(&moves, Some((8, 8, 7, 8)), Some((8, 8, 8, 7))),
        vec![(3, 4, 5, 6), (3, 4, 5, 2), (0, 0, 1, 0), (0, 0, 0, 1), (2, 2, 3, 2)]
    );
    assert_eq!(
        ordered_moves(&moves, None, Some((0, 0, 1, 0))),
        vec![(0, 0, 1, 0), (3, 4, 5, 6), (3, 4, 5, 2), (0, 0, 0, 1), (2, 2, 3, 2)]
    );
    assert!(ordered_moves(&Vec::new(), Some((0, 0, 1, 0)), None).is_empty());
}

#[test]
fn depth_zero_returns_the_evaluation() {
    let board = middle_game();
    let run = search_with(&board, 0, BLACK, 16, HashMap::new(), None);
    assert_eq!(run.value, evaluate_board(&board, BLACK, &tuned()));
    assert_eq!(run.best_move, None);
    assert!(run.pv.is_empty());
    assert_eq!(run.table.len(), 0);
}

#[test]
fn a_lost_position_scores_lose_for_the_side_to_move() {
    let board = setup(&[(8, 0, BLACK)]);
    let run = search_with(&board, 3, WHITE, 16, HashMap::new(), None);
    assert_eq!(run.value, LOSE_SCORE);
    assert_eq!(run.best_move, None);
    let board = setup(&[(8, 0, BLACK), (4, 4, WHITE)]);
    let run = search_with(&board, 3, WHITE, 16, HashMap::new(), None);
    assert_eq!(run.value, LOSE_SCORE);
    assert_eq!(run.best_move, None);
    assert!(run.pv.is_empty());
}

#[test]
fn a_side_that_cannot_move_has_lost() {
    let board = setup(&[(5, 0, WHITE), (4, 0, BLACK), (5, 1, BLACK)]);
    assert!(get_winner(&board).is_none());
    assert!(get_valid_moves(&board, WHITE).is_empty());
    for depth in 1..=3u32 {
        let run = search_with(&board, depth, WHITE, 16, HashMap::new(), None);
        assert_eq!(run.value, LOSE_SCORE);
        assert_eq!(run.best_move, None);
        assert!(run.pv.is_empty());
        assert_eq!(run.table.len(), 0);
    }
}

#[test]
fn a_node_whose_every_move_loses_returns_the_first_move_tried() {
    let board = setup(&[(4, 8, WHITE), (7, 0, BLACK)]);
    assert!(get_winner(&board).is_none());
    assert_eq!(get_valid_moves(&board, WHITE), vec![(4, 8, 3, 8), (4, 8, 4, 7)]);
    let run = search_with(&board, 2, WHITE, 0, HashMap::new(), None);
    assert_eq!(run.value, LOSE_SCORE);
    assert_eq!(run.best_move, Some((4, 8, 3, 8)));
    assert_eq!(run.pv, vec![(4, 8, 3, 8), (7, 0, 8, 0)]);
    let run = search_with(&board, 2, WHITE, 64, HashMap::new(), Some((4, 8, 4, 7)));
    assert_eq!(run.value, LOSE_SCORE);
    assert_eq!(run.best_move, Some((4, 8, 4, 7)));
    assert_eq!(run.pv, vec![(4, 8, 4, 7), (7, 0, 8, 0)]);
    assert!(run.counts.is_empty());
}

#[test]
fn a_searched_node_with_moves_returns_a_move_on_a_line_within_the_depth() {
    let boards = [
        middle_game(),
        setup(&[(4, 8, WHITE), (7, 0, BLACK)]),
        setup(&[(1, 0, WHITE), (4, 8, BLACK)]),
        setup(&[(3, 4, BLACK), (4, 5, WHITE), (4, 3, WHITE), (0, 0, BLACK), (8, 8, WHITE)]),
    ];
    for board in &boards {
        for &side in &[BLACK, WHITE] {
            for depth in 1..=3u32 {
                for &capacity in &[0usize, 256] {
                    let run = search_with(board, depth, side, capacity, HashMap::new(), None);
                    let m = run.best_move.unwrap();
                    assert!(get_valid_moves(board, side).contains(&m));
                    assert_eq!(run.pv[0], m);
                    assert!(1 <= run.pv.len() && run.pv.len() <= depth as usize);
                }
            }
        }
    }
}

#[test]
fn depth_one_takes_the_winning_step() {
    let board = setup(&[(1, 4, WHITE), (2, 4, BLACK)]);
    let run = search_with(&board, 1, WHITE, 16, HashMap::new(), None);
    assert_eq!(run.best_move, Some((1, 4, 0, 4)));
    assert_eq!(run.value, WIN_SCORE);
    assert_eq!(run.pv, vec![(1, 4, 0, 4)]);
}

#[test]
fn the_search_agrees_with_plain_negamax() {
    let board = middle_game();
    for depth in 1..=3u32 {
        for &side in &[BLACK, WHITE] {
            let run = search_with(&board, depth, side, 0, HashMap::new(), None);
            assert_eq!(run.value, plain_negamax(&board, depth, side));
            assert_eq!(run.table.len(), 0);
        }
    }
}

#[test]
fn the_root_value_is_the_negated_value_of_the_child() {
    let board = middle_game();
    let zobrist = keys();
    for depth in 1..=3u32 {
        for &side in &[BLACK, WHITE] {
            let root = search_with(&board, depth, side, 0, HashMap::new(), None);
            let m = root.best_move.unwrap();
            assert!(get_valid_moves(&board, side).contains(&m));
            assert_eq!(root.pv[0], m);
            assert_eq!(root.pv.len(), depth as usize);
            let mut child = board.copy();
            let mut hash = compute_zobrist_hash(&board, &zobrist);
            let mut line = HashMap::new();
            line.insert(hash, 1u32);
            make_move(&mut child, &m, side, &mut hash, &zobrist);
            let reply = search_with(&child, depth - 1, -side, 0, line, None);
            assert_eq!(root.value, -reply.value);
        }
    }
}

#[test]
fn the_line_is_playable_move_by_move() {
    let mut board = middle_game();
    let zobrist = keys();
    let run = search_with(&board, 3, BLACK, 1024, HashMap::new(), None);
    let mut side = BLACK;
    let mut hash = compute_zobrist_hash(&board, &zobrist);
    assert!(!run.pv.is_empty());
    for m in &run.pv {
        assert!(get_valid_moves(&board, side).contains(m));
        make_move(&mut board, m, side, &mut hash, &zobrist);
        side = -side;
    }
}

#[test]
fn counts_are_the_same_after_the_search() {
    let board = middle_game();
    let zobrist = keys();
    let hash = compute_zobrist_hash(&board, &zobrist);
    let run = search_with(&board, 3, BLACK, 1024, HashMap::new(), None);
    assert!(run.counts.is_empty());
    let mut line = HashMap::new();
    line.insert(hash, 1u32);
    line.insert(12345u64, 2u32);
    let run = search_with(&board, 3, BLACK, 1024, line.clone(), None);
    assert_eq!(run.counts, line);
    let mut line = HashMap::new();
    line.insert(hash, 0u32);
    let run = search_with(&board, 2, WHITE, 0, line.clone(), None);
    assert_eq!(run.counts, line);
}

#[test]
fn a_position_seen_twice_before_is_a_draw() {
    let zobrist = keys();
    let mut board = setup(&[(0, 0, BLACK), (8, 8, WHITE), (3, 3, BLACK), (5, 5, WHITE)]);
    let mut hash = compute_zobrist_hash(&board, &zobrist);
    let start = hash;
    let mut line: HashMap<u64, u32> = HashMap::new();
    *line.entry(hash).or_insert(0) += 1;
    let there_and_back: [(Move, i32); 4] = [
        ((0, 0, 0, 1), BLACK),
        ((8, 8, 8, 7), WHITE),
        ((0, 1, 0, 0), BLACK),
        ((8, 7, 8, 8), WHITE),
    ];
    for round in 0..4 {
        for (m, side) in there_and_back.iter() {
            if round >= 1 && hash == start {
                let mut table = TranspositionTable::new(64);
                let mut clock = Clock::start(u128::MAX);
                let mut counts = line.clone();
                *counts.get_mut(&hash).unwrap() -= 1;
                let seen = counts[&hash];
                let found = negamax_search(
                    &board,
                    4,
                    *side,
                    NEG_INFINITY,
                    INFINITY,
                    &tuned(),
                    hash,
                    &zobrist,
                    &mut table,
                    &mut counts,
                    &mut clock,
                    None,
                );
                if seen >= 2 {
                    assert_eq!(found, (0, None, Vec::new()));
                    assert_eq!(table.len(), 0);
                } else {
                    assert!(found.1.is_some());
                }
                assert_eq!(counts[&hash], seen);
            }
            assert!(get_valid_moves(&board, *side).contains(m));
            make_move(&mut board, m, *side, &mut hash, &zobrist);
            *line.entry(hash).or_insert(0) += 1;
        }
        assert_eq!(hash, start);
        assert_eq!(line[&start], round + 2);
    }
}

#[test]
fn the_third_visit_is_a_draw_at_any_depth() {
    let board = middle_game();
    let zobrist = keys();
    let hash = compute_zobrist_hash(&board, &zobrist);
    for depth in 0..4u32 {
        let mut line = HashMap::new();
        line.insert(hash, 2u32);
        let run = search_with(&board, depth, BLACK, 16, line.clone(), None);
        assert_eq!(run.value, 0);
        assert_eq!(run.best_move, None);
        assert!(run.pv.is_empty());
        assert_eq!(run.counts, line);
        assert_eq!(run.table.len(), 0);
    }
    let mut line = HashMap::new();
    line.insert(hash, 1u32);
    let run = search_with(&board, 2, BLACK, 16, line, None);
    assert!(run.best_move.is_some());
}

#[test]
fn an_expired_clock_ends_the_search_at_once() {
    let board = middle_game();
    let zobrist = keys();
    let hash = compute_zobrist_hash(&board, &zobrist);
    let mut table = TranspositionTable::new(16);
    let mut counts: HashMap<u64, u32> = HashMap::new();
    counts.insert(hash, 1);
    let mut clock = Clock::start(0);
    let found = negamax_search(
        &board,
        3,
        BLACK,
        NEG_INFINITY,
        INFINITY,
        &tuned(),
        hash,
        &zobrist,
        &mut table,
        &mut counts,
        &mut clock,
        None,
    );
    assert_eq!(found, (0, None, Vec::new()));
    assert!(clock.expired);
    assert_eq!(table.len(), 0);
    assert_eq!(counts.len(), 1);
    assert_eq!(counts[&hash], 1);
}

#[test]
fn a_reading_at_or_past_the_limit_expires_the_clock() {
    let mut clock = Clock::start(1_000);
    assert!(!clock.observe(0));
    assert!(!clock.observe(999));
    assert!(!clock.expired);
    assert!(clock.observe(1_000));
    assert!(clock.expired);
    assert!(clock.observe(0));
    assert_eq!(clock.limit_nanos, 1_000);
    let mut clock = Clock::start(1_000);
    assert!(clock.observe(1_001));
    let mut clock = Clock::start(0);
    assert!(clock.observe(0));
    let mut clock = Clock::start(u128::MAX);
    assert!(!clock.observe(u128::MAX - 1));
    assert!(clock.observe(u128::MAX));
}

#[test]
fn a_clock_stays_expired() {
    let mut clock = Clock::start(0);
    assert!(!clock.expired);
    assert!(clock.check());
    assert!(clock.expired);
    clock.limit_nanos = u128::MAX;
    assert!(clock.check());
    let mut clock = Clock::start(u128::MAX);
    assert!(!clock.check());
    assert!(!clock.expired);
}

#[test]
fn the_root_result_is_stored_in_the_table() {
    let board = middle_game();
    let zobrist = keys();
    let hash = compute_zobrist_hash(&board, &zobrist);
    let run = search_with(&board, 2, BLACK, 4096, HashMap::new(), None);
    let e = run.table.get(hash).unwrap();
    assert_eq!(e.depth, 2);
    assert_eq!(e.value, run.value);
    assert_eq!(e.flag, NodeType::Exact);
    assert_eq!(e.best_move, run.best_move);
    assert!(run.table.len() > 1);
    assert!(run.table.len() <= 4096);
}

#[test]
fn a_small_table_never_grows_past_its_capacity() {
    let board = middle_game();
    let run = search_with(&board, 3, BLACK, 3, HashMap::new(), None);
    assert_eq!(run.table.len(), 3);
    assert!(run.best_move.is_some());
}

#[test]
fn an_exact_entry_answers_for_the_search() {
    let board = middle_game();
    let zobrist = keys();
    let hash = compute_zobrist_hash(&board, &zobrist);
    let mut table = TranspositionTable::new(16);
    table.store(hash, 5, 777, NEG_INFINITY, INFINITY, Some((1, 1, 2, 1)));
    let mut counts: HashMap<u64, u32> = HashMap::new();
    let mut clock = Clock::start(u128::MAX);
    let found = negamax_search(
        &board,
        3,
        BLACK,
        NEG_INFINITY,
        INFINITY,
        &tuned(),
        hash,
        &zobrist,
        &mut table,
        &mut counts,
        &mut clock,
        None,
    );
    assert_eq!(found, (777, Some((1, 1, 2, 1)), Vec::new()));
    assert!(counts.is_empty());
    let found = negamax_search(
        &board,
        6,
        BLACK,
        NEG_INFINITY,
        INFINITY,
        &tuned(),
        hash,
        &zobrist,
        &mut table,
        &mut counts,
        &mut clock,
        None,
    );
    assert_ne!(found.0, 777);
    assert_eq!(table.get(hash).unwrap().depth, 6);
}

#[test]
fn a_closed_window_returns_the_bound() {
    let board = middle_game();
    let zobrist = keys();
    let hash = compute_zobrist_hash(&board, &zobrist);
    let mut table = TranspositionTable::new(16);
    table.store(hash, 5, 900, -10, 10, None);
    assert_eq!(table.get(hash).unwrap().flag, NodeType::LowerBound);
    let mut counts: HashMap<u64, u32> = HashMap::new();
    let mut clock = Clock::start(u128::MAX);
    let found = negamax_search(
        &board,
        2,
        BLACK,
        -50,
        50,
        &tuned(),
        hash,
        &zobrist,
        &mut table,
        &mut counts,
        &mut clock,
        None,
    );
    assert_eq!(found, (900, None, Vec::new()));
}

#[test]
fn the_hint_is_tried_first_among_equals() {
    let board = setup(&[(0, 0, BLACK), (8, 8, WHITE)]);
    let flat = Weights {
        piece_value: 0,
        advancement_value: 0,
        unstoppable_pawn_bonus: 0,
        opponent_unstoppable_pawn_penalty: 0,
        center_control_value: 0,
        mobility_value: 0,
        edge_pawn_bonus: 0,
    };
    let zobrist = keys();
    let hash = compute_zobrist_hash(&board, &zobrist);
    for (hint, expected) in [
        (None, (0, 0, 1, 0)),
        (Some((0, 0, 0, 1)), (0, 0, 0, 1)),
        (Some((5, 5, 5, 6)), (0, 0, 1, 0)),
    ] {
        let mut table = TranspositionTable::new(0);
        let mut counts: HashMap<u64, u32> = HashMap::new();
        let mut clock = Clock::start(u128::MAX);
        let found = negamax_search(
            &board,
            1,
            BLACK,
            NEG_INFINITY,
            INFINITY,
            &flat,
            hash,
            &zobrist,
            &mut table,
            &mut counts,
            &mut clock,
            hint,
        );
        assert_eq!(found.0, 0);
        assert_eq!(found.1, Some(expected));
    }
}
