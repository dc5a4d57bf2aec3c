use fianco_ai::board::{Board, BLACK, EMPTY, WHITE};
use fianco_ai::moves::get_valid_moves;
use fianco_ai::play::make_move;
use fianco_ai::zobrist::{
    compute_zobrist_hash, initialize_zobrist_table, piece_index, ZobristTable, KEY_COUNT,
};

fn counting_table() -> ZobristTable {
    let keys: Vec<u64> = (0..243u64).map(|i| (i + 1).wrapping_mul(0x9E37_79B9_7F4A_7C15)).collect();
    ZobristTable::from_keys(keys).unwrap()
}

fn key_at(table: &ZobristTable, r: usize, c: usize, kind: usize) -> u64 {
    table.keys[(r * 9 + c) * 3 + kind]
}

#[test]
fn piece_kinds() {
    assert_eq!(piece_index(EMPTY), 0);
    assert_eq!(piece_index(BLACK), 1);
    assert_eq!(piece_index(WHITE), 2);
    assert_eq!(piece_index(7), 0);
}

#[test]
fn a_table_needs_243_keys() {
    assert_eq!(KEY_COUNT, 243);
    assert!(ZobristTable::from_keys(vec![0; 242]).is_none());
    assert!(ZobristTable::from_keys(vec![0; 244]).is_none());
    assert!(ZobristTable::from_keys(Vec::new()).is_none());
    let table = ZobristTable::from_keys((0..243).collect()).unwrap();
    assert_eq!(table.keys.len(), 243);
    assert_eq!(table.keys[17], 17);
}

#[test]
fn key_is_found_by_cell_and_kind() {
    let table = ZobristTable::from_keys((0..243).collect()).unwrap();
    assert_eq!(table.key(0, 0, EMPTY), 0);
    assert_eq!(table.key(0, 0, BLACK), 1);
    assert_eq!(table.key(0, 0, WHITE), 2);
    assert_eq!(table.key(0, 1, BLACK), 4);
    assert_eq!(table.key(1, 0, WHITE), 29);
    assert_eq!(table.key(8, 8, WHITE), 242);
}

#[test]
fn a_fresh_table_is_full_and_not_constant() {
    let table = initialize_zobrist_table();
    assert_eq!(table.keys.len(), 243);
    let first = table.keys[0];
    assert!(table.keys.iter().any(|&k| k != first));
    let other = initialize_zobrist_table();
    assert_ne!(table.keys, other.keys);
}

#[test]
fn the_empty_board_hashes_to_zero() {
    let table = counting_table();
    assert_eq!(compute_zobrist_hash(&Board::new(), &table), 0);
}

#[test]
fn the_hash_is_the_xor_of_the_piece_keys() {
    let table = counting_table();
    let mut board = Board::new();
    board.set(3, 4, BLACK);
    assert_eq!(compute_zobrist_hash(&board, &table), key_at(&table, 3, 4, 1));
    board.set(4, 5, WHITE);
    board.set(0, 0, BLACK);
    let expected = key_at(&table, 3, 4, 1) ^ key_at(&table, 4, 5, 2) ^ key_at(&table, 0, 0, 1);
    assert_eq!(compute_zobrist_hash(&board, &table), expected);
}

#[test]
fn a_step_moves_the_piece_and_its_key() {
    let table = counting_table();
    let mut board = Board::new();
    board.set(3, 4, BLACK);
    board.set(6, 6, WHITE);
    let mut hash = compute_zobrist_hash(&board, &table);
    let before = hash;
    let captured = make_move(&mut board, &(3, 4, 4, 4), BLACK, &mut hash, &table);
    assert_eq!(captured, EMPTY);
    assert_eq!(board.get(3, 4), EMPTY);
    assert_eq!(board.get(4, 4), BLACK);
    assert_eq!(board.get(6, 6), WHITE);
    assert_eq!(hash, before ^ key_at(&table, 3, 4, 1) ^ key_at(&table, 4, 4, 1));
    assert_eq!(hash, compute_zobrist_hash(&board, &table));
}

#[test]
fn a_capture_takes_the_piece_in_between() {
    let table = counting_table();
    let mut board = Board::new();
    board.set(3, 4, BLACK);
    board.set(4, 5, WHITE);
    board.set(8, 8, WHITE);
    let mut hash = compute_zobrist_hash(&board, &table);
    let before = hash;
    let captured = make_move(&mut board, &(3, 4, 5, 6), BLACK, &mut hash, &table);
    assert_eq!(captured, WHITE);
    assert_eq!(board.get(3, 4), EMPTY);
    assert_eq!(board.get(4, 5), EMPTY);
    assert_eq!(board.get(5, 6), BLACK);
    assert_eq!(board.get(8, 8), WHITE);
    assert_eq!(
        hash,
        before ^ key_at(&table, 3, 4, 1) ^ key_at(&table, 5, 6, 1) ^ key_at(&table, 4, 5, 2)
    );
    assert_eq!(hash, compute_zobrist_hash(&board, &table));
}

#[test]
fn white_capture_takes_a_black_piece() {
    let table = counting_table();
    let mut board = Board::new();
    board.set(5, 4, WHITE);
    board.set(4, 3, BLACK);
    board.set(0, 0, BLACK);
    let mut hash = compute_zobrist_hash(&board, &table);
    let captured = make_move(&mut board, &(5, 4, 3, 2), WHITE, &mut hash, &table);
    assert_eq!(captured, BLACK);
    assert_eq!(board.get(4, 3), EMPTY);
    assert_eq!(board.get(3, 2), WHITE);
    assert_eq!(hash, compute_zobrist_hash(&board, &table));
}

fn count(board: &Board, piece: i32) -> usize {
    let mut n = 0;
    for r in 0..9 {
        for c in 0..9 {
            if board.get(r, c) == piece {
                n += 1;
            }
        }
    }
    n
}

#[test]
fn every_generated_move_keeps_board_and_hash_sound() {
    let table = initialize_zobrist_table();
    let mut start = Board::new();
    for &(r, c, p) in &[
        (3usize, 4usize, BLACK),
        (4, 5, WHITE),
        (4, 3, WHITE),
        (0, 0, BLACK),
        (2, 2, BLACK),
        (6, 6, WHITE),
        (3, 3, WHITE),
    ] {
        start.set(r, c, p);
    }
    for &side in &[BLACK, WHITE] {
        for m in get_valid_moves(&start, side) {
            let mut board = start.copy();
            let mut hash = compute_zobrist_hash(&board, &table);
            let captured = make_move(&mut board, &m, side, &mut hash, &table);
            assert_eq!(hash, compute_zobrist_hash(&board, &table));
            assert_eq!(count(&board, side), count(&start, side));
            let jumped = m.0.abs_diff(m.2) == 2;
            let taken = if jumped { 1 } else { 0 };
            assert_eq!(count(&board, -side), count(&start, -side) - taken);
            assert_eq!(captured, if jumped { -side } else { EMPTY });
        }
    }
}

#[test]
fn the_hash_stays_right_along_a_game() {
    let table = initialize_zobrist_table();
    let mut board = Board::new();
    for c in 0..9 {
        board.set(0, c, BLACK);
        board.set(8, c, WHITE);
    }
    board.set(3, 3, BLACK);
    board.set(5, 5, WHITE);
    let mut hash = compute_zobrist_hash(&board, &table);
    let mut side = BLACK;
    for ply in 0..40 {
        let moves = get_valid_moves(&board, side);
        if moves.is_empty() {
            break;
        }
        let m = moves[(ply * 7 + 3) % moves.len()];
        make_move(&mut board, &m, side, &mut hash, &table);
        assert_eq!(hash, compute_zobrist_hash(&board, &table));
        side = -side;
    }
}
