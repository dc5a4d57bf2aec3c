//! Making a move on the board and in the hash.

use crate::board::{
    is_side, lemma_put_well_formed, on_board, put, well_formed, Board, Grid, Move, EMPTY,
};
use crate::moves::{
    capture_ok, is_capture, is_capture_move, legal, legal_moves, lemma_legal_moves, step_ok,
};
use crate::winner::{lemma_count_put, piece_count};
use crate::zobrist::{
    cell_hash, lemma_hash_put, piece_key, zobrist_hash, ZobristTable,
};
use vstd::prelude::*;

verus! {

/// The board after the piece has moved, before a captured piece is taken
/// off.
pub open spec fn moved(g: Grid, m: Move) -> Grid {
    put(put(g, m.2 as int, m.3 as int, g[m.0 as int][m.1 as int]), m.0 as int, m.1 as int, EMPTY)
}

/// Row of the cell that a capture leaps over.
pub open spec fn mid_row(m: Move) -> int {
    (m.0 + m.2) / 2
}

/// Column of the cell that a capture leaps over.
pub open spec fn mid_col(m: Move) -> int {
    (m.1 + m.3) / 2
}

/// The board after move `m`: the piece stands on its destination, its
/// source is empty and, for a capture, so is the cell in between.
pub open spec fn apply_move(g: Grid, m: Move) -> Grid {
    if is_capture(m) {
        put(moved(g, m), mid_row(m), mid_col(m), EMPTY)
    } else {
        moved(g, m)
    }
}

/// What a capture takes off the board; `EMPTY` for a step.
pub open spec fn captured_piece(g: Grid, m: Move) -> i32 {
    if is_capture(m) {
        moved(g, m)[mid_row(m)][mid_col(m)]
    } else {
        EMPTY
    }
}

/// The hash after move `m`: the moving piece's key is taken out at the
/// source and put in at the destination, and a captured piece's key is
/// taken out at the cell in between.
pub open spec fn hash_after(keys: Seq<u64>, g: Grid, m: Move, hash: u64) -> u64 {
    let piece = g[m.0 as int][m.1 as int];
    let stepped = (hash ^ piece_key(keys, m.0 as int, m.1 as int, piece)) ^ piece_key(
        keys,
        m.2 as int,
        m.3 as int,
        piece,
    );
    if is_capture(m) {
        stepped ^ piece_key(keys, mid_row(m), mid_col(m), captured_piece(g, m))
    } else {
        stepped
    }
}

/// Plays `mv` on `board` and updates the hash alongside. Returns the
/// captured piece, or `EMPTY`. A hash that matched the board before a
/// legal move of `player` matches it afterwards.
pub fn make_move(
    board: &mut Board,
    mv: &Move,
    player: i32,
    zobrist_hash: &mut u64,
    zobrist_table: &ZobristTable,
) -> (captured: i32)
    requires
        old(board).wf(),
        zobrist_table.wf(),
        on_board(mv.0 as int, mv.1 as int),
        on_board(mv.2 as int, mv.3 as int),
    ensures
        final(board).wf(),
        final(board)@ == apply_move(old(board)@, *mv),
        *final(zobrist_hash) == hash_after(zobrist_table@, old(board)@, *mv, *old(zobrist_hash)),
        captured == captured_piece(old(board)@, *mv),
        is_side(player) && legal(old(board)@, player, *mv) && *old(zobrist_hash)
            == self::zobrist_hash(zobrist_table@, old(board)@) ==> *final(zobrist_hash)
            == self::zobrist_hash(zobrist_table@, final(board)@),
{
    let (from_row, from_col, to_row, to_col) = *mv;
    let from_piece = board.get(from_row, from_col);

    *zobrist_hash ^= zobrist_table.key(from_row, from_col, from_piece);
    *zobrist_hash ^= zobrist_table.key(to_row, to_col, from_piece);

    board.set(to_row, to_col, from_piece);
    board.set(from_row, from_col, EMPTY);

    let mut captured_piece = EMPTY;
    if is_capture_move(mv) {
        let mid_row = (from_row + to_row) / 2;
        let mid_col = (from_col + to_col) / 2;
        captured_piece = board.get(mid_row, mid_col);
        *zobrist_hash ^= zobrist_table.key(mid_row, mid_col, captured_piece);
        board.set(mid_row, mid_col, EMPTY);
    }
    proof {
        if is_side(player) && legal(old(board)@, player, *mv) && *old(zobrist_hash)
            == self::zobrist_hash(zobrist_table@, old(board)@) {
            lemma_hash_follows_move(zobrist_table@, old(board)@, player, *mv);
        }
    }
    captured_piece
}

/// What a legal move does to the cells it touches.
pub proof fn lemma_legal_shape(g: Grid, p: i32, m: Move)
    requires
        well_formed(g),
        is_side(p),
        legal(g, p, m),
    ensures
        on_board(m.0 as int, m.1 as int),
        on_board(m.2 as int, m.3 as int),
        g[m.0 as int][m.1 as int] == p,
        g[m.2 as int][m.3 as int] == EMPTY,
        (m.0 != m.2 || m.1 != m.3),
        is_capture(m) <==> capture_ok(g, p, m),
        is_capture(m) ==> on_board(mid_row(m), mid_col(m)) && g[mid_row(m)][mid_col(m)] == -p && (
        mid_row(m) != m.0 && mid_row(m) != m.2),
        !is_capture(m) ==> step_ok(g, p, m),
{
}

/// Hash consistency for one move: the hash of the board after a legal
/// move is the hash of the board before it, updated as `hash_after` says.
pub proof fn lemma_hash_follows_move(keys: Seq<u64>, g: Grid, p: i32, m: Move)
    requires
        well_formed(g),
        keys.len() == 243,
        is_side(p),
        legal(g, p, m),
    ensures
        zobrist_hash(keys, apply_move(g, m)) == hash_after(keys, g, m, zobrist_hash(keys, g)),
{
    lemma_legal_shape(g, p, m);
    let (fr, fc, tr, tc) = (m.0 as int, m.1 as int, m.2 as int, m.3 as int);
    let h = zobrist_hash(keys, g);
    let g1 = put(g, tr, tc, p);
    let g2 = put(g1, fr, fc, EMPTY);
    lemma_put_well_formed(g, tr, tc, p);
    lemma_put_well_formed(g1, fr, fc, EMPTY);
    lemma_hash_put(keys, g, tr, tc, p, 81);
    lemma_hash_put(keys, g1, fr, fc, EMPTY, 81);
    let k_from = piece_key(keys, fr, fc, p);
    let k_to = piece_key(keys, tr, tc, p);
    assert((tr * 9 + tc) / 9 == tr && (tr * 9 + tc) % 9 == tc);
    assert((fr * 9 + fc) / 9 == fr && (fr * 9 + fc) % 9 == fc);
    assert(cell_hash(keys, g, tr * 9 + tc) == 0);
    assert(cell_hash(keys, g1, tr * 9 + tc) == k_to);
    assert(cell_hash(keys, g1, fr * 9 + fc) == k_from);
    assert(cell_hash(keys, g2, fr * 9 + fc) == 0);
    let h2 = zobrist_hash(keys, g2);
    assert(h2 == ((h ^ 0) ^ k_to) ^ k_from ^ 0);
    assert(((h ^ 0) ^ k_to) ^ k_from ^ 0 == (h ^ k_from) ^ k_to) by (bit_vector);
    if is_capture(m) {
        let (mr, mc) = (mid_row(m), mid_col(m));
        let g3 = put(g2, mr, mc, EMPTY);
        lemma_hash_put(keys, g2, mr, mc, EMPTY, 81);
        assert((mr * 9 + mc) / 9 == mr && (mr * 9 + mc) % 9 == mc);
        let taken = g2[mr][mc];
        assert(taken == -p);
        let k_mid = piece_key(keys, mr, mc, taken);
        assert(cell_hash(keys, g2, mr * 9 + mc) == k_mid);
        assert(cell_hash(keys, g3, mr * 9 + mc) == 0);
        assert(h2 ^ k_mid ^ 0 == h2 ^ k_mid) by (bit_vector);
    }
}

/// The boards that a sequence of moves leads through, the sides taking
/// turns from `p`: whether each move is legal where it is made.
pub open spec fn legal_line(g: Grid, p: i32, line: Seq<Move>) -> bool
    decreases line.len(),
{
    line.len() > 0 ==> legal(g, p, line[0]) && legal_line(
        apply_move(g, line[0]),
        (-p) as i32,
        line.skip(1),
    )
}

/// The board after the moves of `line` have been made in turn.
pub open spec fn board_after(g: Grid, line: Seq<Move>) -> Grid
    decreases line.len(),
{
    if line.len() == 0 {
        g
    } else {
        board_after(apply_move(g, line[0]), line.skip(1))
    }
}

/// The hash after it has followed the moves of `line` in turn.
pub open spec fn hash_along(keys: Seq<u64>, g: Grid, line: Seq<Move>, hash: u64) -> u64
    decreases line.len(),
{
    if line.len() == 0 {
        hash
    } else {
        hash_along(
            keys,
            apply_move(g, line[0]),
            line.skip(1),
            hash_after(keys, g, line[0], hash),
        )
    }
}

/// A legal move leaves a board, keeps the mover's pieces and takes one
/// opposing piece off exactly when it is a capture.
pub proof fn lemma_legal_move_effect(g: Grid, p: i32, m: Move)
    requires
        well_formed(g),
        is_side(p),
        legal(g, p, m),
    ensures
        well_formed(apply_move(g, m)),
        piece_count(apply_move(g, m), p as int) == piece_count(g, p as int),
        piece_count(apply_move(g, m), -p) == piece_count(g, -p) - (if is_capture(m) {
            1int
        } else {
            0int
        }),
{
    lemma_legal_shape(g, p, m);
    let (fr, fc, tr, tc) = (m.0 as int, m.1 as int, m.2 as int, m.3 as int);
    let g1 = put(g, tr, tc, p);
    let g2 = put(g1, fr, fc, EMPTY);
    lemma_put_well_formed(g, tr, tc, p);
    lemma_put_well_formed(g1, fr, fc, EMPTY);
    lemma_count_put(g, p as int, tr, tc, p, 81);
    lemma_count_put(g1, p as int, fr, fc, EMPTY, 81);
    lemma_count_put(g, -p, tr, tc, p, 81);
    lemma_count_put(g1, -p, fr, fc, EMPTY, 81);
    if is_capture(m) {
        let (mr, mc) = (mid_row(m), mid_col(m));
        lemma_put_well_formed(g2, mr, mc, EMPTY);
        lemma_count_put(g2, p as int, mr, mc, EMPTY, 81);
        lemma_count_put(g2, -p, mr, mc, EMPTY, 81);
    }
}

/// Soundness of the generator: each move that it returns leaves a
/// well-formed board on which the opponent has one piece fewer if the move
/// is a capture, and as many as before if it is not.
pub proof fn lemma_generated_moves_sound(g: Grid, p: i32, i: int)
    requires
        well_formed(g),
        is_side(p),
        0 <= i < legal_moves(g, p).len(),
    ensures
        legal(g, p, legal_moves(g, p)[i]),
        well_formed(apply_move(g, legal_moves(g, p)[i])),
        piece_count(apply_move(g, legal_moves(g, p)[i]), p as int) == piece_count(g, p as int),
        is_capture(legal_moves(g, p)[i]) <==> piece_count(apply_move(g, legal_moves(g, p)[i]), -p)
            == piece_count(g, -p) - 1,
        !is_capture(legal_moves(g, p)[i]) <==> piece_count(apply_move(g, legal_moves(g, p)[i]), -p)
            == piece_count(g, -p),
{
    let m = legal_moves(g, p)[i];
    lemma_legal_moves(g, p);
    assert(legal_moves(g, p).contains(m));
    lemma_legal_move_effect(g, p, m);
}

/// Hash consistency: along any sequence of legal moves, a hash that is
/// updated move by move stays equal to the hash computed from the board.
pub proof fn lemma_hash_consistent(keys: Seq<u64>, g: Grid, p: i32, line: Seq<Move>)
    requires
        well_formed(g),
        keys.len() == 243,
        is_side(p),
        legal_line(g, p, line),
    ensures
        well_formed(board_after(g, line)),
        hash_along(keys, g, line, zobrist_hash(keys, g)) == zobrist_hash(
            keys,
            board_after(g, line),
        ),
    decreases line.len(),
{
    if line.len() > 0 {
        lemma_hash_follows_move(keys, g, p, line[0]);
        lemma_legal_move_effect(g, p, line[0]);
        lemma_hash_consistent(keys, apply_move(g, line[0]), (-p) as i32, line.skip(1));
    }
}

} // verus!
