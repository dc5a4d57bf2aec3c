//! Move generation with the mandatory-capture rule.

use crate::board::{
    is_side, on_board, well_formed, Board, Grid, Move, BLACK, BOARD_SIZE, EMPTY, WHITE,
};
use vstd::prelude::*;

verus! {

/// The row direction in which side `p` advances.
pub open spec fn forward(p: i32) -> int {
    if p == BLACK {
        1
    } else {
        -1
    }
}

/// The cell with row-major index `k`.
pub open spec fn cell_of(g: Grid, k: int) -> i32 {
    g[k / 9][k % 9]
}

/// The move from (r, c) to (tr, tc).
pub open spec fn mv(r: int, c: int, tr: int, tc: int) -> Move {
    (r as usize, c as usize, tr as usize, tc as usize)
}

/// A move is a capture when it spans two rows.
pub open spec fn is_capture(m: Move) -> bool {
    m.2 - m.0 == 2 || m.0 - m.2 == 2
}

/// A piece of side `p` on (r, c) can leap over the neighbour in column
/// direction `dc`: that neighbour is an opposing piece and the cell
/// behind it is on the board and empty.
pub open spec fn capture_at(g: Grid, p: i32, r: int, c: int, dc: int) -> bool {
    let f = forward(p);
    &&& on_board(r + 2 * f, c + 2 * dc)
    &&& g[r + f][c + dc] == -p
    &&& g[r + 2 * f][c + 2 * dc] == EMPTY
}

/// The cell at offset (dr, dc) from (r, c) is on the board and empty.
pub open spec fn step_at(g: Grid, r: int, c: int, dr: int, dc: int) -> bool {
    on_board(r + dr, c + dc) && g[r + dr][c + dc] == EMPTY
}

/// `m` is a capture that side `p` can make on `g`.
pub open spec fn capture_ok(g: Grid, p: i32, m: Move) -> bool {
    let (fr, fc, tr, tc) = (m.0 as int, m.1 as int, m.2 as int, m.3 as int);
    &&& on_board(fr, fc)
    &&& g[fr][fc] == p
    &&& tr == fr + 2 * forward(p)
    &&& (tc == fc - 2 && capture_at(g, p, fr, fc, -1) || tc == fc + 2 && capture_at(
        g,
        p,
        fr,
        fc,
        1,
    ))
}

/// `m` is a step, forward or sideways onto an empty cell, that side `p`
/// can make on `g` when captures are left aside.
pub open spec fn step_ok(g: Grid, p: i32, m: Move) -> bool {
    let (fr, fc, tr, tc) = (m.0 as int, m.1 as int, m.2 as int, m.3 as int);
    &&& on_board(fr, fc)
    &&& on_board(tr, tc)
    &&& g[fr][fc] == p
    &&& g[tr][tc] == EMPTY
    &&& (tr == fr + forward(p) && tc == fc || tr == fr && (tc == fc - 1 || tc == fc + 1))
}

/// Side `p` has a capture somewhere on `g`.
pub open spec fn capture_exists(g: Grid, p: i32) -> bool {
    exists|m: Move| capture_ok(g, p, m)
}

/// `m` is legal for side `p` on `g`: a capture where one exists, else a step.
pub open spec fn legal(g: Grid, p: i32, m: Move) -> bool {
    if capture_exists(g, p) {
        capture_ok(g, p, m)
    } else {
        step_ok(g, p, m)
    }
}

/// The captures of the piece on (r, c), to the left first.
pub open spec fn piece_captures(g: Grid, p: i32, r: int, c: int) -> Seq<Move> {
    let f = forward(p);
    let left = if capture_at(g, p, r, c, -1) {
        seq![mv(r, c, r + 2 * f, c - 2)]
    } else {
        Seq::<Move>::empty()
    };
    let right = if capture_at(g, p, r, c, 1) {
        seq![mv(r, c, r + 2 * f, c + 2)]
    } else {
        Seq::<Move>::empty()
    };
    left + right
}

/// The steps of the piece on (r, c): forward, left, right. A piece that
/// can capture has none.
pub open spec fn piece_steps(g: Grid, p: i32, r: int, c: int) -> Seq<Move> {
    let f = forward(p);
    if piece_captures(g, p, r, c).len() > 0 {
        Seq::<Move>::empty()
    } else {
        let ahead = if step_at(g, r, c, f, 0) {
            seq![mv(r, c, r + f, c)]
        } else {
            Seq::<Move>::empty()
        };
        let left = if step_at(g, r, c, 0, -1) {
            seq![mv(r, c, r, c - 1)]
        } else {
            Seq::<Move>::empty()
        };
        let right = if step_at(g, r, c, 0, 1) {
            seq![mv(r, c, r, c + 1)]
        } else {
            Seq::<Move>::empty()
        };
        ahead + left + right
    }
}

/// The captures of the pieces of `p` on the first `k` cells in row-major
/// order.
pub open spec fn captures_upto(g: Grid, p: i32, k: int) -> Seq<Move>
    decreases k,
{
    if k <= 0 {
        Seq::<Move>::empty()
    } else if cell_of(g, k - 1) == p {
        captures_upto(g, p, k - 1) + piece_captures(g, p, (k - 1) / 9, (k - 1) % 9)
    } else {
        captures_upto(g, p, k - 1)
    }
}

/// The steps of the pieces of `p` on the first `k` cells in row-major order.
pub open spec fn steps_upto(g: Grid, p: i32, k: int) -> Seq<Move>
    decreases k,
{
    if k <= 0 {
        Seq::<Move>::empty()
    } else if cell_of(g, k - 1) == p {
        steps_upto(g, p, k - 1) + piece_steps(g, p, (k - 1) / 9, (k - 1) % 9)
    } else {
        steps_upto(g, p, k - 1)
    }
}

/// Every capture of side `p`, piece by piece in row-major order.
pub open spec fn all_captures(g: Grid, p: i32) -> Seq<Move> {
    captures_upto(g, p, 81)
}

/// Every step of those pieces of `p` that cannot capture, in row-major order.
pub open spec fn all_steps(g: Grid, p: i32) -> Seq<Move> {
    steps_upto(g, p, 81)
}

/// The legal moves of side `p`: the captures if there is one, else the steps.
pub open spec fn legal_moves(g: Grid, p: i32) -> Seq<Move> {
    if all_captures(g, p).len() > 0 {
        all_captures(g, p)
    } else {
        all_steps(g, p)
    }
}

/// Whether (row, col) lies on the board.
pub fn is_within_bounds(row: isize, col: isize) -> (inside: bool)
    ensures
        inside == on_board(row as int, col as int),
{
    row >= 0 && row < 9 && col >= 0 && col < 9
}

/// Whether `mv` spans two rows, as a capture does.
pub fn is_capture_move(mv: &Move) -> (capture: bool)
    ensures
        capture == is_capture(*mv),
{
    let (from_row, _from_col, to_row, _to_col) = *mv;
    if to_row >= from_row {
        to_row - from_row == 2
    } else {
        from_row - to_row == 2
    }
}

/// The opposing side.
pub fn opponent_of(player: i32) -> (other: i32)
    requires
        is_side(player),
    ensures
        other == -player,
        is_side(other),
{
    if player == BLACK {
        WHITE
    } else {
        BLACK
    }
}

/// Whether the piece of `player` on (row, col) can capture in column
/// direction `dc`.
fn can_capture(board: &Board, row: usize, col: usize, player: i32, dc: isize) -> (yes: bool)
    requires
        board.wf(),
        is_side(player),
        row < 9,
        col < 9,
        dc == 1 || dc == -1,
    ensures
        yes == capture_at(board@, player, row as int, col as int, dc as int),
{
    let f: isize = if player == BLACK {
        1
    } else {
        -1
    };
    let mid_row: isize = row as isize + f;
    let mid_col: isize = col as isize + dc;
    let new_row: isize = row as isize + 2 * f;
    let new_col: isize = col as isize + 2 * dc;
    is_within_bounds(mid_row, mid_col) && is_within_bounds(new_row, new_col) && board.get(
        mid_row as usize,
        mid_col as usize,
    ) == opponent_of(player) && board.get(new_row as usize, new_col as usize) == EMPTY
}

/// Whether the cell at offset (dr, dc) from (row, col) is free to step on.
fn can_step(board: &Board, row: usize, col: usize, dr: isize, dc: isize) -> (yes: bool)
    requires
        board.wf(),
        row < 9,
        col < 9,
        -1 <= dr <= 1,
        -1 <= dc <= 1,
    ensures
        yes == step_at(board@, row as int, col as int, dr as int, dc as int),
{
    let new_row: isize = row as isize + dr;
    let new_col: isize = col as isize + dc;
    is_within_bounds(new_row, new_col) && board.get(new_row as usize, new_col as usize) == EMPTY
}

/// The moves of the piece on `pos`, as (steps, captures). A piece that can
/// capture has no steps.
pub fn get_piece_moves(board: &Board, pos: (usize, usize), player: i32) -> (res: (
    Vec<Move>,
    Vec<Move>,
))
    requires
        board.wf(),
        is_side(player),
        pos.0 < 9,
        pos.1 < 9,
    ensures
        res.0@ == piece_steps(board@, player, pos.0 as int, pos.1 as int),
        res.1@ == piece_captures(board@, player, pos.0 as int, pos.1 as int),
{
    let (row, col) = pos;
    let f: isize = if player == BLACK {
        1
    } else {
        -1
    };
    let mut capture_moves: Vec<Move> = Vec::new();
    if can_capture(board, row, col, player, -1) {
        capture_moves.push((row, col, (row as isize + 2 * f) as usize, col - 2));
    }
    if can_capture(board, row, col, player, 1) {
        capture_moves.push((row, col, (row as isize + 2 * f) as usize, col + 2));
    }
    assert(capture_moves@ =~= piece_captures(board@, player, row as int, col as int));
    if capture_moves.len() > 0 {
        return (Vec::new(), capture_moves);
    }
    let mut moves: Vec<Move> = Vec::new();
    if can_step(board, row, col, f, 0) {
        moves.push((row, col, (row as isize + f) as usize, col));
    }
    if can_step(board, row, col, 0, -1) {
        moves.push((row, col, row, col - 1));
    }
    if can_step(board, row, col, 0, 1) {
        moves.push((row, col, row, col + 1));
    }
    assert(moves@ =~= piece_steps(board@, player, row as int, col as int));
    (moves, Vec::new())
}

/// The captures and the steps of every piece of `player`, as
/// (captures, steps), piece by piece in row-major order.
pub fn get_all_valid_moves(board: &Board, player: i32) -> (res: (Vec<Move>, Vec<Move>))
    requires
        board.wf(),
        is_side(player),
    ensures
        res.0@ == all_captures(board@, player),
        res.1@ == all_steps(board@, player),
{
    let mut normal_moves: Vec<Move> = Vec::new();
    let mut capture_moves: Vec<Move> = Vec::new();
    let mut row: usize = 0;
    while row < BOARD_SIZE
        invariant
            row <= 9,
            board.wf(),
            is_side(player),
            capture_moves@ == captures_upto(board@, player, row * 9),
            normal_moves@ == steps_upto(board@, player, row * 9),
        decreases 9 - row,
    {
        let mut col: usize = 0;
        while col < BOARD_SIZE
            invariant
                row < 9,
                col <= 9,
                board.wf(),
                is_side(player),
                capture_moves@ == captures_upto(board@, player, row * 9 + col),
                normal_moves@ == steps_upto(board@, player, row * 9 + col),
            decreases 9 - col,
        {
            let ghost k = row * 9 + col;
            assert(k / 9 == row && k % 9 == col);
            if board.get(row, col) == player {
                let (mut piece_moves, mut piece_capture_moves) = get_piece_moves(
                    board,
                    (row, col),
                    player,
                );
                normal_moves.append(&mut piece_moves);
                capture_moves.append(&mut piece_capture_moves);
            }
            col += 1;
        }
        row += 1;
    }
    (capture_moves, normal_moves)
}

/// The legal moves of `player`: every capture if there is one, else every
/// step.
pub fn get_valid_moves(board: &Board, player: i32) -> (moves: Vec<Move>)
    requires
        board.wf(),
        is_side(player),
    ensures
        moves@ == legal_moves(board@, player),
{
    let (capture_moves, moves) = get_all_valid_moves(board, player);
    if capture_moves.len() > 0 {
        capture_moves
    } else {
        moves
    }
}

/// Row-major index of the cell that `m` starts from.
pub open spec fn source_index(m: Move) -> int {
    m.0 * 9 + m.1
}

/// The captures of a piece are its left and its right capture, where it
/// has them.
proof fn lemma_piece_captures_contains(g: Grid, p: i32, r: int, c: int, m: Move)
    ensures
        piece_captures(g, p, r, c).contains(m) <==> (capture_at(g, p, r, c, -1) && m == mv(
            r,
            c,
            r + 2 * forward(p),
            c - 2,
        )) || (capture_at(g, p, r, c, 1) && m == mv(r, c, r + 2 * forward(p), c + 2)),
{
    let f = forward(p);
    let left = if capture_at(g, p, r, c, -1) {
        seq![mv(r, c, r + 2 * f, c - 2)]
    } else {
        Seq::<Move>::empty()
    };
    let right = if capture_at(g, p, r, c, 1) {
        seq![mv(r, c, r + 2 * f, c + 2)]
    } else {
        Seq::<Move>::empty()
    };
    vstd::seq_lib::lemma_seq_concat_contains_all_elements(left, right, m);
    if left.len() > 0 {
        assert(left[0] == mv(r, c, r + 2 * f, c - 2));
    }
    if right.len() > 0 {
        assert(right[0] == mv(r, c, r + 2 * f, c + 2));
    }
}

/// The steps of a piece that cannot capture are those of its three steps
/// that lead onto a free cell.
proof fn lemma_piece_steps_contains(g: Grid, p: i32, r: int, c: int, m: Move)
    ensures
        piece_steps(g, p, r, c).contains(m) <==> piece_captures(g, p, r, c).len() == 0 && ((step_at(
            g,
            r,
            c,
            forward(p),
            0,
        ) && m == mv(r, c, r + forward(p), c)) || (step_at(g, r, c, 0, -1) && m == mv(
            r,
            c,
            r,
            c - 1,
        )) || (step_at(g, r, c, 0, 1) && m == mv(r, c, r, c + 1))),
{
    let f = forward(p);
    if piece_captures(g, p, r, c).len() == 0 {
        let ahead = if step_at(g, r, c, f, 0) {
            seq![mv(r, c, r + f, c)]
        } else {
            Seq::<Move>::empty()
        };
        let left = if step_at(g, r, c, 0, -1) {
            seq![mv(r, c, r, c - 1)]
        } else {
            Seq::<Move>::empty()
        };
        let right = if step_at(g, r, c, 0, 1) {
            seq![mv(r, c, r, c + 1)]
        } else {
            Seq::<Move>::empty()
        };
        vstd::seq_lib::lemma_seq_concat_contains_all_elements(ahead, left, m);
        vstd::seq_lib::lemma_seq_concat_contains_all_elements(ahead + left, right, m);
        if ahead.len() > 0 {
            assert(ahead[0] == mv(r, c, r + f, c));
        }
        if left.len() > 0 {
            assert(left[0] == mv(r, c, r, c - 1));
        }
        if right.len() > 0 {
            assert(right[0] == mv(r, c, r, c + 1));
        }
    }
}

/// The captures gathered from the first `k` cells are exactly the captures
/// that start on one of them.
pub proof fn lemma_captures_upto(g: Grid, p: i32, k: int)
    requires
        well_formed(g),
        is_side(p),
        0 <= k <= 81,
    ensures
        forall|m: Move|
            captures_upto(g, p, k).contains(m) <==> capture_ok(g, p, m) && source_index(m) < k,
    decreases k,
{
    if k > 0 {
        lemma_captures_upto(g, p, k - 1);
        let r = (k - 1) / 9;
        let c = (k - 1) % 9;
        assert forall|m: Move|
            captures_upto(g, p, k).contains(m) <==> capture_ok(g, p, m) && source_index(
                m,
            ) < k by {
            lemma_piece_captures_contains(g, p, r, c, m);
            if cell_of(g, k - 1) == p {
                vstd::seq_lib::lemma_seq_concat_contains_all_elements(
                    captures_upto(g, p, k - 1),
                    piece_captures(g, p, r, c),
                    m,
                );
            }
            if source_index(m) == k - 1 && m.1 < 9 {
                assert(m.0 == r && m.1 == c);
            }
        }
    }
}

/// The steps gathered from the first `k` cells are exactly the steps that
/// start on one of them with a piece that cannot capture.
pub proof fn lemma_steps_upto(g: Grid, p: i32, k: int)
    requires
        well_formed(g),
        is_side(p),
        0 <= k <= 81,
    ensures
        forall|m: Move|
            steps_upto(g, p, k).contains(m) <==> step_ok(g, p, m) && source_index(m) < k
                && piece_captures(g, p, m.0 as int, m.1 as int).len() == 0,
    decreases k,
{
    if k > 0 {
        lemma_steps_upto(g, p, k - 1);
        let r = (k - 1) / 9;
        let c = (k - 1) % 9;
        assert forall|m: Move|
            steps_upto(g, p, k).contains(m) <==> step_ok(g, p, m) && source_index(m) < k
                && piece_captures(g, p, m.0 as int, m.1 as int).len() == 0 by {
            lemma_piece_steps_contains(g, p, r, c, m);
            if cell_of(g, k - 1) == p {
                vstd::seq_lib::lemma_seq_concat_contains_all_elements(
                    steps_upto(g, p, k - 1),
                    piece_steps(g, p, r, c),
                    m,
                );
            }
            if source_index(m) == k - 1 && m.1 < 9 {
                assert(m.0 == r && m.1 == c);
            }
        }
    }
}

/// The generated captures are non-empty exactly when a capture exists.
pub proof fn lemma_capture_exists(g: Grid, p: i32)
    requires
        well_formed(g),
        is_side(p),
    ensures
        all_captures(g, p).len() > 0 <==> capture_exists(g, p),
{
    lemma_captures_upto(g, p, 81);
    if all_captures(g, p).len() > 0 {
        let m = all_captures(g, p)[0];
        assert(all_captures(g, p).contains(m));
        assert(capture_ok(g, p, m));
    }
    if capture_exists(g, p) {
        let m = choose|m: Move| capture_ok(g, p, m);
        assert(source_index(m) < 81);
        assert(all_captures(g, p).contains(m));
    }
}

/// The generator returns the legal moves and nothing else: a move is in
/// the list exactly when it is legal.
pub proof fn lemma_legal_moves(g: Grid, p: i32)
    requires
        well_formed(g),
        is_side(p),
    ensures
        forall|m: Move| legal_moves(g, p).contains(m) <==> legal(g, p, m),
{
    lemma_captures_upto(g, p, 81);
    lemma_steps_upto(g, p, 81);
    lemma_capture_exists(g, p);
    assert forall|m: Move| legal_moves(g, p).contains(m) <==> legal(g, p, m) by {
        if !capture_exists(g, p) && step_ok(g, p, m) {
            let r = m.0 as int;
            let c = m.1 as int;
            lemma_piece_captures_contains(g, p, r, c, mv(r, c, r + 2 * forward(p), c - 2));
            lemma_piece_captures_contains(g, p, r, c, mv(r, c, r + 2 * forward(p), c + 2));
            if capture_at(g, p, r, c, -1) {
                assert(capture_ok(g, p, mv(r, c, r + 2 * forward(p), c - 2)));
            }
            if capture_at(g, p, r, c, 1) {
                assert(capture_ok(g, p, mv(r, c, r + 2 * forward(p), c + 2)));
            }
            assert(piece_captures(g, p, r, c) =~= Seq::<Move>::empty());
            assert(source_index(m) < 81);
        }
    }
}

/// Mandatory capture: where side `p` has a capture, every generated move
/// is a capture and none is a step.
pub proof fn lemma_mandatory_capture(g: Grid, p: i32)
    requires
        well_formed(g),
        is_side(p),
        capture_exists(g, p),
    ensures
        forall|i: int|
            0 <= i < legal_moves(g, p).len() ==> capture_ok(g, p, #[trigger] legal_moves(g, p)[i])
                && is_capture(legal_moves(g, p)[i]) && !step_ok(g, p, legal_moves(g, p)[i]),
{
    lemma_legal_moves(g, p);
    assert forall|i: int| 0 <= i < legal_moves(g, p).len() implies capture_ok(
        g,
        p,
        #[trigger] legal_moves(g, p)[i],
    ) && is_capture(legal_moves(g, p)[i]) && !step_ok(g, p, legal_moves(g, p)[i]) by {
        let m = legal_moves(g, p)[i];
        assert(legal_moves(g, p).contains(m));
        assert(legal(g, p, m));
        assert(capture_ok(g, p, m));
        assert(is_capture(m));
        assert(!step_ok(g, p, m));
    }
}

/// The first `k` cells yield at most two captures and three steps each.
pub proof fn lemma_move_count_upto(g: Grid, p: i32, k: int)
    requires
        0 <= k,
    ensures
        captures_upto(g, p, k).len() <= 2 * k,
        steps_upto(g, p, k).len() <= 3 * k,
    decreases k,
{
    if k > 0 {
        lemma_move_count_upto(g, p, k - 1);
    }
}

/// A side never has more than 243 legal moves.
pub proof fn lemma_move_count(g: Grid, p: i32)
    ensures
        legal_moves(g, p).len() <= 243,
{
    lemma_move_count_upto(g, p, 81);
}

} // verus!
