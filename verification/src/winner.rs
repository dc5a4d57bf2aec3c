//! Piece counts and terminal detection.

use crate::board::{on_board, put, well_formed, Board, Grid, BLACK, BOARD_SIZE, WHITE};
use crate::moves::cell_of;
use vstd::prelude::*;

verus! {

/// Number of cells among the first `k`, in row-major order, that hold `p`.
pub open spec fn count_upto(g: Grid, p: int, k: int) -> int
    decreases k,
{
    if k <= 0 {
        0
    } else {
        count_upto(g, p, k - 1) + (if cell_of(g, k - 1) == p {
            1int
        } else {
            0int
        })
    }
}

/// Number of cells that hold `p`.
pub open spec fn piece_count(g: Grid, p: int) -> int {
    count_upto(g, p, 81)
}

/// Some cell of row `r` holds `p`.
pub open spec fn on_row(g: Grid, p: i32, r: int) -> bool {
    exists|c: int| 0 <= c < 9 && #[trigger] g[r][c] == p
}

/// The side that has won, if the game is over: Black with a piece on row
/// 8, else White with a piece on row 0, else the side whose opponent has
/// no piece left.
pub open spec fn winner(g: Grid) -> Option<i32> {
    if on_row(g, BLACK, 8) {
        Some(BLACK)
    } else if on_row(g, WHITE, 0) {
        Some(WHITE)
    } else if piece_count(g, BLACK as int) == 0 {
        Some(WHITE)
    } else if piece_count(g, WHITE as int) == 0 {
        Some(BLACK)
    } else {
        None
    }
}

/// Replacing one cell changes the count of `p` by what that cell held and
/// holds.
pub proof fn lemma_count_put(g: Grid, p: int, r: int, c: int, v: i32, k: int)
    requires
        well_formed(g),
        on_board(r, c),
        0 <= k <= 81,
    ensures
        count_upto(put(g, r, c, v), p, k) == count_upto(g, p, k) + (if r * 9 + c < k {
            (if v == p {
                1int
            } else {
                0int
            }) - (if g[r][c] == p {
                1int
            } else {
                0int
            })
        } else {
            0int
        }),
    decreases k,
{
    if k > 0 {
        lemma_count_put(g, p, r, c, v, k - 1);
        let j = k - 1;
        assert(g[r].len() == 9);
        assert(g[j / 9].len() == 9);
        if j == r * 9 + c {
            assert(j / 9 == r && j % 9 == c);
        } else {
            assert(j / 9 != r || j % 9 != c);
            assert(cell_of(put(g, r, c, v), j) == cell_of(g, j));
        }
    }
}

/// Whether some cell of `row` holds `piece`.
fn row_holds(board: &Board, row: usize, piece: i32) -> (found: bool)
    requires
        board.wf(),
        row < 9,
    ensures
        found == on_row(board@, piece, row as int),
{
    let mut col: usize = 0;
    while col < BOARD_SIZE
        invariant
            col <= 9,
            row < 9,
            board.wf(),
            forall|c: int| 0 <= c < col ==> #[trigger] board@[row as int][c] != piece,
        decreases 9 - col,
    {
        if board.get(row, col) == piece {
            return true;
        }
        col += 1;
    }
    false
}

/// Number of cells of `board` that hold `piece`.
pub fn count_pieces(board: &Board, piece: i32) -> (count: usize)
    requires
        board.wf(),
    ensures
        count == piece_count(board@, piece as int),
        count <= 81,
{
    let mut count: usize = 0;
    let mut row: usize = 0;
    while row < BOARD_SIZE
        invariant
            row <= 9,
            board.wf(),
            count == count_upto(board@, piece as int, row * 9),
            count <= row * 9,
        decreases 9 - row,
    {
        let mut col: usize = 0;
        while col < BOARD_SIZE
            invariant
                row < 9,
                col <= 9,
                board.wf(),
                count == count_upto(board@, piece as int, row * 9 + col),
                count <= row * 9 + col,
            decreases 9 - col,
        {
            let ghost k = row * 9 + col;
            assert(k / 9 == row && k % 9 == col);
            if board.get(row, col) == piece {
                count += 1;
            }
            col += 1;
        }
        row += 1;
    }
    count
}

/// The side that has won on `board`, or `None` while the game goes on.
pub fn get_winner(board: &Board) -> (won: Option<i32>)
    requires
        board.wf(),
    ensures
        won == winner(board@),
{
    if row_holds(board, BOARD_SIZE - 1, BLACK) {
        return Some(BLACK);
    }
    if row_holds(board, 0, WHITE) {
        return Some(WHITE);
    }
    if count_pieces(board, BLACK) == 0 {
        return Some(WHITE);
    }
    if count_pieces(board, WHITE) == 0 {
        return Some(BLACK);
    }
    None
}

} // verus!
