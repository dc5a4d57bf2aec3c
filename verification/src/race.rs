//! The race test: which pawns no opposing pawn can stop on their way to
//! the goal row.

use crate::board::{is_side, on_board, Board, Grid, BLACK, BOARD_SIZE};
use crate::moves::{cell_of, opponent_of};
use vstd::prelude::*;

verus! {

/// Rows between a pawn of `p` on row `r` and its goal row.
pub open spec fn steps_to_goal(p: i32, r: int) -> int {
    if p == BLACK {
        8 - r
    } else {
        r
    }
}

/// How many rows row `r2` lies ahead of row `r` in the direction in which
/// `p` advances; negative where it lies behind.
pub open spec fn rows_ahead(p: i32, r: int, r2: int) -> int {
    if p == BLACK {
        r2 - r
    } else {
        r - r2
    }
}

/// A pawn on (r2, c2) can stop a pawn of side `p` on (r, c): it is `d`
/// rows ahead, with `0 < d` and `d` no more than the rows left to the
/// goal, and at most `d` columns to the side.
pub open spec fn stops(p: i32, r: int, c: int, r2: int, c2: int) -> bool {
    let d = rows_ahead(p, r, r2);
    &&& 0 < d <= steps_to_goal(p, r)
    &&& c2 - c <= d
    &&& c - c2 <= d
}

/// No opposing pawn on `g` can stop a pawn of `p` on (r, c).
pub open spec fn is_unstoppable(g: Grid, p: i32, r: int, c: int) -> bool {
    forall|r2: int, c2: int|
        on_board(r2, c2) && #[trigger] g[r2][c2] == -p ==> !stops(p, r, c, r2, c2)
}

/// The steps to the goal of each unstoppable pawn of `p` among the first
/// `k` cells, in row-major order.
pub open spec fn unstoppable_upto(g: Grid, p: i32, k: int) -> Seq<usize>
    decreases k,
{
    if k <= 0 {
        Seq::<usize>::empty()
    } else if cell_of(g, k - 1) == p && is_unstoppable(g, p, (k - 1) / 9, (k - 1) % 9) {
        unstoppable_upto(g, p, k - 1).push(steps_to_goal(p, (k - 1) / 9) as usize)
    } else {
        unstoppable_upto(g, p, k - 1)
    }
}

/// The steps to the goal of each unstoppable pawn of `p`, in row-major
/// order of the pawns.
pub open spec fn unstoppable_steps(g: Grid, p: i32) -> Seq<usize> {
    unstoppable_upto(g, p, 81)
}

/// The columns below `c` on which row `r` holds `p`, in rising order.
pub open spec fn row_columns_upto(g: Grid, p: i32, r: int, c: int) -> Seq<usize>
    decreases c,
{
    if c <= 0 {
        Seq::<usize>::empty()
    } else if g[r][c - 1] == p {
        row_columns_upto(g, p, r, c - 1).push((c - 1) as usize)
    } else {
        row_columns_upto(g, p, r, c - 1)
    }
}

/// The columns on which row `r` holds `p`, in rising order.
pub open spec fn row_columns(g: Grid, p: i32, r: int) -> Seq<usize> {
    row_columns_upto(g, p, r, 9)
}

/// Some pawn listed in `rows`, row by row, can stop a pawn of `p` on (r, c).
pub open spec fn stopped_by(rows: Seq<Vec<usize>>, p: i32, r: int, c: int) -> bool {
    exists|r2: int, i: int|
        #![trigger rows[r2][i]]
        0 <= r2 < rows.len() && 0 <= i < rows[r2].len() && stops(p, r, c, r2, rows[r2][i] as int)
}

/// The listed columns are exactly the columns below `c` that hold `p`.
pub proof fn lemma_row_columns(g: Grid, p: i32, r: int, c: int)
    requires
        0 <= c <= 9,
    ensures
        forall|i: int|
            0 <= i < row_columns_upto(g, p, r, c).len() ==> 0 <= (#[trigger] row_columns_upto(
                g,
                p,
                r,
                c,
            )[i]) < c && g[r][row_columns_upto(g, p, r, c)[i] as int] == p,
        forall|c2: int|
            0 <= c2 < c && g[r][c2] == p ==> row_columns_upto(g, p, r, c).contains(c2 as usize),
    decreases c,
{
    if c > 0 {
        lemma_row_columns(g, p, r, c - 1);
        let prev = row_columns_upto(g, p, r, c - 1);
        let cur = row_columns_upto(g, p, r, c);
        assert forall|c2: int| 0 <= c2 < c && g[r][c2] == p implies cur.contains(c2 as usize) by {
            if c2 < c - 1 {
                assert(prev.contains(c2 as usize));
                let i = choose|i: int| 0 <= i < prev.len() && prev[i] == c2 as usize;
                assert(cur[i] == c2 as usize);
            } else {
                assert(cur[cur.len() - 1] == c2 as usize);
            }
        }
    }
}

/// For each row, the columns on which `opponent` has a pawn, in rising order.
pub fn get_opponent_pawns_by_row(board: &Board, opponent: i32) -> (rows: Vec<Vec<usize>>)
    requires
        board.wf(),
    ensures
        rows.len() == 9,
        forall|r: int| 0 <= r < 9 ==> (#[trigger] rows[r])@ == row_columns(board@, opponent, r),
{
    let mut pawns_by_row: Vec<Vec<usize>> = Vec::new();
    let mut row: usize = 0;
    while row < BOARD_SIZE
        invariant
            row <= 9,
            board.wf(),
            pawns_by_row.len() == row,
            forall|r: int|
                0 <= r < row ==> (#[trigger] pawns_by_row[r])@ == row_columns(board@, opponent, r),
        decreases 9 - row,
    {
        let mut cols: Vec<usize> = Vec::new();
        let mut col: usize = 0;
        while col < BOARD_SIZE
            invariant
                row < 9,
                col <= 9,
                board.wf(),
                cols@ == row_columns_upto(board@, opponent, row as int, col as int),
            decreases 9 - col,
        {
            if board.get(row, col) == opponent {
                cols.push(col);
            }
            col += 1;
        }
        pawns_by_row.push(cols);
        row += 1;
    }
    pawns_by_row
}

/// The race test for a pawn of `player` on `pawn_pos` against the pawns
/// listed in `opponent_pawns_by_row`: its steps to the goal if none of
/// them can stop it, else `None`.
pub fn is_unstoppable_pawn(
    pawn_pos: (usize, usize),
    player: i32,
    opponent_pawns_by_row: &Vec<Vec<usize>>,
) -> (steps: Option<usize>)
    requires
        is_side(player),
        pawn_pos.0 < 9,
        pawn_pos.1 < 9,
        opponent_pawns_by_row.len() == 9,
    ensures
        steps == (if stopped_by(
            opponent_pawns_by_row@,
            player,
            pawn_pos.0 as int,
            pawn_pos.1 as int,
        ) {
            None
        } else {
            Some(steps_to_goal(player, pawn_pos.0 as int) as usize)
        }),
{
    let (row_pawn, col_pawn) = pawn_pos;
    let steps_to_goal: usize = if player == BLACK {
        BOARD_SIZE - 1 - row_pawn
    } else {
        row_pawn
    };
    let ghost rows = opponent_pawns_by_row@;
    let mut row: usize = 0;
    while row < BOARD_SIZE
        invariant
            row <= 9,
            is_side(player),
            row_pawn < 9,
            col_pawn < 9,
            pawn_pos == (row_pawn, col_pawn),
            rows == opponent_pawns_by_row@,
            rows.len() == 9,
            steps_to_goal == self::steps_to_goal(player, row_pawn as int),
            forall|r2: int, i: int|
                0 <= r2 < row && 0 <= i < rows[r2].len() ==> !stops(
                    player,
                    row_pawn as int,
                    col_pawn as int,
                    r2,
                    #[trigger] rows[r2][i] as int,
                ),
        decreases 9 - row,
    {
        let ahead = if player == BLACK {
            row > row_pawn
        } else {
            row < row_pawn
        };
        if ahead {
            let steps_to_opp: usize = if player == BLACK {
                row - row_pawn
            } else {
                row_pawn - row
            };
            let cols = &opponent_pawns_by_row[row];
            let mut i: usize = 0;
            while i < cols.len()
                invariant
                    i <= cols.len(),
                    row < 9,
                    is_side(player),
                    row_pawn < 9,
                    col_pawn < 9,
                    pawn_pos == (row_pawn, col_pawn),
                    rows == opponent_pawns_by_row@,
                    rows.len() == 9,
                    *cols == rows[row as int],
                    steps_to_opp == rows_ahead(player, row_pawn as int, row as int),
                    0 < steps_to_opp <= steps_to_goal,
                    steps_to_goal == self::steps_to_goal(player, row_pawn as int),
                    forall|j: int|
                        0 <= j < i ==> !stops(
                            player,
                            row_pawn as int,
                            col_pawn as int,
                            row as int,
                            #[trigger] rows[row as int][j] as int,
                        ),
                decreases cols.len() - i,
            {
                let col_opp = cols[i];
                let col_diff = if col_opp >= col_pawn {
                    col_opp - col_pawn
                } else {
                    col_pawn - col_opp
                };
                if col_diff <= steps_to_opp {
                    assert(0 <= i < rows[row as int].len() && stops(
                        player,
                        row_pawn as int,
                        col_pawn as int,
                        row as int,
                        rows[row as int][i as int] as int,
                    ));
                    assert(stopped_by(rows, player, row_pawn as int, col_pawn as int));
                    return None;
                }
                i += 1;
            }
        }
        row += 1;
    }
    Some(steps_to_goal)
}

/// Being stopped by a pawn of the by-row listing of `-p` is being
/// stoppable on the board.
pub proof fn lemma_stopped_by_rows(g: Grid, p: i32, rows: Seq<Vec<usize>>, r: int, c: int)
    requires
        is_side(p),
        on_board(r, c),
        rows.len() == 9,
        forall|r2: int| 0 <= r2 < 9 ==> (#[trigger] rows[r2])@ == row_columns(g, (-p) as i32, r2),
    ensures
        stopped_by(rows, p, r, c) <==> !is_unstoppable(g, p, r, c),
{
    let q = (-p) as i32;
    if stopped_by(rows, p, r, c) {
        let (r2, i) = choose|r2: int, i: int|
            #![trigger rows[r2][i]]
            0 <= r2 < rows.len() && 0 <= i < rows[r2].len() && stops(
                p,
                r,
                c,
                r2,
                rows[r2][i] as int,
            );
        lemma_row_columns(g, q, r2, 9);
        let c2 = rows[r2][i] as int;
        assert(row_columns_upto(g, q, r2, 9)[i] == rows[r2]@[i]);
        assert(on_board(r2, c2) && g[r2][c2] == -p);
    }
    if !is_unstoppable(g, p, r, c) {
        let (r2, c2) = choose|r2: int, c2: int|
            on_board(r2, c2) && #[trigger] g[r2][c2] == -p && stops(p, r, c, r2, c2);
        lemma_row_columns(g, q, r2, 9);
        assert(row_columns_upto(g, q, r2, 9).contains(c2 as usize));
        let i = choose|i: int|
            0 <= i < row_columns_upto(g, q, r2, 9).len() && row_columns_upto(g, q, r2, 9)[i]
                == c2 as usize;
        assert(rows[r2]@[i] == c2 as usize);
        assert(stops(p, r, c, r2, rows[r2][i] as int));
    }
}

/// The steps to the goal of each pawn of `player` that no opposing pawn
/// can stop, in row-major order of the pawns.
pub fn get_unstoppable_pawns_steps(board: &Board, player: i32) -> (steps_list: Vec<usize>)
    requires
        board.wf(),
        is_side(player),
    ensures
        steps_list@ == unstoppable_steps(board@, player),
{
    let opponent = opponent_of(player);
    let opponent_pawns_by_row = get_opponent_pawns_by_row(board, opponent);
    let mut steps_list: Vec<usize> = Vec::new();
    let mut row: usize = 0;
    while row < BOARD_SIZE
        invariant
            row <= 9,
            board.wf(),
            is_side(player),
            opponent == -player,
            opponent_pawns_by_row.len() == 9,
            forall|r: int|
                0 <= r < 9 ==> (#[trigger] opponent_pawns_by_row[r])@ == row_columns(
                    board@,
                    opponent,
                    r,
                ),
            steps_list@ == unstoppable_upto(board@, player, row * 9),
        decreases 9 - row,
    {
        let mut col: usize = 0;
        while col < BOARD_SIZE
            invariant
                row < 9,
                col <= 9,
                board.wf(),
                is_side(player),
                opponent == -player,
                opponent_pawns_by_row.len() == 9,
                forall|r: int|
                    0 <= r < 9 ==> (#[trigger] opponent_pawns_by_row[r])@ == row_columns(
                        board@,
                        opponent,
                        r,
                    ),
                steps_list@ == unstoppable_upto(board@, player, row * 9 + col),
            decreases 9 - col,
        {
            let ghost k = row * 9 + col;
            assert(k / 9 == row && k % 9 == col);
            proof {
                lemma_stopped_by_rows(
                    board@,
                    player,
                    opponent_pawns_by_row@,
                    row as int,
                    col as int,
                );
            }
            if board.get(row, col) == player {
                if let Some(steps_to_goal) = is_unstoppable_pawn(
                    (row, col),
                    player,
                    &opponent_pawns_by_row,
                ) {
                    steps_list.push(steps_to_goal);
                }
            }
            col += 1;
        }
        row += 1;
    }
    steps_list
}

} // verus!
