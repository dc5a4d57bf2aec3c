//! The 9×9 board, its cells and coordinates.

use vstd::prelude::*;

verus! {

/// Number of rows and of columns.
pub const BOARD_SIZE: usize = 9;

/// A cell with no piece on it.
pub const EMPTY: i32 = 0;

/// Black's pieces. Black advances towards higher rows.
pub const BLACK: i32 = 1;

/// White's pieces. White advances towards lower rows.
pub const WHITE: i32 = -1;

/// A move as (from_row, from_col, to_row, to_col).
pub type Move = (usize, usize, usize, usize);

/// The mathematical board: rows from row 0, each a sequence of cells.
pub type Grid = Seq<Seq<i32>>;

/// `p` is one of the two sides.
pub open spec fn is_side(p: i32) -> bool {
    p == BLACK || p == WHITE
}

/// `v` is a legal cell value.
pub open spec fn is_cell(v: i32) -> bool {
    v == EMPTY || v == BLACK || v == WHITE
}

/// Both coordinates lie on the board.
pub open spec fn on_board(r: int, c: int) -> bool {
    0 <= r < 9 && 0 <= c < 9
}

/// A grid of 9 rows of 9 legal cells each.
pub open spec fn well_formed(g: Grid) -> bool {
    &&& g.len() == 9
    &&& forall|r: int| 0 <= r < 9 ==> (#[trigger] g[r]).len() == 9
    &&& forall|r: int, c: int| on_board(r, c) ==> is_cell(#[trigger] g[r][c])
}

/// The grid `g` with cell (r, c) replaced by `v`.
pub open spec fn put(g: Grid, r: int, c: int, v: i32) -> Grid {
    g.update(r, g[r].update(c, v))
}

/// The grid whose cells are all `EMPTY`.
pub open spec fn empty_grid() -> Grid {
    Seq::new(9, |r: int| Seq::new(9, |c: int| EMPTY))
}

/// The grid that a vector of rows describes.
pub open spec fn grid_of_rows(rows: Seq<Vec<i32>>) -> Grid {
    Seq::new(rows.len(), |r: int| rows[r]@)
}

/// The rows have the shape of a board.
pub open spec fn has_board_shape(rows: Seq<Vec<i32>>) -> bool {
    rows.len() == 9 && forall|r: int| 0 <= r < 9 ==> (#[trigger] rows[r]).len() == 9
}

/// Why a vector of rows is no board.
#[derive(Clone, Copy, Debug, PartialEq, Eq)]
pub enum BoardError {
    /// There are not 9 rows, or some row has not 9 cells.
    WrongDimensions,
    /// A cell holds a value other than -1, 0 or 1.
    InvalidCell,
}

/// A board of cells, stored in an `ndarray::Array2<i32>`.
#[verifier::external_body]
pub struct Board {
    cells: ndarray::Array2<i32>,
}

/// The rows of the array inside a `Board`, by index: element `[r][c]` of
/// the result is the array's element at `[[r, c]]`.
pub uninterp spec fn board_rows(board: Board) -> Seq<Seq<i32>>;

impl View for Board {
    type V = Seq<Seq<i32>>;

    open spec fn view(&self) -> Seq<Seq<i32>> {
        board_rows(*self)
    }
}

impl Board {
    /// `ndarray::Array2::from_elem` with shape `(rows, cols)`: an array of
    /// that shape in which every element is `value`. The call panics when
    /// the product of the axis lengths that are not 0 exceeds
    /// `isize::MAX`, or when the elements take more bytes than that. The
    /// precondition excludes both: no axis is empty, so the product that
    /// it bounds is the one that the call tests.
    #[verifier::external_body]
    fn filled(rows: usize, cols: usize, value: i32) -> (board: Board)
        requires
            0 < rows,
            0 < cols,
            4 * (rows * cols) <= isize::MAX,
        ensures
            board_rows(board).len() == rows,
            forall|r: int| 0 <= r < rows ==> (#[trigger] board_rows(board)[r]).len() == cols,
            forall|r: int, c: int|
                0 <= r < rows && 0 <= c < cols ==> #[trigger] board_rows(board)[r][c] == value,
    {
        Board { cells: ndarray::Array2::from_elem((rows, cols), value) }
    }

    /// Indexing `array[[row, col]]`: the element at that place. Out of
    /// bounds it panics, which the precondition excludes.
    #[verifier::external_body]
    fn cell(&self, row: usize, col: usize) -> (value: i32)
        requires
            row < board_rows(*self).len(),
            col < board_rows(*self)[row as int].len(),
        ensures
            value == board_rows(*self)[row as int][col as int],
    {
        self.cells[[row, col]]
    }

    /// Assignment through `array[[row, col]]`: that element becomes
    /// `value`, every other element and the shape stay.
    #[verifier::external_body]
    fn set_cell(&mut self, row: usize, col: usize, value: i32)
        requires
            row < board_rows(*old(self)).len(),
            col < board_rows(*old(self))[row as int].len(),
        ensures
            board_rows(*final(self)) == put(board_rows(*old(self)), row as int, col as int, value),
    {
        self.cells[[row, col]] = value;
    }

    /// `Clone::clone` of the array: an array of the same shape and elements.
    #[verifier::external_body]
    fn duplicate(&self) -> (copy: Board)
        ensures
            board_rows(copy) == board_rows(*self),
    {
        Board { cells: self.cells.clone() }
    }

    /// The board is 9×9 and holds only legal cell values.
    pub open spec fn wf(&self) -> bool {
        well_formed(self@)
    }

    /// The board without pieces.
    pub fn new() -> (board: Board)
        ensures
            board.wf(),
            board@ == empty_grid(),
    {
        let board = Board::filled(BOARD_SIZE, BOARD_SIZE, EMPTY);
        proof {
            assert forall|r: int| 0 <= r < 9 implies #[trigger] board@[r] == empty_grid()[r] by {
                assert(board@[r].len() == 9);
                assert forall|c: int| 0 <= c < 9 implies board@[r][c] == empty_grid()[r][c] by {}
                assert(board@[r] =~= empty_grid()[r]);
            }
            assert(board@ =~= empty_grid());
        }
        board
    }

    /// The piece on (row, col).
    pub fn get(&self, row: usize, col: usize) -> (piece: i32)
        requires
            self.wf(),
            row < 9,
            col < 9,
        ensures
            piece == self@[row as int][col as int],
            is_cell(piece),
    {
        self.cell(row, col)
    }

    /// Puts `piece` on (row, col).
    pub fn set(&mut self, row: usize, col: usize, piece: i32)
        requires
            old(self).wf(),
            row < 9,
            col < 9,
            is_cell(piece),
        ensures
            final(self).wf(),
            final(self)@ == put(old(self)@, row as int, col as int, piece),
    {
        self.set_cell(row, col, piece);
        proof {
            lemma_put_well_formed(old(self)@, row as int, col as int, piece);
        }
    }

    /// The board that `rows` describes, or the reason why there is none.
    pub fn from_rows(rows: &Vec<Vec<i32>>) -> (result: Result<Board, BoardError>)
        ensures
            match result {
                Ok(board) => has_board_shape(rows@) && board.wf() && board@ == grid_of_rows(rows@),
                Err(BoardError::WrongDimensions) => !has_board_shape(rows@),
                Err(BoardError::InvalidCell) => has_board_shape(rows@) && !well_formed(
                    grid_of_rows(rows@),
                ),
            },
    {
        if rows.len() != BOARD_SIZE {
            return Err(BoardError::WrongDimensions);
        }
        let mut r: usize = 0;
        while r < BOARD_SIZE
            invariant
                r <= 9,
                rows.len() == 9,
                forall|i: int| 0 <= i < r ==> (#[trigger] rows@[i]).len() == 9,
            decreases 9 - r,
        {
            if rows[r].len() != BOARD_SIZE {
                return Err(BoardError::WrongDimensions);
            }
            r += 1;
        }
        let ghost target = grid_of_rows(rows@);
        let mut board = Board::new();
        let mut row: usize = 0;
        while row < BOARD_SIZE
            invariant
                row <= 9,
                has_board_shape(rows@),
                target == grid_of_rows(rows@),
                board.wf(),
                forall|i: int, j: int|
                    0 <= i < row && 0 <= j < 9 ==> #[trigger] board@[i][j] == target[i][j],
            decreases 9 - row,
        {
            let mut col: usize = 0;
            while col < BOARD_SIZE
                invariant
                    row < 9,
                    col <= 9,
                    has_board_shape(rows@),
                    target == grid_of_rows(rows@),
                    board.wf(),
                    forall|i: int, j: int|
                        0 <= i < row && 0 <= j < 9 ==> #[trigger] board@[i][j] == target[i][j],
                    forall|j: int|
                        0 <= j < col ==> #[trigger] board@[row as int][j] == target[row as int][j],
                decreases 9 - col,
            {
                let piece = rows[row][col];
                assert(piece == target[row as int][col as int]);
                if piece != EMPTY && piece != BLACK && piece != WHITE {
                    return Err(BoardError::InvalidCell);
                }
                let ghost before = board@;
                board.set(row, col, piece);
                proof {
                    lemma_put_well_formed(before, row as int, col as int, piece);
                }
                col += 1;
            }
            row += 1;
        }
        proof {
            assert forall|i: int| 0 <= i < 9 implies #[trigger] board@[i] == target[i] by {
                assert(board@[i].len() == 9);
                assert(rows@[i].len() == 9);
                assert forall|j: int| 0 <= j < 9 implies board@[i][j] == target[i][j] by {}
                assert(board@[i] =~= target[i]);
            }
            assert(board@ =~= target);
        }
        Ok(board)
    }

    /// The rows of the board as vectors.
    pub fn to_rows(&self) -> (rows: Vec<Vec<i32>>)
        requires
            self.wf(),
        ensures
            has_board_shape(rows@),
            grid_of_rows(rows@) == self@,
    {
        let mut rows: Vec<Vec<i32>> = Vec::new();
        let mut row: usize = 0;
        while row < BOARD_SIZE
            invariant
                row <= 9,
                self.wf(),
                rows.len() == row,
                forall|i: int| 0 <= i < row ==> (#[trigger] rows@[i])@ == self@[i],
            decreases 9 - row,
        {
            let mut cells: Vec<i32> = Vec::new();
            let mut col: usize = 0;
            while col < BOARD_SIZE
                invariant
                    row < 9,
                    col <= 9,
                    self.wf(),
                    cells.len() == col,
                    forall|j: int| 0 <= j < col ==> #[trigger] cells@[j] == self@[row as int][j],
                decreases 9 - col,
            {
                cells.push(self.get(row, col));
                col += 1;
            }
            assert(cells@ =~= self@[row as int]);
            rows.push(cells);
            row += 1;
        }
        assert(grid_of_rows(rows@) =~= self@);
        rows
    }

    /// A copy of the board.
    pub fn copy(&self) -> (other: Board)
        ensures
            other@ == self@,
    {
        self.duplicate()
    }
}

/// Replacing one cell of a board by a legal value leaves a board.
pub proof fn lemma_put_well_formed(g: Grid, r: int, c: int, v: i32)
    requires
        well_formed(g),
        on_board(r, c),
        is_cell(v),
    ensures
        well_formed(put(g, r, c, v)),
        forall|r2: int, c2: int|
            on_board(r2, c2) ==> #[trigger] put(g, r, c, v)[r2][c2] == (if r2 == r && c2 == c {
                v
            } else {
                g[r2][c2]
            }),
{
    let h = put(g, r, c, v);
    assert forall|r2: int| 0 <= r2 < 9 implies (#[trigger] h[r2]).len() == 9 by {
        assert(g[r2].len() == 9);
    }
    assert forall|r2: int, c2: int| on_board(r2, c2) implies #[trigger] h[r2][c2] == (if r2 == r
        && c2 == c {
        v
    } else {
        g[r2][c2]
    }) by {
        assert(g[r2].len() == 9);
        assert(g[r].len() == 9);
    }
    assert forall|r2: int, c2: int| on_board(r2, c2) implies is_cell(#[trigger] h[r2][c2]) by {
        assert(is_cell(g[r2][c2]));
    }
}

} // verus!
