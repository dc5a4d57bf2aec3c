//! Zobrist keys and the hash of a position.

use crate::board::{on_board, put, well_formed, Board, Grid, BLACK, BOARD_SIZE, WHITE};
use crate::moves::cell_of;
use rand::Rng;
use vstd::prelude::*;

verus! {

/// Number of keys in a table: one per cell and piece kind.
pub const KEY_COUNT: usize = 243;

/// `rand::rngs::ThreadRng`, the handle to a thread's random number
/// generator, as an opaque type.
#[verifier::external_type_specification]
#[verifier::external_body]
pub struct ExThreadRng(rand::rngs::ThreadRng);

/// `rand::thread_rng` hands out the calling thread's generator. Nothing is
/// claimed of it.
pub assume_specification[ rand::thread_rng ]() -> (rng: rand::rngs::ThreadRng)
;

/// `Rng::gen::<u64>` draws one value from the generator. Any value may
/// come, so nothing is claimed of it.
#[verifier::external_body]
fn next_key(rng: &mut rand::rngs::ThreadRng) -> (key: u64) {
    rng.gen()
}

/// One 64-bit key per (row, column, piece kind), where the kinds are
/// 0 for empty, 1 for Black and 2 for White. The key of (r, c, kind) sits
/// at index `(r * 9 + c) * 3 + kind`. The keys of kind 0 take no part in
/// a hash.
pub struct ZobristTable {
    pub keys: Vec<u64>,
}

impl View for ZobristTable {
    type V = Seq<u64>;

    open spec fn view(&self) -> Seq<u64> {
        self.keys@
    }
}

impl ZobristTable {
    /// The table has a key for every cell and kind.
    pub open spec fn wf(&self) -> bool {
        self@.len() == 243
    }

    /// The table made of `keys`, if there are 243 of them.
    pub fn from_keys(keys: Vec<u64>) -> (table: Option<ZobristTable>)
        ensures
            table matches Some(t) ==> t.wf() && t@ == keys@,
            table is Some <==> keys@.len() == 243,
    {
        if keys.len() == KEY_COUNT {
            Some(ZobristTable { keys })
        } else {
            None
        }
    }

    /// The key of `piece` on (row, col).
    pub fn key(&self, row: usize, col: usize, piece: i32) -> (key: u64)
        requires
            self.wf(),
            row < 9,
            col < 9,
        ensures
            key == piece_key(self@, row as int, col as int, piece),
    {
        self.keys[(row * 9 + col) * 3 + piece_index(piece)]
    }
}

/// The kind of a cell value: 1 for Black, 2 for White, 0 for anything else.
pub open spec fn piece_kind(piece: i32) -> int {
    if piece == BLACK {
        1
    } else if piece == WHITE {
        2
    } else {
        0
    }
}

/// The key of `piece` on (r, c).
pub open spec fn piece_key(keys: Seq<u64>, r: int, c: int, piece: i32) -> u64 {
    keys[(r * 9 + c) * 3 + piece_kind(piece)]
}

/// What the cell with row-major index `k` adds to the hash: the key of its
/// piece, or nothing where it is empty.
pub open spec fn cell_hash(keys: Seq<u64>, g: Grid, k: int) -> u64 {
    if piece_kind(cell_of(g, k)) != 0 {
        keys[k * 3 + piece_kind(cell_of(g, k))]
    } else {
        0
    }
}

/// The XOR of the keys of the pieces on the first `k` cells.
pub open spec fn hash_upto(keys: Seq<u64>, g: Grid, k: int) -> u64
    decreases k,
{
    if k <= 0 {
        0
    } else {
        hash_upto(keys, g, k - 1) ^ cell_hash(keys, g, k - 1)
    }
}

/// The hash of a position: the XOR of the keys of all its pieces.
pub open spec fn zobrist_hash(keys: Seq<u64>, g: Grid) -> u64 {
    hash_upto(keys, g, 81)
}

/// A table of freshly drawn random keys.
pub fn initialize_zobrist_table() -> (table: ZobristTable)
    ensures
        table.wf(),
{
    let mut rng = rand::thread_rng();
    let mut keys: Vec<u64> = Vec::new();
    let mut i: usize = 0;
    while i < KEY_COUNT
        invariant
            i <= 243,
            keys.len() == i,
        decreases 243 - i,
    {
        keys.push(next_key(&mut rng));
        i += 1;
    }
    ZobristTable { keys }
}

/// The kind of a cell value, as an index into the keys of a cell.
pub fn piece_index(piece: i32) -> (kind: usize)
    ensures
        kind == piece_kind(piece),
{
    if piece == BLACK {
        1
    } else if piece == WHITE {
        2
    } else {
        0
    }
}

/// The hash of `board` under `table`, computed from scratch.
pub fn compute_zobrist_hash(board: &Board, table: &ZobristTable) -> (hash: u64)
    requires
        board.wf(),
        table.wf(),
    ensures
        hash == zobrist_hash(table@, board@),
{
    let mut hash: u64 = 0;
    let mut row: usize = 0;
    while row < BOARD_SIZE
        invariant
            row <= 9,
            board.wf(),
            table.wf(),
            hash == hash_upto(table@, board@, row * 9),
        decreases 9 - row,
    {
        let mut col: usize = 0;
        while col < BOARD_SIZE
            invariant
                row < 9,
                col <= 9,
                board.wf(),
                table.wf(),
                hash == hash_upto(table@, board@, row * 9 + col),
            decreases 9 - col,
        {
            let ghost k = row * 9 + col;
            assert(k / 9 == row && k % 9 == col);
            let piece = board.get(row, col);
            let piece_idx = piece_index(piece);
            if piece_idx != 0 {
                hash ^= table.keys[(row * 9 + col) * 3 + piece_idx];
            } else {
                assert(hash ^ 0 == hash) by (bit_vector);
            }
            col += 1;
        }
        row += 1;
    }
    hash
}

/// Replacing one cell changes the hash by the old and the new
/// contribution of that cell.
pub proof fn lemma_hash_put(keys: Seq<u64>, g: Grid, r: int, c: int, v: i32, k: int)
    requires
        well_formed(g),
        on_board(r, c),
        0 <= k <= 81,
    ensures
        hash_upto(keys, put(g, r, c, v), k) == (if r * 9 + c < k {
            hash_upto(keys, g, k) ^ cell_hash(keys, g, r * 9 + c) ^ cell_hash(
                keys,
                put(g, r, c, v),
                r * 9 + c,
            )
        } else {
            hash_upto(keys, g, k)
        }),
    decreases k,
{
    if k > 0 {
        lemma_hash_put(keys, g, r, c, v, k - 1);
        let h = put(g, r, c, v);
        let idx = r * 9 + c;
        let j = k - 1;
        let a = hash_upto(keys, g, j);
        let old_cell = cell_hash(keys, g, idx);
        let new_cell = cell_hash(keys, h, idx);
        assert(g[r].len() == 9);
        assert(g[j / 9].len() == 9);
        if j == idx {
            assert(j / 9 == r && j % 9 == c);
            assert((a ^ old_cell) ^ old_cell ^ new_cell == a ^ new_cell) by (bit_vector);
        } else {
            assert(j / 9 != r || j % 9 != c);
            assert(cell_of(h, j) == cell_of(g, j));
            let cj = cell_hash(keys, g, j);
            assert((a ^ old_cell ^ new_cell) ^ cj == (a ^ cj) ^ old_cell ^ new_cell)
                by (bit_vector);
        }
    }
}

} // verus!
