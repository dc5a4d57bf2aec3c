//! The order in which a node tries its moves.

use crate::board::Move;
use crate::moves::{is_capture, is_capture_move};
use std::collections::HashSet;
use vstd::prelude::*;

verus! {

broadcast use vstd::std_specs::hash::group_hash_axioms;

/// The move `m` alone if it is one of `moves`, else nothing.
pub open spec fn picked(moves: Seq<Move>, m: Option<Move>) -> Seq<Move> {
    match m {
        Some(x) => if moves.contains(x) {
            seq![x]
        } else {
            Seq::<Move>::empty()
        },
        None => Seq::<Move>::empty(),
    }
}

/// The moves that go first: `first` and then `second`, each only if it is
/// one of `moves`, and `second` only if it differs from `first`.
pub open spec fn heads(moves: Seq<Move>, first: Option<Move>, second: Option<Move>) -> Seq<Move> {
    picked(moves, first) + (if second != first {
        picked(moves, second)
    } else {
        Seq::<Move>::empty()
    })
}

/// Those of the first `k` moves that are not in `head` and are captures,
/// or are steps, as `captures` says; in their order.
pub open spec fn rest_upto(moves: Seq<Move>, head: Seq<Move>, captures: bool, k: int) -> Seq<Move>
    decreases k,
{
    if k <= 0 {
        Seq::<Move>::empty()
    } else if !head.contains(moves[k - 1]) && is_capture(moves[k - 1]) == captures {
        rest_upto(moves, head, captures, k - 1).push(moves[k - 1])
    } else {
        rest_upto(moves, head, captures, k - 1)
    }
}

/// `moves` in search order: the hint `first`, the table's move `second`,
/// the remaining captures, the remaining steps.
pub open spec fn order_moves(moves: Seq<Move>, first: Option<Move>, second: Option<Move>) -> Seq<
    Move,
> {
    let head = heads(moves, first, second);
    head + rest_upto(moves, head, true, moves.len() as int) + rest_upto(
        moves,
        head,
        false,
        moves.len() as int,
    )
}

/// Whether two moves are the same.
pub fn same_move(a: &Move, b: &Move) -> (same: bool)
    ensures
        same == (*a == *b),
{
    a.0 == b.0 && a.1 == b.1 && a.2 == b.2 && a.3 == b.3
}

/// All four coordinates of `m` lie on the board.
pub open spec fn playable(m: Move) -> bool {
    m.0 < 9 && m.1 < 9 && m.2 < 9 && m.3 < 9
}

/// The number that stands for a move in a set: its coordinates read as
/// digits to the base 9.
pub open spec fn move_code(m: Move) -> u64 {
    (((m.0 * 9 + m.1) * 9 + m.2) * 9 + m.3) as u64
}

/// The codes of the first `k` moves.
pub open spec fn codes_upto(moves: Seq<Move>, k: int) -> Set<u64>
    decreases k,
{
    if k <= 0 {
        Set::<u64>::empty()
    } else {
        codes_upto(moves, k - 1).insert(move_code(moves[k - 1]))
    }
}

/// Moves on the board with the same code are the same move.
pub proof fn lemma_move_code_injective(a: Move, b: Move)
    requires
        playable(a),
        playable(b),
        move_code(a) == move_code(b),
    ensures
        a == b,
{
}

/// Among moves on the board, the codes of the first `k` are the codes of
/// exactly those moves.
pub proof fn lemma_codes_upto(moves: Seq<Move>, k: int, m: Move)
    requires
        0 <= k <= moves.len(),
        forall|i: int| 0 <= i < moves.len() ==> playable(#[trigger] moves[i]),
        playable(m),
    ensures
        codes_upto(moves, k).contains(move_code(m)) <==> moves.take(k).contains(m),
    decreases k,
{
    if k > 0 {
        lemma_codes_upto(moves, k - 1, m);
        assert(moves.take(k) =~= moves.take(k - 1).push(moves[k - 1]));
        vstd::seq_lib::lemma_seq_contains_after_push(moves.take(k - 1), moves[k - 1], m);
        if move_code(moves[k - 1]) == move_code(m) {
            lemma_move_code_injective(moves[k - 1], m);
        }
    } else {
        assert(moves.take(0) =~= Seq::<Move>::empty());
    }
}

/// The code of `mv`, if `mv` lies on the board.
pub fn code_of(mv: &Move) -> (code: Option<u64>)
    ensures
        code == (if playable(*mv) {
            Some(move_code(*mv))
        } else {
            None::<u64>
        }),
{
    if mv.0 < 9 && mv.1 < 9 && mv.2 < 9 && mv.3 < 9 {
        Some((((mv.0 * 9 + mv.1) * 9 + mv.2) * 9 + mv.3) as u64)
    } else {
        None
    }
}

/// The codes of `moves`, as a set to look moves up in.
fn code_set(moves: &Vec<Move>) -> (codes: HashSet<u64>)
    requires
        forall|i: int| 0 <= i < moves.len() ==> playable(#[trigger] moves@[i]),
    ensures
        codes@ == codes_upto(moves@, moves.len() as int),
{
    let mut codes: HashSet<u64> = HashSet::new();
    let mut i: usize = 0;
    while i < moves.len()
        invariant
            i <= moves.len(),
            forall|j: int| 0 <= j < moves.len() ==> playable(#[trigger] moves@[j]),
            codes@ == codes_upto(moves@, i as int),
        decreases moves.len() - i,
    {
        let mv = moves[i];
        let code = (((mv.0 * 9 + mv.1) * 9 + mv.2) * 9 + mv.3) as u64;
        codes.insert(code);
        i += 1;
    }
    codes
}

/// Whether `mv` is one of the moves that `codes` was made of.
fn in_code_set(codes: &HashSet<u64>, mv: &Move, Ghost(moves): Ghost<Seq<Move>>) -> (found: bool)
    requires
        forall|i: int| 0 <= i < moves.len() ==> playable(#[trigger] moves[i]),
        codes@ == codes_upto(moves, moves.len() as int),
    ensures
        found == moves.contains(*mv),
{
    proof {
        assert(moves.take(moves.len() as int) =~= moves);
        if playable(*mv) {
            lemma_codes_upto(moves, moves.len() as int, *mv);
        } else if moves.contains(*mv) {
            let i = choose|i: int| 0 <= i < moves.len() && moves[i] == *mv;
            assert(playable(moves[i]));
        }
    }
    match code_of(mv) {
        Some(code) => codes.contains(&code),
        None => false,
    }
}

/// `moves` in search order: `first` if it is among them, then `second`
/// if it is among them and differs from `first`, then the other captures,
/// then the other steps. The moves lie on the board.
pub fn ordered_moves(moves: &Vec<Move>, first: Option<Move>, second: Option<Move>) -> (ordered:
    Vec<Move>)
    requires
        forall|i: int| 0 <= i < moves.len() ==> playable(#[trigger] moves@[i]),
    ensures
        ordered@ == order_moves(moves@, first, second),
{
    let mut ordered: Vec<Move> = Vec::new();
    let moves_set = code_set(moves);
    if let Some(mv) = first {
        if in_code_set(&moves_set, &mv, Ghost(moves@)) {
            ordered.push(mv);
        }
    }
    assert(ordered@ =~= picked(moves@, first));
    if let Some(best_move) = second {
        let differs = match first {
            Some(mv) => !same_move(&mv, &best_move),
            None => true,
        };
        if differs && in_code_set(&moves_set, &best_move, Ghost(moves@)) {
            ordered.push(best_move);
        }
    }
    assert(ordered@ =~= heads(moves@, first, second));
    let ghost head = ordered@;
    proof {
        assert forall|i: int| 0 <= i < head.len() implies playable(#[trigger] head[i]) by {
            assert(moves@.contains(head[i]));
            let j = choose|j: int| 0 <= j < moves@.len() && moves@[j] == head[i];
            assert(playable(moves@[j]));
        }
    }
    let added_moves = code_set(&ordered);
    let mut capture_moves: Vec<Move> = Vec::new();
    let mut non_capture_moves: Vec<Move> = Vec::new();
    let mut i: usize = 0;
    while i < moves.len()
        invariant
            i <= moves.len(),
            ordered@ == head,
            forall|j: int| 0 <= j < head.len() ==> playable(#[trigger] head[j]),
            added_moves@ == codes_upto(head, head.len() as int),
            capture_moves@ == rest_upto(moves@, head, true, i as int),
            non_capture_moves@ == rest_upto(moves@, head, false, i as int),
        decreases moves.len() - i,
    {
        let mv = moves[i];
        if !in_code_set(&added_moves, &mv, Ghost(head)) {
            if is_capture_move(&mv) {
                capture_moves.push(mv);
            } else {
                non_capture_moves.push(mv);
            }
        }
        i += 1;
    }
    ordered.append(&mut capture_moves);
    ordered.append(&mut non_capture_moves);
    ordered
}

/// Of the first `k` moves, the chosen rest holds those outside `head` of
/// the wanted kind, and nothing else.
pub proof fn lemma_rest_upto(moves: Seq<Move>, head: Seq<Move>, captures: bool, k: int, m: Move)
    requires
        0 <= k <= moves.len(),
    ensures
        rest_upto(moves, head, captures, k).contains(m) <==> moves.take(k).contains(m)
            && !head.contains(m) && is_capture(m) == captures,
    decreases k,
{
    if k > 0 {
        lemma_rest_upto(moves, head, captures, k - 1, m);
        let prev = rest_upto(moves, head, captures, k - 1);
        let cur = rest_upto(moves, head, captures, k);
        assert(moves.take(k) =~= moves.take(k - 1).push(moves[k - 1]));
        vstd::seq_lib::lemma_seq_contains_after_push(moves.take(k - 1), moves[k - 1], m);
        if !head.contains(moves[k - 1]) && is_capture(moves[k - 1]) == captures {
            vstd::seq_lib::lemma_seq_contains_after_push(prev, moves[k - 1], m);
        }
    } else {
        assert(moves.take(0) =~= Seq::<Move>::empty());
    }
}

/// Ordering neither adds nor loses a move: the ordered list holds exactly
/// the moves of the list it was made from.
pub proof fn lemma_order_moves(
    moves: Seq<Move>,
    first: Option<Move>,
    second: Option<Move>,
    m: Move,
)
    ensures
        order_moves(moves, first, second).contains(m) <==> moves.contains(m),
{
    let head = heads(moves, first, second);
    let caps = rest_upto(moves, head, true, moves.len() as int);
    let steps = rest_upto(moves, head, false, moves.len() as int);
    lemma_rest_upto(moves, head, true, moves.len() as int, m);
    lemma_rest_upto(moves, head, false, moves.len() as int, m);
    assert(moves.take(moves.len() as int) =~= moves);
    vstd::seq_lib::lemma_seq_concat_contains_all_elements(head, caps, m);
    vstd::seq_lib::lemma_seq_concat_contains_all_elements(head + caps, steps, m);
    let h1 = picked(moves, first);
    let h2 = if second != first {
        picked(moves, second)
    } else {
        Seq::<Move>::empty()
    };
    vstd::seq_lib::lemma_seq_concat_contains_all_elements(h1, h2, m);
    if h1.len() > 0 {
        assert(h1[0] == first->0);
    }
    if h2.len() > 0 {
        assert(h2[0] == second->0);
    }
}

} // verus!
