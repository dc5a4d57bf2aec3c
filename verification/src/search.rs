//! Negamax with alpha-beta pruning, a transposition table and repetition
//! detection.

use crate::board::{is_side, well_formed, Board, Grid, Move};
use crate::clock::Clock;
use crate::eval::{evaluate_board, evaluation, Weights, LOSE_SCORE};
use crate::moves::{get_valid_moves, legal, legal_moves, lemma_legal_moves, opponent_of};
use crate::ordering::{lemma_order_moves, order_moves, ordered_moves, playable};
use crate::play::{
    apply_move, hash_after, legal_line, lemma_legal_move_effect, lemma_legal_shape, make_move,
};
use crate::table::{
    entry_for, hint_of, probe_spec, stored, Probe, TranspositionTable, TranspositionTableEntry,
};
use crate::winner::{get_winner, winner};
use crate::zobrist::ZobristTable;
use std::collections::HashMap;
use vstd::prelude::*;

verus! {

broadcast use vstd::std_specs::hash::group_hash_axioms;

/// The widest upper bound of a search window.
pub const INFINITY: i64 = i64::MAX;

/// The widest lower bound of a search window.
pub const NEG_INFINITY: i64 = -i64::MAX;

/// The score of a position that has occurred twice before on the line.
pub const DRAW_SCORE: i64 = 0;

/// A score seen from the other side. The one value without a negation
/// goes to the largest.
pub open spec fn negate(v: i64) -> i64 {
    if v == i64::MIN {
        i64::MAX
    } else {
        (-v) as i64
    }
}

/// What a search is run with, beside the position: the evaluator's
/// weights, the Zobrist keys and the capacity of the table.
pub struct Env {
    pub weights: Weights,
    pub keys: Seq<u64>,
    pub capacity: nat,
}

/// What a search returns, and the table that it leaves.
pub struct Outcome {
    pub value: i64,
    pub best_move: Option<Move>,
    pub pv: Seq<Move>,
    pub table: Map<u64, TranspositionTableEntry>,
}

/// The state of a node between two of its moves.
pub struct Frontier {
    pub alpha: i64,
    pub max_eval: i64,
    pub best_move: Option<Move>,
    pub pv: Seq<Move>,
    pub table: Map<u64, TranspositionTableEntry>,
}

/// How often `hash` occurs on the line that leads to the node.
pub open spec fn visits(counts: Map<u64, u32>, hash: u64) -> nat {
    if counts.contains_key(hash) {
        counts[hash] as nat
    } else {
        0
    }
}

/// The counts after the line has entered a position with `hash`.
pub open spec fn entered(counts: Map<u64, u32>, hash: u64) -> Map<u64, u32> {
    counts.insert(hash, (visits(counts, hash) + 1) as u32)
}

/// The table's answer ends the search at once: it is an exact entry, or
/// a bound that closes the window.
pub open spec fn cuts_off(found: Probe) -> bool {
    match found {
        Probe::UseValue { value, best_move } => true,
        Probe::Tighten { alpha, beta, value, best_move } => alpha >= beta,
        Probe::Miss => false,
    }
}

/// The value of the entry that the table answered with; 0 for a miss.
pub open spec fn found_value(found: Probe) -> i64 {
    match found {
        Probe::UseValue { value, best_move } => value,
        Probe::Tighten { alpha, beta, value, best_move } => value,
        Probe::Miss => 0,
    }
}

/// The move of the entry that the table answered with.
pub open spec fn found_move(found: Probe) -> Option<Move> {
    match found {
        Probe::UseValue { value, best_move } => best_move,
        Probe::Tighten { alpha, beta, value, best_move } => best_move,
        Probe::Miss => None,
    }
}

/// The window after the table's answer has been applied.
pub open spec fn window(found: Probe, alpha: i64, beta: i64) -> (i64, i64) {
    match found {
        Probe::Tighten { alpha: a, beta: b, value, best_move } => (a, b),
        _ => (alpha, beta),
    }
}

/// The node's state after move `m` has been searched with outcome `child`.
/// The first move searched is the best so far; a later one takes its
/// place only with a greater value.
pub open spec fn advance(st: Frontier, m: Move, child: Outcome) -> Frontier {
    let eval = negate(child.value);
    let better = st.best_move is None || eval > st.max_eval;
    Frontier {
        alpha: if eval > st.alpha {
            eval
        } else {
            st.alpha
        },
        max_eval: if better {
            eval
        } else {
            st.max_eval
        },
        best_move: if better {
            Some(m)
        } else {
            st.best_move
        },
        pv: if better {
            seq![m] + child.pv
        } else {
            st.pv
        },
        table: child.table,
    }
}

/// The outcome of a search that the clock does not cut short.
///
/// A position that occurs for the third time on its line is a draw. Else
/// the table is probed; an exact entry or a closed window ends the
/// search. Else a finished game or depth 0 is evaluated, and a side
/// without a move has lost. Else the moves are tried in search order,
/// each with the negated and swapped window, and the best negated value
/// is returned with its move and line, and stored in the table. Among
/// moves of the same value the one tried first is returned.
pub open spec fn search_outcome(
    env: Env,
    g: Grid,
    depth: u32,
    p: i32,
    alpha: i64,
    beta: i64,
    hash: u64,
    hint: Option<Move>,
    table: Map<u64, TranspositionTableEntry>,
    counts: Map<u64, u32>,
) -> Outcome
    decreases depth, 1int, 0int,
{
    let found = probe_spec(table, hash, depth, alpha, beta);
    let (a, b) = window(found, alpha, beta);
    if visits(counts, hash) >= 2 {
        Outcome { value: DRAW_SCORE, best_move: None, pv: Seq::empty(), table }
    } else if cuts_off(found) {
        Outcome { value: found_value(found), best_move: found_move(found), pv: Seq::empty(), table }
    } else if depth == 0 || winner(g) is Some {
        Outcome {
            value: evaluation(g, p, env.weights) as i64,
            best_move: None,
            pv: Seq::empty(),
            table,
        }
    } else if legal_moves(g, p).len() == 0 {
        Outcome { value: LOSE_SCORE, best_move: None, pv: Seq::empty(), table }
    } else {
        let ordered = order_moves(legal_moves(g, p), hint, hint_of(table, hash));
        let start = Frontier {
            alpha: a,
            max_eval: LOSE_SCORE,
            best_move: None,
            pv: Seq::empty(),
            table,
        };
        let end = expand(env, g, depth, p, b, hash, ordered, 0, start, entered(counts, hash));
        Outcome {
            value: end.max_eval,
            best_move: end.best_move,
            pv: end.pv,
            table: stored(
                end.table,
                env.capacity,
                hash,
                entry_for(depth, end.max_eval, a, b, end.best_move),
            ),
        }
    }
}

/// The state in which a node leaves its loop over `moves`, when it stands
/// before move `i` in state `st`: each move is searched one ply less deep
/// for the other side, and the loop ends early once alpha reaches beta.
pub open spec fn expand(
    env: Env,
    g: Grid,
    depth: u32,
    p: i32,
    beta: i64,
    hash: u64,
    moves: Seq<Move>,
    i: int,
    st: Frontier,
    counts: Map<u64, u32>,
) -> Frontier
    decreases depth, 0int, moves.len() - i,
{
    if i < 0 || i >= moves.len() || depth == 0 {
        st
    } else {
        let m = moves[i];
        let child = search_outcome(
            env,
            apply_move(g, m),
            (depth - 1) as u32,
            (-p) as i32,
            negate(beta),
            negate(st.alpha),
            hash_after(env.keys, g, m, hash),
            None,
            st.table,
            counts,
        );
        let next = advance(st, m, child);
        if next.alpha >= beta {
            next
        } else {
            expand(env, g, depth, p, beta, hash, moves, i + 1, next, counts)
        }
    }
}

/// A node that is searched with these arguments tries its moves and
/// stores what it finds: its position was not seen twice before, the
/// table does not cut it off, the depth is not used up, the game goes on
/// and the side to move has a move.
pub open spec fn tries_moves(
    g: Grid,
    depth: u32,
    p: i32,
    alpha: i64,
    beta: i64,
    hash: u64,
    table: Map<u64, TranspositionTableEntry>,
    counts: Map<u64, u32>,
) -> bool {
    &&& well_formed(g)
    &&& is_side(p)
    &&& visits(counts, hash) < 2
    &&& !cuts_off(probe_spec(table, hash, depth, alpha, beta))
    &&& depth > 0
    &&& winner(g) is None
    &&& legal_moves(g, p).len() > 0
}

/// The entry that such a node stores once it has tried its moves without
/// being cut short.
pub open spec fn node_entry(
    env: Env,
    g: Grid,
    depth: u32,
    p: i32,
    alpha: i64,
    beta: i64,
    hash: u64,
    hint: Option<Move>,
    table: Map<u64, TranspositionTableEntry>,
    counts: Map<u64, u32>,
) -> TranspositionTableEntry {
    let (a, b) = window(probe_spec(table, hash, depth, alpha, beta), alpha, beta);
    let ordered = order_moves(legal_moves(g, p), hint, hint_of(table, hash));
    let start = Frontier { alpha: a, max_eval: LOSE_SCORE, best_move: None, pv: Seq::empty(), table };
    let end = expand(env, g, depth, p, b, hash, ordered, 0, start, entered(counts, hash));
    entry_for(depth, end.max_eval, a, b, end.best_move)
}

/// `entry` is what some node with `hash` stores after a search that the
/// clock did not cut short.
pub open spec fn recorded(env: Env, hash: u64, entry: TranspositionTableEntry) -> bool {
    exists|
        g: Grid,
        depth: u32,
        p: i32,
        alpha: i64,
        beta: i64,
        hint: Option<Move>,
        table: Map<u64, TranspositionTableEntry>,
        counts: Map<u64, u32>,
    |
        tries_moves(g, depth, p, alpha, beta, hash, table, counts) && #[trigger] node_entry(
            env,
            g,
            depth,
            p,
            alpha,
            beta,
            hash,
            hint,
            table,
            counts,
        ) == entry
}

/// Every entry of `after` was in `before` or records a search that the
/// clock did not cut short.
pub open spec fn kept_or_recorded(
    env: Env,
    before: Map<u64, TranspositionTableEntry>,
    after: Map<u64, TranspositionTableEntry>,
) -> bool {
    forall|h: u64| #[trigger]
        after.contains_key(h) ==> (before.contains_key(h) && before[h] == after[h]) || recorded(
            env,
            h,
            after[h],
        )
}

/// What was kept or recorded in two steps was kept or recorded.
pub proof fn lemma_kept_or_recorded_chain(
    env: Env,
    first: Map<u64, TranspositionTableEntry>,
    second: Map<u64, TranspositionTableEntry>,
    third: Map<u64, TranspositionTableEntry>,
)
    requires
        kept_or_recorded(env, first, second),
        kept_or_recorded(env, second, third),
    ensures
        kept_or_recorded(env, first, third),
{
    assert forall|h: u64| #[trigger] third.contains_key(h) implies (first.contains_key(h)
        && first[h] == third[h]) || recorded(env, h, third[h]) by {
        if !recorded(env, h, third[h]) {
            assert(second.contains_key(h));
        }
    }
}

/// `pv` is a line that can be played from `g` with `p` to move, and where
/// it is not empty it starts with `best_move`.
pub open spec fn is_line_of(g: Grid, p: i32, best_move: Option<Move>, pv: Seq<Move>) -> bool {
    legal_line(g, p, pv) && (pv.len() > 0 ==> best_move == Some(pv[0]))
}

/// Whatever the table holds, the line that a search returns can be played
/// move by move, the sides taking turns, and starts with the best move.
pub proof fn lemma_search_line(
    env: Env,
    g: Grid,
    depth: u32,
    p: i32,
    alpha: i64,
    beta: i64,
    hash: u64,
    hint: Option<Move>,
    table: Map<u64, TranspositionTableEntry>,
    counts: Map<u64, u32>,
)
    requires
        well_formed(g),
        is_side(p),
    ensures
        is_line_of(
            g,
            p,
            search_outcome(env, g, depth, p, alpha, beta, hash, hint, table, counts).best_move,
            search_outcome(env, g, depth, p, alpha, beta, hash, hint, table, counts).pv,
        ),
    decreases depth, 1int, 0int,
{
    let found = probe_spec(table, hash, depth, alpha, beta);
    let (a, b) = window(found, alpha, beta);
    if visits(counts, hash) < 2 && !cuts_off(found) && depth > 0 && winner(g) is None
        && legal_moves(g, p).len() > 0 {
        let moves = legal_moves(g, p);
        let ordered = order_moves(moves, hint, hint_of(table, hash));
        let start = Frontier {
            alpha: a,
            max_eval: LOSE_SCORE,
            best_move: None,
            pv: Seq::empty(),
            table,
        };
        lemma_legal_moves(g, p);
        assert forall|j: int| 0 <= j < ordered.len() implies legal(g, p, #[trigger] ordered[j]) by {
            lemma_order_moves(moves, hint, hint_of(table, hash), ordered[j]);
            assert(ordered.contains(ordered[j]));
        }
        lemma_expand_line(env, g, depth, p, b, hash, ordered, 0, start, entered(counts, hash));
    }
}

/// The loop of a node keeps its line playable.
pub proof fn lemma_expand_line(
    env: Env,
    g: Grid,
    depth: u32,
    p: i32,
    beta: i64,
    hash: u64,
    moves: Seq<Move>,
    i: int,
    st: Frontier,
    counts: Map<u64, u32>,
)
    requires
        well_formed(g),
        is_side(p),
        forall|j: int| 0 <= j < moves.len() ==> legal(g, p, #[trigger] moves[j]),
        0 <= i <= moves.len(),
        is_line_of(g, p, st.best_move, st.pv),
    ensures
        is_line_of(
            g,
            p,
            expand(env, g, depth, p, beta, hash, moves, i, st, counts).best_move,
            expand(env, g, depth, p, beta, hash, moves, i, st, counts).pv,
        ),
    decreases depth, 0int, moves.len() - i,
{
    if i < moves.len() && depth > 0 {
        let m = moves[i];
        lemma_legal_move_effect(g, p, m);
        let child = search_outcome(
            env,
            apply_move(g, m),
            (depth - 1) as u32,
            (-p) as i32,
            negate(beta),
            negate(st.alpha),
            hash_after(env.keys, g, m, hash),
            None,
            st.table,
            counts,
        );
        lemma_search_line(
            env,
            apply_move(g, m),
            (depth - 1) as u32,
            (-p) as i32,
            negate(beta),
            negate(st.alpha),
            hash_after(env.keys, g, m, hash),
            None,
            st.table,
            counts,
        );
        let next = advance(st, m, child);
        let line = seq![m] + child.pv;
        assert(line[0] == m);
        assert(line.skip(1) =~= child.pv);
        assert(legal_line(g, p, line));
        if next.alpha < beta {
            lemma_expand_line(env, g, depth, p, beta, hash, moves, i + 1, next, counts);
        }
    }
}

/// No entry of `table` was stored by a search deeper than `d`.
pub open spec fn depth_bounded(table: Map<u64, TranspositionTableEntry>, d: u32) -> bool {
    forall|h: u64| #[trigger] table.contains_key(h) ==> table[h].depth <= d
}

/// A search stores no entry deeper than itself: a table without an entry
/// deeper than `d` is still one after a search to a depth of at most `d`.
pub proof fn lemma_search_depths(
    env: Env,
    g: Grid,
    depth: u32,
    p: i32,
    alpha: i64,
    beta: i64,
    hash: u64,
    hint: Option<Move>,
    table: Map<u64, TranspositionTableEntry>,
    counts: Map<u64, u32>,
    d: u32,
)
    requires
        depth_bounded(table, d),
        depth <= d,
    ensures
        depth_bounded(
            search_outcome(env, g, depth, p, alpha, beta, hash, hint, table, counts).table,
            d,
        ),
    decreases depth, 1int, 0int,
{
    let found = probe_spec(table, hash, depth, alpha, beta);
    let (a, b) = window(found, alpha, beta);
    if visits(counts, hash) < 2 && !cuts_off(found) && depth > 0 && winner(g) is None
        && legal_moves(g, p).len() > 0 {
        let ordered = order_moves(legal_moves(g, p), hint, hint_of(table, hash));
        let start = Frontier {
            alpha: a,
            max_eval: LOSE_SCORE,
            best_move: None,
            pv: Seq::empty(),
            table,
        };
        lemma_expand_depths(env, g, depth, p, b, hash, ordered, 0, start, entered(counts, hash), d);
    }
}

/// The loop of a node stores no entry deeper than the node.
pub proof fn lemma_expand_depths(
    env: Env,
    g: Grid,
    depth: u32,
    p: i32,
    beta: i64,
    hash: u64,
    moves: Seq<Move>,
    i: int,
    st: Frontier,
    counts: Map<u64, u32>,
    d: u32,
)
    requires
        depth_bounded(st.table, d),
        depth <= d,
    ensures
        depth_bounded(expand(env, g, depth, p, beta, hash, moves, i, st, counts).table, d),
    decreases depth, 0int, moves.len() - i,
{
    if 0 <= i < moves.len() && depth > 0 {
        let m = moves[i];
        lemma_search_depths(
            env,
            apply_move(g, m),
            (depth - 1) as u32,
            (-p) as i32,
            negate(beta),
            negate(st.alpha),
            hash_after(env.keys, g, m, hash),
            None,
            st.table,
            counts,
            d,
        );
        let child = search_outcome(
            env,
            apply_move(g, m),
            (depth - 1) as u32,
            (-p) as i32,
            negate(beta),
            negate(st.alpha),
            hash_after(env.keys, g, m, hash),
            None,
            st.table,
            counts,
        );
        let next = advance(st, m, child);
        if next.alpha < beta {
            lemma_expand_depths(env, g, depth, p, beta, hash, moves, i + 1, next, counts, d);
        }
    }
}

/// A node that leaves its loop with a move leaves it with a line.
pub proof fn lemma_expand_move_has_line(
    env: Env,
    g: Grid,
    depth: u32,
    p: i32,
    beta: i64,
    hash: u64,
    moves: Seq<Move>,
    i: int,
    st: Frontier,
    counts: Map<u64, u32>,
)
    requires
        st.best_move is Some ==> st.pv.len() > 0,
    ensures
        expand(env, g, depth, p, beta, hash, moves, i, st, counts).best_move is Some ==> expand(
            env,
            g,
            depth,
            p,
            beta,
            hash,
            moves,
            i,
            st,
            counts,
        ).pv.len() > 0,
    decreases moves.len() - i,
{
    if 0 <= i < moves.len() && depth > 0 {
        let m = moves[i];
        let child = search_outcome(
            env,
            apply_move(g, m),
            (depth - 1) as u32,
            (-p) as i32,
            negate(beta),
            negate(st.alpha),
            hash_after(env.keys, g, m, hash),
            None,
            st.table,
            counts,
        );
        let next = advance(st, m, child);
        if next.alpha < beta {
            lemma_expand_move_has_line(env, g, depth, p, beta, hash, moves, i + 1, next, counts);
        }
    }
}

/// A search that the table does not cut off returns a move only at the
/// head of a line: the move is legal and first on the line returned.
pub proof fn lemma_search_move_heads_line(
    env: Env,
    g: Grid,
    depth: u32,
    p: i32,
    alpha: i64,
    beta: i64,
    hash: u64,
    hint: Option<Move>,
    table: Map<u64, TranspositionTableEntry>,
    counts: Map<u64, u32>,
)
    requires
        well_formed(g),
        is_side(p),
        !cuts_off(probe_spec(table, hash, depth, alpha, beta)),
    ensures
        search_outcome(env, g, depth, p, alpha, beta, hash, hint, table, counts).best_move matches Some(
            m,
        ) ==> legal(g, p, m) && search_outcome(
            env,
            g,
            depth,
            p,
            alpha,
            beta,
            hash,
            hint,
            table,
            counts,
        ).pv.len() > 0 && search_outcome(
            env,
            g,
            depth,
            p,
            alpha,
            beta,
            hash,
            hint,
            table,
            counts,
        ).pv[0] == m,
{
    let found = probe_spec(table, hash, depth, alpha, beta);
    let (a, b) = window(found, alpha, beta);
    lemma_search_line(env, g, depth, p, alpha, beta, hash, hint, table, counts);
    if visits(counts, hash) < 2 && depth > 0 && winner(g) is None && legal_moves(g, p).len() > 0 {
        let ordered = order_moves(legal_moves(g, p), hint, hint_of(table, hash));
        let start = Frontier {
            alpha: a,
            max_eval: LOSE_SCORE,
            best_move: None,
            pv: Seq::empty(),
            table,
        };
        lemma_expand_move_has_line(
            env,
            g,
            depth,
            p,
            b,
            hash,
            ordered,
            0,
            start,
            entered(counts, hash),
        );
    }
}

/// A node that has a move left to search, or has found one, leaves its
/// loop with a move.
pub proof fn lemma_expand_returns_move(
    env: Env,
    g: Grid,
    depth: u32,
    p: i32,
    beta: i64,
    hash: u64,
    moves: Seq<Move>,
    i: int,
    st: Frontier,
    counts: Map<u64, u32>,
)
    requires
        depth > 0,
        0 <= i < moves.len() || st.best_move is Some,
    ensures
        expand(env, g, depth, p, beta, hash, moves, i, st, counts).best_move is Some,
    decreases moves.len() - i,
{
    if 0 <= i < moves.len() {
        let m = moves[i];
        let child = search_outcome(
            env,
            apply_move(g, m),
            (depth - 1) as u32,
            (-p) as i32,
            negate(beta),
            negate(st.alpha),
            hash_after(env.keys, g, m, hash),
            None,
            st.table,
            counts,
        );
        let next = advance(st, m, child);
        if next.alpha < beta {
            lemma_expand_returns_move(env, g, depth, p, beta, hash, moves, i + 1, next, counts);
        }
    }
}

/// A node that tries its moves returns one of them: a legal move, first
/// on the line returned.
pub proof fn lemma_search_returns_move(
    env: Env,
    g: Grid,
    depth: u32,
    p: i32,
    alpha: i64,
    beta: i64,
    hash: u64,
    hint: Option<Move>,
    table: Map<u64, TranspositionTableEntry>,
    counts: Map<u64, u32>,
)
    requires
        tries_moves(g, depth, p, alpha, beta, hash, table, counts),
    ensures
        search_outcome(env, g, depth, p, alpha, beta, hash, hint, table, counts).best_move matches Some(
            m,
        ) && legal(g, p, m) && search_outcome(
            env,
            g,
            depth,
            p,
            alpha,
            beta,
            hash,
            hint,
            table,
            counts,
        ).pv.len() >= 1 && search_outcome(
            env,
            g,
            depth,
            p,
            alpha,
            beta,
            hash,
            hint,
            table,
            counts,
        ).pv[0] == m,
{
    let found = probe_spec(table, hash, depth, alpha, beta);
    let (a, b) = window(found, alpha, beta);
    let moves = legal_moves(g, p);
    let ordered = order_moves(moves, hint, hint_of(table, hash));
    let start = Frontier { alpha: a, max_eval: LOSE_SCORE, best_move: None, pv: Seq::empty(), table };
    lemma_order_moves(moves, hint, hint_of(table, hash), moves[0]);
    assert(moves.contains(moves[0]));
    assert(ordered.len() > 0);
    lemma_expand_returns_move(env, g, depth, p, b, hash, ordered, 0, start, entered(counts, hash));
    lemma_search_move_heads_line(env, g, depth, p, alpha, beta, hash, hint, table, counts);
}

/// The line that a search returns is no longer than the search is deep.
pub proof fn lemma_search_line_length(
    env: Env,
    g: Grid,
    depth: u32,
    p: i32,
    alpha: i64,
    beta: i64,
    hash: u64,
    hint: Option<Move>,
    table: Map<u64, TranspositionTableEntry>,
    counts: Map<u64, u32>,
)
    ensures
        search_outcome(env, g, depth, p, alpha, beta, hash, hint, table, counts).pv.len() <= depth,
    decreases depth, 1int, 0int,
{
    let found = probe_spec(table, hash, depth, alpha, beta);
    let (a, b) = window(found, alpha, beta);
    if visits(counts, hash) < 2 && !cuts_off(found) && depth > 0 && winner(g) is None
        && legal_moves(g, p).len() > 0 {
        let ordered = order_moves(legal_moves(g, p), hint, hint_of(table, hash));
        let start = Frontier {
            alpha: a,
            max_eval: LOSE_SCORE,
            best_move: None,
            pv: Seq::empty(),
            table,
        };
        lemma_expand_line_length(env, g, depth, p, b, hash, ordered, 0, start, entered(counts, hash));
    }
}

/// The line of a node in its loop is no longer than the node is deep.
pub proof fn lemma_expand_line_length(
    env: Env,
    g: Grid,
    depth: u32,
    p: i32,
    beta: i64,
    hash: u64,
    moves: Seq<Move>,
    i: int,
    st: Frontier,
    counts: Map<u64, u32>,
)
    requires
        st.pv.len() <= depth,
    ensures
        expand(env, g, depth, p, beta, hash, moves, i, st, counts).pv.len() <= depth,
    decreases depth, 0int, moves.len() - i,
{
    if 0 <= i < moves.len() && depth > 0 {
        let m = moves[i];
        lemma_search_line_length(
            env,
            apply_move(g, m),
            (depth - 1) as u32,
            (-p) as i32,
            negate(beta),
            negate(st.alpha),
            hash_after(env.keys, g, m, hash),
            None,
            st.table,
            counts,
        );
        let child = search_outcome(
            env,
            apply_move(g, m),
            (depth - 1) as u32,
            (-p) as i32,
            negate(beta),
            negate(st.alpha),
            hash_after(env.keys, g, m, hash),
            None,
            st.table,
            counts,
        );
        let next = advance(st, m, child);
        if next.alpha < beta {
            lemma_expand_line_length(env, g, depth, p, beta, hash, moves, i + 1, next, counts);
        }
    }
}

/// Every entry of `after` was in `before`, unchanged, or was stored by a
/// search of a depth below `d`.
pub open spec fn kept_or_shallower(
    before: Map<u64, TranspositionTableEntry>,
    after: Map<u64, TranspositionTableEntry>,
    d: int,
) -> bool {
    forall|h: u64| #[trigger]
        after.contains_key(h) ==> (before.contains_key(h) && before[h] == after[h]) || after[h].depth
            < d
}

/// What was kept or is shallower in two steps was kept or is shallower.
pub proof fn lemma_kept_or_shallower_chain(
    first: Map<u64, TranspositionTableEntry>,
    second: Map<u64, TranspositionTableEntry>,
    third: Map<u64, TranspositionTableEntry>,
    d: int,
)
    requires
        kept_or_shallower(first, second, d),
        kept_or_shallower(second, third, d),
    ensures
        kept_or_shallower(first, third, d),
{
    assert forall|h: u64| #[trigger] third.contains_key(h) implies (first.contains_key(h)
        && first[h] == third[h]) || third[h].depth < d by {
        if third[h].depth >= d {
            assert(second.contains_key(h));
        }
    }
}

/// A score seen from the other side.
pub fn negated(v: i64) -> (n: i64)
    ensures
        n == negate(v),
{
    if v == i64::MIN {
        i64::MAX
    } else {
        -v
    }
}

/// How often `hash` occurs in `position_counts`.
pub fn visits_of(position_counts: &HashMap<u64, u32>, hash: u64) -> (seen: Option<u32>)
    ensures
        seen == (if position_counts@.contains_key(hash) {
            Some(position_counts@[hash])
        } else {
            None
        }),
{
    match position_counts.get(&hash) {
        Some(c) => Some(*c),
        None => None,
    }
}

/// Takes the position with `hash` off the line again: its count goes back
/// to `seen`, what it was before the node entered it.
fn leave(position_counts: &mut HashMap<u64, u32>, hash: u64, seen: Option<u32>, Ghost(before): Ghost<
    Map<u64, u32>,
>)
    requires
        seen == (if before.contains_key(hash) {
            Some(before[hash])
        } else {
            None
        }),
        visits(before, hash) < 2,
        old(position_counts)@ == entered(before, hash),
    ensures
        final(position_counts)@ == before,
{
    match seen {
        Some(c) => {
            position_counts.insert(hash, c);
        },
        None => {
            position_counts.remove(&hash);
        },
    }
    assert(position_counts@ =~= before);
}

/// Searches `board` to `depth` for `player` in the window (`alpha`,
/// `beta`). Returns the value, the best move and the line that follows it.
///
/// `zobrist_hash` stands for the position in the table and in
/// `position_counts`, which counts the positions on the line that led
/// here and is the same after the call as before. `first_move` is tried
/// first if it is legal.
///
/// Where the clock expires during the search, the call returns value 0
/// without a move and `clock.expired` is set, and the table holds what it
/// held before and what searches below this node stored: no entry of
/// this node's depth is new. Otherwise the result and the table are
/// those of `search_outcome`; a node that tries its moves then returns
/// one of them, even where every move loses. Either way every entry of
/// the table was there before the call or records a search that the
/// clock did not cut short, and the line returned can be played and is
/// no longer than `depth`.
pub fn negamax_search(
    board: &Board,
    depth: u32,
    player: i32,
    alpha: i64,
    beta: i64,
    weights: &Weights,
    zobrist_hash: u64,
    zobrist_table: &ZobristTable,
    transposition_table: &mut TranspositionTable,
    position_counts: &mut HashMap<u64, u32>,
    clock: &mut Clock,
    first_move: Option<Move>,
) -> (res: (i64, Option<Move>, Vec<Move>))
    requires
        board.wf(),
        is_side(player),
        weights.valid(),
        zobrist_table.wf(),
    ensures
        final(position_counts)@ == old(position_counts)@,
        final(transposition_table).capacity == old(transposition_table).capacity,
        old(clock).expired || old(clock).limit_nanos == 0 ==> final(clock).expired,
        old(clock).expired || old(clock).limit_nanos == 0 ==> final(transposition_table)@ == old(
            transposition_table,
        )@,
        final(clock).limit_nanos == old(clock).limit_nanos,
        final(clock).start == old(clock).start,
        final(clock).expired ==> res.0 == 0 && res.1 is None && res.2@ == Seq::<Move>::empty(),
        is_line_of(board@, player, res.1, res.2@),
        res.2@.len() <= depth,
        !final(clock).expired && tries_moves(
            board@,
            depth,
            player,
            alpha,
            beta,
            zobrist_hash,
            old(transposition_table)@,
            old(position_counts)@,
        ) ==> res.1 is Some && res.2@.len() >= 1,
        kept_or_shallower(old(transposition_table)@, final(transposition_table)@, depth + 1),
        final(clock).expired ==> kept_or_shallower(
            old(transposition_table)@,
            final(transposition_table)@,
            depth as int,
        ),
        kept_or_recorded(
            Env {
                weights: *weights,
                keys: zobrist_table@,
                capacity: old(transposition_table).capacity as nat,
            },
            old(transposition_table)@,
            final(transposition_table)@,
        ),
        !final(clock).expired ==> ({
            let out = search_outcome(
                Env {
                    weights: *weights,
                    keys: zobrist_table@,
                    capacity: old(transposition_table).capacity as nat,
                },
                board@,
                depth,
                player,
                alpha,
                beta,
                zobrist_hash,
                first_move,
                old(transposition_table)@,
                old(position_counts)@,
            );
            &&& res.0 == out.value
            &&& res.1 == out.best_move
            &&& res.2@ == out.pv
            &&& final(transposition_table)@ == out.table
        }),
    decreases depth,
{
    if clock.check() {
        return (0, None, Vec::new());
    }
    let ghost env = Env {
        weights: *weights,
        keys: zobrist_table@,
        capacity: transposition_table.capacity as nat,
    };
    let ghost g = board@;
    let ghost counts0 = position_counts@;
    let ghost table0 = transposition_table@;
    let ghost old_alpha = alpha;
    let ghost old_beta = beta;

    let seen = visits_of(position_counts, zobrist_hash);
    let count: u32 = match seen {
        Some(c) => c,
        None => 0,
    };
    if count >= 2 {
        return (DRAW_SCORE, None, Vec::new());
    }
    let found = transposition_table.probe(zobrist_hash, depth, alpha, beta);
    let (alpha_orig, beta) = match found {
        Probe::UseValue { value, best_move } => {
            return (value, best_move, Vec::new());
        },
        Probe::Tighten { alpha: a, beta: b, value, best_move } => {
            if a >= b {
                return (value, best_move, Vec::new());
            }
            (a, b)
        },
        Probe::Miss => (alpha, beta),
    };
    if depth == 0 || get_winner(board).is_some() {
        let evaluation = evaluate_board(board, player, weights);
        return (evaluation, None, Vec::new());
    }
    let moves = get_valid_moves(board, player);
    if moves.len() == 0 {
        return (LOSE_SCORE, None, Vec::new());
    }
    proof {
        lemma_legal_moves(board@, player);
        assert forall|j: int| 0 <= j < moves@.len() implies playable(#[trigger] moves@[j]) by {
            assert(moves@.contains(moves@[j]));
            lemma_legal_shape(board@, player, moves@[j]);
        }
    }
    let ordered = ordered_moves(&moves, first_move, transposition_table.hint(zobrist_hash));
    let opponent = opponent_of(player);
    position_counts.insert(zobrist_hash, count + 1);
    let ghost counts1 = entered(counts0, zobrist_hash);
    assert(position_counts@ == counts1);
    let ghost start = Frontier {
        alpha: alpha_orig,
        max_eval: LOSE_SCORE,
        best_move: None,
        pv: Seq::empty(),
        table: table0,
    };
    let ghost goal = expand(env, g, depth, player, beta, zobrist_hash, ordered@, 0, start, counts1);
    proof {
        lemma_legal_moves(g, player);
        assert forall|j: int| 0 <= j < ordered@.len() implies legal(
            g,
            player,
            #[trigger] ordered@[j],
        ) by {
            lemma_order_moves(moves@, first_move, hint_of(table0, zobrist_hash), ordered@[j]);
            assert(ordered@.contains(ordered@[j]));
        }
    }

    let mut alpha = alpha_orig;
    let mut max_eval = LOSE_SCORE;
    let mut best_move: Option<Move> = None;
    let mut pv_line: Vec<Move> = Vec::new();
    let mut cut = false;
    let mut i: usize = 0;
    while i < ordered.len() && !cut
        invariant
            i <= ordered.len(),
            depth > 0,
            board.wf(),
            g == board@,
            is_side(player),
            opponent == -player,
            weights.valid(),
            zobrist_table.wf(),
            env == (Env {
                weights: *weights,
                keys: zobrist_table@,
                capacity: transposition_table.capacity as nat,
            }),
            forall|j: int| 0 <= j < ordered@.len() ==> legal(g, player, #[trigger] ordered@[j]),
            position_counts@ == counts1,
            counts1 == entered(counts0, zobrist_hash),
            counts0 == old(position_counts)@,
            visits(counts0, zobrist_hash) < 2,
            seen == (if counts0.contains_key(zobrist_hash) {
                Some(counts0[zobrist_hash])
            } else {
                None
            }),
            transposition_table.capacity == old(transposition_table).capacity,
            !clock.expired,
            !old(clock).expired,
            old(clock).limit_nanos != 0,
            clock.limit_nanos == old(clock).limit_nanos,
            clock.start == old(clock).start,
            table0 == old(transposition_table)@,
            kept_or_recorded(env, table0, transposition_table@),
            kept_or_shallower(table0, transposition_table@, depth as int),
            goal == expand(env, g, depth, player, beta, zobrist_hash, ordered@, 0, start, counts1),
            ({
                let cur = Frontier {
                    alpha,
                    max_eval,
                    best_move,
                    pv: pv_line@,
                    table: transposition_table@,
                };
                if cut {
                    cur == goal
                } else {
                    expand(env, g, depth, player, beta, zobrist_hash, ordered@, i as int, cur, counts1)
                        == goal
                }
            }),
        decreases ordered.len() - i + (if cut { 0int } else { 1int }),
    {
        if clock.check() {
            leave(position_counts, zobrist_hash, seen, Ghost(counts0));
            return (0, None, Vec::new());
        }
        let mv = ordered[i];
        let ghost cur = Frontier {
            alpha,
            max_eval,
            best_move,
            pv: pv_line@,
            table: transposition_table@,
        };
        proof {
            lemma_legal_shape(g, player, mv);
            lemma_legal_move_effect(g, player, mv);
        }
        let mut new_board = board.copy();
        let mut new_hash = zobrist_hash;
        let _captured_piece = make_move(&mut new_board, &mv, player, &mut new_hash, zobrist_table);

        let (eval, _, mut child_pv) = negamax_search(
            &new_board,
            depth - 1,
            opponent,
            negated(beta),
            negated(alpha),
            weights,
            new_hash,
            zobrist_table,
            transposition_table,
            position_counts,
            clock,
            None,
        );
        proof {
            lemma_kept_or_recorded_chain(env, table0, cur.table, transposition_table@);
            lemma_kept_or_shallower_chain(table0, cur.table, transposition_table@, depth as int);
        }
        if clock.expired {
            leave(position_counts, zobrist_hash, seen, Ghost(counts0));
            return (0, None, Vec::new());
        }
        let ghost child = search_outcome(
            env,
            apply_move(g, mv),
            (depth - 1) as u32,
            (-player) as i32,
            negate(beta),
            negate(cur.alpha),
            hash_after(env.keys, g, mv, zobrist_hash),
            None,
            cur.table,
            counts1,
        );
        let eval = negated(eval);
        if best_move.is_none() || eval > max_eval {
            max_eval = eval;
            best_move = Some(mv);
            pv_line = Vec::new();
            pv_line.push(mv);
            pv_line.append(&mut child_pv);
        }
        if eval > alpha {
            alpha = eval;
        }
        proof {
            let next = Frontier {
                alpha,
                max_eval,
                best_move,
                pv: pv_line@,
                table: transposition_table@,
            };
            assert(next.pv =~= advance(cur, mv, child).pv);
            assert(next == advance(cur, mv, child));
        }
        if alpha >= beta {
            cut = true;
        }
        i += 1;
    }
    let ghost before_store = transposition_table@;
    transposition_table.store(zobrist_hash, depth, max_eval, alpha_orig, beta, best_move);
    leave(position_counts, zobrist_hash, seen, Ghost(counts0));
    proof {
        let entry = node_entry(
            env,
            g,
            depth,
            player,
            old_alpha,
            old_beta,
            zobrist_hash,
            first_move,
            table0,
            counts0,
        );
        assert(tries_moves(g, depth, player, old_alpha, old_beta, zobrist_hash, table0, counts0));
        assert(entry == entry_for(depth, max_eval, alpha_orig, beta, best_move));
        assert(recorded(env, zobrist_hash, entry));
        assert(kept_or_recorded(env, before_store, transposition_table@));
        lemma_kept_or_recorded_chain(env, table0, before_store, transposition_table@);
        assert(kept_or_shallower(before_store, transposition_table@, depth + 1));
        lemma_kept_or_shallower_chain(table0, before_store, transposition_table@, depth + 1);
        lemma_search_returns_move(
            env,
            g,
            depth,
            player,
            old_alpha,
            old_beta,
            zobrist_hash,
            first_move,
            table0,
            counts0,
        );
        lemma_search_line_length(
            env,
            g,
            depth,
            player,
            old_alpha,
            old_beta,
            zobrist_hash,
            first_move,
            table0,
            counts0,
        );
        lemma_search_line(
            env,
            g,
            depth,
            player,
            old_alpha,
            old_beta,
            zobrist_hash,
            first_move,
            table0,
            counts0,
        );
    }
    (max_eval, best_move, pv_line)
}

} // verus!
