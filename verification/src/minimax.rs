//! The value that the search approximates, and what the search returns
//! when it runs without a transposition table.

use crate::board::{is_side, well_formed, Grid, Move};
use crate::eval::{evaluation, lemma_evaluation_bound, Weights, LOSE_SCORE, SCORE_LIMIT};
use crate::moves::{legal, legal_moves, lemma_legal_moves};
use crate::ordering::{lemma_order_moves, order_moves};
use crate::play::{apply_move, hash_after, lemma_legal_move_effect};
use crate::search::{
    advance, entered, expand, negate, search_outcome, tries_moves, visits, Env, Frontier,
    DRAW_SCORE, INFINITY,
    NEG_INFINITY,
};
use crate::table::TranspositionTableEntry;
use crate::winner::winner;
use vstd::prelude::*;

verus! {

/// `v` is no larger in magnitude than an evaluation can be.
pub open spec fn in_range(v: i64) -> bool {
    -SCORE_LIMIT <= v <= SCORE_LIMIT
}

/// The table that holds nothing.
pub open spec fn no_table() -> Map<u64, TranspositionTableEntry> {
    Map::<u64, TranspositionTableEntry>::empty()
}

/// The negamax value of `g` for side `p` at `depth`, on a line with the
/// visits `counts`: 0 for a position seen twice before, the evaluation of
/// a finished game or at depth 0, `LOSE_SCORE` for a side without a move,
/// else the best of the values of its moves.
pub open spec fn negamax_value(
    w: Weights,
    keys: Seq<u64>,
    g: Grid,
    depth: u32,
    p: i32,
    hash: u64,
    counts: Map<u64, u32>,
) -> i64
    decreases depth, 1int, 0int,
{
    if visits(counts, hash) >= 2 {
        DRAW_SCORE
    } else if depth == 0 || winner(g) is Some {
        evaluation(g, p, w) as i64
    } else if legal_moves(g, p).len() == 0 {
        LOSE_SCORE
    } else {
        best_reply(
            w,
            keys,
            g,
            depth,
            p,
            hash,
            legal_moves(g, p),
            legal_moves(g, p).len() as int,
            entered(counts, hash),
        )
    }
}

/// The value of move `m` for the side that makes it: the negated value of
/// the position that it leads to, one ply less deep, for the other side.
pub open spec fn reply_value(
    w: Weights,
    keys: Seq<u64>,
    g: Grid,
    depth: u32,
    p: i32,
    hash: u64,
    m: Move,
    counts: Map<u64, u32>,
) -> i64
    decreases depth, 0int, 0int,
{
    if depth == 0 {
        LOSE_SCORE
    } else {
        negate(
            negamax_value(
                w,
                keys,
                apply_move(g, m),
                (depth - 1) as u32,
                (-p) as i32,
                hash_after(keys, g, m, hash),
                counts,
            ),
        )
    }
}

/// The largest of the values of the first `k` moves; `LOSE_SCORE` where
/// there is none.
pub open spec fn best_reply(
    w: Weights,
    keys: Seq<u64>,
    g: Grid,
    depth: u32,
    p: i32,
    hash: u64,
    moves: Seq<Move>,
    k: int,
    counts: Map<u64, u32>,
) -> i64
    decreases depth, 0int, k + 1,
{
    if k <= 0 || depth == 0 {
        LOSE_SCORE
    } else {
        let v = reply_value(w, keys, g, depth, p, hash, moves[k - 1], counts);
        if k == 1 {
            v
        } else {
            let rest = best_reply(w, keys, g, depth, p, hash, moves, k - 1, counts);
            if v > rest {
                v
            } else {
                rest
            }
        }
    }
}

/// The best reply is at least the value of each move counted, and it is
/// the value of one of them.
pub proof fn lemma_best_reply(
    w: Weights,
    keys: Seq<u64>,
    g: Grid,
    depth: u32,
    p: i32,
    hash: u64,
    moves: Seq<Move>,
    k: int,
    counts: Map<u64, u32>,
)
    requires
        0 <= k <= moves.len(),
        depth > 0,
    ensures
        forall|j: int|
            0 <= j < k ==> reply_value(w, keys, g, depth, p, hash, #[trigger] moves[j], counts)
                <= best_reply(w, keys, g, depth, p, hash, moves, k, counts),
        k > 0 ==> exists|j: int|
            0 <= j < k && best_reply(w, keys, g, depth, p, hash, moves, k, counts) == reply_value(
                w,
                keys,
                g,
                depth,
                p,
                hash,
                #[trigger] moves[j],
                counts,
            ),
    decreases k,
{
    if k == 1 {
        assert(best_reply(w, keys, g, depth, p, hash, moves, k, counts) == reply_value(
            w,
            keys,
            g,
            depth,
            p,
            hash,
            moves[0],
            counts,
        ));
    } else if k > 1 {
        lemma_best_reply(w, keys, g, depth, p, hash, moves, k - 1, counts);
        let rest = best_reply(w, keys, g, depth, p, hash, moves, k - 1, counts);
        let cur = best_reply(w, keys, g, depth, p, hash, moves, k, counts);
        let v = reply_value(w, keys, g, depth, p, hash, moves[k - 1], counts);
        if v > rest {
            assert(cur == reply_value(w, keys, g, depth, p, hash, moves[k - 1], counts));
        } else {
            let j = choose|j: int|
                0 <= j < k - 1 && rest == reply_value(
                    w,
                    keys,
                    g,
                    depth,
                    p,
                    hash,
                    #[trigger] moves[j],
                    counts,
                );
            assert(cur == reply_value(w, keys, g, depth, p, hash, moves[j], counts));
        }
    }
}

/// The best reply does not depend on the order of the moves, nor on how
/// often one occurs: two lists that hold the same moves have the same
/// best reply.
pub proof fn lemma_best_reply_same_moves(
    w: Weights,
    keys: Seq<u64>,
    g: Grid,
    depth: u32,
    p: i32,
    hash: u64,
    first: Seq<Move>,
    second: Seq<Move>,
    counts: Map<u64, u32>,
)
    requires
        depth > 0,
        forall|m: Move| first.contains(m) <==> second.contains(m),
    ensures
        best_reply(w, keys, g, depth, p, hash, first, first.len() as int, counts) == best_reply(
            w,
            keys,
            g,
            depth,
            p,
            hash,
            second,
            second.len() as int,
            counts,
        ),
{
    let a = best_reply(w, keys, g, depth, p, hash, first, first.len() as int, counts);
    let b = best_reply(w, keys, g, depth, p, hash, second, second.len() as int, counts);
    lemma_best_reply(w, keys, g, depth, p, hash, first, first.len() as int, counts);
    lemma_best_reply(w, keys, g, depth, p, hash, second, second.len() as int, counts);
    if first.len() > 0 {
        let j = choose|j: int|
            0 <= j < first.len() && a == reply_value(
                w,
                keys,
                g,
                depth,
                p,
                hash,
                #[trigger] first[j],
                counts,
            );
        assert(first.contains(first[j]));
        let i = choose|i: int| 0 <= i < second.len() && second[i] == first[j];
        assert(reply_value(w, keys, g, depth, p, hash, second[i], counts) <= b);
    }
    if second.len() > 0 {
        let j = choose|j: int|
            0 <= j < second.len() && b == reply_value(
                w,
                keys,
                g,
                depth,
                p,
                hash,
                #[trigger] second[j],
                counts,
            );
        assert(second.contains(second[j]));
        let i = choose|i: int| 0 <= i < first.len() && first[i] == second[j];
        assert(reply_value(w, keys, g, depth, p, hash, first[i], counts) <= a);
    }
}

/// The negamax value is no larger in magnitude than an evaluation can be.
pub proof fn lemma_value_in_range(
    w: Weights,
    keys: Seq<u64>,
    g: Grid,
    depth: u32,
    p: i32,
    hash: u64,
    counts: Map<u64, u32>,
)
    requires
        w.valid(),
    ensures
        in_range(negamax_value(w, keys, g, depth, p, hash, counts)),
    decreases depth, 1int, 0int,
{
    lemma_evaluation_bound(g, p, w);
    if visits(counts, hash) < 2 && depth > 0 && winner(g) is None && legal_moves(g, p).len() > 0 {
        lemma_best_reply_in_range(
            w,
            keys,
            g,
            depth,
            p,
            hash,
            legal_moves(g, p),
            legal_moves(g, p).len() as int,
            entered(counts, hash),
        );
    }
}

/// The best reply is no larger in magnitude than an evaluation can be.
pub proof fn lemma_best_reply_in_range(
    w: Weights,
    keys: Seq<u64>,
    g: Grid,
    depth: u32,
    p: i32,
    hash: u64,
    moves: Seq<Move>,
    k: int,
    counts: Map<u64, u32>,
)
    requires
        w.valid(),
        0 <= k <= moves.len(),
    ensures
        in_range(best_reply(w, keys, g, depth, p, hash, moves, k, counts)),
        forall|j: int|
            0 <= j < moves.len() ==> in_range(
                reply_value(w, keys, g, depth, p, hash, #[trigger] moves[j], counts),
            ),
    decreases depth, 0int, k + 1,
{
    if depth > 0 {
        assert forall|j: int| 0 <= j < moves.len() implies in_range(
            reply_value(w, keys, g, depth, p, hash, #[trigger] moves[j], counts),
        ) by {
            lemma_value_in_range(
                w,
                keys,
                apply_move(g, moves[j]),
                (depth - 1) as u32,
                (-p) as i32,
                hash_after(keys, g, moves[j], hash),
                counts,
            );
        }
        if k > 0 {
            lemma_best_reply_in_range(w, keys, g, depth, p, hash, moves, k - 1, counts);
        }
    }
}

/// Counting more moves, once one is counted, never lowers the best reply.
pub proof fn lemma_best_reply_grows(
    w: Weights,
    keys: Seq<u64>,
    g: Grid,
    depth: u32,
    p: i32,
    hash: u64,
    moves: Seq<Move>,
    k: int,
    n: int,
    counts: Map<u64, u32>,
)
    requires
        1 <= k <= n,
        depth > 0,
    ensures
        best_reply(w, keys, g, depth, p, hash, moves, k, counts) <= best_reply(
            w,
            keys,
            g,
            depth,
            p,
            hash,
            moves,
            n,
            counts,
        ),
    decreases n - k,
{
    if k < n {
        lemma_best_reply_grows(w, keys, g, depth, p, hash, moves, k + 1, n, counts);
    }
}

/// The larger of two scores.
pub open spec fn larger(a: i64, b: i64) -> i64 {
    if a > b {
        a
    } else {
        b
    }
}

/// What a node knows between two moves, when it searches from an empty
/// table in the window (`a0`, `beta`) and stands before move `i`. Before
/// the first move it has no move and its window is as it was. After it,
/// its best value is an upper bound of the best reply so far, and equals
/// it once it exceeds `a0`; its best move has that value whenever the
/// value lies inside the window.
pub open spec fn on_track(
    env: Env,
    g: Grid,
    depth: u32,
    p: i32,
    a0: i64,
    beta: i64,
    hash: u64,
    moves: Seq<Move>,
    i: int,
    st: Frontier,
    counts: Map<u64, u32>,
) -> bool {
    let so_far = best_reply(env.weights, env.keys, g, depth, p, hash, moves, i, counts);
    &&& st.table == no_table()
    &&& a0 <= st.alpha
    &&& in_range(st.max_eval)
    &&& st.best_move is Some <==> i > 0
    &&& st.best_move is None ==> st.alpha == a0
    &&& st.best_move is Some ==> st.alpha <= larger(a0, st.max_eval)
    &&& st.best_move is Some ==> so_far <= st.max_eval
    &&& st.best_move is Some && st.max_eval > a0 ==> so_far >= st.max_eval
    &&& st.best_move matches Some(m) ==> moves.contains(m) && (a0 < st.max_eval < beta
        ==> st.max_eval == reply_value(env.weights, env.keys, g, depth, p, hash, m, counts))
}

/// What a node has found when it leaves its loop: a move, and a value that bounds
/// the best reply from above if it did not exceed `a0`, from below if it
/// reached `beta`, and that is the best reply if it lies in between; and
/// a best move that has that value whenever the value lies inside the
/// window.
pub open spec fn settled(
    env: Env,
    g: Grid,
    depth: u32,
    p: i32,
    a0: i64,
    beta: i64,
    hash: u64,
    moves: Seq<Move>,
    end: Frontier,
    counts: Map<u64, u32>,
) -> bool {
    let best = best_reply(
        env.weights,
        env.keys,
        g,
        depth,
        p,
        hash,
        moves,
        moves.len() as int,
        counts,
    );
    &&& end.table == no_table()
    &&& in_range(end.max_eval)
    &&& end.best_move is Some
    &&& end.max_eval <= a0 ==> best <= end.max_eval
    &&& end.max_eval >= beta ==> best >= end.max_eval
    &&& a0 < end.max_eval < beta ==> best == end.max_eval
    &&& end.best_move matches Some(m) ==> moves.contains(m) && (a0 < end.max_eval < beta
        ==> end.max_eval == reply_value(env.weights, env.keys, g, depth, p, hash, m, counts))
}

/// What a search returns that starts from an empty table and either
/// stores nothing or is at most one ply deep: a value that bounds the negamax
/// value from above if it did not exceed `alpha`, from below if it reached
/// `beta`, and that is the negamax value if it lies in between; and a
/// best move that is legal and has that value whenever the value lies
/// inside the window.
pub open spec fn sound(
    env: Env,
    g: Grid,
    depth: u32,
    p: i32,
    alpha: i64,
    beta: i64,
    hash: u64,
    hint: Option<Move>,
    counts: Map<u64, u32>,
) -> bool {
    let out = search_outcome(env, g, depth, p, alpha, beta, hash, hint, no_table(), counts);
    let v = negamax_value(env.weights, env.keys, g, depth, p, hash, counts);
    &&& env.capacity == 0 || depth == 0 ==> out.table == no_table()
    &&& in_range(out.value)
    &&& out.best_move is Some <==> tries_moves(
        g,
        depth,
        p,
        alpha,
        beta,
        hash,
        no_table(),
        counts,
    )
    &&& out.value <= alpha ==> v <= out.value
    &&& out.value >= beta ==> v >= out.value
    &&& alpha < out.value < beta ==> v == out.value
    &&& out.best_move matches Some(m) ==> depth > 0 && legal_moves(g, p).contains(m) && (alpha
        < out.value < beta ==> out.value == reply_value(
        env.weights,
        env.keys,
        g,
        depth,
        p,
        hash,
        m,
        entered(counts, hash),
    ))
}

/// Alpha-beta pruning is sound: a search that starts from an empty table,
/// in a window that is not empty, returns what `sound` says, provided
/// that the table stores nothing or the search is at most one ply deep.
pub proof fn lemma_search_sound(
    env: Env,
    g: Grid,
    depth: u32,
    p: i32,
    alpha: i64,
    beta: i64,
    hash: u64,
    hint: Option<Move>,
    counts: Map<u64, u32>,
)
    requires
        env.capacity == 0 || depth <= 1,
        env.weights.valid(),
        well_formed(g),
        is_side(p),
        i64::MIN < alpha < beta,
    ensures
        sound(env, g, depth, p, alpha, beta, hash, hint, counts),
    decreases depth, 1int, 0int,
{
    let w = env.weights;
    let keys = env.keys;
    lemma_evaluation_bound(g, p, w);
    assert(!no_table().contains_key(hash));
    if visits(counts, hash) < 2 && depth > 0 && winner(g) is None && legal_moves(g, p).len() > 0 {
        let moves = legal_moves(g, p);
        let ordered = order_moves(moves, hint, None);
        let inside = entered(counts, hash);
        let start = Frontier {
            alpha,
            max_eval: LOSE_SCORE,
            best_move: None,
            pv: Seq::empty(),
            table: no_table(),
        };
        lemma_legal_moves(g, p);
        assert forall|m: Move| ordered.contains(m) <==> moves.contains(m) by {
            lemma_order_moves(moves, hint, None, m);
        }
        assert forall|j: int| 0 <= j < ordered.len() implies legal(g, p, #[trigger] ordered[j]) by {
            assert(ordered.contains(ordered[j]));
        }
        lemma_expand_sound(env, g, depth, p, alpha, beta, hash, ordered, 0, start, inside);
        lemma_best_reply_same_moves(w, keys, g, depth, p, hash, ordered, moves, inside);
        let end = expand(env, g, depth, p, beta, hash, ordered, 0, start, inside);
        assert(settled(env, g, depth, p, alpha, beta, hash, ordered, end, inside));
    }
}

/// The loop of a node keeps `on_track` and ends `settled`.
pub proof fn lemma_expand_sound(
    env: Env,
    g: Grid,
    depth: u32,
    p: i32,
    a0: i64,
    beta: i64,
    hash: u64,
    moves: Seq<Move>,
    i: int,
    st: Frontier,
    counts: Map<u64, u32>,
)
    requires
        env.capacity == 0 || depth <= 1,
        env.weights.valid(),
        well_formed(g),
        is_side(p),
        depth > 0,
        forall|j: int| 0 <= j < moves.len() ==> legal(g, p, #[trigger] moves[j]),
        0 <= i <= moves.len(),
        moves.len() > 0,
        i64::MIN < a0,
        st.alpha < beta,
        on_track(env, g, depth, p, a0, beta, hash, moves, i, st, counts),
    ensures
        settled(
            env,
            g,
            depth,
            p,
            a0,
            beta,
            hash,
            moves,
            expand(env, g, depth, p, beta, hash, moves, i, st, counts),
            counts,
        ),
    decreases depth, 0int, moves.len() - i,
{
    let w = env.weights;
    let keys = env.keys;
    if i < moves.len() {
        let m = moves[i];
        assert(moves.contains(m));
        lemma_legal_move_effect(g, p, m);
        let cg = apply_move(g, m);
        let cd = (depth - 1) as u32;
        let cp = (-p) as i32;
        let ch = hash_after(keys, g, m, hash);
        let ca = negate(beta);
        let cb = negate(st.alpha);
        lemma_search_sound(env, cg, cd, cp, ca, cb, ch, None, counts);
        lemma_value_in_range(w, keys, cg, cd, cp, ch, counts);
        let child = search_outcome(env, cg, cd, cp, ca, cb, ch, None, no_table(), counts);
        let truth = negamax_value(w, keys, cg, cd, cp, ch, counts);
        let e = negate(child.value);
        let n = reply_value(w, keys, g, depth, p, hash, m, counts);
        assert(n == negate(truth));
        assert(e >= beta ==> n >= e);
        assert(e <= st.alpha ==> n <= e);
        assert(st.alpha < e < beta ==> n == e);
        let next = advance(st, m, child);
        let so_far = best_reply(w, keys, g, depth, p, hash, moves, i, counts);
        let then = best_reply(w, keys, g, depth, p, hash, moves, i + 1, counts);
        assert(then == (if i == 0 {
            n
        } else {
            larger(so_far, n)
        }));
        if next.alpha >= beta {
            lemma_best_reply_grows(w, keys, g, depth, p, hash, moves, i + 1, moves.len() as int, counts);
            assert(then >= next.max_eval);
        } else {
            assert(on_track(env, g, depth, p, a0, beta, hash, moves, i + 1, next, counts));
            lemma_expand_sound(env, g, depth, p, a0, beta, hash, moves, i + 1, next, counts);
        }
    }
}

/// The negamax identity: a search to depth `depth` of at least 1 with
/// the full window, from an empty table that stores nothing, returns,
/// with its best move, the negated value that a search of the same kind
/// returns for the other side, one ply less deep, on the position after
/// that move, on the line through the root. At depth 1 the same holds
/// whatever the capacity of the table.
pub proof fn lemma_negamax_identity(
    env: Env,
    g: Grid,
    depth: u32,
    p: i32,
    hash: u64,
    hint: Option<Move>,
    counts: Map<u64, u32>,
)
    requires
        env.capacity == 0 || depth == 1,
        env.weights.valid(),
        well_formed(g),
        is_side(p),
        depth >= 1,
    ensures
        search_outcome(
            env,
            g,
            depth,
            p,
            NEG_INFINITY,
            INFINITY,
            hash,
            hint,
            no_table(),
            counts,
        ).best_move matches Some(m) ==> legal(g, p, m) && search_outcome(
            env,
            g,
            depth,
            p,
            NEG_INFINITY,
            INFINITY,
            hash,
            hint,
            no_table(),
            counts,
        ).value == negate(
            search_outcome(
                env,
                apply_move(g, m),
                (depth - 1) as u32,
                (-p) as i32,
                NEG_INFINITY,
                INFINITY,
                hash_after(env.keys, g, m, hash),
                None,
                no_table(),
                entered(counts, hash),
            ).value,
        ),
{
    lemma_search_sound(env, g, depth, p, NEG_INFINITY, INFINITY, hash, hint, counts);
    lemma_legal_moves(g, p);
    let root = search_outcome(
        env,
        g,
        depth,
        p,
        NEG_INFINITY,
        INFINITY,
        hash,
        hint,
        no_table(),
        counts,
    );
    if let Some(m) = root.best_move {
        lemma_legal_move_effect(g, p, m);
        lemma_search_sound(
            env,
            apply_move(g, m),
            (depth - 1) as u32,
            (-p) as i32,
            NEG_INFINITY,
            INFINITY,
            hash_after(env.keys, g, m, hash),
            None,
            entered(counts, hash),
        );
    }
}

/// What a full-window search returns: the negamax value of the position,
/// and a move exactly when the node tries its moves.
pub proof fn lemma_move_is_returned(
    env: Env,
    g: Grid,
    depth: u32,
    p: i32,
    hash: u64,
    hint: Option<Move>,
    counts: Map<u64, u32>,
)
    requires
        env.capacity == 0 || depth <= 1,
        env.weights.valid(),
        well_formed(g),
        is_side(p),
    ensures
        search_outcome(
            env,
            g,
            depth,
            p,
            NEG_INFINITY,
            INFINITY,
            hash,
            hint,
            no_table(),
            counts,
        ).value == negamax_value(env.weights, env.keys, g, depth, p, hash, counts),
        search_outcome(
            env,
            g,
            depth,
            p,
            NEG_INFINITY,
            INFINITY,
            hash,
            hint,
            no_table(),
            counts,
        ).best_move is Some <==> tries_moves(
            g,
            depth,
            p,
            NEG_INFINITY,
            INFINITY,
            hash,
            no_table(),
            counts,
        ),
{
    lemma_search_sound(env, g, depth, p, NEG_INFINITY, INFINITY, hash, hint, counts);
}

/// At depth 1 a move is worth the negated evaluation of the position
/// that it leads to, unless that position was seen twice before.
pub proof fn lemma_reply_at_depth_one(
    w: Weights,
    keys: Seq<u64>,
    g: Grid,
    p: i32,
    hash: u64,
    m: Move,
    counts: Map<u64, u32>,
)
    requires
        visits(counts, hash_after(keys, g, m, hash)) < 2,
    ensures
        reply_value(w, keys, g, 1, p, hash, m, counts) == negate(
            evaluation(apply_move(g, m), (-p) as i32, w) as i64,
        ),
{
}

} // verus!
