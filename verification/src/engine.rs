//! The query: iterative deepening under a time budget.

use crate::board::{is_side, Board, Grid, Move};
use crate::clock::Clock;
use crate::eval::{evaluate_board, evaluation, Weights, LOSE_SCORE};
use crate::moves::{get_all_valid_moves, legal, legal_moves, lemma_legal_moves};
use crate::play::{apply_move, legal_line};
use crate::search::{
    depth_bounded, is_line_of, lemma_search_depths, lemma_search_move_heads_line,
    lemma_search_returns_move, negamax_search,
    search_outcome, Env, Outcome, INFINITY, NEG_INFINITY,
};
use crate::table::{TranspositionTable, TranspositionTableEntry};
use crate::winner::winner;
use crate::zobrist::{compute_zobrist_hash, initialize_zobrist_table, zobrist_hash, ZobristTable};
use std::collections::HashMap;
use vstd::prelude::*;

verus! {

broadcast use vstd::std_specs::hash::group_hash_axioms;

/// How many positions the table of a query takes in.
pub const TABLE_CAPACITY: usize = 1_048_576;

/// Why a query is rejected.
#[derive(Clone, Copy, Debug, PartialEq, Eq)]
pub enum QueryError {
    /// The side to move is neither 1 nor -1.
    InvalidSide,
    /// The maximum depth is 0.
    InvalidDepth,
    /// A weight is larger in magnitude than `MAX_WEIGHT`.
    InvalidWeights,
}

/// The counts with which each iteration starts: the root counted once.
pub open spec fn root_counts(hash: u64) -> Map<u64, u32> {
    Map::<u64, u32>::empty().insert(hash, 1u32)
}

/// The outcome of iteration `d`, when no iteration is cut short: a
/// full-window search to depth `d` that starts from the table and the
/// best move that iteration `d - 1` left. Iteration 0 stands for the
/// state before the first search.
pub open spec fn iteration(env: Env, g: Grid, p: i32, hash: u64, d: u32) -> Outcome
    decreases d,
{
    if d == 0 {
        Outcome {
            value: 0,
            best_move: None,
            pv: Seq::empty(),
            table: Map::<u64, TranspositionTableEntry>::empty(),
        }
    } else {
        let prev = iteration(env, g, p, hash, (d - 1) as u32);
        search_outcome(
            env,
            g,
            d,
            p,
            NEG_INFINITY,
            INFINITY,
            hash,
            prev.best_move,
            prev.table,
            root_counts(hash),
        )
    }
}

/// An outcome that the query takes over: it has a move.
pub open spec fn commits(out: Outcome) -> bool {
    out.best_move is Some
}

/// No iteration leaves an entry in the table that is deeper than itself.
pub proof fn lemma_iteration_depths(env: Env, g: Grid, p: i32, hash: u64, d: u32)
    ensures
        depth_bounded(iteration(env, g, p, hash, d).table, d),
    decreases d,
{
    if d > 0 {
        let prev = iteration(env, g, p, hash, (d - 1) as u32);
        lemma_iteration_depths(env, g, p, hash, (d - 1) as u32);
        assert(depth_bounded(prev.table, d));
        lemma_search_depths(
            env,
            g,
            d,
            p,
            NEG_INFINITY,
            INFINITY,
            hash,
            prev.best_move,
            prev.table,
            root_counts(hash),
            d,
        );
    }
}

/// At the root the table never stands for the search, since what it
/// holds comes from shallower iterations. So a move that an iteration
/// returns is legal and first on the line that the iteration returns.
pub proof fn lemma_root_move(env: Env, g: Grid, p: i32, hash: u64, d: u32)
    requires
        crate::board::well_formed(g),
        is_side(p),
        d >= 1,
    ensures
        iteration(env, g, p, hash, d).best_move matches Some(m) ==> legal(g, p, m)
            && legal_moves(g, p).contains(m) && iteration(env, g, p, hash, d).pv.len() > 0
            && iteration(env, g, p, hash, d).pv[0] == m,
{
    let prev = iteration(env, g, p, hash, (d - 1) as u32);
    lemma_iteration_depths(env, g, p, hash, (d - 1) as u32);
    assert(!(prev.table.contains_key(hash) && prev.table[hash].depth >= d));
    lemma_search_move_heads_line(
        env,
        g,
        d,
        p,
        NEG_INFINITY,
        INFINITY,
        hash,
        prev.best_move,
        prev.table,
        root_counts(hash),
    );
    lemma_legal_moves(g, p);
}

/// Every iteration from 1 to `d` returned a move.
pub open spec fn deepened(env: Env, g: Grid, p: i32, hash: u64, d: u32) -> bool {
    forall|j: u32| 1 <= j <= d ==> commits(#[trigger] iteration(env, g, p, hash, j))
}

/// While the game goes on and the side to move has a move, every
/// iteration returns a move.
pub proof fn lemma_iteration_commits(env: Env, g: Grid, p: i32, hash: u64, d: u32)
    requires
        crate::board::well_formed(g),
        is_side(p),
        winner(g) is None,
        legal_moves(g, p).len() > 0,
        d >= 1,
    ensures
        commits(iteration(env, g, p, hash, d)),
{
    let prev = iteration(env, g, p, hash, (d - 1) as u32);
    lemma_iteration_depths(env, g, p, hash, (d - 1) as u32);
    assert(!(prev.table.contains_key(hash) && prev.table[hash].depth >= d));
    lemma_search_returns_move(
        env,
        g,
        d,
        p,
        NEG_INFINITY,
        INFINITY,
        hash,
        prev.best_move,
        prev.table,
        root_counts(hash),
    );
}

/// `res` is an answer to the query for side `p` on `g` up to `max_depth`,
/// where `expired` says whether the clock ran out.
///
/// A side without a legal move has lost. A single legal move is the
/// answer, with the evaluator's score. Otherwise the answer is that of
/// the last iteration `d` that returned a move, all iterations before it
/// having returned one too: when the clock did not run out, `d` is
/// `max_depth` or iteration `d + 1` returned no move; when it did, `d`
/// is whatever was reached. With `d` = 0 there is no move and the score
/// is 0.
pub open spec fn answers(
    env: Env,
    g: Grid,
    p: i32,
    max_depth: u32,
    expired: bool,
    res: (Option<Move>, i64, Seq<Move>),
) -> bool {
    let moves = legal_moves(g, p);
    let hash = zobrist_hash(env.keys, g);
    if moves.len() == 0 {
        res == (None::<Move>, LOSE_SCORE, Seq::<Move>::empty())
    } else if moves.len() == 1 {
        res == (Some(moves[0]), evaluation(g, p, env.weights) as i64, seq![moves[0]])
    } else {
        exists|d: u32|
            {
                &&& d <= max_depth
                &&& #[trigger] deepened(env, g, p, hash, d)
                &&& res == (
                    iteration(env, g, p, hash, d).best_move,
                    iteration(env, g, p, hash, d).value,
                    iteration(env, g, p, hash, d).pv,
                )
                &&& !expired && d < max_depth ==> !commits(
                    iteration(env, g, p, hash, (d + 1) as u32),
                )
            }
    }
}

/// `res` is an answer to the query under some table of Zobrist keys,
/// whether or not the clock ran out.
pub open spec fn answers_query(
    weights: Weights,
    g: Grid,
    p: i32,
    max_depth: u32,
    res: (Option<Move>, i64, Seq<Move>),
) -> bool {
    exists|keys: Seq<u64>, expired: bool|
        keys.len() == 243 && #[trigger] answers(
            Env { weights, keys, capacity: TABLE_CAPACITY as nat },
            g,
            p,
            max_depth,
            expired,
            res,
        )
}

/// Whoever gets an answer with a move gets a legal move, first on its line.
pub proof fn lemma_answer_is_legal(
    env: Env,
    g: Grid,
    p: i32,
    max_depth: u32,
    expired: bool,
    res: (Option<Move>, i64, Seq<Move>),
)
    requires
        crate::board::well_formed(g),
        is_side(p),
        answers(env, g, p, max_depth, expired, res),
    ensures
        res.0 matches Some(m) ==> legal(g, p, m) && res.2.len() > 0 && res.2[0] == m,
        res.0 is None ==> res.2.len() == 0,
{
    lemma_legal_moves(g, p);
    let moves = legal_moves(g, p);
    let hash = zobrist_hash(env.keys, g);
    if moves.len() == 1 {
        assert(moves.contains(moves[0]));
    } else if moves.len() >= 2 {
        let d = choose|d: u32|
            {
                &&& d <= max_depth
                &&& #[trigger] deepened(env, g, p, hash, d)
                &&& res == (
                    iteration(env, g, p, hash, d).best_move,
                    iteration(env, g, p, hash, d).value,
                    iteration(env, g, p, hash, d).pv,
                )
                &&& !expired && d < max_depth ==> !commits(
                    iteration(env, g, p, hash, (d + 1) as u32),
                )
            };
        if d >= 1 {
            lemma_root_move(env, g, p, hash, d);
        }
    }
}

/// While the game goes on, an answer that was found without the clock
/// running out is that of the deepest iteration.
pub proof fn lemma_answer_is_deepest(
    env: Env,
    g: Grid,
    p: i32,
    max_depth: u32,
    res: (Option<Move>, i64, Seq<Move>),
)
    requires
        crate::board::well_formed(g),
        is_side(p),
        winner(g) is None,
        legal_moves(g, p).len() >= 2,
        answers(env, g, p, max_depth, false, res),
    ensures
        res == (
            iteration(env, g, p, zobrist_hash(env.keys, g), max_depth).best_move,
            iteration(env, g, p, zobrist_hash(env.keys, g), max_depth).value,
            iteration(env, g, p, zobrist_hash(env.keys, g), max_depth).pv,
        ),
{
    let hash = zobrist_hash(env.keys, g);
    let d = choose|d: u32|
        {
            &&& d <= max_depth
            &&& #[trigger] deepened(env, g, p, hash, d)
            &&& res == (
                iteration(env, g, p, hash, d).best_move,
                iteration(env, g, p, hash, d).value,
                iteration(env, g, p, hash, d).pv,
            )
            &&& !false && d < max_depth ==> !commits(iteration(env, g, p, hash, (d + 1) as u32))
        };
    if d < max_depth {
        lemma_iteration_commits(env, g, p, hash, (d + 1) as u32);
    }
}

/// Iterative deepening from depth 1 to `max_depth` with a table of
/// `table_capacity` positions, for as long as `clock` allows. Returns the
/// best move, its score and its line, as the last iteration that was
/// completed and returned a move found them. While the game goes on
/// every completed iteration returns a move, so without the clock
/// running out the answer is that of depth `max_depth`. With two or more
/// legal moves and a clock that has expired, or whose budget is 0, there
/// is no move, the score is 0 and the line is empty.
pub fn iterative_deepening(
    board: &Board,
    max_depth: u32,
    player: i32,
    weights: &Weights,
    zobrist_table: &ZobristTable,
    table_capacity: usize,
    clock: &mut Clock,
) -> (res: (Option<Move>, i64, Vec<Move>))
    requires
        board.wf(),
        is_side(player),
        weights.valid(),
        zobrist_table.wf(),
    ensures
        old(clock).expired ==> final(clock).expired,
        answers(
            Env { weights: *weights, keys: zobrist_table@, capacity: table_capacity as nat },
            board@,
            player,
            max_depth,
            final(clock).expired,
            (res.0, res.1, res.2@),
        ),
        res.0 matches Some(m) ==> legal(board@, player, m) && res.2@.len() > 0 && res.2@[0] == m,
        res.0 is None ==> res.2@.len() == 0,
        legal_line(board@, player, res.2@),
        (old(clock).expired || old(clock).limit_nanos == 0) && legal_moves(board@, player).len()
            >= 2 ==> res.0 is None && res.1 == 0 && res.2@.len() == 0,
        final(clock).limit_nanos == old(clock).limit_nanos,
        !final(clock).expired && winner(board@) is None && legal_moves(board@, player).len() >= 2
            ==> (res.0, res.1, res.2@) == (
            iteration(
                Env { weights: *weights, keys: zobrist_table@, capacity: table_capacity as nat },
                board@,
                player,
                zobrist_hash(zobrist_table@, board@),
                max_depth,
            ).best_move,
            iteration(
                Env { weights: *weights, keys: zobrist_table@, capacity: table_capacity as nat },
                board@,
                player,
                zobrist_hash(zobrist_table@, board@),
                max_depth,
            ).value,
            iteration(
                Env { weights: *weights, keys: zobrist_table@, capacity: table_capacity as nat },
                board@,
                player,
                zobrist_hash(zobrist_table@, board@),
                max_depth,
            ).pv,
        ),
{
    let res = deepen(board, max_depth, player, weights, zobrist_table, table_capacity, clock);
    proof {
        lemma_answer_is_legal(
            Env { weights: *weights, keys: zobrist_table@, capacity: table_capacity as nat },
            board@,
            player,
            max_depth,
            clock.expired,
            (res.0, res.1, res.2@),
        );
        if !clock.expired && winner(board@) is None && legal_moves(board@, player).len() >= 2 {
            lemma_answer_is_deepest(
                Env { weights: *weights, keys: zobrist_table@, capacity: table_capacity as nat },
                board@,
                player,
                max_depth,
                (res.0, res.1, res.2@),
            );
        }
    }
    res
}

/// The loop of `iterative_deepening`, with the fast paths before it.
fn deepen(
    board: &Board,
    max_depth: u32,
    player: i32,
    weights: &Weights,
    zobrist_table: &ZobristTable,
    table_capacity: usize,
    clock: &mut Clock,
) -> (res: (Option<Move>, i64, Vec<Move>))
    requires
        board.wf(),
        is_side(player),
        weights.valid(),
        zobrist_table.wf(),
    ensures
        old(clock).expired ==> final(clock).expired,
        answers(
            Env { weights: *weights, keys: zobrist_table@, capacity: table_capacity as nat },
            board@,
            player,
            max_depth,
            final(clock).expired,
            (res.0, res.1, res.2@),
        ),
        is_line_of(board@, player, res.0, res.2@),
        (old(clock).expired || old(clock).limit_nanos == 0) && legal_moves(board@, player).len()
            >= 2 ==> res.0 is None && res.1 == 0 && res.2@.len() == 0,
        final(clock).limit_nanos == old(clock).limit_nanos,
{
    let ghost env = Env {
        weights: *weights,
        keys: zobrist_table@,
        capacity: table_capacity as nat,
    };
    let ghost g = board@;
    let (capture_moves, normal_moves) = get_all_valid_moves(board, player);
    let moves = if capture_moves.len() > 0 {
        capture_moves
    } else {
        normal_moves
    };
    assert(moves@ == legal_moves(g, player));
    if moves.len() == 0 {
        return (None, LOSE_SCORE, Vec::new());
    }
    if moves.len() == 1 {
        let mv = moves[0];
        let evaluation = evaluate_board(board, player, weights);
        let mut pv: Vec<Move> = Vec::new();
        pv.push(mv);
        proof {
            lemma_legal_moves(g, player);
            assert(pv@ =~= seq![mv]);
            assert(legal_moves(g, player).contains(mv));
            assert(pv@.skip(1).len() == 0);
            assert(legal_line(apply_move(g, mv), (-player) as i32, pv@.skip(1)));
            assert(legal_line(g, player, pv@));
        }
        return (Some(mv), evaluation, pv);
    }
    let initial_hash = compute_zobrist_hash(board, zobrist_table);
    let mut transposition_table = TranspositionTable::new(table_capacity);
    let mut position_counts: HashMap<u64, u32> = HashMap::new();

    let mut best_move: Option<Move> = None;
    let mut evaluation: i64 = 0;
    let mut pv: Vec<Move> = Vec::new();

    let mut done: u32 = 0;
    let mut stop = false;
    while done < max_depth && !stop
        invariant
            done <= max_depth,
            board.wf(),
            g == board@,
            is_side(player),
            weights.valid(),
            zobrist_table.wf(),
            env == (Env {
                weights: *weights,
                keys: zobrist_table@,
                capacity: table_capacity as nat,
            }),
            initial_hash == zobrist_hash(env.keys, g),
            moves@ == legal_moves(g, player),
            transposition_table.capacity == table_capacity,
            old(clock).expired ==> clock.expired,
            clock.limit_nanos == old(clock).limit_nanos,
            old(clock).expired || old(clock).limit_nanos == 0 ==> done == 0,
            deepened(env, g, player, initial_hash, done),
            is_line_of(g, player, best_move, pv@),
            best_move == iteration(env, g, player, initial_hash, done).best_move,
            evaluation == iteration(env, g, player, initial_hash, done).value,
            pv@ == iteration(env, g, player, initial_hash, done).pv,
            !stop ==> transposition_table@ == iteration(
                env,
                g,
                player,
                initial_hash,
                done,
            ).table,
            stop && !clock.expired ==> done < max_depth && !commits(
                iteration(env, g, player, initial_hash, (done + 1) as u32),
            ),
        decreases max_depth - done + (if stop { 0int } else { 1int }),
    {
        if clock.check() {
            stop = true;
        } else {
            let depth = done + 1;
            position_counts.clear();
            position_counts.insert(initial_hash, 1);
            assert(position_counts@ =~= root_counts(initial_hash));
            let (eval, mv, principal_variation) = negamax_search(
                board,
                depth,
                player,
                NEG_INFINITY,
                INFINITY,
                weights,
                initial_hash,
                zobrist_table,
                &mut transposition_table,
                &mut position_counts,
                clock,
                best_move,
            );
            if clock.check() {
                stop = true;
            } else {
                if mv.is_some() {
                    evaluation = eval;
                    best_move = mv;
                    pv = principal_variation;
                    done = depth;
                    assert(deepened(env, g, player, initial_hash, done)) by {
                        assert forall|j: u32| 1 <= j <= done implies commits(
                            #[trigger] iteration(env, g, player, initial_hash, j),
                        ) by {
                            if j < done {
                                assert(deepened(env, g, player, initial_hash, (done - 1) as u32));
                            }
                        }
                    }
                } else {
                    stop = true;
                }
            }
        }
    }
    (best_move, evaluation, pv)
}

/// Answers a query: the best move for `player` on `board`, its score and
/// its line, found by iterative deepening up to `max_depth` within
/// `time_limit_nanos` nanoseconds. The Zobrist keys are drawn afresh, so
/// the answer is that for some table of keys. With a budget of 0 and two
/// or more legal moves there is no move, the score is 0 and the line is
/// empty.
pub fn negamax(
    board: &Board,
    max_depth: u32,
    player: i32,
    weights: &Weights,
    time_limit_nanos: u128,
) -> (res: Result<(Option<Move>, i64, Vec<Move>), QueryError>)
    requires
        board.wf(),
    ensures
        match res {
            Ok(found) => {
                &&& is_side(player) && max_depth > 0 && weights.valid()
                &&& answers_query(*weights, board@, player, max_depth, (found.0, found.1, found.2@))
                &&& found.0 matches Some(m) ==> legal(board@, player, m) && found.2@.len() > 0
                    && found.2@[0] == m
                &&& found.0 is None ==> found.2@.len() == 0
                &&& legal_line(board@, player, found.2@)
                &&& time_limit_nanos == 0 && legal_moves(board@, player).len() >= 2 ==> found.0 is None
                    && found.1 == 0 && found.2@.len() == 0
            },
            Err(QueryError::InvalidSide) => !is_side(player),
            Err(QueryError::InvalidDepth) => is_side(player) && max_depth == 0,
            Err(QueryError::InvalidWeights) => is_side(player) && max_depth > 0 && !weights.valid(),
        },
{
    if player != crate::board::BLACK && player != crate::board::WHITE {
        return Err(QueryError::InvalidSide);
    }
    if max_depth == 0 {
        return Err(QueryError::InvalidDepth);
    }
    if !weights.is_valid() {
        return Err(QueryError::InvalidWeights);
    }
    let zobrist_table = initialize_zobrist_table();
    let mut clock = Clock::start(time_limit_nanos);
    let found = iterative_deepening(
        board,
        max_depth,
        player,
        weights,
        &zobrist_table,
        TABLE_CAPACITY,
        &mut clock,
    );
    assert(zobrist_table@.len() == 243 && answers(
        Env { weights: *weights, keys: zobrist_table@, capacity: TABLE_CAPACITY as nat },
        board@,
        player,
        max_depth,
        clock.expired,
        (found.0, found.1, found.2@),
    ));
    Ok(found)
}

} // verus!
