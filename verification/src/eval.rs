//! The static evaluator.
//!
//! Weights and scores are fixed-point integers. A weight counts
//! thousandths of a point. A score counts 1/2520 of a weight unit, so that
//! a bonus shared out over 1 to 9 steps stays exact: one point is
//! 2 520 000 score units.

use crate::board::{is_side, Board, Grid, BLACK, BOARD_SIZE};
use crate::moves::{cell_of, get_valid_moves, legal_moves, lemma_move_count, opponent_of};
use crate::race::{get_unstoppable_pawns_steps, steps_to_goal, unstoppable_steps, unstoppable_upto};
use crate::winner::{get_winner, winner};
use vstd::prelude::*;

verus! {

/// Weight units in one point.
pub const WEIGHT_SCALE: i64 = 1000;

/// Score units in one weight unit: the least common multiple of 1 to 9.
pub const STEP_SCALE: i64 = 2520;

/// Score units in one point.
pub const SCORE_SCALE: i64 = 2_520_000;

/// The score of a won position: 1 000 000 points.
pub const WIN_SCORE: i64 = 2_520_000_000_000;

/// The score of a lost position: -1 000 000 points.
pub const LOSE_SCORE: i64 = -2_520_000_000_000;

/// The largest magnitude of a weight: 1 000 000 000 points.
pub const MAX_WEIGHT: i64 = 1_000_000_000_000;

/// No evaluation is larger in magnitude.
pub const SCORE_LIMIT: i64 = 4_000_000_000_000_000_000;

/// The coefficients of the evaluator, in thousandths of a point.
#[derive(Clone, Copy, Debug, PartialEq, Eq)]
pub struct Weights {
    pub piece_value: i64,
    pub advancement_value: i64,
    pub unstoppable_pawn_bonus: i64,
    pub opponent_unstoppable_pawn_penalty: i64,
    pub center_control_value: i64,
    pub mobility_value: i64,
    pub edge_pawn_bonus: i64,
}

/// `w` is a weight of admissible size.
pub open spec fn weight_ok(w: i64) -> bool {
    -MAX_WEIGHT <= w <= MAX_WEIGHT
}

impl Weights {
    /// Every weight is of admissible size.
    pub open spec fn valid(&self) -> bool {
        &&& weight_ok(self.piece_value)
        &&& weight_ok(self.advancement_value)
        &&& weight_ok(self.unstoppable_pawn_bonus)
        &&& weight_ok(self.opponent_unstoppable_pawn_penalty)
        &&& weight_ok(self.center_control_value)
        &&& weight_ok(self.mobility_value)
        &&& weight_ok(self.edge_pawn_bonus)
    }

    /// Whether every weight is of admissible size.
    pub fn is_valid(&self) -> (ok: bool)
        ensures
            ok == self.valid(),
    {
        weight_in_range(self.piece_value) && weight_in_range(self.advancement_value)
            && weight_in_range(self.unstoppable_pawn_bonus) && weight_in_range(
            self.opponent_unstoppable_pawn_penalty,
        ) && weight_in_range(self.center_control_value) && weight_in_range(self.mobility_value)
            && weight_in_range(self.edge_pawn_bonus)
    }
}

/// Whether `w` is of admissible size.
fn weight_in_range(w: i64) -> (ok: bool)
    ensures
        ok == weight_ok(w),
{
    -MAX_WEIGHT <= w && w <= MAX_WEIGHT
}

/// How far a piece of side `q` on row `r` has advanced.
pub open spec fn forward_rank(q: i32, r: int) -> int {
    if q == BLACK {
        r
    } else {
        8 - r
    }
}

/// Column `c` is the left or the right edge.
pub open spec fn is_edge(c: int) -> bool {
    c == 0 || c == 8
}

/// (r, c) is one of the nine central cells.
pub open spec fn is_center(r: int, c: int) -> bool {
    3 <= r <= 5 && 3 <= c <= 5
}

/// The worth of a piece of side `q` on (r, c), in weight units: its piece
/// value, its advancement, and the edge and centre bonuses where they apply.
pub open spec fn piece_worth(w: Weights, q: i32, r: int, c: int) -> int {
    w.piece_value + w.advancement_value * forward_rank(q, r) + (if is_edge(c) {
        w.edge_pawn_bonus as int
    } else {
        0
    }) + (if is_center(r, c) {
        w.center_control_value as int
    } else {
        0
    })
}

/// What the cell with row-major index `k` is worth to side `p`: the worth
/// of an own piece, minus the worth of an opposing one.
pub open spec fn cell_worth(g: Grid, p: i32, w: Weights, k: int) -> int {
    if cell_of(g, k) == p {
        piece_worth(w, p, k / 9, k % 9)
    } else if cell_of(g, k) == -p {
        -piece_worth(w, (-p) as i32, k / 9, k % 9)
    } else {
        0
    }
}

/// The worth of the first `k` cells to side `p`.
pub open spec fn worth_upto(g: Grid, p: i32, w: Weights, k: int) -> int
    decreases k,
{
    if k <= 0 {
        0
    } else {
        worth_upto(g, p, w, k - 1) + cell_worth(g, p, w, k - 1)
    }
}

/// The worth of all pieces to side `p`, in weight units.
pub open spec fn positional(g: Grid, p: i32, w: Weights) -> int {
    worth_upto(g, p, w, 81)
}

/// How many more legal moves side `p` has than its opponent.
pub open spec fn mobility(g: Grid, p: i32) -> int {
    legal_moves(g, p).len() - legal_moves(g, (-p) as i32).len()
}

/// The share of a bonus that a pawn with `s` steps to go earns, in 2520ths.
pub open spec fn step_share(s: usize) -> int {
    2520int / (s + 1)
}

/// The sum of the shares of the pawns in `steps`.
pub open spec fn race_sum(steps: Seq<usize>) -> int
    decreases steps.len(),
{
    if steps.len() == 0 {
        0
    } else {
        race_sum(steps.drop_last()) + step_share(steps.last())
    }
}

/// The least number in `steps`; 9 where there is none.
pub open spec fn least_steps(steps: Seq<usize>) -> int
    decreases steps.len(),
{
    if steps.len() == 0 {
        9
    } else if steps.last() < least_steps(steps.drop_last()) {
        steps.last() as int
    } else {
        least_steps(steps.drop_last())
    }
}

/// Who leads the race: 1 where only `own` has an unstoppable pawn or its
/// nearest one is nearer than that of `opp`, -1 in the mirrored cases,
/// 0 where neither leads.
pub open spec fn race_lead(own: Seq<usize>, opp: Seq<usize>) -> int {
    if own.len() > 0 && opp.len() == 0 {
        1
    } else if own.len() == 0 && opp.len() > 0 {
        -1
    } else if own.len() == 0 {
        0
    } else if least_steps(opp) < least_steps(own) {
        -1
    } else if least_steps(own) < least_steps(opp) {
        1
    } else {
        0
    }
}

/// The race term in score units: each own unstoppable pawn earns its
/// share of the bonus, each opposing one its share of the penalty, and the
/// leader of the race twice the bonus or twice the penalty.
pub open spec fn race_term(w: Weights, own: Seq<usize>, opp: Seq<usize>) -> int {
    w.unstoppable_pawn_bonus * race_sum(own) + w.opponent_unstoppable_pawn_penalty * race_sum(opp)
        + (if race_lead(own, opp) == 1 {
        5040 * w.unstoppable_pawn_bonus
    } else if race_lead(own, opp) == -1 {
        5040 * w.opponent_unstoppable_pawn_penalty
    } else {
        0
    })
}

/// The score of `g` for side `p`, in score units: `WIN_SCORE` or
/// `LOSE_SCORE` where the game is over, else the weighted sum of piece
/// worth, mobility and the race term.
pub open spec fn evaluation(g: Grid, p: i32, w: Weights) -> int {
    match winner(g) {
        Some(side) => if side == p {
            WIN_SCORE as int
        } else {
            LOSE_SCORE as int
        },
        None => 2520 * (positional(g, p, w) + w.mobility_value * mobility(g, p)) + race_term(
            w,
            unstoppable_steps(g, p),
            unstoppable_steps(g, (-p) as i32),
        ),
    }
}

/// A product of a weight-sized factor and a small count stays small.
pub proof fn lemma_product_bound(a: int, b: int, a_max: int, b_max: int)
    requires
        -a_max <= a <= a_max,
        -b_max <= b <= b_max,
    ensures
        -(a_max * b_max) <= a * b <= a_max * b_max,
{
    assert(-(a_max * b_max) <= a * b <= a_max * b_max) by (nonlinear_arith)
        requires
            -a_max <= a <= a_max,
            -b_max <= b <= b_max,
    ;
}

/// A share lies between 280 and 2520 for a pawn on the board.
pub proof fn lemma_step_share(s: usize)
    requires
        s <= 8,
    ensures
        0 < step_share(s) <= 2520,
        step_share(s) * (s + 1) == 2520,
{
    let n = s + 1;
    assert(0 < 2520int / n <= 2520 && (2520int / n) * n == 2520) by (nonlinear_arith)
        requires
            n == 1 || n == 2 || n == 3 || n == 4 || n == 5 || n == 6 || n == 7 || n == 8 || n == 9,
    ;
}

/// The unstoppable pawns among the first `k` cells are at most `k`, each
/// at most 8 steps from its goal.
pub proof fn lemma_unstoppable_upto(g: Grid, p: i32, k: int)
    requires
        0 <= k <= 81,
    ensures
        unstoppable_upto(g, p, k).len() <= k,
        forall|i: int|
            0 <= i < unstoppable_upto(g, p, k).len() ==> #[trigger] unstoppable_upto(g, p, k)[i]
                <= 8,
    decreases k,
{
    if k > 0 {
        lemma_unstoppable_upto(g, p, k - 1);
        assert(0 <= steps_to_goal(p, (k - 1) / 9) <= 8);
    }
}

/// The bounds of the piece worth.
pub proof fn lemma_piece_worth_bound(w: Weights, q: i32, r: int, c: int)
    requires
        w.valid(),
        0 <= r < 9,
    ensures
        -11_000_000_000_000 <= piece_worth(w, q, r, c) <= 11_000_000_000_000,
{
    lemma_product_bound(w.advancement_value as int, forward_rank(q, r), MAX_WEIGHT as int, 8);
}

/// The bounds of the worth of the first `k` cells.
pub proof fn lemma_worth_bound(g: Grid, p: i32, w: Weights, k: int)
    requires
        w.valid(),
        0 <= k <= 81,
    ensures
        -11_000_000_000_000 * k <= worth_upto(g, p, w, k) <= 11_000_000_000_000 * k,
    decreases k,
{
    if k > 0 {
        lemma_worth_bound(g, p, w, k - 1);
        lemma_piece_worth_bound(w, p, (k - 1) / 9, (k - 1) % 9);
        lemma_piece_worth_bound(w, (-p) as i32, (k - 1) / 9, (k - 1) % 9);
    }
}

/// Whether the column is the left or the right edge.
pub fn is_edge_square(_row: usize, col: usize) -> (edge: bool)
    ensures
        edge == is_edge(col as int),
{
    col == 0 || col == BOARD_SIZE - 1
}

/// Whether (row, col) is one of the nine central cells.
pub fn is_center_square(row: usize, col: usize) -> (center: bool)
    ensures
        center == is_center(row as int, col as int),
{
    3 <= row && row <= 5 && 3 <= col && col <= 5
}

/// The worth of a piece of `side` on (row, col), in weight units.
fn piece_worth_of(weights: &Weights, side: i32, row: usize, col: usize) -> (worth: i64)
    requires
        weights.valid(),
        row < 9,
        col < 9,
    ensures
        worth == piece_worth(*weights, side, row as int, col as int),
        -11_000_000_000_000 <= worth <= 11_000_000_000_000,
{
    let rank: i64 = if side == BLACK {
        row as i64
    } else {
        (BOARD_SIZE - 1 - row) as i64
    };
    proof {
        lemma_product_bound(weights.advancement_value as int, rank as int, MAX_WEIGHT as int, 8);
    }
    let mut worth: i64 = weights.piece_value + weights.advancement_value * rank;
    if is_edge_square(row, col) {
        worth += weights.edge_pawn_bonus;
    }
    if is_center_square(row, col) {
        worth += weights.center_control_value;
    }
    worth
}

/// The worth of all pieces to `player`, in weight units.
fn positional_score(board: &Board, player: i32, weights: &Weights) -> (score: i64)
    requires
        board.wf(),
        is_side(player),
        weights.valid(),
    ensures
        score == positional(board@, player, *weights),
        -891_000_000_000_000 <= score <= 891_000_000_000_000,
{
    let opponent = opponent_of(player);
    let mut score: i64 = 0;
    let mut row: usize = 0;
    while row < BOARD_SIZE
        invariant
            row <= 9,
            board.wf(),
            is_side(player),
            opponent == -player,
            weights.valid(),
            score == worth_upto(board@, player, *weights, row * 9),
        decreases 9 - row,
    {
        let mut col: usize = 0;
        while col < BOARD_SIZE
            invariant
                row < 9,
                col <= 9,
                board.wf(),
                is_side(player),
                opponent == -player,
                weights.valid(),
                score == worth_upto(board@, player, *weights, row * 9 + col),
            decreases 9 - col,
        {
            let ghost k = row * 9 + col;
            assert(k / 9 == row && k % 9 == col);
            proof {
                lemma_worth_bound(board@, player, *weights, k);
                lemma_worth_bound(board@, player, *weights, k + 1);
            }
            let piece = board.get(row, col);
            if piece == player {
                score += piece_worth_of(weights, player, row, col);
            } else if piece == opponent {
                score -= piece_worth_of(weights, opponent, row, col);
            }
            col += 1;
        }
        row += 1;
    }
    proof {
        lemma_worth_bound(board@, player, *weights, 81);
    }
    score
}

/// The sum of the shares of the pawns in `steps`.
fn race_sum_of(steps: &Vec<usize>) -> (sum: i64)
    requires
        steps.len() <= 81,
        forall|i: int| 0 <= i < steps.len() ==> #[trigger] steps[i] <= 8,
    ensures
        sum == race_sum(steps@),
        0 <= sum <= 2520 * steps.len(),
{
    let mut sum: i64 = 0;
    let mut i: usize = 0;
    while i < steps.len()
        invariant
            i <= steps.len(),
            steps.len() <= 81,
            forall|j: int| 0 <= j < steps.len() ==> #[trigger] steps[j] <= 8,
            sum == race_sum(steps@.take(i as int)),
            0 <= sum <= 2520 * i,
        decreases steps.len() - i,
    {
        let s = steps[i];
        proof {
            lemma_step_share(s);
            assert(steps@.take(i + 1).drop_last() =~= steps@.take(i as int));
            assert(steps@.take(i + 1).last() == s);
        }
        sum += 2520 / (s as i64 + 1);
        i += 1;
    }
    assert(steps@.take(steps.len() as int) =~= steps@);
    sum
}

/// The least number in `steps`; 9 where there is none.
fn least_steps_of(steps: &Vec<usize>) -> (least: usize)
    requires
        forall|i: int| 0 <= i < steps.len() ==> #[trigger] steps[i] <= 8,
    ensures
        least == least_steps(steps@),
        least <= 9,
{
    let mut least: usize = 9;
    let mut i: usize = 0;
    while i < steps.len()
        invariant
            i <= steps.len(),
            least == least_steps(steps@.take(i as int)),
            least <= 9,
        decreases steps.len() - i,
    {
        proof {
            assert(steps@.take(i + 1).drop_last() =~= steps@.take(i as int));
            assert(steps@.take(i + 1).last() == steps[i as int]);
        }
        if steps[i] < least {
            least = steps[i];
        }
        i += 1;
    }
    assert(steps@.take(steps.len() as int) =~= steps@);
    least
}

/// Who leads the race: 1 for `own`, -1 for `opp`, 0 for neither.
fn race_lead_of(own: &Vec<usize>, opp: &Vec<usize>) -> (lead: i64)
    requires
        forall|i: int| 0 <= i < own.len() ==> #[trigger] own[i] <= 8,
        forall|i: int| 0 <= i < opp.len() ==> #[trigger] opp[i] <= 8,
    ensures
        lead == race_lead(own@, opp@),
        -1 <= lead <= 1,
{
    if own.len() > 0 && opp.len() == 0 {
        1
    } else if own.len() == 0 && opp.len() > 0 {
        -1
    } else if own.len() == 0 {
        0
    } else {
        let least_own = least_steps_of(own);
        let least_opp = least_steps_of(opp);
        if least_opp < least_own {
            -1
        } else if least_own < least_opp {
            1
        } else {
            0
        }
    }
}

/// The score of `board` for `player` under `weights`, in score units.
pub fn evaluate_board(board: &Board, player: i32, weights: &Weights) -> (score: i64)
    requires
        board.wf(),
        is_side(player),
        weights.valid(),
    ensures
        score == evaluation(board@, player, *weights),
        -SCORE_LIMIT <= score <= SCORE_LIMIT,
{
    if let Some(side) = get_winner(board) {
        if side == player {
            return WIN_SCORE;
        } else {
            return LOSE_SCORE;
        }
    }
    let opponent = opponent_of(player);
    let positional = positional_score(board, player, weights);

    let own_moves = get_valid_moves(board, player);
    let opponent_moves = get_valid_moves(board, opponent);
    proof {
        lemma_move_count(board@, player);
        lemma_move_count(board@, opponent);
    }
    let mobility: i64 = own_moves.len() as i64 - opponent_moves.len() as i64;
    proof {
        lemma_product_bound(weights.mobility_value as int, mobility as int, MAX_WEIGHT as int, 243);
    }
    let linear: i64 = 2520 * (positional + weights.mobility_value * mobility);

    let own_steps = get_unstoppable_pawns_steps(board, player);
    let opponent_steps = get_unstoppable_pawns_steps(board, opponent);
    proof {
        lemma_unstoppable_upto(board@, player, 81);
        lemma_unstoppable_upto(board@, opponent, 81);
    }
    let own_sum = race_sum_of(&own_steps);
    let opponent_sum = race_sum_of(&opponent_steps);
    proof {
        lemma_product_bound(
            weights.unstoppable_pawn_bonus as int,
            own_sum as int,
            MAX_WEIGHT as int,
            204120,
        );
        lemma_product_bound(
            weights.opponent_unstoppable_pawn_penalty as int,
            opponent_sum as int,
            MAX_WEIGHT as int,
            204120,
        );
    }
    let mut race: i64 = weights.unstoppable_pawn_bonus * own_sum
        + weights.opponent_unstoppable_pawn_penalty * opponent_sum;
    let lead = race_lead_of(&own_steps, &opponent_steps);
    if lead == 1 {
        race += 5040 * weights.unstoppable_pawn_bonus;
    } else if lead == -1 {
        race += 5040 * weights.opponent_unstoppable_pawn_penalty;
    }
    linear + race
}

/// The worth of the cells to one side is the negation of their worth to
/// the other.
pub proof fn lemma_worth_negates(g: Grid, p: i32, w: Weights, k: int)
    requires
        is_side(p),
    ensures
        worth_upto(g, (-p) as i32, w, k) == -worth_upto(g, p, w, k),
    decreases k,
{
    if k > 0 {
        lemma_worth_negates(g, p, w, k - 1);
    }
}

/// Evaluator symmetry: while the game goes on, the score for one side is
/// the negation of the score for the other, provided that the penalty for
/// an opposing unstoppable pawn is the negated bonus for an own one, or
/// that no pawn on the board is unstoppable.
pub proof fn lemma_evaluation_symmetric(g: Grid, p: i32, w: Weights)
    requires
        is_side(p),
        winner(g) is None,
        w.opponent_unstoppable_pawn_penalty == -w.unstoppable_pawn_bonus || (unstoppable_steps(
            g,
            p,
        ).len() == 0 && unstoppable_steps(g, (-p) as i32).len() == 0),
    ensures
        evaluation(g, (-p) as i32, w) == -evaluation(g, p, w),
{
    let q = (-p) as i32;
    assert((-q) as i32 == p);
    lemma_worth_negates(g, p, w, 81);
    let m = mobility(g, p);
    assert(mobility(g, q) == -m);
    let mw = w.mobility_value as int;
    assert(mw * (-m) == -(mw * m)) by (nonlinear_arith);
    let own = unstoppable_steps(g, p);
    let opp = unstoppable_steps(g, q);
    let b = w.unstoppable_pawn_bonus as int;
    let pen = w.opponent_unstoppable_pawn_penalty as int;
    let s_own = race_sum(own);
    let s_opp = race_sum(opp);
    assert(race_lead(opp, own) == -race_lead(own, opp));
    if pen == -b {
        assert((-b) * s_opp == -(b * s_opp)) by (nonlinear_arith);
        assert((-b) * s_own == -(b * s_own)) by (nonlinear_arith);
        assert(race_term(w, opp, own) == -race_term(w, own, opp));
    } else {
        assert(s_own == 0 && s_opp == 0);
        assert(b * 0 == 0 && pen * 0 == 0);
        assert(race_term(w, opp, own) == 0 && race_term(w, own, opp) == 0);
    }
}

/// The shares of pawns on the board add up to at most 2520 each.
pub proof fn lemma_race_sum_bound(steps: Seq<usize>)
    requires
        forall|i: int| 0 <= i < steps.len() ==> #[trigger] steps[i] <= 8,
    ensures
        0 <= race_sum(steps) <= 2520 * steps.len(),
    decreases steps.len(),
{
    if steps.len() > 0 {
        lemma_race_sum_bound(steps.drop_last());
        lemma_step_share(steps.last());
    }
}

/// No evaluation under valid weights exceeds `SCORE_LIMIT` in magnitude.
pub proof fn lemma_evaluation_bound(g: Grid, p: i32, w: Weights)
    requires
        w.valid(),
    ensures
        -SCORE_LIMIT <= evaluation(g, p, w) <= SCORE_LIMIT,
{
    if winner(g) is None {
        let q = (-p) as i32;
        lemma_worth_bound(g, p, w, 81);
        lemma_move_count(g, p);
        lemma_move_count(g, q);
        lemma_product_bound(w.mobility_value as int, mobility(g, p), MAX_WEIGHT as int, 243);
        let own = unstoppable_steps(g, p);
        let opp = unstoppable_steps(g, q);
        lemma_unstoppable_upto(g, p, 81);
        lemma_unstoppable_upto(g, q, 81);
        lemma_race_sum_bound(own);
        lemma_race_sum_bound(opp);
        lemma_product_bound(
            w.unstoppable_pawn_bonus as int,
            race_sum(own),
            MAX_WEIGHT as int,
            204120,
        );
        lemma_product_bound(
            w.opponent_unstoppable_pawn_penalty as int,
            race_sum(opp),
            MAX_WEIGHT as int,
            204120,
        );
    }
}

} // verus!
