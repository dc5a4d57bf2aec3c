//! A Fianco engine: board rules, move generation, Zobrist hashing, a static
//! evaluator and a depth-limited negamax search with alpha-beta pruning,
//! a transposition table, repetition detection and iterative deepening
//! under a time budget.
//!
//! Scores are exact fixed-point integers; see [`eval`] for the unit.
//!
//! Every function states what it returns. Beyond that the library proves
//! - that each generated move leaves a board and takes a piece exactly
//!   when it is a capture ([`play::lemma_generated_moves_sound`]),
//! - that a side that can capture is offered captures only
//!   ([`moves::lemma_mandatory_capture`]),
//! - that the hash kept up move by move is the hash of the board
//!   ([`play::lemma_hash_consistent`]),
//! - that the evaluator is symmetric between the sides
//!   ([`eval::lemma_evaluation_symmetric`]),
//! - that alpha-beta pruning returns the negamax value, and the negamax
//!   identity between a position and the position after its best move
//!   ([`minimax::lemma_search_sound`], [`minimax::lemma_negamax_identity`]).

pub mod board;
pub mod moves;
pub mod zobrist;
pub mod winner;
pub mod play;
pub mod race;
pub mod eval;
pub mod table;
pub mod clock;
pub mod ordering;
pub mod search;
pub mod minimax;
pub mod engine;
