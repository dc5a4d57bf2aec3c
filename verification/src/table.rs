//! The transposition table: search results cached by position hash.

use crate::board::Move;
use std::collections::HashMap;
use vstd::prelude::*;

verus! {

broadcast use vstd::std_specs::hash::group_hash_axioms;

/// How a stored value relates to the true value of its position.
#[derive(Clone, Copy, Debug, PartialEq, Eq)]
pub enum NodeType {
    /// The stored value is the value.
    Exact,
    /// The value is at least the stored value.
    LowerBound,
    /// The value is at most the stored value.
    UpperBound,
}

/// What the table remembers of a position.
#[derive(Clone, Copy, Debug)]
pub struct TranspositionTableEntry {
    pub depth: u32,
    pub value: i64,
    pub flag: NodeType,
    pub best_move: Option<Move>,
}

/// The answer of the table to a probe.
#[derive(Clone, Copy, Debug)]
pub enum Probe {
    /// An exact entry of sufficient depth: its value stands for the search.
    UseValue { value: i64, best_move: Option<Move> },
    /// A bound of sufficient depth: the window after it has been applied,
    /// with the entry's value and move for the case that the window closed.
    Tighten { alpha: i64, beta: i64, value: i64, best_move: Option<Move> },
    /// No entry, or one of insufficient depth.
    Miss,
}

/// The flag of a result `value` found in the window (`alpha_orig`, `beta`).
pub open spec fn flag_for(value: i64, alpha_orig: i64, beta: i64) -> NodeType {
    if value <= alpha_orig {
        NodeType::UpperBound
    } else if value >= beta {
        NodeType::LowerBound
    } else {
        NodeType::Exact
    }
}

/// The entry that records a result.
pub open spec fn entry_for(
    depth: u32,
    value: i64,
    alpha_orig: i64,
    beta: i64,
    best_move: Option<Move>,
) -> TranspositionTableEntry {
    TranspositionTableEntry { depth, value, flag: flag_for(value, alpha_orig, beta), best_move }
}

/// The answer to a probe of `table` for `hash` at `depth` in the window
/// (`alpha`, `beta`).
pub open spec fn probe_spec(
    table: Map<u64, TranspositionTableEntry>,
    hash: u64,
    depth: u32,
    alpha: i64,
    beta: i64,
) -> Probe {
    if table.contains_key(hash) && table[hash].depth >= depth {
        let e = table[hash];
        match e.flag {
            NodeType::Exact => Probe::UseValue { value: e.value, best_move: e.best_move },
            NodeType::LowerBound => Probe::Tighten {
                alpha: if e.value > alpha {
                    e.value
                } else {
                    alpha
                },
                beta,
                value: e.value,
                best_move: e.best_move,
            },
            NodeType::UpperBound => Probe::Tighten {
                alpha,
                beta: if e.value < beta {
                    e.value
                } else {
                    beta
                },
                value: e.value,
                best_move: e.best_move,
            },
        }
    } else {
        Probe::Miss
    }
}

/// The move that `table` suggests for `hash`, whatever the entry's depth.
pub open spec fn hint_of(table: Map<u64, TranspositionTableEntry>, hash: u64) -> Option<Move> {
    if table.contains_key(hash) {
        table[hash].best_move
    } else {
        None
    }
}

/// The table after a store: an entry for a hash that is present is
/// replaced, a new hash is taken in while there is room, and dropped
/// when the table is full, so that a full table caches nothing new.
pub open spec fn stored(
    table: Map<u64, TranspositionTableEntry>,
    capacity: nat,
    hash: u64,
    entry: TranspositionTableEntry,
) -> Map<u64, TranspositionTableEntry> {
    if table.contains_key(hash) || table.len() < capacity {
        table.insert(hash, entry)
    } else {
        table
    }
}

/// A map from position hash to entry that holds at most `capacity`
/// hashes. Once it is full it caches nothing new: results for hashes that
/// it holds replace the old ones, results for other hashes are dropped.
/// With capacity 0 it stays empty.
pub struct TranspositionTable {
    pub entries: HashMap<u64, TranspositionTableEntry>,
    pub capacity: usize,
}

impl View for TranspositionTable {
    type V = Map<u64, TranspositionTableEntry>;

    open spec fn view(&self) -> Map<u64, TranspositionTableEntry> {
        self.entries@
    }
}

impl TranspositionTable {
    /// An empty table that takes in up to `capacity` positions.
    pub fn new(capacity: usize) -> (table: TranspositionTable)
        ensures
            table@ == Map::<u64, TranspositionTableEntry>::empty(),
            table.capacity == capacity,
    {
        TranspositionTable { entries: HashMap::new(), capacity }
    }

    /// Number of positions in the table.
    pub fn len(&self) -> (n: usize)
        ensures
            n == self@.len(),
    {
        self.entries.len()
    }

    /// The entry for `hash`, if there is one.
    pub fn get(&self, hash: u64) -> (entry: Option<TranspositionTableEntry>)
        ensures
            entry == (if self@.contains_key(hash) {
                Some(self@[hash])
            } else {
                None
            }),
    {
        match self.entries.get(&hash) {
            Some(e) => Some(*e),
            None => None,
        }
    }

    /// Looks `hash` up for a search at `depth` in the window (`alpha`,
    /// `beta`). An entry counts when its depth is at least `depth`.
    pub fn probe(&self, hash: u64, depth: u32, alpha: i64, beta: i64) -> (found: Probe)
        ensures
            found == probe_spec(self@, hash, depth, alpha, beta),
    {
        match self.get(hash) {
            Some(e) => {
                if e.depth >= depth {
                    match e.flag {
                        NodeType::Exact => Probe::UseValue {
                            value: e.value,
                            best_move: e.best_move,
                        },
                        NodeType::LowerBound => Probe::Tighten {
                            alpha: if e.value > alpha {
                                e.value
                            } else {
                                alpha
                            },
                            beta,
                            value: e.value,
                            best_move: e.best_move,
                        },
                        NodeType::UpperBound => Probe::Tighten {
                            alpha,
                            beta: if e.value < beta {
                                e.value
                            } else {
                                beta
                            },
                            value: e.value,
                            best_move: e.best_move,
                        },
                    }
                } else {
                    Probe::Miss
                }
            },
            None => Probe::Miss,
        }
    }

    /// The move that the table suggests for `hash`.
    pub fn hint(&self, hash: u64) -> (best_move: Option<Move>)
        ensures
            best_move == hint_of(self@, hash),
    {
        match self.get(hash) {
            Some(e) => e.best_move,
            None => None,
        }
    }

    /// Records the result `value` of a search of `hash` at `depth` in the
    /// window (`alpha_orig`, `beta`): an upper bound if it did not exceed
    /// `alpha_orig`, a lower bound if it reached `beta`, else exact. A
    /// full table that does not hold `hash` drops the result.
    pub fn store(
        &mut self,
        hash: u64,
        depth: u32,
        value: i64,
        alpha_orig: i64,
        beta: i64,
        best_move: Option<Move>,
    )
        ensures
            final(self).capacity == old(self).capacity,
            final(self)@ == stored(
                old(self)@,
                old(self).capacity as nat,
                hash,
                entry_for(depth, value, alpha_orig, beta, best_move),
            ),
    {
        let flag = if value <= alpha_orig {
            NodeType::UpperBound
        } else if value >= beta {
            NodeType::LowerBound
        } else {
            NodeType::Exact
        };
        let entry = TranspositionTableEntry { depth, value, flag, best_move };
        if self.entries.contains_key(&hash) || self.entries.len() < self.capacity {
            self.entries.insert(hash, entry);
        }
    }
}

} // verus!
