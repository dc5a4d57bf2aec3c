use fianco_ai::table::{NodeType, Probe, TranspositionTable};

fn use_value(found: Probe) -> Option<(i64, Option<(usize, usize, usize, usize)>)> {
    match found {
        Probe::UseValue { value, best_move } => Some((value, best_move)),
        _ => None,
    }
}

fn tighten(found: Probe) -> Option<(i64, i64, i64)> {
    match found {
        Probe::Tighten { alpha, beta, value, .. } => Some((alpha, beta, value)),
        _ => None,
    }
}

#[test]
fn a_new_table_is_empty() {
    let table = TranspositionTable::new(8);
    assert_eq!(table.len(), 0);
    assert_eq!(table.capacity, 8);
    assert!(table.get(42).is_none());
    assert!(matches!(table.probe(42, 0, -10, 10), Probe::Miss));
    assert_eq!(table.hint(42), None);
}

#[test]
fn a_value_inside_the_window_is_stored_exact() {
    let mut table = TranspositionTable::new(8);
    table.store(42, 3, 5, -10, 10, Some((1, 2, 2, 2)));
    let e = table.get(42).unwrap();
    assert_eq!(e.depth, 3);
    assert_eq!(e.value, 5);
    assert_eq!(e.flag, NodeType::Exact);
    assert_eq!(e.best_move, Some((1, 2, 2, 2)));
    assert_eq!(table.hint(42), Some((1, 2, 2, 2)));
    assert_eq!(table.len(), 1);
}

#[test]
fn a_value_at_or_below_alpha_is_an_upper_bound() {
    let mut table = TranspositionTable::new(8);
    table.store(1, 2, -10, -10, 10, None);
    assert_eq!(table.get(1).unwrap().flag, NodeType::UpperBound);
    table.store(2, 2, -11, -10, 10, None);
    assert_eq!(table.get(2).unwrap().flag, NodeType::UpperBound);
    table.store(3, 2, 7, 7, 7, None);
    assert_eq!(table.get(3).unwrap().flag, NodeType::UpperBound);
}

#[test]
fn a_value_at_or_above_beta_is_a_lower_bound() {
    let mut table = TranspositionTable::new(8);
    table.store(1, 2, 10, -10, 10, None);
    assert_eq!(table.get(1).unwrap().flag, NodeType::LowerBound);
    table.store(2, 2, 11, -10, 10, None);
    assert_eq!(table.get(2).unwrap().flag, NodeType::LowerBound);
}

#[test]
fn an_exact_entry_of_sufficient_depth_is_used() {
    let mut table = TranspositionTable::new(8);
    table.store(42, 3, 5, -10, 10, Some((1, 2, 2, 2)));
    assert_eq!(use_value(table.probe(42, 3, -100, 100)), Some((5, Some((1, 2, 2, 2)))));
    assert_eq!(use_value(table.probe(42, 1, 7, 8)), Some((5, Some((1, 2, 2, 2)))));
    assert!(matches!(table.probe(42, 4, -100, 100), Probe::Miss));
    assert!(matches!(table.probe(43, 3, -100, 100), Probe::Miss));
}

#[test]
fn a_lower_bound_raises_alpha() {
    let mut table = TranspositionTable::new(8);
    table.store(42, 3, 20, -10, 10, None);
    assert_eq!(tighten(table.probe(42, 3, -100, 100)), Some((20, 100, 20)));
    assert_eq!(tighten(table.probe(42, 3, 30, 100)), Some((30, 100, 20)));
    assert_eq!(tighten(table.probe(42, 3, -100, 15)), Some((20, 15, 20)));
}

#[test]
fn an_upper_bound_lowers_beta() {
    let mut table = TranspositionTable::new(8);
    table.store(42, 3, -20, -10, 10, None);
    assert_eq!(tighten(table.probe(42, 3, -100, 100)), Some((-100, -20, -20)));
    assert_eq!(tighten(table.probe(42, 3, -100, -30)), Some((-100, -30, -20)));
    assert_eq!(tighten(table.probe(42, 3, -15, 100)), Some((-15, -20, -20)));
}

#[test]
fn a_present_hash_is_replaced() {
    let mut table = TranspositionTable::new(1);
    table.store(42, 3, 5, -10, 10, None);
    table.store(42, 1, 50, -10, 10, Some((0, 0, 1, 0)));
    let e = table.get(42).unwrap();
    assert_eq!(e.depth, 1);
    assert_eq!(e.value, 50);
    assert_eq!(e.flag, NodeType::LowerBound);
    assert_eq!(table.len(), 1);
}

#[test]
fn a_full_table_drops_new_hashes() {
    let mut table = TranspositionTable::new(2);
    table.store(1, 1, 1, -10, 10, None);
    table.store(2, 1, 2, -10, 10, None);
    table.store(3, 1, 3, -10, 10, None);
    assert_eq!(table.len(), 2);
    assert!(table.get(1).is_some());
    assert!(table.get(2).is_some());
    assert!(table.get(3).is_none());
    table.store(2, 4, 9, -10, 10, None);
    assert_eq!(table.get(2).unwrap().value, 9);
}

#[test]
fn a_table_without_room_stays_empty() {
    let mut table = TranspositionTable::new(0);
    table.store(1, 1, 1, -10, 10, None);
    assert_eq!(table.len(), 0);
    assert!(matches!(table.probe(1, 0, -10, 10), Probe::Miss));
}
