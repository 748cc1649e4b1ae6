use maxwell::constants::CHECKMATE;
use maxwell::move_data::flag;
use maxwell::move_data::MoveData;
use maxwell::transposition_table::{EvalBound, TTEntry, TranspositionTable, MEGABYTE, TT_ENTRY_SIZE};

fn entry(key: u64, to: u8, bound: EvalBound, eval: i16, depth: u8) -> TTEntry {
    TTEntry {
        key,
        best_move: MoveData { from: 1, to, piece: 3, flag: flag::NONE },
        eval_bound: bound,
        eval,
        depth,
    }
}

#[test]
fn table_has_one_slot_per_entry_size() {
    let table = TranspositionTable::new(1);
    assert_eq!(table.table.len(), MEGABYTE / TT_ENTRY_SIZE);
    assert_eq!(table.entries, 0);
    assert_eq!(table.mbs, 1);
    assert_eq!(table.get_index(5), 5);
    let slots = table.table.len() as u64;
    assert_eq!(table.get_index(slots + 7), 7);
    assert_eq!(table.get_index(u64::MAX), (u64::MAX % slots) as usize);
}

#[test]
fn empty_table_misses_and_ignores() {
    let mut table = TranspositionTable::new(0);
    assert_eq!(table.table.len(), 0);
    table.store(entry(42, 2, EvalBound::Exact, 10, 3), 0);
    assert_eq!(table.entries, 0);
    assert!(table.get(42).is_none());
    assert_eq!(table.lookup(42, 0, 0, -100, 100), (None, None));
}

#[test]
fn stored_entries_are_found_by_key() {
    let mut table = TranspositionTable::new(1);
    let slots = table.table.len() as u64;
    table.store(entry(42, 2, EvalBound::Exact, 10, 3), 0);
    assert_eq!(table.entries, 1);
    let found = table.get(42).unwrap();
    assert_eq!((found.key, found.eval, found.depth, found.best_move.to), (42, 10, 3, 2));
    assert!(table.get(43).is_none());
    assert!(table.get(42 + slots).is_none());
    table.store(entry(42 + slots, 9, EvalBound::Exact, 20, 3), 0);
    assert!(table.get(42).is_none());
    assert_eq!(table.get(42 + slots).unwrap().best_move.to, 9);
    assert_eq!(table.entries, 1);
    table.store(entry(7, 9, EvalBound::Alpha, 20, 3), 0);
    assert_eq!(table.entries, 2);
    table.resize(1);
    assert_eq!(table.entries, 0);
    assert!(table.get(7).is_none());
}

#[test]
fn replacement_prefers_depth_and_exact_values() {
    let mut table = TranspositionTable::new(1);
    table.store(entry(1, 1, EvalBound::Beta, 10, 5), 0);
    table.store(entry(1, 2, EvalBound::Exact, 20, 4), 0);
    assert_eq!(table.get(1).unwrap().best_move.to, 1);
    table.store(entry(1, 3, EvalBound::Alpha, 30, 5), 0);
    assert_eq!(table.get(1).unwrap().best_move.to, 3);
    table.store(entry(1, 4, EvalBound::Exact, 40, 5), 0);
    assert_eq!(table.get(1).unwrap().best_move.to, 4);
    table.store(entry(1, 5, EvalBound::Beta, 50, 5), 0);
    assert_eq!(table.get(1).unwrap().best_move.to, 4);
    table.store(entry(1, 6, EvalBound::Exact, 60, 5), 0);
    assert_eq!(table.get(1).unwrap().best_move.to, 6);
    table.store(entry(1, 7, EvalBound::Alpha, 70, 6), 0);
    assert_eq!(table.get(1).unwrap().best_move.to, 7);
    assert_eq!(table.entries, 1);
}

#[test]
fn lookup_uses_bounds_within_the_window() {
    let mut table = TranspositionTable::new(1);
    table.store(entry(1, 1, EvalBound::Exact, 33, 5), 0);
    table.store(entry(2, 2, EvalBound::Beta, 80, 5), 0);
    table.store(entry(3, 3, EvalBound::Alpha, -80, 5), 0);
    let best = |to: u8| Some(MoveData { from: 1, to, piece: 3, flag: flag::NONE });
    assert_eq!(table.lookup(1, 5, 0, -10, 10), (Some(33), best(1)));
    assert_eq!(table.lookup(1, 6, 0, -10, 10), (None, best(1)));
    assert_eq!(table.lookup(2, 5, 0, -10, 10), (Some(10), best(2)));
    assert_eq!(table.lookup(2, 5, 0, -10, 80), (Some(80), best(2)));
    assert_eq!(table.lookup(2, 5, 0, -10, 81), (None, best(2)));
    assert_eq!(table.lookup(3, 2, 0, -10, 10), (Some(-10), best(3)));
    assert_eq!(table.lookup(3, 2, 0, -80, 10), (Some(-80), best(3)));
    assert_eq!(table.lookup(3, 2, 0, -81, 10), (None, best(3)));
    assert_eq!(table.lookup(4, 0, 0, -10, 10), (None, None));
}

#[test]
fn mate_scores_are_kept_from_the_position() {
    let mut table = TranspositionTable::new(1);
    table.store(entry(1, 1, EvalBound::Exact, CHECKMATE - 5, 5), 3);
    assert_eq!(table.get(1).unwrap().eval, CHECKMATE - 2);
    assert_eq!(table.lookup(1, 5, 3, -10, 10).0, Some(CHECKMATE - 5));
    assert_eq!(table.lookup(1, 5, 1, -10, 10).0, Some(CHECKMATE - 3));
    table.store(entry(2, 1, EvalBound::Exact, -(CHECKMATE - 5), 5), 3);
    assert_eq!(table.get(2).unwrap().eval, -(CHECKMATE - 2));
    assert_eq!(table.lookup(2, 5, 4, -10, 10).0, Some(-(CHECKMATE - 6)));
    table.store(entry(3, 1, EvalBound::Exact, 500, 5), 3);
    assert_eq!(table.get(3).unwrap().eval, 500);
    table.store(entry(4, 1, EvalBound::Exact, i16::MAX, 5), 200);
    assert_eq!(table.get(4).unwrap().eval, i16::MAX);
    table.store(entry(5, 1, EvalBound::Beta, CHECKMATE - 5, 5), 3);
    assert_eq!(table.lookup(5, 5, 3, -10, CHECKMATE - 5).0, Some(CHECKMATE - 5));
    assert_eq!(table.lookup(5, 5, 3, -10, CHECKMATE - 4).0, None);
}
