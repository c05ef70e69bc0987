use yrjo_chess_engine::board::Move;
use yrjo_chess_engine::transposition_table::{NodeType, TranspositionTable, TtStats};

#[test]
fn table_size_rounds_up_to_power_of_two() {
    // 5 slots round up to 8: keys 3 and 11 share slot 3, key 4 does not.
    let mut table = TranspositionTable::new(5);
    table.store(3, 4, NodeType::Exact, 42, None);
    let found = table.probe(3).unwrap();
    assert_eq!(found.score, 42);
    assert_eq!(found.depth, 4);
    assert!(table.probe(11).is_none());
    assert!(table.probe(4).is_none());
    let stats = table.stats();
    assert_eq!((stats.hits, stats.collisions, stats.misses), (1, 1, 1));
}

#[test]
fn read_gives_back_write() {
    let mut table = TranspositionTable::new(16);
    let mv = Move { source: 12, dest: 28, promotion: None };
    table.store(0xabcdef, 6, NodeType::LowerBound, -77, Some(mv));
    let e = table.probe(0xabcdef).unwrap();
    assert_eq!(e.key, 0xabcdef);
    assert_eq!(e.depth, 6);
    assert_eq!(e.node_type, NodeType::LowerBound);
    assert_eq!(e.score, -77);
    assert_eq!(e.best_move, Some(mv));
    assert_eq!(e.age, 0);
}

#[test]
fn deeper_result_for_same_key_is_kept() {
    let mut table = TranspositionTable::new(16);
    table.store(7, 5, NodeType::Exact, 10, None);
    table.store(7, 3, NodeType::Exact, 20, None);
    assert_eq!(table.probe(7).unwrap().score, 10);
    table.store(7, 5, NodeType::UpperBound, 30, None);
    assert_eq!(table.probe(7).unwrap().score, 30);
}

#[test]
fn other_key_evicts_only_older_or_shallower() {
    let mut table = TranspositionTable::new(16);
    table.store(1, 5, NodeType::Exact, 10, None);
    // Same slot (17 & 15 == 1), same search, not deeper: kept.
    table.store(17, 5, NodeType::Exact, 99, None);
    assert_eq!(table.probe(1).unwrap().score, 10);
    // Deeper: replaces.
    table.store(17, 6, NodeType::Exact, 99, None);
    assert!(table.probe(1).is_none());
    assert_eq!(table.probe(17).unwrap().score, 99);
    // A new search makes the entry old: a shallow result now evicts it.
    table.new_search();
    table.store(1, 2, NodeType::Exact, 5, None);
    let e = table.probe(1).unwrap();
    assert_eq!(e.score, 5);
    assert_eq!(e.age, 1);
}

#[test]
fn new_search_clears_counters_and_keeps_entries() {
    let mut table = TranspositionTable::new(8);
    table.store(2, 3, NodeType::Exact, 1, None);
    table.probe(2);
    table.probe(3);
    table.new_search();
    let stats = table.stats();
    assert_eq!((stats.hits, stats.misses, stats.collisions), (0, 0, 0));
    assert_eq!(table.probe(2).unwrap().score, 1);
    let cleared = TtStats::default();
    assert_eq!((cleared.hits, cleared.misses, cleared.collisions), (0, 0, 0));
}

#[test]
fn zero_size_table_has_one_slot() {
    let mut table = TranspositionTable::new(0);
    table.store(5, 2, NodeType::Exact, 8, None);
    assert_eq!(table.probe(5).unwrap().score, 8);
    assert!(table.probe(6).is_none());
}
