use yrjo_chess_engine::benchmark::{benchmark_totals, runs_comparable};
use yrjo_chess_engine::alpha_beta_algorithm::{
    get_random_from_multiple_best_moves, order_tt_move_first, ordered_moves, pick_best_move, sort_by_score,
    terminal_score, AlgorithmTraits, AlphaBetaAlgorithm, SearchStats,
};
use yrjo_chess_engine::board::{GameStatus, Move, Piece, Position, Side};
use yrjo_chess_engine::chromosome::Chromosome;

fn mv(source: u8, dest: u8) -> Move {
    Move { source, dest, promotion: None }
}

#[test]
fn search_stats_start_at_zero() {
    let s = SearchStats::new();
    assert_eq!(
        (s.nodes_searched, s.evaluations, s.cutoffs, s.terminal_nodes, s.tt_hits, s.tt_misses, s.tt_collisions),
        (0, 0, 0, 0, 0, 0, 0)
    );
}

#[test]
fn terminal_scores_prefer_faster_mates() {
    // Black to move, mated.
    let mated_black = Position::from_fen("7k/6Q1/6K1/8/8/8/8/8 b - - 0 1").unwrap();
    assert_eq!(mated_black.status(), GameStatus::Checkmate);
    assert_eq!(terminal_score(&mated_black, 3), 9999 + 3);
    assert_eq!(terminal_score(&mated_black, 0), 9999);
    // White to move, mated.
    let mated_white = Position::from_fen("7K/6q1/6k1/8/8/8/8/8 w - - 0 1").unwrap();
    assert_eq!(terminal_score(&mated_white, 2), -9999 - 2);
    // Stalemate scores zero.
    let stalemate = Position::from_fen("7k/5Q2/6K1/8/8/8/8/8 b - - 0 1").unwrap();
    assert_eq!(stalemate.status(), GameStatus::Stalemate);
    assert_eq!(terminal_score(&stalemate, 4), 0);
}

#[test]
fn captures_come_first() {
    // White rook on a1 can take the black knight on a8; other moves are quiet.
    let board = Position::from_fen("n6k/8/8/8/8/8/8/R6K w - - 0 1").unwrap();
    let moves = ordered_moves(&board);
    assert_eq!(moves.len(), board.legal_move_count());
    assert_eq!(moves[0], mv(0, 56));
    assert!(moves[1..].iter().all(|m| m.dest != 56));
}

#[test]
fn hint_move_goes_first() {
    let mut moves = vec![mv(1, 2), mv(3, 4), mv(5, 6), mv(3, 4)];
    order_tt_move_first(&mut moves, Some(mv(3, 4)));
    assert_eq!(moves, vec![mv(3, 4), mv(1, 2), mv(5, 6), mv(3, 4)]);
    let mut same = vec![mv(1, 2), mv(3, 4)];
    order_tt_move_first(&mut same, Some(mv(9, 9)));
    assert_eq!(same, vec![mv(1, 2), mv(3, 4)]);
    order_tt_move_first(&mut same, None);
    assert_eq!(same, vec![mv(1, 2), mv(3, 4)]);
}

#[test]
fn root_moves_sort_stably_and_pick_the_best() {
    let root = vec![(mv(1, 1), 5), (mv(2, 2), -3), (mv(3, 3), 5), (mv(4, 4), 0)];
    let sorted = sort_by_score(root);
    assert_eq!(sorted, vec![(mv(2, 2), -3), (mv(4, 4), 0), (mv(1, 1), 5), (mv(3, 3), 5)]);
    for _ in 0..20 {
        let i = get_random_from_multiple_best_moves(&sorted, Side::White).unwrap();
        assert!(i < 2);
        assert_eq!(pick_best_move(&sorted, Side::White, i).1, 5);
        let j = get_random_from_multiple_best_moves(&sorted, Side::Black).unwrap();
        assert_eq!(j, 0);
        assert_eq!(pick_best_move(&sorted, Side::Black, j), (mv(2, 2), -3));
    }
    assert_eq!(pick_best_move(&sorted, Side::White, 0), (mv(3, 3), 5));
    assert_eq!(pick_best_move(&sorted, Side::White, 1), (mv(1, 1), 5));
    assert_eq!(get_random_from_multiple_best_moves(&Vec::new(), Side::White), None);
}

#[test]
fn mate_in_one_is_found() {
    // White mates with Qb8.
    let board = Position::from_fen("7k/8/6K1/8/8/8/8/1Q6 w - - 0 1").unwrap();
    let mut alg = AlphaBetaAlgorithm::new();
    let m = alg.get_best_move(board, 1).unwrap();
    assert_eq!(board.make_move(m).status(), GameStatus::Checkmate);
}

#[test]
fn no_move_without_legal_moves() {
    let stalemate = Position::from_fen("7k/5Q2/6K1/8/8/8/8/8 b - - 0 1").unwrap();
    let mut alg = AlphaBetaAlgorithm::new();
    assert_eq!(alg.get_best_move(stalemate, 2), None);
    let (m, _stats) = alg.get_best_move_with_stats(stalemate, 2);
    assert_eq!(m, None);
}

#[test]
fn stats_count_search_work() {
    let board = Position::start();
    let mut alg = AlphaBetaAlgorithm::new();
    let (m, stats) = alg.get_best_move_with_stats(board, 2);
    assert!(m.is_some());
    assert!(stats.nodes_searched >= 20);
    assert!(stats.evaluations > 0);
    assert_eq!(stats.tt_hits, alg.stats.tt_hits);
    let c = Chromosome::new_default();
    let (m2, stats2) = alg.get_best_move_with_chromosome_and_stats(board, 1, &c);
    assert!(m2.is_some());
    assert!(stats2.nodes_searched >= 20);
}

#[test]
fn leaf_nodes_return_material_and_window_results() {
    let board = Position::from_fen("rnbqkbnr/pppppppp/8/8/8/8/PPPPPPPP/R1BQKBNR w KQkq - 0 1").unwrap();
    let mut alg = AlphaBetaAlgorithm::new();
    // Depth 0 evaluates, whatever the window.
    assert_eq!(alg.alpha_beta_max(board, 0, 10, 0, None), -300);
    assert_eq!(alg.alpha_beta_min(board, -1000, -500, 0, None), -300);
    // Depth 1 returns a fail-hard score of the window.
    let r = alg.alpha_beta_max(board, -100, 100, 1, None);
    assert_eq!(r, -100);
    let r = alg.alpha_beta_min(board, -1000, 1000, 1, None);
    assert_eq!(r, -300);
}

#[test]
fn promotion_moves_round_trip() {
    let board = Position::from_fen("8/P6k/8/8/8/8/8/K7 w - - 0 1").unwrap();
    let moves = ordered_moves(&board);
    let promotions: Vec<&Move> = moves.iter().filter(|m| m.promotion.is_some()).collect();
    assert_eq!(promotions.len(), 4);
    let queen = Move { source: 48, dest: 56, promotion: Some(Piece::Queen) };
    assert!(moves.contains(&queen));
    let after = board.make_move(queen);
    assert_eq!(after.piece_bits(Piece::Queen), 1u64 << 56);
    assert_eq!(after.side_to_move(), Side::Black);
}

#[test]
fn leaf_nodes_count_one_node_and_one_evaluation_or_terminal() {
    let board = Position::start();
    let mut alg = AlphaBetaAlgorithm::new();
    alg.alpha_beta_max(board, -999999, 999999, 0, None);
    assert_eq!((alg.stats.nodes_searched, alg.stats.evaluations, alg.stats.terminal_nodes), (1, 1, 0));
    let mated = Position::from_fen("7k/6Q1/6K1/8/8/8/8/8 b - - 0 1").unwrap();
    alg.alpha_beta_min(mated, -999999, 999999, 0, None);
    assert_eq!((alg.stats.nodes_searched, alg.stats.evaluations, alg.stats.terminal_nodes), (2, 1, 1));
}

#[test]
fn benchmark_totals_add_counters_and_report_overflow() {
    let a = SearchStats { nodes_searched: 10, evaluations: 7, cutoffs: 2, terminal_nodes: 1, tt_hits: 3, tt_misses: 4, tt_collisions: 0 };
    let b = SearchStats { nodes_searched: 5, evaluations: 1, cutoffs: 0, terminal_nodes: 0, tt_hits: 1, tt_misses: 2, tt_collisions: 6 };
    let t = benchmark_totals(&vec![(a, 100), (b, 23)]).unwrap();
    assert_eq!(
        (t.stats.nodes_searched, t.stats.evaluations, t.stats.cutoffs, t.stats.terminal_nodes),
        (15, 8, 2, 1)
    );
    assert_eq!((t.stats.tt_hits, t.stats.tt_misses, t.stats.tt_collisions, t.time_ms), (4, 6, 6, 123));
    let empty = benchmark_totals(&Vec::new()).unwrap();
    assert_eq!((empty.stats.nodes_searched, empty.time_ms), (0, 0));
    let huge = SearchStats { tt_collisions: u64::MAX, ..b };
    assert!(benchmark_totals(&vec![(huge, 0), (b, 0)]).is_none());
    assert!(benchmark_totals(&vec![(a, u128::MAX), (b, 1)]).is_none());
}

#[test]
fn benchmark_runs_compare_only_on_the_same_positions_and_depths() {
    let a = vec![("Start".to_string(), 4), ("End".to_string(), 4)];
    assert!(runs_comparable(&a, &a.clone()));
    assert!(!runs_comparable(&a, &vec![("Start".to_string(), 4)]));
    assert!(!runs_comparable(&a, &vec![("Start".to_string(), 4), ("End".to_string(), 3)]));
    assert!(!runs_comparable(&a, &vec![("Start".to_string(), 4), ("Mid".to_string(), 4)]));
    assert!(runs_comparable(&Vec::new(), &Vec::new()));
}

#[test]
fn a_mated_side_scores_the_mate_with_the_depth_left() {
    let board = Position::from_fen("R5k1/8/6K1/8/8/8/8/8 b - - 1 1").unwrap();
    let mut alg = AlphaBetaAlgorithm::new();
    assert_eq!(alg.alpha_beta_min(board, -999999, 999999, 2, None), 10001);
    assert_eq!((alg.stats.nodes_searched, alg.stats.terminal_nodes, alg.stats.evaluations), (1, 1, 0));
}

#[test]
fn root_search_lists_every_legal_move_once() {
    let board = Position::start();
    let mut alg = AlphaBetaAlgorithm::new();
    let root = alg.search_root_moves(board, 1, None);
    assert_eq!(root.len(), board.legal_move_count());
    for (i, a) in root.iter().enumerate() {
        for b in &root[i + 1..] {
            assert_ne!(a.0, b.0);
        }
    }
}

/// Node counting: every root move costs at least one node, every
/// evaluation, terminal node and cutoff happens at a counted node, and the
/// table probes at most once a node.
#[test]
fn search_counters_stay_consistent() {
    let fen = "r1bqkbnr/pppp1ppp/2n5/4p3/2B1P3/5N2/PPPP1PPP/RNBQK2R w KQkq - 4 3";
    let board = Position::from_fen(fen).unwrap();
    let root_moves = board.legal_move_count() as u64;
    let mut alg = AlphaBetaAlgorithm::new();
    for depth in 0..4 {
        let (m, s) = alg.get_best_move_with_stats(board, depth);
        assert!(m.is_some());
        assert!(s.nodes_searched >= root_moves);
        assert!(s.evaluations + s.terminal_nodes + s.cutoffs <= s.nodes_searched);
        assert!(s.tt_hits + s.tt_misses + s.tt_collisions <= s.nodes_searched);
    }
}
