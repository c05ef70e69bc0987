use yrjo_chess_engine::alpha_beta_algorithm::{
    from_tt_score, to_tt_score, update_root_best, AlgorithmTraits, AlphaBetaAlgorithm,
};
use yrjo_chess_engine::board::{GameStatus, Move, Position, Side};

#[test]
fn update_root_best_tracks_side_preference() {
    assert_eq!(update_root_best(None, 5, Side::White), 5);
    assert_eq!(update_root_best(Some(3), 5, Side::White), 5);
    assert_eq!(update_root_best(Some(7), 5, Side::White), 7);
    assert_eq!(update_root_best(None, 5, Side::Black), 5);
    assert_eq!(update_root_best(Some(3), 5, Side::Black), 3);
    assert_eq!(update_root_best(Some(7), 5, Side::Black), 5);
}

/// The invariant the random tie-break at the root depends on: every move
/// that ties the best score must be reported with its exact full-window
/// value, and no pruned move may collide with that best score.
#[test]
fn narrowed_root_windows_keep_best_scores_exact() {
    for fen in [
        "r1bqkbnr/pppp1ppp/2n5/4p3/2B1P3/5N2/PPPP1PPP/RNBQK2R w KQkq - 4 3",
        "r1bqkbnr/pppp1ppp/2n5/4p3/2B1P3/5N2/PPPP1PPP/RNBQK2R b KQkq - 4 3",
    ] {
        let board = Position::from_fen(fen).unwrap();
        let depth = 3;

        let mut alg = AlphaBetaAlgorithm::new();
        let narrowed = alg.search_root_moves(board, depth, None);

        // Reference scores: each move searched with the full window by a
        // fresh instance, so nothing is pruned.
        let exact: Vec<(Move, i32)> = narrowed
            .iter()
            .map(|&(mov, _)| {
                let mut reference = AlphaBetaAlgorithm::new();
                let new_board = board.make_move(mov);
                let score = match new_board.side_to_move() {
                    Side::White => reference.alpha_beta_max(new_board, -999999, 999999, depth, None),
                    Side::Black => reference.alpha_beta_min(new_board, -999999, 999999, depth, None),
                };
                (mov, score)
            })
            .collect();

        let best = match board.side_to_move() {
            Side::White => exact.iter().map(|k| k.1).max().unwrap(),
            Side::Black => exact.iter().map(|k| k.1).min().unwrap(),
        };

        for (&(mov, narrowed_score), &(_, exact_score)) in narrowed.iter().zip(exact.iter()) {
            if exact_score == best {
                assert_eq!(narrowed_score, exact_score, "tied-best move {:?} must keep its exact score", mov);
            } else {
                assert_ne!(narrowed_score, best, "pruned move {:?} must not collide with the best score", mov);
            }
        }
    }
}

/// A mate 2 plies below a node searched with 5 plies remaining
/// (raw score 9999 + 3) must read back as the same mate distance when the
/// position is probed by a search with 7 plies remaining.
#[test]
fn mate_scores_round_trip_across_depths() {
    let stored = to_tt_score(9999 + 3, 5);
    assert_eq!(from_tt_score(stored, 7), 9999 + 5);

    let stored = to_tt_score(-9999 - 3, 5);
    assert_eq!(from_tt_score(stored, 7), -9999 - 5);
}

#[test]
fn non_mate_scores_are_untouched() {
    assert_eq!(to_tt_score(150, 7), 150);
    assert_eq!(to_tt_score(-150, 7), -150);
    assert_eq!(from_tt_score(150, 7), 150);
    assert_eq!(from_tt_score(-150, 7), -150);
}

fn game_loop(mut board: Position, calculation_half_depth: i32) -> i32 {
    let mut move_amount = 0;
    let mut alg = AlphaBetaAlgorithm::new();
    loop {
        let ai_move = alg.get_best_move(board, calculation_half_depth).unwrap();
        board = board.make_move(ai_move);
        move_amount += 1;

        let game_result = board.status();

        if game_result != GameStatus::Ongoing {
            println!("Game ended");
            if game_result == GameStatus::Checkmate {
                let winner = match board.side_to_move() {
                    Side::Black => "White",
                    Side::White => "Black",
                };
                println!("Checkmate: {winner} wins");
            } else {
                println!("Stalemate");
            }
            return move_amount;
        }
    }
}

#[test]
fn checkmate1() {
    let board = Position::from_fen("7K/5k2/8/8/8/8/8/r7 w - - 0 1").unwrap();
    let required_moves = game_loop(board, 2);

    assert_eq!(required_moves, 2)
}

#[test]
fn checkmate2() {
    let board = Position::from_fen("7k/8/5K2/8/8/8/8/5R2 w - - 0 1").unwrap();
    let required_moves = game_loop(board, 4);

    assert_eq!(required_moves, 3)
}

#[test]
fn checkmate3() {
    let board = Position::from_fen("8/8/8/5k1K/6r1/8/8/8 w - - 10 6").unwrap();
    let required_moves = game_loop(board, 6);

    assert_eq!(required_moves, 8)
}

/// From a fresh search, every root score is either the exact best value or
/// strictly worse than it, and the chosen move is a best one.
#[test]
fn shallow_root_scores_tie_exactly_and_pick_a_best_move() {
    for fen in [
        "r1bqkbnr/pppp1ppp/2n5/4p3/2B1P3/5N2/PPPP1PPP/RNBQK2R w KQkq - 4 3",
        "r1bqkbnr/pppp1ppp/2n5/4p3/2B1P3/5N2/PPPP1PPP/RNBQK2R b KQkq - 4 3",
        "4k3/8/8/3q4/4P3/8/8/4K3 w - - 0 1",
    ] {
        let board = Position::from_fen(fen).unwrap();
        for depth in [0, 1, 2, 3] {
            let mut alg = AlphaBetaAlgorithm::new();
            let narrowed = alg.search_root_moves(board, depth, None);
            let exact: Vec<i32> = narrowed
                .iter()
                .map(|&(mov, _)| {
                    let mut reference = AlphaBetaAlgorithm::new();
                    let child = board.make_move(mov);
                    match child.side_to_move() {
                        Side::White => reference.alpha_beta_max(child, -999999, 999999, depth, None),
                        Side::Black => reference.alpha_beta_min(child, -999999, 999999, depth, None),
                    }
                })
                .collect();
            let white = board.side_to_move() == Side::White;
            let best = if white { *exact.iter().max().unwrap() } else { *exact.iter().min().unwrap() };
            for (&(_, s), &v) in narrowed.iter().zip(exact.iter()) {
                if v == best {
                    assert_eq!(s, v);
                } else if white {
                    assert!(s < best);
                } else {
                    assert!(s > best);
                }
            }
            let chosen = AlphaBetaAlgorithm::new().get_best_move(board, depth).unwrap();
            let k = narrowed.iter().position(|&(m, _)| m == chosen).unwrap();
            assert_eq!(exact[k], best);
        }
    }
}

#[test]
fn shallow_search_takes_the_hanging_queen() {
    // The e4 pawn can take the queen on d5.
    let board = Position::from_fen("4k3/8/8/3q4/4P3/8/8/4K3 w - - 0 1").unwrap();
    for depth in [0, 1, 2, 3] {
        let chosen = AlphaBetaAlgorithm::new().get_best_move(board, depth).unwrap();
        assert_eq!(chosen, Move { source: 28, dest: 35, promotion: None });
    }
}

/// Transpositions at equal depth: in a rook ending searched four plies
/// below the root moves, many positions are reached by two move orders and
/// answered from the table.  Moves that tie the best still keep the exact
/// score of a fresh full-window search, and no other move reaches it.
#[test]
fn transposed_positions_keep_best_scores_exact() {
    let board = Position::from_fen("7k/8/5K2/8/8/8/8/5R2 w - - 0 1").unwrap();
    let depth = 4;
    let mut alg = AlphaBetaAlgorithm::new();
    let narrowed = alg.search_root_moves(board, depth, None);
    assert!(alg.transposition_table.stats().hits > 0);
    let exact: Vec<i32> = narrowed
        .iter()
        .map(|&(mov, _)| {
            let mut reference = AlphaBetaAlgorithm::new();
            let new_board = board.make_move(mov);
            match new_board.side_to_move() {
                Side::White => reference.alpha_beta_max(new_board, -999999, 999999, depth, None),
                Side::Black => reference.alpha_beta_min(new_board, -999999, 999999, depth, None),
            }
        })
        .collect();
    let best = *exact.iter().max().unwrap();
    for (&(mov, narrowed_score), &exact_score) in narrowed.iter().zip(exact.iter()) {
        if exact_score == best {
            assert_eq!(narrowed_score, exact_score, "tied-best move {:?} must keep its exact score", mov);
        } else {
            assert_ne!(narrowed_score, best, "pruned move {:?} must not collide with the best score", mov);
        }
    }
}

/// Entries from a deeper search answer a shallower one: after a search at
/// depth 3, the same engine's search at depth 2 is settled by deeper
/// results and differs from a fresh search at depth 2.  This is why the
/// minimax law asks for entries at the node's own depth.
#[test]
fn deeper_entries_answer_shallower_searches() {
    let fen = "r1bqkbnr/pppp1ppp/2n5/4p3/2B1P3/5N2/PPPP1PPP/RNBQK2R w KQkq - 4 3";
    let board = Position::from_fen(fen).unwrap();
    let mut reused = AlphaBetaAlgorithm::new();
    reused.alpha_beta_max(board, -999999, 999999, 3, None);
    let after_deeper = reused.alpha_beta_max(board, -999999, 999999, 2, None);
    let mut fresh = AlphaBetaAlgorithm::new();
    let fresh_score = fresh.alpha_beta_max(board, -999999, 999999, 2, None);
    assert_ne!(after_deeper, fresh_score);
}
