use yrjo_chess_engine::alpha_beta_algorithm::AlphaBetaAlgorithm;
use yrjo_chess_engine::board::{GameStatus, Position};
use yrjo_chess_engine::chromosome::Chromosome;
use yrjo_chess_engine::game::{single_game_step, starting_position, GameEnd, SingleStep};
use yrjo_chess_engine::tournament::{
    breed_generation, match_winner_of, tournament_champion, tournament_continues, tournament_round, MutationRate, RoundOutcome,
};

fn chrom(k: i32) -> Chromosome {
    Chromosome {
        pawn_value: 100,
        knight_value: 300 + k,
        bishop_value: 310 + k,
        rook_value: 500 + k,
        queen_value: 900 + k,
        king_value: 10000,
    }
}

fn genes(c: &Chromosome) -> [i32; 6] {
    [c.pawn_value, c.knight_value, c.bishop_value, c.rook_value, c.queen_value, c.king_value]
}

/// `x`, `y` come from `a`, `b` by switching at most one of the four middle values.
fn is_crossed(a: &Chromosome, b: &Chromosome, x: &Chromosome, y: &Chromosome) -> bool {
    let (a, b, x, y) = (genes(a), genes(b), genes(x), genes(y));
    let mut switched = 0;
    for k in 0..6 {
        if x[k] == a[k] && y[k] == b[k] {
            continue;
        }
        if (1..=4).contains(&k) && x[k] == b[k] && y[k] == a[k] {
            switched += 1;
        } else {
            return false;
        }
    }
    switched <= 1
}

#[test]
fn breeding_crosses_winner_pairs_and_keeps_the_odd_one() {
    let winners = vec![chrom(1), chrom(2), chrom(3)];
    let generation = breed_generation(&winners, 3);
    assert_eq!(generation.len(), 3);
    assert!(is_crossed(&winners[0], &winners[1], &generation[0].0, &generation[1].0));
    assert_eq!(generation[0].1, MutationRate::Normal);
    assert_eq!(generation[1].1, MutationRate::Normal);
    assert_eq!(genes(&generation[2].0), genes(&winners[2]));
    assert_eq!(generation[2].1, MutationRate::Unchanged);
}

#[test]
fn breeding_fills_up_with_crossed_pairs_and_cuts_to_size() {
    let winners = vec![chrom(1), chrom(2)];
    for wanted in [2, 3, 4, 5, 6, 7] {
        let generation = breed_generation(&winners, wanted);
        assert_eq!(generation.len(), wanted as usize);
        let mut k = 2;
        while k + 1 < generation.len() {
            let (x, y) = (&generation[k].0, &generation[k + 1].0);
            assert!(
                is_crossed(&winners[0], &winners[1], x, y) || is_crossed(&winners[1], &winners[0], x, y)
            );
            k += 2;
        }
        assert!(generation.iter().all(|g| g.1 == MutationRate::Normal));
    }
    // More winners than wanted: cut down.
    let many = vec![chrom(1), chrom(2), chrom(3), chrom(4)];
    assert_eq!(breed_generation(&many, 1).len(), 1);
    assert_eq!(breed_generation(&many, 0).len(), 0);
    // A negative target cuts nothing.
    assert_eq!(breed_generation(&many, -1).len(), 4);
}

#[test]
fn a_lone_winner_is_copied_for_high_mutation() {
    let winners = vec![chrom(7)];
    let generation = breed_generation(&winners, 4);
    assert_eq!(generation.len(), 4);
    assert_eq!(genes(&generation[0].0), genes(&chrom(7)));
    assert_eq!(generation[0].1, MutationRate::Unchanged);
    for g in &generation[1..] {
        assert_eq!(genes(&g.0), genes(&chrom(7)));
        assert_eq!(g.1, MutationRate::High);
    }
    assert!(breed_generation(&Vec::new(), 5).is_empty());
}

#[test]
fn tournaments_play_at_most_two_rounds_of_two_players_or_more() {
    assert!(tournament_continues(2, 1));
    assert!(tournament_continues(10, 2));
    assert!(!tournament_continues(1, 1));
    assert!(!tournament_continues(0, 1));
    assert!(!tournament_continues(4, 3));
}

#[test]
fn a_first_round_breeds_and_a_last_round_ends() {
    let players = vec![Chromosome::new_default(), chrom(5), chrom(9), chrom(-5)];
    match tournament_round(players.clone(), 1, 4, 0) {
        RoundOutcome::Breed(bred) => assert_eq!(bred.len(), 4),
        RoundOutcome::Final(_) => panic!("two winners of a first round breed"),
    }
    match tournament_round(players.clone(), 2, 4, 0) {
        RoundOutcome::Final(winners) => {
            assert_eq!(winners.len(), 2);
            assert!(winners.iter().all(|w| players.iter().any(|p| genes(p) == genes(w))));
            assert_ne!(genes(&winners[0]), genes(&winners[1]));
        }
        RoundOutcome::Breed(_) => panic!("the last round does not breed"),
    }
    // A single match has a single winner, which ends the tournament.
    match tournament_round(vec![chrom(1), chrom(2), chrom(3)], 1, 4, 0) {
        RoundOutcome::Final(winners) => assert_eq!(winners.len(), 1),
        RoundOutcome::Breed(_) => panic!("one winner does not breed"),
    }
}

#[test]
fn single_game_steps_play_to_mate_and_to_the_move_limit() {
    // White mates with Qb8.
    let board = Position::from_fen("7k/8/6K1/8/8/8/8/1Q6 w - - 0 1").unwrap();
    let mut alg = AlphaBetaAlgorithm::new();
    match single_game_step(&mut alg, board, 1, 0, 200) {
        SingleStep::Moved { mv, board: next, end } => {
            assert_eq!(next.to_fen(), board.make_move(mv).to_fen());
            assert_eq!(next.status(), GameStatus::Checkmate);
            assert_eq!(end, Some(GameEnd::Checkmate { winner: yrjo_chess_engine::board::Side::White }));
        }
        SingleStep::NoLegalMove | SingleStep::LimitReached => panic!("white has moves"),
    }
    // The move limit ends the game first.
    match single_game_step(&mut alg, Position::start(), 1, 4, 5) {
        SingleStep::Moved { end, .. } => assert_eq!(end, Some(GameEnd::MaxMovesReached)),
        SingleStep::NoLegalMove | SingleStep::LimitReached => panic!("white has moves"),
    }
    match single_game_step(&mut alg, Position::start(), 1, 3, 5) {
        SingleStep::Moved { end, .. } => assert_eq!(end, None),
        SingleStep::NoLegalMove | SingleStep::LimitReached => panic!("white has moves"),
    }
    let stalemate = Position::from_fen("7k/5Q2/6K1/8/8/8/8/8 b - - 0 1").unwrap();
    assert!(matches!(single_game_step(&mut alg, stalemate, 1, 0, 5), SingleStep::NoLegalMove));
}

#[test]
fn single_games_start_from_the_given_fen_or_the_standard_position() {
    let standard = starting_position(None).unwrap();
    assert_eq!(standard.to_fen(), Position::start().to_fen());
    let fen = "7k/8/6K1/8/8/8/8/1Q6 w - - 0 1";
    assert_eq!(starting_position(Some(fen)).unwrap().to_fen(), fen);
    assert!(starting_position(Some("not a position")).is_none());
}

#[test]
fn a_reached_move_limit_plays_nothing() {
    let mut alg = AlphaBetaAlgorithm::new();
    assert!(matches!(single_game_step(&mut alg, Position::start(), 1, 0, 0), SingleStep::LimitReached));
    assert!(matches!(single_game_step(&mut alg, Position::start(), 1, 5, 5), SingleStep::LimitReached));
}

#[test]
fn the_match_winner_has_more_wins_or_wins_the_toss() {
    assert_eq!(match_winner_of(&vec![1, 1], 1), 0);
    assert_eq!(match_winner_of(&vec![-1, 0, -1], 0), 1);
    assert_eq!(match_winner_of(&vec![1, -1, 0], 0), 0);
    assert_eq!(match_winner_of(&vec![1, -1, 0], 1), 1);
    assert_eq!(match_winner_of(&vec![0, 0, 0], 1), 1);
    assert_eq!(match_winner_of(&vec![1, 0, 0], 1), 0);
}

#[test]
fn positions_with_more_than_sixteen_pieces_a_side_are_refused() {
    assert!(Position::from_fen("7k/8/PPPPPPPP/8/PPPPPPPP/8/PPPPPPPP/K7 w - - 0 1").is_none());
    assert!(starting_position(Some("7k/8/PPPPPPPP/8/PPPPPPPP/8/PPPPPPPP/K7 w - - 0 1")).is_none());
    assert!(Position::from_fen("rnbqkbnr/pppppppp/8/8/8/8/PPPPPPPP/RNBQKBNR w KQkq - 0 1").is_some());
}

#[test]
fn the_champion_is_the_first_final_player() {
    assert_eq!(genes(&tournament_champion(&vec![chrom(3), chrom(4)]).unwrap()), genes(&chrom(3)));
    assert!(tournament_champion(&Vec::new()).is_none());
}

#[test]
fn fens_without_the_king_to_move_or_with_bad_ranks_are_refused() {
    assert!(Position::from_fen("8/8/8/8/8/8/8/k7 w - - 0 1").is_none());
    assert!(Position::from_fen("KPPPPPPPP/8/8/8/8/8/8/k7 w - - 0 1").is_none());
    assert!(Position::from_fen("7k/8/8/8/8/8/8/K7 w - - 0 1").is_some());
    assert!(Position::from_fen("7k/8/8/8/8/8/8/K7 x - - 0 1").is_none());
    assert!(Position::from_fen("").is_none());
    assert!(starting_position(Some("8/8/8/8/8/8/8/k7 w - - 0 1")).is_none());
}

#[test]
fn a_lone_wide_en_passant_field_is_refused() {
    assert!(Position::from_fen("7k/8/8/8/8/8/8/K7 w - \u{e9} 0 1").is_none());
    assert!(Position::from_fen("7k/8/8/8/8/8/8/K7 w - \u{e9}").is_none());
    assert!(Position::from_fen("7k/8/8/8/8/8/8/K7 w - e\u{e9} 0 1").is_some());
    assert!(Position::from_fen("7k/8/8/8/8/8/8/K7 w - - \u{e9} 1").is_some());
}

#[test]
fn placements_the_crate_reads_by_wrapping_are_accepted() {
    assert!(Position::from_fen("7k/8/8/8/8/8/8/K7/8 w - - 0 1").is_some());
    assert!(Position::from_fen("7k1/8/8/8/8/8/8/K7 w - - 0 1").is_some());
    assert!(Position::from_fen("7k/8/8/8/8/8/8/K7 w").is_none());
    assert!(Position::from_fen("7k/8/8/8/8/8/8/7K b - - 0 1").is_some());
}
