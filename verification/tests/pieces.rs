use yrjo_chess_engine::benchmark::BenchmarkPositions;
use yrjo_chess_engine::board::Position;
use yrjo_chess_engine::chromosome::Chromosome;
use yrjo_chess_engine::evaluator::Evaluator;
use yrjo_chess_engine::game::{single_game_end, valid_game_depth, GameEnd};
use yrjo_chess_engine::board::Side;
use yrjo_chess_engine::repository::{ChromosomeRepository, MemoryChromosomeRepository};
use yrjo_chess_engine::tournament::{play_best_of_3_match, play_chess_match, randomize_opponents};
use yrjo_chess_engine::visualizer::Visualizer;

fn chrom(k: i32) -> Chromosome {
    Chromosome { pawn_value: 100, knight_value: k, bishop_value: 300, rook_value: 500, queen_value: 900, king_value: 10000 }
}

#[test]
fn default_chromosome_values() {
    let c = Chromosome::new_default();
    assert_eq!(
        (c.pawn_value, c.knight_value, c.bishop_value, c.rook_value, c.queen_value, c.king_value),
        (100, 300, 300, 500, 900, 10000)
    );
}

#[test]
fn crossover_swaps_one_gene() {
    let mut a = Chromosome { pawn_value: 1, knight_value: 2, bishop_value: 3, rook_value: 4, queen_value: 5, king_value: 6 };
    let mut b = Chromosome { pawn_value: 10, knight_value: 20, bishop_value: 30, rook_value: 40, queen_value: 50, king_value: 60 };
    a.crossover_gene(&mut b, 3);
    assert_eq!((a.rook_value, b.rook_value), (40, 4));
    assert_eq!((a.knight_value, b.knight_value), (2, 20));
    a.crossover_gene(&mut b, 0);
    assert_eq!((a.rook_value, b.rook_value), (40, 4));
    for _ in 0..10 {
        a.crossover(&mut b);
        let mut pairs = vec![(a.knight_value, b.knight_value), (a.bishop_value, b.bishop_value), (a.queen_value, b.queen_value)];
        pairs.iter_mut().for_each(|p| if p.0 > p.1 { *p = (p.1, p.0) });
        assert_eq!(pairs, vec![(2, 20), (3, 30), (5, 50)]);
        assert_eq!((a.pawn_value, a.king_value, b.pawn_value, b.king_value), (1, 6, 10, 60));
    }
}

#[test]
fn memory_repository_reads_back_writes() {
    let mut repo = MemoryChromosomeRepository::new();
    assert_eq!(repo.read_chromosomes().unwrap().len(), 0);
    repo.write_chromosomes(&[chrom(1), chrom(2)]).unwrap();
    repo.write_tournament_winners(&[chrom(3)]).unwrap();
    repo.write_tournament_winners_with_count(&[chrom(4)], 7).unwrap();
    let all: Vec<i32> = repo.read_chromosomes().unwrap().iter().map(|c| c.knight_value).collect();
    assert_eq!(all, vec![1, 2, 3, 4]);
    assert!(repo.validate_player_count(12).is_ok());
}

#[test]
fn opponents_are_paired_once() {
    let players: Vec<Chromosome> = (0..7).map(chrom).collect();
    let pairs = randomize_opponents(players);
    assert_eq!(pairs.len(), 3);
    let mut seen: Vec<i32> = pairs.iter().flat_map(|p| [p.0.knight_value, p.1.knight_value]).collect();
    seen.sort();
    seen.dedup();
    assert_eq!(seen.len(), 6);
    assert!(seen.iter().all(|k| (0..7).contains(k)));
    assert_eq!(randomize_opponents(vec![chrom(1)]).len(), 0);
}

#[test]
fn games_and_matches_have_valid_outcomes() {
    let r = play_chess_match(Chromosome::new_default(), chrom(280), 0);
    assert!((-1..=1).contains(&r));
    let winner = play_best_of_3_match((chrom(301), chrom(302)), 0);
    assert!(winner.knight_value == 301 || winner.knight_value == 302);
}

#[test]
fn piece_symbols() {
    assert_eq!(Visualizer::get_piece_symbol('K'), "\u{2654} ");
    assert_eq!(Visualizer::get_piece_symbol('q'), "\u{265B} ");
    assert_eq!(Visualizer::get_piece_symbol('3'), "      ");
    assert_eq!(Visualizer::get_piece_symbol('0'), "");
}

#[test]
fn board_drawing_of_start() {
    let lines = Visualizer::board_lines(&Position::start());
    assert_eq!(lines.len(), 9);
    assert_eq!(lines[0], "8 \u{265C} \u{265E} \u{265D} \u{265B} \u{265A} \u{265D} \u{265E} \u{265C} ");
    assert_eq!(lines[1], "7 \u{265F} \u{265F} \u{265F} \u{265F} \u{265F} \u{265F} \u{265F} \u{265F} ");
    assert_eq!(lines[2], format!("6 {}", " ".repeat(16)));
    assert_eq!(lines[7], "1 \u{2656} \u{2658} \u{2657} \u{2655} \u{2654} \u{2657} \u{2658} \u{2656} ");
    assert_eq!(lines[8], "  a b c d e f g h");
    assert_eq!(Position::start().to_fen(), "rnbqkbnr/pppppppp/8/8/8/8/PPPPPPPP/RNBQKBNR w KQkq - 0 1");
}

#[test]
fn standard_positions_parse() {
    let positions = BenchmarkPositions::get_standard_positions();
    assert_eq!(positions.len(), 8);
    assert_eq!(positions[0].0, "Starting Position");
    for (_, fen) in positions {
        assert!(Position::from_fen(fen).is_some());
    }
    assert!(Position::from_fen("not a fen").is_none());
    assert_eq!(Evaluator::evaluate(Position::from_fen(BenchmarkPositions::get_standard_positions()[3].1).unwrap()), 0);
}

#[test]
fn single_game_end_rules() {
    assert!(valid_game_depth(1) && valid_game_depth(10));
    assert!(!valid_game_depth(0) && !valid_game_depth(11));
    let mated_black = Position::from_fen("7k/6Q1/6K1/8/8/8/8/8 b - - 0 1").unwrap();
    assert_eq!(single_game_end(&mated_black, 3, 200), Some(GameEnd::Checkmate { winner: Side::White }));
    assert_eq!(single_game_end(&mated_black, 200, 200), Some(GameEnd::MaxMovesReached));
    let stalemate = Position::from_fen("7k/5Q2/6K1/8/8/8/8/8 b - - 0 1").unwrap();
    assert_eq!(single_game_end(&stalemate, 1, 200), Some(GameEnd::Stalemate));
    assert_eq!(single_game_end(&Position::start(), 1, 200), None);
}

#[test]
fn chromosome_evaluation_uses_its_values() {
    let c = chrom(250);
    let board = Position::from_fen("rnbqkbnr/pppppppp/8/8/8/8/PPPPPPPP/R1BQKBNR w KQkq - 0 1").unwrap();
    assert_eq!(Evaluator::evaluate_with_chromosome(board, &c), -250);
}
