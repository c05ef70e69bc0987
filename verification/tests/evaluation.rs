use yrjo_chess_engine::board::Position;
use yrjo_chess_engine::chromosome::Chromosome;
use yrjo_chess_engine::evaluator::Evaluator;

#[test]
fn starting_position_is_balanced() {
    assert_eq!(Evaluator::evaluate(Position::start()), 0);
}

#[test]
fn missing_knight_costs_its_default_value() {
    // White is missing the b1 knight
    let board = Position::from_fen("rnbqkbnr/pppppppp/8/8/8/8/PPPPPPPP/R1BQKBNR w KQkq - 0 1").unwrap();
    assert_eq!(Evaluator::evaluate(board), -300);
}

#[test]
fn chromosome_values_drive_the_score() {
    let chromosome = Chromosome {
        pawn_value: 1,
        knight_value: 3,
        bishop_value: 3,
        rook_value: 5,
        queen_value: 9,
        king_value: 0,
    };
    // Black is missing the d8 queen
    let board = Position::from_fen("rnb1kbnr/pppppppp/8/8/8/8/PPPPPPPP/RNBQKBNR w KQkq - 0 1").unwrap();
    assert_eq!(Evaluator::evaluate_with_chromosome(board, &chromosome), 9);
    assert_eq!(Evaluator::evaluate(board), 900);
}
