//! The rules that end a single game between two searches.
use vstd::prelude::*;
use crate::alpha_beta_algorithm::{
    AlgorithmTraits, AlphaBetaAlgorithm, MAX_SEARCH_DEPTH, is_minimax_move, root_sound,
    root_values_in_window, spec_ordered_moves,
};
use crate::board::{
    GameStatus, Move, Position, Side, fen_sane, is_generated_move, pieces_fit, spec_make_move, spec_parse_fen, spec_status, start_fen,
    opponent,
};

verus! {

/// The deepest search a single game may be played at.
pub const MAX_GAME_DEPTH: i32 = 10;

/// Why a single game stopped.
#[derive(Clone, Copy, Debug, PartialEq, Eq, Structural)]
pub enum GameEnd {
    /// The move limit was reached; the game is scored a draw.
    MaxMovesReached,
    /// The side to move is mated; the other side wins.
    Checkmate { winner: Side },
    /// The side to move has no legal move and is not in check.
    Stalemate,
}

/// A single game is played at a depth from 1 to 10.
pub fn valid_game_depth(depth: i32) -> (r: bool)
    ensures
        r == (1 <= depth <= MAX_GAME_DEPTH),
{
    1 <= depth && depth <= MAX_GAME_DEPTH
}

/// How a game stands after `move_amount` moves: over at the move limit;
/// otherwise over at checkmate (won by the side that just moved) or
/// stalemate; otherwise still on.
pub open spec fn spec_game_end(status: GameStatus, side: Side, move_amount: u32, max_moves: u32) -> Option<
    GameEnd,
> {
    if move_amount >= max_moves {
        Some(GameEnd::MaxMovesReached)
    } else {
        match status {
            GameStatus::Ongoing => None,
            GameStatus::Checkmate => Some(GameEnd::Checkmate { winner: opponent(side) }),
            GameStatus::Stalemate => Some(GameEnd::Stalemate),
        }
    }
}

/// On checkmate before the move limit the game ends with a winner, and the
/// winner is never the mated side, the side to move; stalemate ends it
/// without a winner.
pub proof fn law_checkmate_winner_is_not_the_mated_side(side: Side, move_amount: u32, max_moves: u32)
    ensures
        move_amount < max_moves ==> (spec_game_end(GameStatus::Checkmate, side, move_amount, max_moves) matches Some(
            GameEnd::Checkmate { winner },
        ) && winner != side),
        move_amount < max_moves ==> spec_game_end(GameStatus::Stalemate, side, move_amount, max_moves) == Some(
            GameEnd::Stalemate,
        ),
{
}

/// Decides whether a single game is over after a move.
pub fn single_game_end(board: &Position, move_amount: u32, max_moves: u32) -> (r: Option<GameEnd>)
    ensures
        r == spec_game_end(spec_status(board@), board@.side, move_amount, max_moves),
{
    if move_amount >= max_moves {
        return Some(GameEnd::MaxMovesReached);
    }
    proof {
        use_type_invariant(board);
    }
    match board.status() {
        GameStatus::Ongoing => None,
        GameStatus::Checkmate => Some(
            GameEnd::Checkmate {
                winner: match board.side_to_move() {
                    Side::White => Side::Black,
                    Side::Black => Side::White,
                },
            },
        ),
        GameStatus::Stalemate => Some(GameEnd::Stalemate),
    }
}

/// What one move of a single game did.
pub enum SingleStep {
    /// The move limit was already reached; nothing was played.
    LimitReached,
    /// The side to move had no legal move; nothing was played.
    NoLegalMove,
    /// `mv` was played and gave `board`; `end` says whether the game is over.
    Moved { mv: Move, board: Position, end: Option<GameEnd> },
}

/// Plays the next move of a single game in which `moves_played` moves have
/// been played: nothing once the limit of `max_moves` moves is reached, else
/// the search's best move at `depth`, and whether the game is over after it.
pub fn single_game_step(
    alg: &mut AlphaBetaAlgorithm,
    board: Position,
    depth: i32,
    moves_played: u32,
    max_moves: u32,
) -> (r: SingleStep)
    requires
        old(alg).ready(),
        0 <= depth <= MAX_SEARCH_DEPTH,
    ensures
        final(alg).ready(),
        r is LimitReached <==> moves_played >= max_moves,
        r is NoLegalMove <==> moves_played < max_moves && spec_ordered_moves(board@).len() == 0,
        r matches SingleStep::Moved { mv, board: next, end } ==> {
            &&& is_generated_move(board@, mv)
            &&& next@ == spec_make_move(board@, mv)
            &&& end == spec_game_end(spec_status(next@), next@.side, (moves_played + 1) as u32, max_moves)
            &&& root_sound(old(alg).transposition_table@, board@, depth as int, None) && root_values_in_window(
                board@,
                depth as int,
                None,
            ) ==> is_minimax_move(board@, mv, depth as int, None)
        },
{
    if moves_played >= max_moves {
        return SingleStep::LimitReached;
    }
    match alg.get_best_move(board, depth) {
        None => SingleStep::NoLegalMove,
        Some(mv) => {
            let next = board.make_move(mv);
            let end = single_game_end(&next, moves_played + 1, max_moves);
            SingleStep::Moved { mv, board: next, end }
        },
    }
}

/// The position a single game starts from: the one read from `fen` when
/// there is one (`None` when the FEN is refused, see `Position::from_fen`),
/// else the standard starting position.
pub fn starting_position(fen: Option<&str>) -> (r: Option<Position>)
    ensures
        match fen {
            Some(f) => match r {
                Some(p) => spec_parse_fen(f@) == Some(p@),
                None => !(fen_sane(f@) && (spec_parse_fen(f@) matches Some(s) && pieces_fit(s))),
            },
            None => r matches Some(p) && spec_parse_fen(start_fen()) == Some(p@),
        },
{
    match fen {
        Some(f) => Position::from_fen(f),
        None => Some(Position::start()),
    }
}

} // verus!
