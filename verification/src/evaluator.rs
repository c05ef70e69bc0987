//! Material evaluation of positions.
use vstd::prelude::*;
use crate::board::{bit_count, popcnt, Piece, Position, BoardState, Side};
use crate::chromosome::{Chromosome, value_in_range};

verus! {

/// Scores positions: positive favours White, negative Black.
pub struct Evaluator;

/// The piece kinds in the order of `BoardState::pieces`.
pub open spec fn kind_at(k: int) -> Piece {
    if k == 0 {
        Piece::Pawn
    } else if k == 1 {
        Piece::Knight
    } else if k == 2 {
        Piece::Bishop
    } else if k == 3 {
        Piece::Rook
    } else if k == 4 {
        Piece::Queen
    } else {
        Piece::King
    }
}

/// The value of a piece: the chromosome's when there is one, else pawn 100,
/// knight 300, bishop 300, rook 500, queen 900, king 10000.
pub open spec fn piece_value(kind: Piece, chromosome: Option<Chromosome>) -> int {
    match chromosome {
        Some(c) => c.gene(kind) as int,
        None => match kind {
            Piece::Pawn => 100,
            Piece::Knight => 300,
            Piece::Bishop => 300,
            Piece::Rook => 500,
            Piece::Queen => 900,
            Piece::King => 10000,
        },
    }
}

/// White's count minus Black's count of the pieces in slot `k`.
pub open spec fn count_difference(state: BoardState, k: int) -> int {
    bit_count(state.pieces[k] & state.colors[0]) - bit_count(state.pieces[k] & state.colors[1])
}

/// What the pieces in slot `k` add to the material balance.
pub open spec fn material_term(state: BoardState, chromosome: Option<Chromosome>, k: int) -> int {
    count_difference(state, k) * piece_value(kind_at(k), chromosome)
}

/// The material balance over the first `n` piece kinds.
pub open spec fn material_upto(state: BoardState, chromosome: Option<Chromosome>, n: int) -> int
    decreases n,
{
    if n <= 0 {
        0
    } else {
        material_upto(state, chromosome, n - 1) + material_term(state, chromosome, n - 1)
    }
}

/// The evaluation of this position does not overflow: every term of the
/// material balance, and every partial sum of them, fits in an `i32`.
pub open spec fn evaluation_fits(state: BoardState, chromosome: Option<Chromosome>) -> bool {
    forall|k: int|
        0 <= k < 6 ==> i32::MIN <= #[trigger] material_term(state, chromosome, k) <= i32::MAX
            && i32::MIN <= material_upto(state, chromosome, k + 1) <= i32::MAX
}

/// The material balance of a position: over all piece kinds, the value of
/// the kind times White's count minus Black's count.
pub open spec fn material_score(state: BoardState, chromosome: Option<Chromosome>) -> int {
    material_upto(state, chromosome, 6)
}

/// The chromosome behind an optional reference.
pub open spec fn owned(chromosome: Option<&Chromosome>) -> Option<Chromosome> {
    match chromosome {
        Some(c) => Some(*c),
        None => None,
    }
}

/// The chromosome, if any, holds piece values the evaluator accepts.
pub open spec fn values_in_range(chromosome: Option<Chromosome>) -> bool {
    match chromosome {
        Some(c) => c.in_range(),
        None => true,
    }
}

spec fn two_pow(n: nat) -> nat
    decreases n,
{
    if n == 0 {
        1
    } else {
        2 * two_pow((n - 1) as nat)
    }
}

proof fn lemma_bit_count_bound(x: u64, n: nat)
    requires
        x < two_pow(n),
    ensures
        bit_count(x) <= n,
    decreases n,
{
    if x != 0 {
        if n == 0 {
            assert(false);
        } else {
            lemma_bit_count_bound(x / 2, (n - 1) as nat);
        }
    }
}

/// A word has at most 64 set bits.
pub proof fn lemma_bit_count_le_64(x: u64)
    ensures
        bit_count(x) <= 64,
{
    assert(two_pow(64) == 0x10000000000000000) by {
        reveal_with_fuel(two_pow, 65);
    }
    lemma_bit_count_bound(x, 64);
}

proof fn lemma_material_bound(state: BoardState, chromosome: Option<Chromosome>, n: int)
    requires
        0 <= n <= 6,
        values_in_range(chromosome),
    ensures
        -n * 320000000 <= material_upto(state, chromosome, n) <= n * 320000000,
    decreases n,
{
    if n > 0 {
        lemma_material_bound(state, chromosome, n - 1);
        let k = n - 1;
        lemma_bit_count_le_64(state.pieces[k] & state.colors[0]);
        lemma_bit_count_le_64(state.pieces[k] & state.colors[1]);
        let d = count_difference(state, k);
        let v = piece_value(kind_at(k), chromosome);
        assert(-64 <= d <= 64);
        assert(-5000000 <= v <= 5000000);
        assert(-320000000 <= d * v <= 320000000) by (nonlinear_arith)
            requires
                -64 <= d <= 64,
                -5000000 <= v <= 5000000,
        ;
    }
}

/// The material balance of any position, with piece values the evaluator
/// accepts, stays within 1,920,000,000 in magnitude.
pub proof fn lemma_material_score_bound(state: BoardState, chromosome: Option<Chromosome>)
    requires
        values_in_range(chromosome),
    ensures
        -1920000000 <= material_score(state, chromosome) <= 1920000000,
{
    lemma_material_bound(state, chromosome, 6);
}

/// With piece values the evaluator accepts, no position's evaluation
/// overflows.
pub proof fn lemma_in_range_evaluation_fits(state: BoardState, chromosome: Option<Chromosome>)
    requires
        values_in_range(chromosome),
    ensures
        evaluation_fits(state, chromosome),
{
    assert forall|k: int| 0 <= k < 6 implies i32::MIN <= #[trigger] material_term(state, chromosome, k)
        <= i32::MAX && i32::MIN <= material_upto(state, chromosome, k + 1) <= i32::MAX by {
        lemma_material_bound(state, chromosome, k + 1);
        lemma_bit_count_le_64(state.pieces[k] & state.colors[0]);
        lemma_bit_count_le_64(state.pieces[k] & state.colors[1]);
        let d = count_difference(state, k);
        let v = piece_value(kind_at(k), chromosome);
        assert(-320000000 <= d * v <= 320000000) by (nonlinear_arith)
            requires
                -64 <= d <= 64,
                -5000000 <= v <= 5000000,
        ;
    }
}

/// With no chromosome the piece values are fixed: pawn 100, knight 300,
/// bishop 300, rook 500, queen 900, king 10000.  The material balance is
/// the sum over kinds of that value times White's count of the kind minus
/// Black's.
pub proof fn law_default_material_values(state: BoardState)
    ensures
        material_score(state, None) == 100 * (bit_count(state.pieces[0] & state.colors[0]) - bit_count(
            state.pieces[0] & state.colors[1],
        )) + 300 * (bit_count(state.pieces[1] & state.colors[0]) - bit_count(state.pieces[1] & state.colors[1]))
            + 300 * (bit_count(state.pieces[2] & state.colors[0]) - bit_count(state.pieces[2] & state.colors[1]))
            + 500 * (bit_count(state.pieces[3] & state.colors[0]) - bit_count(state.pieces[3] & state.colors[1]))
            + 900 * (bit_count(state.pieces[4] & state.colors[0]) - bit_count(state.pieces[4] & state.colors[1]))
            + 10000 * (bit_count(state.pieces[5] & state.colors[0]) - bit_count(state.pieces[5] & state.colors[1])),
{
    reveal_with_fuel(material_upto, 7);
}

/// With a chromosome each kind counts with the chromosome's value for that
/// kind: the material balance is the pawn value times White's pawns minus
/// Black's, plus the same for knights, bishops, rooks, queens and kings.
pub proof fn law_chromosome_material_values(state: BoardState, c: Chromosome)
    ensures
        material_score(state, Some(c)) == c.pawn_value * (bit_count(state.pieces[0] & state.colors[0]) - bit_count(
            state.pieces[0] & state.colors[1],
        )) + c.knight_value * (bit_count(state.pieces[1] & state.colors[0]) - bit_count(
            state.pieces[1] & state.colors[1],
        )) + c.bishop_value * (bit_count(state.pieces[2] & state.colors[0]) - bit_count(
            state.pieces[2] & state.colors[1],
        )) + c.rook_value * (bit_count(state.pieces[3] & state.colors[0]) - bit_count(
            state.pieces[3] & state.colors[1],
        )) + c.queen_value * (bit_count(state.pieces[4] & state.colors[0]) - bit_count(
            state.pieces[4] & state.colors[1],
        )) + c.king_value * (bit_count(state.pieces[5] & state.colors[0]) - bit_count(
            state.pieces[5] & state.colors[1],
        )),
{
    reveal_with_fuel(material_upto, 7);
    let d0 = bit_count(state.pieces[0] & state.colors[0]) - bit_count(state.pieces[0] & state.colors[1]);
    let d1 = bit_count(state.pieces[1] & state.colors[0]) - bit_count(state.pieces[1] & state.colors[1]);
    let d2 = bit_count(state.pieces[2] & state.colors[0]) - bit_count(state.pieces[2] & state.colors[1]);
    let d3 = bit_count(state.pieces[3] & state.colors[0]) - bit_count(state.pieces[3] & state.colors[1]);
    let d4 = bit_count(state.pieces[4] & state.colors[0]) - bit_count(state.pieces[4] & state.colors[1]);
    let d5 = bit_count(state.pieces[5] & state.colors[0]) - bit_count(state.pieces[5] & state.colors[1]);
    assert(d0 * c.pawn_value == c.pawn_value * d0) by (nonlinear_arith);
    assert(d1 * c.knight_value == c.knight_value * d1) by (nonlinear_arith);
    assert(d2 * c.bishop_value == c.bishop_value * d2) by (nonlinear_arith);
    assert(d3 * c.rook_value == c.rook_value * d3) by (nonlinear_arith);
    assert(d4 * c.queen_value == c.queen_value * d4) by (nonlinear_arith);
    assert(d5 * c.king_value == c.king_value * d5) by (nonlinear_arith);
}

/// Positive scores favour White, negative Black: swapping the colours of all
/// pieces negates the material balance.
pub proof fn law_material_color_symmetry(
    state: BoardState,
    swapped: BoardState,
    chromosome: Option<Chromosome>,
)
    requires
        swapped.pieces == state.pieces,
        swapped.colors[0] == state.colors[1],
        swapped.colors[1] == state.colors[0],
    ensures
        material_score(swapped, chromosome) == -material_score(state, chromosome),
{
    lemma_material_upto_symmetry(state, swapped, chromosome, 6);
}

proof fn lemma_material_upto_symmetry(
    state: BoardState,
    swapped: BoardState,
    chromosome: Option<Chromosome>,
    n: int,
)
    requires
        swapped.pieces == state.pieces,
        swapped.colors[0] == state.colors[1],
        swapped.colors[1] == state.colors[0],
    ensures
        material_upto(swapped, chromosome, n) == -material_upto(state, chromosome, n),
    decreases n,
{
    if n > 0 {
        lemma_material_upto_symmetry(state, swapped, chromosome, n - 1);
        let d = count_difference(state, n - 1);
        let v = piece_value(kind_at(n - 1), chromosome);
        assert(count_difference(swapped, n - 1) == -d);
        assert((-d) * v == -(d * v)) by (nonlinear_arith);
    }
}

impl Evaluator {
    /// The material balance with the default piece values.
    pub fn evaluate(board_state: Position) -> (r: i32)
        ensures
            r == material_score(board_state@, None),
    {
        proof {
            lemma_in_range_evaluation_fits(board_state@, None);
        }
        Self::get_board_value_bitboard(board_state, None)
    }

    /// The material balance with the chromosome's piece values.
    pub fn evaluate_with_chromosome(board_state: Position, chromosome: &Chromosome) -> (r: i32)
        requires
            evaluation_fits(board_state@, Some(*chromosome)),
        ensures
            r == material_score(board_state@, Some(*chromosome)),
    {
        Self::get_board_value_bitboard(board_state, Some(chromosome))
    }

    /// Material only, so counting each piece bitboard with popcount is enough.
    pub fn get_board_value_bitboard(board: Position, chromosome: Option<&Chromosome>) -> (r: i32)
        requires
            evaluation_fits(board@, owned(chromosome)),
        ensures
            r == material_score(board@, owned(chromosome)),
    {
        let ghost chrom = owned(chromosome);
        let pieces: [Piece; 6] = [
            Piece::Pawn,
            Piece::Knight,
            Piece::Bishop,
            Piece::Rook,
            Piece::Queen,
            Piece::King,
        ];
        let bit_board_white = board.side_bits(Side::White);
        let bit_board_black = board.side_bits(Side::Black);
        let mut current_score: i32 = 0;
        let mut i: usize = 0;
        while i < 6
            invariant
                i <= 6,
                evaluation_fits(board@, chrom),
                chrom == owned(chromosome),
                bit_board_white == board@.colors[0],
                bit_board_black == board@.colors[1],
                forall|k: int| 0 <= k < 6 ==> #[trigger] pieces[k] == kind_at(k),
                current_score == material_upto(board@, chrom, i as int),
            decreases 6 - i,
        {
            let piece = pieces[i];
            let piece_bb = board.piece_bits(piece);
            assert(piece_bb == board@.pieces[i as int]);
            let value = Self::get_piece_value(piece, chromosome);
            let white_count = popcnt(piece_bb & bit_board_white);
            let black_count = popcnt(piece_bb & bit_board_black);
            proof {
                lemma_bit_count_le_64(piece_bb & bit_board_white);
                lemma_bit_count_le_64(piece_bb & bit_board_black);
                assert(i32::MIN <= material_term(board@, chrom, i as int) <= i32::MAX);
            }
            let count_difference = white_count as i32 - black_count as i32;
            assert(count_difference * value == material_term(board@, chrom, i as int));
            current_score = current_score + count_difference * value;
            i = i + 1;
        }
        current_score
    }

    /// The value of a piece: the chromosome's when there is one, else the
    /// default values.
    pub fn get_piece_value(pie: Piece, chromosome: Option<&Chromosome>) -> (r: i32)
        ensures
            r == piece_value(pie, owned(chromosome)),
    {
        match chromosome {
            Some(chr) => match pie {
                Piece::Pawn => chr.pawn_value,
                Piece::Rook => chr.rook_value,
                Piece::Bishop => chr.bishop_value,
                Piece::Knight => chr.knight_value,
                Piece::Queen => chr.queen_value,
                Piece::King => chr.king_value,
            },
            None => match pie {
                Piece::Pawn => 100,
                Piece::Rook => 500,
                Piece::Bishop => 300,
                Piece::Knight => 300,
                Piece::Queen => 900,
                Piece::King => 10000,
            },
        }
    }
}

} // verus!
