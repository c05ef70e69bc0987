//! Piece values that evolve in tournaments.
use vstd::prelude::*;
use crate::board::Piece;
use crate::random::random_range;

verus! {

/// Default piece values for chess evaluation.
pub const DEFAULT_PAWN_VALUE: i32 = 100;
pub const DEFAULT_KNIGHT_VALUE: i32 = 300;
pub const DEFAULT_BISHOP_VALUE: i32 = 300;
pub const DEFAULT_ROOK_VALUE: i32 = 500;
pub const DEFAULT_QUEEN_VALUE: i32 = 900;
pub const DEFAULT_KING_VALUE: i32 = 10000;

/// The largest magnitude of a piece value that the evaluator accepts: with
/// it a material sum over a whole board still fits in an `i32`.
pub const MAX_PIECE_VALUE: i32 = 5000000;

/// A set of piece values.
#[derive(Clone, Copy, Debug)]
pub struct Chromosome {
    pub pawn_value: i32,
    pub knight_value: i32,
    pub bishop_value: i32,
    pub rook_value: i32,
    pub queen_value: i32,
    pub king_value: i32,
}

/// A piece value the evaluator accepts.
pub open spec fn value_in_range(v: i32) -> bool {
    -MAX_PIECE_VALUE <= v <= MAX_PIECE_VALUE
}

impl Chromosome {
    /// The value of a piece kind.
    pub open spec fn gene(self, kind: Piece) -> i32 {
        match kind {
            Piece::Pawn => self.pawn_value,
            Piece::Knight => self.knight_value,
            Piece::Bishop => self.bishop_value,
            Piece::Rook => self.rook_value,
            Piece::Queen => self.queen_value,
            Piece::King => self.king_value,
        }
    }

    /// Every piece value is one the evaluator accepts.
    pub open spec fn in_range(self) -> bool {
        &&& value_in_range(self.pawn_value)
        &&& value_in_range(self.knight_value)
        &&& value_in_range(self.bishop_value)
        &&& value_in_range(self.rook_value)
        &&& value_in_range(self.queen_value)
        &&& value_in_range(self.king_value)
    }

    /// The default piece values.
    pub fn new_default() -> (r: Self)
        ensures
            r.pawn_value == DEFAULT_PAWN_VALUE,
            r.knight_value == DEFAULT_KNIGHT_VALUE,
            r.bishop_value == DEFAULT_BISHOP_VALUE,
            r.rook_value == DEFAULT_ROOK_VALUE,
            r.queen_value == DEFAULT_QUEEN_VALUE,
            r.king_value == DEFAULT_KING_VALUE,
            r.in_range(),
    {
        Self {
            pawn_value: DEFAULT_PAWN_VALUE,
            knight_value: DEFAULT_KNIGHT_VALUE,
            bishop_value: DEFAULT_BISHOP_VALUE,
            rook_value: DEFAULT_ROOK_VALUE,
            queen_value: DEFAULT_QUEEN_VALUE,
            king_value: DEFAULT_KING_VALUE,
        }
    }

    /// Swaps one gene between two chromosomes: 1 the knight, 2 the bishop,
    /// 3 the rook, 4 the queen value; any other choice swaps nothing.
    pub fn crossover_gene(&mut self, other: &mut Self, what_to_cross: i64)
        ensures
            crossed(*old(self), *old(other), what_to_cross, *final(self), *final(other)),
    {
        match what_to_cross {
            1 => std::mem::swap(&mut self.knight_value, &mut other.knight_value),
            2 => std::mem::swap(&mut self.bishop_value, &mut other.bishop_value),
            3 => std::mem::swap(&mut self.rook_value, &mut other.rook_value),
            4 => std::mem::swap(&mut self.queen_value, &mut other.queen_value),
            _ => {},
        }
    }

    /// Switches one randomly chosen piece value between two chromosomes: the
    /// choice is drawn from 0..=4 and applied as `crossover_gene` says.
    pub fn crossover(&mut self, other: &mut Self)
        ensures
            exists|c: i64|
                0 <= c <= 4 && #[trigger] crossed(*old(self), *old(other), c, *final(self), *final(other)),
    {
        let what_to_cross = random_range(0, 5);
        self.crossover_gene(other, what_to_cross);
    }
}

/// `a2`, `b2` are `a`, `b` with the gene chosen by `c` switched between them.
pub open spec fn crossed(a: Chromosome, b: Chromosome, c: i64, a2: Chromosome, b2: Chromosome) -> bool {
    if c == 1 {
        a2 == Chromosome { knight_value: b.knight_value, ..a } && b2 == Chromosome {
            knight_value: a.knight_value,
            ..b
        }
    } else if c == 2 {
        a2 == Chromosome { bishop_value: b.bishop_value, ..a } && b2 == Chromosome {
            bishop_value: a.bishop_value,
            ..b
        }
    } else if c == 3 {
        a2 == Chromosome { rook_value: b.rook_value, ..a } && b2 == Chromosome {
            rook_value: a.rook_value,
            ..b
        }
    } else if c == 4 {
        a2 == Chromosome { queen_value: b.queen_value, ..a } && b2 == Chromosome {
            queen_value: a.queen_value,
            ..b
        }
    } else {
        a2 == a && b2 == b
    }
}

/// A crossover keeps the gene pool: for every piece kind the two values after
/// it are the two values before it, in some order, and pawn and king values
/// never move.
pub proof fn law_crossover_keeps_gene_pool(
    a: Chromosome,
    b: Chromosome,
    c: i64,
    a2: Chromosome,
    b2: Chromosome,
    kind: Piece,
)
    requires
        crossed(a, b, c, a2, b2),
    ensures
        (a2.gene(kind) == a.gene(kind) && b2.gene(kind) == b.gene(kind)) || (a2.gene(kind)
            == b.gene(kind) && b2.gene(kind) == a.gene(kind)),
        a2.pawn_value == a.pawn_value && b2.pawn_value == b.pawn_value,
        a2.king_value == a.king_value && b2.king_value == b.king_value,
        a.in_range() && b.in_range() ==> a2.in_range() && b2.in_range(),
{
}

} // verus!
