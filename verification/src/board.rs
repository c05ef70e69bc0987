//! Positions, moves and the rules of chess, as supplied by the `chess` crate.
//!
//! A [`Position`] carries a `chess::Board` together with a plain copy of what
//! the engine reads from it ([`BoardState`]).  Every `Position` is built by
//! one of the functions of this module from a board that the `chess` crate
//! produced, and both parts are filled from that same board.
use vstd::prelude::*;

verus! {

#[verifier::external_type_specification]
#[verifier::external_body]
pub struct ExBoard(chess::Board);

#[verifier::external_type_specification]
#[verifier::external_body]
pub struct ExChessMove(chess::ChessMove);

/// The side to move.
#[derive(Clone, Copy, Debug, PartialEq, Eq, Structural)]
pub enum Side {
    White,
    Black,
}

/// The kind of a chess piece, in the order used for piece bitboards.
#[derive(Clone, Copy, Debug, PartialEq, Eq, Structural)]
pub enum Piece {
    Pawn,
    Knight,
    Bishop,
    Rook,
    Queen,
    King,
}

/// A move: source and destination square (0 = a1 .. 63 = h8) and the piece a
/// pawn promotes to, if any.
#[derive(Clone, Copy, Debug, PartialEq, Eq, Structural)]
pub struct Move {
    pub source: u8,
    pub dest: u8,
    pub promotion: Option<Piece>,
}

/// The plain content of a board.
///
/// `pieces[k]` holds the squares of the pieces of kind `k` (pawn, knight,
/// bishop, rook, queen, king), `colors[0]` and `colors[1]` those of White and
/// Black.  `castle` holds each side's castle rights as 0 (none), 1 (king
/// side), 2 (queen side) or 3 (both); `en_passant` the square of a pawn that
/// can be taken en passant; `checkers` the pieces giving check to the side to
/// move; `hash` the Zobrist hash of the position.
#[derive(Clone, Copy, Debug)]
pub struct BoardState {
    pub pieces: [u64; 6],
    pub colors: [u64; 2],
    pub side: Side,
    pub castle: [u8; 2],
    pub en_passant: Option<u8>,
    pub checkers: u64,
    pub hash: u64,
}

/// A chess position.
#[derive(Clone, Copy)]
pub struct Position {
    state: BoardState,
    board: chess::Board,
}

impl Position {
    /// Every position has at most 16 pieces per side.
    #[verifier::type_invariant]
    pub open spec fn fits(self) -> bool {
        pieces_fit(self@)
    }
}

impl View for Position {
    type V = BoardState;

    closed spec fn view(&self) -> BoardState {
        self.state
    }
}

/// The outcome of a game at a position.
#[derive(Clone, Copy, Debug, PartialEq, Eq, Structural)]
pub enum GameStatus {
    Ongoing,
    Stalemate,
    Checkmate,
}

/// The board that the `chess` crate reads from a FEN string, if it accepts it.
pub uninterp spec fn spec_parse_fen(fen: Seq<char>) -> Option<BoardState>;

/// The legal moves of a position whose destination lies in `mask`, in the
/// order in which the `chess` crate's move generator yields them.
pub uninterp spec fn spec_legal_moves(state: BoardState, mask: u64) -> Seq<Move>;

/// The number of legal moves of a position.
pub uninterp spec fn spec_legal_move_count(state: BoardState) -> nat;

/// The position after a legal move.
pub uninterp spec fn spec_make_move(state: BoardState, m: Move) -> BoardState;

/// The FEN string of a position.
pub uninterp spec fn spec_fen(state: BoardState) -> Seq<char>;

/// A FEN piece letter: upper case for White, lower case for Black.
pub open spec fn is_piece_letter(code: char) -> bool {
    code == 'p' || code == 'r' || code == 'n' || code == 'b' || code == 'k' || code == 'q'
        || code == 'P' || code == 'R' || code == 'N' || code == 'B' || code == 'K' || code == 'Q'
}

/// A character of a FEN piece placement: a piece letter, a count of empty
/// squares, or the '/' between ranks.
pub open spec fn is_placement_char(c: char) -> bool {
    is_piece_letter(c) || ('1' <= c && c <= '8') || c == '/'
}

/// How many times `c` occurs in `s`.
pub open spec fn count_char(s: Seq<char>, c: char) -> nat
    decreases s.len(),
{
    if s.len() == 0 {
        0
    } else {
        count_char(s.drop_last(), c) + if s.last() == c {
            1nat
        } else {
            0nat
        }
    }
}

/// A FEN string starts with a piece placement of eight ranks, ended by a
/// space.
pub open spec fn fen_layout(fen: Seq<char>) -> bool {
    exists|k: int|
        0 <= k < fen.len() && fen[k] == ' ' && (forall|i: int|
            0 <= i < k ==> is_placement_char(#[trigger] fen[i])) && count_char(fen.take(k), '/') == 7
}

/// Square `sq` is one of the squares of `bits`.
pub open spec fn on_square(bits: u64, sq: u8) -> bool {
    sq < 64 && (bits >> (sq as u64)) & 1 == 1
}

/// A move that the move generator yields for this position (for some
/// mask); its squares are squares of the board.
pub open spec fn is_generated_move(state: BoardState, m: Move) -> bool {
    &&& m.source < 64
    &&& m.dest < 64
    &&& exists|mask: u64| #[trigger] spec_legal_moves(state, mask).contains(m)
}

/// Each side has at most 16 pieces.  The move generator keeps one entry per
/// piece of the side to move and two more for en passant, in 18 slots.
pub open spec fn pieces_fit(state: BoardState) -> bool {
    bit_count(state.colors[0]) <= 16 && bit_count(state.colors[1]) <= 16
}

/// The number of set bits of a word.
pub open spec fn bit_count(x: u64) -> nat
    decreases x,
{
    if x == 0 {
        0
    } else {
        (x % 2) as nat + bit_count(x / 2)
    }
}

/// The status of a game as the `chess` crate decides it: no legal move is
/// checkmate when the side to move is in check and stalemate otherwise.
pub open spec fn spec_status(state: BoardState) -> GameStatus {
    if spec_legal_move_count(state) == 0 {
        if state.checkers == 0 {
            GameStatus::Stalemate
        } else {
            GameStatus::Checkmate
        }
    } else {
        GameStatus::Ongoing
    }
}

/// The FEN of the standard starting position.
pub open spec fn start_fen() -> Seq<char> {
    "rnbqkbnr/pppppppp/8/8/8/8/PPPPPPPP/RNBQKBNR w KQkq - 0 1"@
}

/// A left-to-right reading of a FEN piece placement as the `chess` crate
/// reads it: the current rank and file (a '/' steps one rank down and a
/// count of empty squares moves right, both wrapping within the board), the
/// squares that hold a white and a black king (a later piece on a square
/// replaces an earlier one), and whether every character so far is one the
/// crate accepts (after the first that is not, the crate stops).
pub open spec fn read_placement(p: Seq<char>) -> (int, int, u64, u64, bool)
    decreases p.len(),
{
    if p.len() == 0 {
        (7, 0, 0u64, 0u64, true)
    } else {
        let t = read_placement(p.drop_last());
        let c = p.last();
        if !t.4 {
            t
        } else if c == '/' {
            ((t.0 + 7) % 8, 0, t.2, t.3, true)
        } else if '1' <= c && c <= '8' {
            (t.0, (t.1 + (c as int - '0' as int)) % 8, t.2, t.3, true)
        } else if is_piece_letter(c) {
            let bit = 1u64 << ((t.0 * 8 + t.1) as u64);
            let w = t.2 & !bit;
            let b = t.3 & !bit;
            (t.0, (t.1 + 1) % 8, if c == 'K' { w | bit } else { w }, if c == 'k' { b | bit } else { b }, true)
        } else {
            (t.0, t.1, t.2, t.3, false)
        }
    }
}

/// A FEN on which the `chess` crate faults rather than reading a board or
/// refusing the string: it has at least four fields, its placement (up to
/// the first space, at `k`) holds only characters the crate accepts, its
/// side field is 'w', 'W', 'b' or 'B', and either its en passant field is
/// one character outside ASCII (`lone_wide_at`) or the side to move has no
/// king once the placement is read.
pub open spec fn fen_crashes(fen: Seq<char>) -> bool {
    exists|k: int|
        0 <= k && k + 1 < fen.len() && fen[k] == ' ' && (forall|i: int| 0 <= i < k ==> #[trigger] fen[i] != ' ')
            && crashes_at(fen, k)
}

/// `fen_crashes` with its first space at `k`.
pub open spec fn crashes_at(fen: Seq<char>, k: int) -> bool {
    let t = read_placement(fen.take(k));
    let side = fen[k + 1];
    &&& count_spaces(fen) >= 3
    &&& k + 2 == fen.len() || fen[k + 2] == ' '
    &&& t.4
    &&& side == 'w' || side == 'W' || side == 'b' || side == 'B'
    &&& (exists|j: int| lone_wide_at(fen, j)) || ((side == 'w' || side == 'W') && t.2 == 0) || ((side == 'b'
        || side == 'B') && t.3 == 0)
}

/// A FEN the `chess` crate reads or refuses without fault.
pub open spec fn fen_sane(fen: Seq<char>) -> bool {
    !fen_crashes(fen)
}

/// The number of spaces in `s`.
pub open spec fn count_spaces(s: Seq<char>) -> int
    decreases s.len(),
{
    if s.len() == 0 {
        0
    } else {
        count_spaces(s.drop_last()) + if s.last() == ' ' {
            1int
        } else {
            0int
        }
    }
}

/// The field after the third space of `fen` (its en passant square) is the
/// single character at `j`, and that character is not ASCII: the crate
/// reads such a field as a square of two characters, by its length in
/// bytes, and faults.
pub open spec fn lone_wide_at(fen: Seq<char>, j: int) -> bool {
    &&& 1 <= j < fen.len()
    &&& fen[j - 1] == ' '
    &&& count_spaces(fen.take(j)) == 3
    &&& j + 1 == fen.len() || fen[j + 1] == ' '
    &&& fen[j] as u32 >= 128
}

/// Whether some `lone_wide_at` position exists in `chars`.
fn has_lone_wide_field(chars: &Vec<char>) -> (r: bool)
    ensures
        r == exists|j: int| lone_wide_at(chars@, j),
{
    let n = chars.len();
    let mut spaces: usize = 0;
    let mut i: usize = 0;
    while i < n
        invariant
            i <= n == chars@.len(),
            spaces <= i,
            spaces as int == count_spaces(chars@.take(i as int)),
            forall|j: int| 0 <= j < i ==> !#[trigger] lone_wide_at(chars@, j),
        decreases n - i,
    {
        let c = chars[i];
        if i >= 1 && chars[i - 1] == ' ' && spaces == 3 && (i + 1 == n || chars[i + 1] == ' ')
            && c as u32 >= 128 {
            assert(lone_wide_at(chars@, i as int));
            return true;
        }
        proof {
            assert(chars@.take(i + 1).drop_last() =~= chars@.take(i as int));
            assert(chars@.take(i + 1).last() == c);
        }
        if c == ' ' {
            spaces = spaces + 1;
        }
        i = i + 1;
    }
    false
}

/// The number of spaces in `chars`.
fn spaces_in(chars: &Vec<char>) -> (r: usize)
    ensures
        r == count_spaces(chars@),
{
    let mut r: usize = 0;
    let mut i: usize = 0;
    while i < chars.len()
        invariant
            i <= chars@.len(),
            r <= i,
            r as int == count_spaces(chars@.take(i as int)),
        decreases chars.len() - i,
    {
        proof {
            assert(chars@.take(i + 1).drop_last() =~= chars@.take(i as int));
        }
        if chars[i] == ' ' {
            r = r + 1;
        }
        i = i + 1;
    }
    assert(chars@.take(chars@.len() as int) =~= chars@);
    r
}

/// Whether a FEN is one the `chess` crate reads or refuses without fault
/// (`fen_sane`).
pub fn fen_is_sane(fen: &str) -> (r: bool)
    ensures
        r == fen_sane(fen@),
{
    let chars = crate::visualizer::chars_of(fen);
    let n = chars.len();
    let mut rank: u64 = 7;
    let mut file: u64 = 0;
    let mut white_king: u64 = 0;
    let mut black_king: u64 = 0;
    let mut valid = true;
    let mut i: usize = 0;
    while i < n && chars[i] != ' '
        invariant
            i <= n == chars@.len(),
            chars@ == fen@,
            forall|j: int| 0 <= j < i ==> #[trigger] chars@[j] != ' ',
            read_placement(chars@.take(i as int)) == (rank as int, file as int, white_king, black_king, valid),
            rank < 8 && file < 8,
        decreases n - i,
    {
        let c = chars[i];
        proof {
            assert(chars@.take(i + 1).drop_last() =~= chars@.take(i as int));
            assert(chars@.take(i + 1).last() == c);
        }
        if !valid {
        } else if c == '/' {
            rank = (rank + 7) % 8;
            file = 0;
        } else if '1' <= c && c <= '8' {
            file = (file + (c as u32 - '0' as u32) as u64) % 8;
        } else if c == 'p' || c == 'r' || c == 'n' || c == 'b' || c == 'k' || c == 'q' || c == 'P' || c
            == 'R' || c == 'N' || c == 'B' || c == 'K' || c == 'Q' {
            let bit: u64 = 1u64 << (rank * 8 + file);
            let w = white_king & !bit;
            let b = black_king & !bit;
            white_king = if c == 'K' {
                w | bit
            } else {
                w
            };
            black_king = if c == 'k' {
                b | bit
            } else {
                b
            };
            file = (file + 1) % 8;
        } else {
            valid = false;
        }
        i = i + 1;
    }
    if n - i < 2 {
        proof {
            assert forall|k: int|
                0 <= k && k + 1 < fen@.len() && fen@[k] == ' ' && (forall|j: int| 0 <= j < k ==> #[trigger] fen@[j] != ' ')
                implies !crashes_at(fen@, k) by {
                if k < i {
                    assert(chars@[k] != ' ');
                }
            }
        }
        return true;
    }
    let wide = has_lone_wide_field(&chars);
    let spaces = spaces_in(&chars);
    let side = chars[i + 1];
    let side_alone = i + 2 == n || chars[i + 2] == ' ';
    let white = side == 'w' || side == 'W';
    let black = side == 'b' || side == 'B';
    let crash = spaces >= 3 && side_alone && valid && (white || black) && (wide || (white && white_king == 0)
        || (black && black_king == 0));
    proof {
        assert(chars@[i as int] == ' ');
        assert forall|k: int|
            0 <= k && k + 1 < fen@.len() && fen@[k] == ' ' && (forall|j: int| 0 <= j < k ==> #[trigger] fen@[j] != ' ')
            implies k == i by {
            if k < i {
                assert(chars@[k] != ' ');
            }
            if k > i {
                assert(fen@[i as int] != ' ');
            }
        }
        assert(crashes_at(fen@, i as int) == crash);
        if crash {
            assert(fen@[i as int] == ' ');
        }
    }
    !crash
}

/// Reads the plain content of a board.
#[verifier::external_body]
fn state_of(b: &chess::Board) -> BoardState {
    BoardState {
        pieces: chess::ALL_PIECES.map(|p| b.pieces(p).0),
        colors: chess::ALL_COLORS.map(|c| b.color_combined(c).0),
        side: match b.side_to_move() {
            chess::Color::White => Side::White,
            chess::Color::Black => Side::Black,
        },
        castle: chess::ALL_COLORS.map(|c| b.castle_rights(c).to_index() as u8),
        en_passant: b.en_passant().map(|sq| sq.to_int()),
        checkers: b.checkers().0,
        hash: b.get_hash(),
    }
}

/// Reads a move of the `chess` crate.
#[verifier::external_body]
fn move_of(m: chess::ChessMove) -> Move {
    Move {
        source: m.get_source().to_int(),
        dest: m.get_dest().to_int(),
        promotion: m.get_promotion().map(|p| match p {
            chess::Piece::Pawn => Piece::Pawn,
            chess::Piece::Knight => Piece::Knight,
            chess::Piece::Bishop => Piece::Bishop,
            chess::Piece::Rook => Piece::Rook,
            chess::Piece::Queen => Piece::Queen,
            chess::Piece::King => Piece::King,
        }),
    }
}

/// Writes a move for the `chess` crate; its squares index `ALL_SQUARES`.
#[verifier::external_body]
fn chess_move_of(m: Move) -> chess::ChessMove
    requires
        m.source < 64,
        m.dest < 64,
{
    let square = |i: u8| chess::ALL_SQUARES[i as usize];
    chess::ChessMove::new(
        square(m.source),
        square(m.dest),
        m.promotion.map(|p| chess::ALL_PIECES[p as usize]),
    )
}

/// Reads a FEN string with `chess::Board::from_str`: the board that the
/// `chess` crate reads from the string, or `None` exactly when the crate
/// refuses the string.  The crate finds the king of the side to move
/// before it checks the board, and faults when there is none, and it
/// faults on an en passant field of one character outside ASCII, so only
/// FENs on which it does neither are read (`fen_sane`).
#[verifier::external_body]
fn parse_board(fen: &str) -> (r: Option<(BoardState, chess::Board)>)
    requires
        fen_sane(fen@),
    ensures
        match r {
            Some(p) => spec_parse_fen(fen@) == Some(p.0),
            None => spec_parse_fen(fen@) is None,
        },
{
    match fen.parse::<chess::Board>() {
        Ok(board) => Some((state_of(&board), board)),
        Err(_) => None,
    }
}

/// The standard starting position, `chess::Board::default()`, which the
/// crate defines as the board read from the starting FEN: 16 pieces a side.
#[verifier::external_body]
fn start_board() -> (r: (BoardState, chess::Board))
    ensures
        spec_parse_fen(start_fen()) == Some(r.0),
        bit_count(r.0.colors[0]) == 16,
        bit_count(r.0.colors[1]) == 16,
{
    let board = chess::Board::default();
    (state_of(&board), board)
}

impl Position {
    /// Parses a FEN string: the position that the `chess` crate reads from
    /// it, or `None` when the crate would fault on it (`fen_sane`: no king
    /// of the side to move, or an en passant field of one character outside
    /// ASCII), when the crate refuses the string, or when a side has more
    /// than 16 pieces (with an en passant capture, the move generator's 18
    /// entries would not hold all its moves).
    pub fn from_fen(fen: &str) -> (r: Option<Position>)
        ensures
            r is Some <==> (fen_sane(fen@) && (spec_parse_fen(fen@) matches Some(s) && pieces_fit(s))),
            r matches Some(p) ==> spec_parse_fen(fen@) == Some(p@),
    {
        if !fen_is_sane(fen) {
            return None;
        }
        match parse_board(fen) {
            Some((state, board)) => {
                let white = popcnt(state.colors[0]);
                let black = popcnt(state.colors[1]);
                if white <= 16 && black <= 16 {
                    Some(Position { state, board })
                } else {
                    None
                }
            },
            None => None,
        }
    }

    /// The standard starting position.
    pub fn start() -> (r: Position)
        ensures
            spec_parse_fen(start_fen()) == Some(r@),
    {
        let (state, board) = start_board();
        Position { state, board }
    }

    /// The legal moves whose destination lies in `mask`, from
    /// `chess::MoveGen::new_legal` after `set_iterator_mask(mask)`.  The
    /// generator keeps at most 18 (square, destinations) entries, one per
    /// piece of the side to move with a move and at most two for en passant
    /// (so `pieces_fit` keeps it within its slots), each of at most 64
    /// destinations and 4 promotion pieces per destination.  It yields each
    /// (square, destination, promotion) once, only destinations that lie in
    /// the mask, and a mask and its complement together give the moves of
    /// the full mask.
    #[verifier::external_body]
    pub fn legal_moves(&self, mask: u64) -> (r: Vec<Move>)
        requires
            pieces_fit(self@),
        ensures
            r@ == spec_legal_moves(self@, mask),
            r@.len() <= 18 * 64 * 4,
            forall|k: int|
                0 <= k < r@.len() ==> on_square(mask, (#[trigger] r@[k]).dest) && r@[k].source < 64,
            r@.no_duplicates(),
            r@.to_multiset().add(spec_legal_moves(self@, !mask).to_multiset()) == spec_legal_moves(
                self@,
                !0u64,
            ).to_multiset(),
    {
        let mut generator = chess::MoveGen::new_legal(&self.board);
        generator.set_iterator_mask(chess::BitBoard(mask));
        generator.map(move_of).collect()
    }

    /// The number of legal moves, `chess::MoveGen::new_legal(..).len()`.
    /// `len` counts every legal move, and a generator masked with `mask`
    /// yields exactly the moves whose destination lies in `mask`, so the moves
    /// for a mask and for its complement together number `r`.  The generator
    /// keeps at most 18 (square, destinations) entries, each of at most 64
    /// destinations and 4 promotion pieces per destination.
    #[verifier::external_body]
    pub fn legal_move_count(&self) -> (r: usize)
        requires
            pieces_fit(self@),
        ensures
            r == spec_legal_move_count(self@),
            r <= 18 * 64 * 4,
            forall|mask: u64|
                #[trigger] spec_legal_moves(self@, mask).len() + spec_legal_moves(self@, !mask).len()
                    == r,
    {
        chess::MoveGen::new_legal(&self.board).len()
    }

    /// The board after a move, `chess::Board::make_move_new`.  The crate
    /// panics on a move whose source square is empty, so only moves that its
    /// move generator yields for this position are accepted.  The move hands
    /// the turn to the other side, and no side gains a piece: the mover's
    /// piece changes square (or kind, on promotion, or takes its rook along,
    /// on castling) and a capture takes away one of the other side's.
    #[verifier::external_body]
    fn board_after(&self, m: Move) -> (r: (BoardState, chess::Board))
        requires
            is_generated_move(self@, m),
        ensures
            r.0 == spec_make_move(self@, m),
            r.0.side == opponent(self@.side),
            bit_count(r.0.colors[0]) <= bit_count(self@.colors[0]),
            bit_count(r.0.colors[1]) <= bit_count(self@.colors[1]),
    {
        let board = self.board.make_move_new(chess_move_of(m));
        (state_of(&board), board)
    }

    /// The position after a move that the move generator yields here.
    pub fn make_move(&self, m: Move) -> (r: Position)
        requires
            is_generated_move(self@, m),
        ensures
            r@ == spec_make_move(self@, m),
            r@.side == opponent(self@.side),
    {
        proof {
            use_type_invariant(self);
        }
        let (state, board) = self.board_after(m);
        Position { state, board }
    }

    /// The game status, `chess::Board::status`, whose body counts the legal
    /// moves (with the move generator, see `legal_moves`) and looks at the
    /// checkers as `spec_status` says.
    #[verifier::external_body]
    pub fn status(&self) -> (r: GameStatus)
        requires
            pieces_fit(self@),
        ensures
            r == spec_status(self@),
    {
        match self.board.status() {
            chess::BoardStatus::Ongoing => GameStatus::Ongoing,
            chess::BoardStatus::Stalemate => GameStatus::Stalemate,
            chess::BoardStatus::Checkmate => GameStatus::Checkmate,
        }
    }

    /// The FEN string of the position, through `chess::Board`'s `Display`,
    /// which writes the eight ranks (piece letters and counts 1 to 8 of empty
    /// squares) separated by '/', then a space and the other fields.
    #[verifier::external_body]
    pub fn to_fen(&self) -> (r: String)
        ensures
            r@ == spec_fen(self@),
            fen_layout(r@),
    {
        self.board.to_string()
    }

    /// The side to move.
    pub fn side_to_move(&self) -> (r: Side)
        ensures
            r == self@.side,
    {
        self.state.side
    }

    /// The Zobrist hash of the position.
    pub fn hash(&self) -> (r: u64)
        ensures
            r == self@.hash,
    {
        self.state.hash
    }

    /// Whether the side to move is in check.
    pub fn in_check(&self) -> (r: bool)
        ensures
            r == (self@.checkers != 0),
    {
        self.state.checkers != 0
    }

    /// The squares of the pieces of one kind.
    pub fn piece_bits(&self, kind: Piece) -> (r: u64)
        ensures
            r == self@.pieces[piece_index(kind)],
    {
        self.state.pieces[piece_slot(kind)]
    }

    /// The squares of the pieces of one side.
    pub fn side_bits(&self, side: Side) -> (r: u64)
        ensures
            r == self@.colors[side_index(side)],
    {
        match side {
            Side::White => self.state.colors[0],
            Side::Black => self.state.colors[1],
        }
    }
}

/// The slot of a piece kind in `BoardState::pieces`.
pub open spec fn piece_index(kind: Piece) -> int {
    match kind {
        Piece::Pawn => 0,
        Piece::Knight => 1,
        Piece::Bishop => 2,
        Piece::Rook => 3,
        Piece::Queen => 4,
        Piece::King => 5,
    }
}

/// The slot of a side in `BoardState::colors`.
pub open spec fn side_index(side: Side) -> int {
    match side {
        Side::White => 0,
        Side::Black => 1,
    }
}

fn piece_slot(kind: Piece) -> (r: usize)
    ensures
        r == piece_index(kind),
{
    match kind {
        Piece::Pawn => 0,
        Piece::Knight => 1,
        Piece::Bishop => 2,
        Piece::Rook => 3,
        Piece::Queen => 4,
        Piece::King => 5,
    }
}

/// The number of set bits of a word.
pub fn popcnt(bits: u64) -> (r: u32)
    ensures
        r == bit_count(bits),
{
    proof {
        crate::evaluator::lemma_bit_count_le_64(bits);
    }
    let mut x = bits;
    let mut count: u32 = 0;
    while x != 0
        invariant
            count + bit_count(x) == bit_count(bits),
            bit_count(bits) <= 64,
        decreases x,
    {
        count = count + (x % 2) as u32;
        x = x / 2;
    }
    count
}

/// The opposite side.
pub open spec fn opponent(side: Side) -> Side {
    match side {
        Side::White => Side::Black,
        Side::Black => Side::White,
    }
}

} // verus!
