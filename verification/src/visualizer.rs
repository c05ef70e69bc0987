//! Drawing boards with Unicode chess symbols.
use vstd::prelude::*;
use crate::board::{count_char, fen_layout, is_piece_letter, is_placement_char, Position};

verus! {

/// Draws boards with Unicode chess symbols.
pub struct Visualizer;

/// The characters a FEN board field is made of: piece letters and the
/// digits that count empty squares.
pub open spec fn is_board_char(code: char) -> bool {
    is_piece_letter(code) || ('0' <= code && code <= '9')
}

/// The drawing of one FEN board character: the piece's symbol and a space,
/// or two spaces per empty square.
pub open spec fn spec_piece_symbol(code: char) -> Seq<char> {
    if code == 'p' {
        "\u{265F} "@
    } else if code == 'r' {
        "\u{265C} "@
    } else if code == 'n' {
        "\u{265E} "@
    } else if code == 'b' {
        "\u{265D} "@
    } else if code == 'k' {
        "\u{265A} "@
    } else if code == 'q' {
        "\u{265B} "@
    } else if code == 'P' {
        "\u{2659} "@
    } else if code == 'R' {
        "\u{2656} "@
    } else if code == 'N' {
        "\u{2658} "@
    } else if code == 'B' {
        "\u{2657} "@
    } else if code == 'K' {
        "\u{2654} "@
    } else if code == 'Q' {
        "\u{2655} "@
    } else {
        Seq::new((2 * ((code as int) - ('0' as int))) as nat, |i: int| ' ')
    }
}

/// The place of a piece letter's kind in the Unicode chess symbols: king,
/// queen, rook, bishop, knight, pawn.
pub open spec fn symbol_rank(code: char) -> int {
    if code == 'K' || code == 'k' {
        0
    } else if code == 'Q' || code == 'q' {
        1
    } else if code == 'R' || code == 'r' {
        2
    } else if code == 'B' || code == 'b' {
        3
    } else if code == 'N' || code == 'n' {
        4
    } else {
        5
    }
}

/// Each piece letter draws as its own Unicode symbol and a space: an
/// upper-case (White) letter as the white symbol of its kind, U+2654 (king)
/// to U+2659 (pawn), a lower-case (Black) letter as the black one, U+265A
/// to U+265F; so the two colours of a kind draw differently.
pub proof fn law_piece_symbols(code: char)
    requires
        is_piece_letter(code),
    ensures
        spec_piece_symbol(code).len() == 2,
        spec_piece_symbol(code)[1] == ' ',
        'A' <= code <= 'Z' ==> spec_piece_symbol(code)[0] as int == 0x2654 + symbol_rank(code),
        'a' <= code <= 'z' ==> spec_piece_symbol(code)[0] as int == 0x265A + symbol_rank(code),
{
    reveal_strlit("\u{265F} ");
    reveal_strlit("\u{265C} ");
    reveal_strlit("\u{265E} ");
    reveal_strlit("\u{265D} ");
    reveal_strlit("\u{265A} ");
    reveal_strlit("\u{265B} ");
    reveal_strlit("\u{2659} ");
    reveal_strlit("\u{2656} ");
    reveal_strlit("\u{2658} ");
    reveal_strlit("\u{2657} ");
    reveal_strlit("\u{2654} ");
    reveal_strlit("\u{2655} ");
}

impl Visualizer {
    /// The drawing of one FEN board character.  A character that is neither
    /// a piece letter nor a digit is refused (its count does not parse).
    pub fn get_piece_symbol(code: char) -> (r: String)
        requires
            is_board_char(code),
        ensures
            r@ == spec_piece_symbol(code),
    {
        if code == 'p' {
            return String::from_str("\u{265F} ");
        } else if code == 'r' {
            return String::from_str("\u{265C} ");
        } else if code == 'n' {
            return String::from_str("\u{265E} ");
        } else if code == 'b' {
            return String::from_str("\u{265D} ");
        } else if code == 'k' {
            return String::from_str("\u{265A} ");
        } else if code == 'q' {
            return String::from_str("\u{265B} ");
        } else if code == 'P' {
            return String::from_str("\u{2659} ");
        } else if code == 'R' {
            return String::from_str("\u{2656} ");
        } else if code == 'N' {
            return String::from_str("\u{2658} ");
        } else if code == 'B' {
            return String::from_str("\u{2657} ");
        } else if code == 'K' {
            return String::from_str("\u{2654} ");
        } else if code == 'Q' {
            return String::from_str("\u{2655} ");
        } else {
            let count: u32 = (code as u32) - ('0' as u32);
            let mut empty_spaces = String::new();
            let mut i: u32 = 0;
            while i < count
                invariant
                    i <= count,
                    count == (code as int) - ('0' as int),
                    empty_spaces@ == Seq::new((2 * i) as nat, |k: int| ' '),
                decreases count - i,
            {
                empty_spaces.append("  ");
                proof {
                    reveal_strlit("  ");
                    assert(empty_spaces@ =~= Seq::new((2 * (i + 1)) as nat, |k: int| ' '));
                }
                i = i + 1;
            }
            return empty_spaces;
        }
    }
}

} // verus!
verus! {

/// The characters of a string.
pub fn chars_of(s: &str) -> (r: Vec<char>)
    ensures
        r@ == s@,
{
    let mut out: Vec<char> = Vec::new();
    for c in it: s.chars()
        invariant
            out@ == it.seq().take(it.index() as int),
            it.seq() == s@,
    {
        out.push(c);
    }
    out
}

} // verus!
verus! {

/// The label of the `i`-th rank drawn (rank 8 first).
pub open spec fn row_label(i: int) -> Seq<char> {
    if i == 0 {
        "8 "@
    } else if i == 1 {
        "7 "@
    } else if i == 2 {
        "6 "@
    } else if i == 3 {
        "5 "@
    } else if i == 4 {
        "4 "@
    } else if i == 5 {
        "3 "@
    } else if i == 6 {
        "2 "@
    } else {
        "1 "@
    }
}

/// The drawing of one rank of a FEN placement.
pub open spec fn row_drawing(row: Seq<char>) -> Seq<char>
    decreases row.len(),
{
    if row.len() == 0 {
        Seq::empty()
    } else {
        row_drawing(row.drop_last()) + spec_piece_symbol(row.last())
    }
}

/// The ranks of a FEN placement, split at '/'.
pub open spec fn split_rows(p: Seq<char>) -> Seq<Seq<char>>
    decreases p.len(),
{
    if p.len() == 0 {
        seq![Seq::empty()]
    } else {
        let rs = split_rows(p.drop_last());
        if p.last() == '/' {
            rs.push(Seq::empty())
        } else {
            rs.update(rs.len() - 1, rs.last().push(p.last()))
        }
    }
}

/// The piece placement of a FEN string: everything before its first space.
pub open spec fn placement(fen: Seq<char>) -> Seq<char> {
    fen.take(
        choose|k: int|
            0 <= k < fen.len() && fen[k] == ' ' && (forall|i: int|
                0 <= i < k ==> is_placement_char(#[trigger] fen[i])),
    )
}

/// The drawing of a board from its FEN placement: each rank, rank 8 first,
/// with its number and its squares, then the file letters.
pub open spec fn board_drawing(p: Seq<char>) -> Seq<Seq<char>> {
    Seq::new(split_rows(p).len(), |i: int| row_label(i) + row_drawing(split_rows(p)[i])).push(
        "  a b c d e f g h"@,
    )
}

proof fn lemma_split_rows_len(p: Seq<char>)
    ensures
        split_rows(p).len() == count_char(p, '/') + 1,
    decreases p.len(),
{
    if p.len() > 0 {
        lemma_split_rows_len(p.drop_last());
    }
}

fn label_string(i: usize) -> (r: String)
    requires
        i < 8,
    ensures
        r@ == row_label(i as int),
{
    if i == 0 {
        String::from_str("8 ")
    } else if i == 1 {
        String::from_str("7 ")
    } else if i == 2 {
        String::from_str("6 ")
    } else if i == 3 {
        String::from_str("5 ")
    } else if i == 4 {
        String::from_str("4 ")
    } else if i == 5 {
        String::from_str("3 ")
    } else if i == 6 {
        String::from_str("2 ")
    } else {
        String::from_str("1 ")
    }
}

impl Visualizer {
    /// The lines that draw a board: rank 8 down to rank 1, each with its
    /// number and Unicode piece symbols, then the file letters.
    pub fn board_lines(board: &Position) -> (r: Vec<String>)
        ensures
            r@.map_values(|s: String| s@) == board_drawing(placement(crate::board::spec_fen(board@))),
    {
        let fen_string = board.to_fen();
        let fen = chars_of(fen_string.as_str());
        let ghost k = choose|k: int|
            0 <= k < fen@.len() && fen@[k] == ' ' && (forall|i: int|
                0 <= i < k ==> is_placement_char(#[trigger] fen@[i]));
        let ghost p = fen@.take(k);
        proof {
            assert(fen_layout(fen@));
            let k2 = choose|k2: int|
                0 <= k2 < fen@.len() && fen@[k2] == ' ' && (forall|i: int|
                    0 <= i < k2 ==> is_placement_char(#[trigger] fen@[i])) && count_char(fen@.take(k2), '/') == 7;
            if k < k2 {
                assert(is_placement_char(fen@[k]));
            }
            if k2 < k {
                assert(is_placement_char(fen@[k2]));
            }
            assert(k == k2);
        }
        let mut lines: Vec<String> = Vec::new();
        let mut rows_done: usize = 0;
        let mut current = label_string(0);
        let mut i: usize = 0;
        proof {
            assert(fen@.take(0) =~= Seq::<char>::empty());
        }
        while fen[i] != ' '
            invariant
                0 <= i <= k < fen@.len(),
                k < fen.len(),
                fen@[k] == ' ',
                forall|j: int| 0 <= j < k ==> is_placement_char(#[trigger] fen@[j]),
                count_char(fen@.take(k), '/') == 7,
                p == fen@.take(k),
                rows_done == count_char(fen@.take(i as int), '/'),
                rows_done < 8,
                lines@.len() == rows_done,
                split_rows(fen@.take(i as int)).len() == rows_done + 1,
                forall|j: int|
                    0 <= j < rows_done ==> (#[trigger] lines@[j])@ == row_label(j) + row_drawing(
                        split_rows(fen@.take(i as int))[j],
                    ),
                current@ == row_label(rows_done as int) + row_drawing(
                    split_rows(fen@.take(i as int)).last(),
                ),
            decreases k - i,
        {
            let c = fen[i];
            assert(i < k);
            let ghost before = fen@.take(i as int);
            let ghost after = fen@.take(i + 1);
            proof {
                assert(after.drop_last() =~= before);
                assert(after.last() == c);
                lemma_count_char_prefix_le(fen@.take(k), i + 1);
                assert(fen@.take(k).take(i + 1) =~= after);
            }
            if c == '/' {
                lines.push(current);
                rows_done = rows_done + 1;
                current = label_string(rows_done);
                proof {
                    assert(row_drawing(Seq::<char>::empty()) =~= Seq::<char>::empty());
                    assert(row_label(rows_done as int) + Seq::<char>::empty() =~= row_label(
                        rows_done as int,
                    ));
                }
            } else {
                let symbol = Visualizer::get_piece_symbol(c);
                current.append(symbol.as_str());
                proof {
                    let last = split_rows(before).last();
                    assert(last.push(c).drop_last() =~= last);
                    assert(current@ =~= row_label(rows_done as int) + row_drawing(last.push(c)));
                }
            }
            i = i + 1;
        }
        proof {
            assert(i == k) by {
                if i < k {
                    assert(is_placement_char(fen@[i as int]));
                }
            }
        }
        lines.push(current);
        lines.push(String::from_str("  a b c d e f g h"));
        proof {
            lemma_split_rows_len(p);
            let d = board_drawing(p);
            assert(lines@.map_values(|s: String| s@) =~= d);
        }
        lines
    }
}

proof fn lemma_count_char_prefix_le(s: Seq<char>, n: int)
    requires
        0 <= n <= s.len(),
    ensures
        count_char(s.take(n), '/') <= count_char(s, '/'),
    decreases s.len() - n,
{
    if n < s.len() {
        lemma_count_char_prefix_le(s, n + 1);
        assert(s.take(n + 1).drop_last() =~= s.take(n));
    } else {
        assert(s.take(n) =~= s);
    }
}

} // verus!
