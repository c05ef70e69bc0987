//! Alpha-beta search over the positions of the `chess` crate, with a
//! transposition table and a random choice among equally good root moves.
use vstd::prelude::*;
use crate::board::{is_generated_move, on_square, spec_legal_moves, spec_legal_move_count, spec_make_move, Move, Position, BoardState, Side, opponent, side_index};
use crate::chromosome::Chromosome;
use crate::evaluator::{Evaluator, material_score, owned, values_in_range, lemma_material_score_bound, lemma_in_range_evaluation_fits};
use crate::random::random_range;
use crate::transposition_table::{NodeType, TTEntry, TranspositionTable, TtModel, bump};
use crate::search_table::{
    keeps_outside, lemma_best_of_attained, lemma_best_of_dominates, lemma_best_of_hint_first, lemma_child_subtree,
    lemma_keeps_outside_trans, lemma_same_slots, lemma_sound_after_child, lemma_sound_store, lemma_sound_subset,
    lemma_tree_contains_self, lemma_tt_move_first_from, lemma_shallow_sound, node_keys, hash_distinct, values_safe, search_sound, table_sound, tree_nodes,
};

verus! {

/// Below this depth the TT lookup/store cost outweighs the savings, so we skip it.
pub const TT_MIN_DEPTH: i32 = 2;

/// Scores beyond this magnitude are mate scores (see `terminal_score`).
pub const MATE_SCORE_THRESHOLD: i32 = 9000;

/// The score of a mate found with no depth left; faster mates score higher.
pub const MATE_SCORE: i32 = 9999;

/// The bounds of the full search window.
pub const FULL_WINDOW: i32 = 999999;

/// The deepest search accepted.
pub const MAX_SEARCH_DEPTH: i32 = 1000;

/// Every score that the search returns or caches has at most this magnitude.
pub const SCORE_LIMIT: i32 = 2000000000;

/// Mate scores encode distance to mate via the storing node's remaining depth,
/// so they are only valid for the search that produced them.  Re-base them to
/// be node-relative before storing.
pub open spec fn spec_to_tt_score(score: int, depth: int) -> int {
    if score > MATE_SCORE_THRESHOLD {
        score - depth
    } else if score < -MATE_SCORE_THRESHOLD {
        score + depth
    } else {
        score
    }
}

/// Inverse of `spec_to_tt_score`: re-base a stored node-relative mate score
/// to the probing node's remaining depth.
pub open spec fn spec_from_tt_score(score: int, depth: int) -> int {
    if score > MATE_SCORE_THRESHOLD {
        score + depth
    } else if score < -MATE_SCORE_THRESHOLD {
        score - depth
    } else {
        score
    }
}

/// The re-based score fits in an `i32`.
pub open spec fn to_tt_score_fits(score: i32, depth: i32) -> bool {
    i32::MIN <= spec_to_tt_score(score as int, depth as int) <= i32::MAX
}

/// The re-based score fits in an `i32`.
pub open spec fn from_tt_score_fits(score: i32, depth: i32) -> bool {
    i32::MIN <= spec_from_tt_score(score as int, depth as int) <= i32::MAX
}

/// Re-bases a mate score from distance-to-root to distance-to-node before it
/// is cached.
pub fn to_tt_score(score: i32, depth: i32) -> (r: i32)
    requires
        to_tt_score_fits(score, depth),
    ensures
        r == spec_to_tt_score(score as int, depth as int),
{
    if score > MATE_SCORE_THRESHOLD {
        score - depth
    } else if score < -MATE_SCORE_THRESHOLD {
        score + depth
    } else {
        score
    }
}

/// Inverse of `to_tt_score`.
pub fn from_tt_score(score: i32, depth: i32) -> (r: i32)
    requires
        from_tt_score_fits(score, depth),
    ensures
        r == spec_from_tt_score(score as int, depth as int),
{
    if score > MATE_SCORE_THRESHOLD {
        score + depth
    } else if score < -MATE_SCORE_THRESHOLD {
        score - depth
    } else {
        score
    }
}

/// Mate scores survive a trip through the table across depths: a mate score
/// stored at one depth and read back at another moves by the difference of
/// the depths, as long as it is still recognizable as a mate score once
/// stored.
pub proof fn law_mate_scores_round_trip(score: int, store_depth: int, probe_depth: int)
    requires
        score > MATE_SCORE_THRESHOLD ==> score - store_depth > MATE_SCORE_THRESHOLD,
        score < -MATE_SCORE_THRESHOLD ==> score + store_depth < -MATE_SCORE_THRESHOLD,
    ensures
        spec_from_tt_score(spec_to_tt_score(score, store_depth), probe_depth) == if score
            > MATE_SCORE_THRESHOLD {
            score - store_depth + probe_depth
        } else if score < -MATE_SCORE_THRESHOLD {
            score + store_depth - probe_depth
        } else {
            score
        },
        spec_from_tt_score(spec_to_tt_score(score, store_depth), store_depth) == score,
{
}

/// Scores that are not mate scores pass through the table untouched.
pub proof fn law_non_mate_scores_untouched(score: int, depth: int)
    requires
        -MATE_SCORE_THRESHOLD <= score <= MATE_SCORE_THRESHOLD,
    ensures
        spec_to_tt_score(score, depth) == score,
        spec_from_tt_score(score, depth) == score,
{
}

/// The score of a position without legal moves: 0 for stalemate; for
/// checkmate the side to move loses, by more the more depth is left (a
/// faster mate).
pub open spec fn spec_terminal_score(state: BoardState, depth_left: int) -> int {
    if state.checkers == 0 {
        0
    } else {
        match state.side {
            Side::White => -MATE_SCORE - depth_left,
            Side::Black => MATE_SCORE + depth_left,
        }
    }
}

/// Score for a position with no legal moves: stalemate is a draw, checkmate
/// is scored so the side to move loses, preferring faster mates.
pub fn terminal_score(board: &Position, depth_left: i32) -> (r: i32)
    requires
        board@.checkers != 0 ==> depth_left <= i32::MAX - MATE_SCORE,
    ensures
        r == spec_terminal_score(board@, depth_left as int),
{
    if !board.in_check() {
        0
    } else {
        match board.side_to_move() {
            Side::White => -MATE_SCORE - depth_left,
            Side::Black => MATE_SCORE + depth_left,
        }
    }
}

/// A position whose side to move has no legal move scores by whether that
/// side is in check: not in check (stalemate) it is a draw, 0, whichever
/// side is to move; in check (checkmate) it is a loss for the side to move,
/// at least a mate's worth (9999) below zero for White and above for Black.
/// The same holds of its minimax value at any depth and for either node
/// kind.
pub proof fn law_terminal_scores(
    state: BoardState,
    depth: int,
    chromosome: Option<Chromosome>,
    maximize: bool,
)
    requires
        depth >= 0,
    ensures
        state.checkers == 0 ==> spec_terminal_score(state, depth) == 0,
        state.checkers != 0 && state.side == Side::White ==> spec_terminal_score(state, depth) <= -9999,
        state.checkers != 0 && state.side == Side::Black ==> spec_terminal_score(state, depth) >= 9999,
        spec_legal_move_count(state) == 0 ==> minimax(state, depth, chromosome, maximize) == spec_terminal_score(
            state,
            depth,
        ),
        spec_legal_move_count(state) == 0 && state.checkers == 0 ==> minimax(state, depth, chromosome, maximize)
            == 0,
{
}

/// A faster mate is a better mate: with more depth left (the mate found
/// closer to the root) the winner's score is larger.
pub proof fn law_faster_mates_score_higher(state: BoardState, d1: int, d2: int)
    requires
        state.checkers != 0,
        0 <= d1 < d2,
    ensures
        state.side == Side::White ==> spec_terminal_score(state, d2) < spec_terminal_score(
            state,
            d1,
        ) < -MATE_SCORE_THRESHOLD,
        state.side == Side::Black ==> MATE_SCORE_THRESHOLD < spec_terminal_score(state, d1)
            < spec_terminal_score(state, d2),
{
}

} // verus!
verus! {

/// The squares of the pieces of the side not to move.
pub open spec fn capture_targets(state: BoardState) -> u64 {
    state.colors[side_index(opponent(state.side))]
}

/// The legal moves ordered for search: captures (moves onto an enemy piece)
/// first, then the others, each group in the generator's order.
pub open spec fn spec_ordered_moves(state: BoardState) -> Seq<Move> {
    spec_legal_moves(state, capture_targets(state)) + spec_legal_moves(
        state,
        !capture_targets(state),
    )
}

/// Every move of a sequence is one the generator yields for the position.
pub open spec fn all_generated(state: BoardState, moves: Seq<Move>) -> bool {
    forall|i: int| 0 <= i < moves.len() ==> is_generated_move(state, #[trigger] moves[i])
}

proof fn lemma_ordered_moves_generated(state: BoardState)
    requires
        forall|i: int|
            0 <= i < spec_ordered_moves(state).len() ==> (#[trigger] spec_ordered_moves(state)[i]).source < 64
                && spec_ordered_moves(state)[i].dest < 64,
    ensures
        all_generated(state, spec_ordered_moves(state)),
{
    let t = capture_targets(state);
    let caps = spec_legal_moves(state, t);
    let quiets = spec_legal_moves(state, !t);
    assert forall|i: int| 0 <= i < spec_ordered_moves(state).len() implies is_generated_move(
        state,
        #[trigger] spec_ordered_moves(state)[i],
    ) by {
        if i < caps.len() {
            assert(caps.contains(caps[i]));
        } else {
            assert(quiets.contains(quiets[i - caps.len()]));
        }
    }
}

/// No move onto an enemy piece comes after a move onto any other square.
pub open spec fn captures_first(state: BoardState, moves: Seq<Move>) -> bool {
    forall|i: int, j: int|
        0 <= i < j < moves.len() && on_square(capture_targets(state), (#[trigger] moves[j]).dest)
            ==> on_square(capture_targets(state), (#[trigger] moves[i]).dest)
}

proof fn lemma_off_mask(bits: u64, sq: u8)
    requires
        sq < 64,
    ensures
        on_square(!bits, sq) <==> !on_square(bits, sq),
{
    let s = sq as u64;
    assert(((!bits) >> s) & 1 == 1 <==> !((bits >> s) & 1 == 1)) by (bit_vector)
        requires
            s < 64,
    ;
}

/// Every legal move of the position, each once.
pub open spec fn all_legal_moves(state: BoardState) -> Seq<Move> {
    spec_legal_moves(state, !0u64)
}

/// Build the ordered move list (captures first, then others).
pub fn ordered_moves(board: &Position) -> (r: Vec<Move>)
    ensures
        r@ == spec_ordered_moves(board@),
        all_generated(board@, r@),
        r@.len() <= 2 * 18 * 64 * 4,
        captures_first(board@, r@),
        r@.to_multiset() == all_legal_moves(board@).to_multiset(),
        r@.no_duplicates(),
{
    let targets = board.side_bits(match board.side_to_move() {
        Side::White => Side::Black,
        Side::Black => Side::White,
    });
    proof {
        use_type_invariant(board);
    }
    let mut moves = board.legal_moves(targets);
    let ghost caps = moves@;
    let mut non_capture_moves = board.legal_moves(!targets);
    let ghost quiets = non_capture_moves@;
    moves.append(&mut non_capture_moves);
    proof {
        assert forall|i: int| 0 <= i < moves@.len() implies (#[trigger] moves@[i]).source < 64
            && moves@[i].dest < 64 by {
            if i < caps.len() {
                assert(moves@[i] == caps[i]);
            } else {
                assert(moves@[i] == quiets[i - caps.len()]);
            }
        }
        lemma_ordered_moves_generated(board@);
        assert(targets == capture_targets(board@));
        assert forall|i: int| 0 <= i < moves@.len() implies (i < caps.len() <==> on_square(
            capture_targets(board@),
            (#[trigger] moves@[i]).dest,
        )) by {
            if i >= caps.len() {
                let q = quiets[i - caps.len()];
                assert(moves@[i] == q);
                assert(on_square(!targets, q.dest));
                lemma_off_mask(targets, q.dest);
            } else {
                assert(moves@[i] == caps[i]);
            }
        }
        assert forall|i: int, j: int|
            0 <= i < j < moves@.len() && on_square(capture_targets(board@), (#[trigger] moves@[j]).dest)
                implies on_square(capture_targets(board@), (#[trigger] moves@[i]).dest) by {
            assert(j < caps.len());
        }
        assert(captures_first(board@, moves@));
        vstd::seq_lib::lemma_multiset_commutative(caps, quiets);
        assert(moves@ == caps + quiets);
        assert forall|i: int, j: int| 0 <= i < moves@.len() && 0 <= j < moves@.len() && i != j implies moves@[i]
            != moves@[j] by {
            if i < caps.len() && j < caps.len() {
                assert(moves@[i] == caps[i] && moves@[j] == caps[j]);
            } else if i >= caps.len() && j >= caps.len() {
                assert(moves@[i] == quiets[i - caps.len()] && moves@[j] == quiets[j - caps.len()]);
            } else if i < caps.len() {
                assert(on_square(capture_targets(board@), moves@[i].dest));
                assert(!on_square(capture_targets(board@), moves@[j].dest));
            } else {
                assert(on_square(capture_targets(board@), moves@[j].dest));
                assert(!on_square(capture_targets(board@), moves@[i].dest));
            }
        }
    }
    moves
}

/// Moves with the hint move, if present, swapped with the first move.
pub open spec fn spec_tt_move_first(moves: Seq<Move>, tt_move: Option<Move>) -> Seq<Move> {
    match tt_move {
        Some(m) => match moves.index_of_first(m) {
            Some(p) => moves.update(0, moves[p]).update(p, moves[0]),
            None => moves,
        },
        None => moves,
    }
}

/// Move the TT hint move to the front of the move list so it's searched first.
pub fn order_tt_move_first(moves: &mut Vec<Move>, tt_move: Option<Move>)
    ensures
        final(moves)@ == spec_tt_move_first(old(moves)@, tt_move),
{
    let tt_mv = match tt_move {
        Some(m) => m,
        None => return ,
    };
    let mut pos: usize = 0;
    while pos < moves.len()
        invariant
            pos <= moves.len(),
            moves@ == old(moves)@,
            tt_move == Some(tt_mv),
            forall|j: int| 0 <= j < pos ==> moves@[j] != tt_mv,
        decreases moves.len() - pos,
    {
        if moves[pos] == tt_mv {
            proof {
                assert(moves@.contains(tt_mv));
                moves@.index_of_first_ensures(tt_mv);
                let p = moves@.index_of_first(tt_mv)->0;
                if p < pos {
                    assert(moves@[p] != tt_mv);
                }
                if p > pos {
                    assert(moves@[pos as int] != tt_mv);
                }
                assert(p == pos);
            }
            let first = moves[0];
            let found = moves[pos];
            moves.set(0, found);
            moves.set(pos, first);
            return ;
        }
        pos = pos + 1;
    }
    proof {
        assert(!moves@.contains(tt_mv));
        moves@.index_of_first_ensures(tt_mv);
    }
}

/// Reordering with a hint keeps exactly the same moves.
pub proof fn law_tt_move_first_permutes(moves: Seq<Move>, tt_move: Option<Move>)
    ensures
        spec_tt_move_first(moves, tt_move).len() == moves.len(),
        spec_tt_move_first(moves, tt_move).to_multiset() == moves.to_multiset(),
        tt_move is Some && moves.contains(tt_move->0) ==> spec_tt_move_first(moves, tt_move)[0]
            == tt_move->0,
{
    broadcast use vstd::seq_lib::to_multiset_update;
    match tt_move {
        Some(m) => if moves.contains(m) {
            moves.index_of_first_ensures(m);
            let p = moves.index_of_first(m)->0;
            let s1 = moves.update(0, moves[p]);
            let s2 = s1.update(p, moves[0]);
            assert(s1.to_multiset() == moves.to_multiset().insert(moves[p]).remove(moves[0]));
            assert(s2.to_multiset() == s1.to_multiset().insert(moves[0]).remove(s1[p]));
            if p == 0 {
                assert(s2 =~= moves);
            } else {
                assert(s1[p] == moves[p]);
                assert(s2[0] == moves[p]);
                let ms = moves.to_multiset();
                assert(ms.count(moves[0]) > 0) by {
                    broadcast use vstd::seq_lib::to_multiset_contains;
                    assert(moves.contains(moves[0]));
                }
                assert(s2.to_multiset() =~= moves.to_multiset()) by {
                    broadcast use vstd::multiset::group_multiset_axioms;
                    assert forall|x: Move| s2.to_multiset().count(x) == ms.count(x) by {
                        if x == moves[0] && x == moves[p] {
                        } else if x == moves[0] {
                        } else if x == moves[p] {
                        } else {
                        }
                    }
                }
            }
        } else {
            moves.index_of_first_ensures(m);
        },
        None => {},
    }
}

} // verus!
verus! {

/// Fold a root move's score into the running best for the side to move:
/// White keeps the larger, Black the smaller.
pub open spec fn spec_update_root_best(best_so_far: Option<i32>, score: i32, side: Side) -> i32 {
    match best_so_far {
        None => score,
        Some(best) => match side {
            Side::White => if best >= score { best } else { score },
            Side::Black => if best <= score { best } else { score },
        },
    }
}

/// Fold a root move's score into the running best for the side to move.
pub fn update_root_best(best_so_far: Option<i32>, score: i32, side: Side) -> (r: i32)
    ensures
        r == spec_update_root_best(best_so_far, score, side),
{
    match (best_so_far, side) {
        (None, _) => score,
        (Some(best), Side::White) => if best >= score { best } else { score },
        (Some(best), Side::Black) => if best <= score { best } else { score },
    }
}

/// The running best is the best for its side: never worse than the old best
/// nor than the new score, and one of the two.
pub proof fn law_root_best_is_side_preference(best: i32, score: i32, side: Side)
    ensures
        side == Side::White ==> spec_update_root_best(Some(best), score, side) >= best
            && spec_update_root_best(Some(best), score, side) >= score,
        side == Side::Black ==> spec_update_root_best(Some(best), score, side) <= best
            && spec_update_root_best(Some(best), score, side) <= score,
        spec_update_root_best(Some(best), score, side) == best || spec_update_root_best(
            Some(best),
            score,
            side,
        ) == score,
        spec_update_root_best(None, score, side) == score,
{
}

/// Root moves with their scores are in ascending order of score.
pub open spec fn sorted_by_score(s: Seq<(Move, i32)>) -> bool {
    forall|i: int, j: int| 0 <= i <= j < s.len() ==> s[i].1 <= s[j].1
}

/// How many entries have the score `v`.
pub open spec fn count_score(s: Seq<(Move, i32)>, v: i32) -> nat
    decreases s.len(),
{
    if s.len() == 0 {
        0
    } else {
        count_score(s.drop_last(), v) + if s.last().1 == v {
            1nat
        } else {
            0nat
        }
    }
}

/// The best score for the side to move of a list sorted by score: the last
/// (largest) for White, the first (smallest) for Black.
pub open spec fn best_value(s: Seq<(Move, i32)>, side: Side) -> i32
    recommends
        s.len() > 0,
{
    match side {
        Side::White => s.last().1,
        Side::Black => s[0].1,
    }
}

/// `entry` is one of `root` and has its best score for `side`.
pub open spec fn is_best_choice(root: Seq<(Move, i32)>, side: Side, entry: (Move, i32)) -> bool {
    &&& root.contains(entry)
    &&& forall|k: int|
        0 <= k < root.len() ==> match side {
            Side::White => root[k].1 <= entry.1,
            Side::Black => root[k].1 >= entry.1,
        }
}

proof fn lemma_count_score_le_len(s: Seq<(Move, i32)>, v: i32)
    ensures
        count_score(s, v) <= s.len(),
    decreases s.len(),
{
    if s.len() > 0 {
        lemma_count_score_le_len(s.drop_last(), v);
    }
}

proof fn lemma_count_score_absent(s: Seq<(Move, i32)>, v: i32)
    requires
        forall|k: int| 0 <= k < s.len() ==> s[k].1 != v,
    ensures
        count_score(s, v) == 0,
    decreases s.len(),
{
    if s.len() > 0 {
        lemma_count_score_absent(s.drop_last(), v);
    }
}

proof fn lemma_count_score_all(s: Seq<(Move, i32)>, v: i32)
    requires
        forall|k: int| 0 <= k < s.len() ==> s[k].1 == v,
    ensures
        count_score(s, v) == s.len(),
    decreases s.len(),
{
    if s.len() > 0 {
        lemma_count_score_all(s.drop_last(), v);
    }
}

/// In a list sorted by score, the entries with the largest score are the
/// last ones, as many as there are.
proof fn lemma_top_block(s: Seq<(Move, i32)>)
    requires
        sorted_by_score(s),
        s.len() > 0,
    ensures
        count_score(s, s.last().1) >= 1,
        forall|j: int|
            s.len() - count_score(s, s.last().1) <= j < s.len() ==> #[trigger] s[j].1 == s.last().1,
    decreases s.len(),
{
    let v = s.last().1;
    let t = s.drop_last();
    lemma_count_score_le_len(t, v);
    assert(count_score(s, v) == count_score(t, v) + 1);
    if t.len() > 0 {
        if t.last().1 == v {
            lemma_top_block(t);
            assert forall|j: int| s.len() - count_score(s, v) <= j < s.len() implies #[trigger] s[j].1
                == v by {
                if j < t.len() {
                    assert(s[j] == t[j]);
                }
            }
        } else {
            assert forall|k: int| 0 <= k < t.len() implies t[k].1 != v by {
                assert(s[k].1 <= s[t.len() - 1].1);
            }
            lemma_count_score_absent(t, v);
        }
    }
}

/// In a list sorted by score, the entries with the smallest score are the
/// first ones, as many as there are.
proof fn lemma_bottom_block(s: Seq<(Move, i32)>)
    requires
        sorted_by_score(s),
        s.len() > 0,
    ensures
        count_score(s, s[0].1) >= 1,
        forall|j: int| 0 <= j < count_score(s, s[0].1) ==> #[trigger] s[j].1 == s[0].1,
    decreases s.len(),
{
    let v = s[0].1;
    let t = s.drop_last();
    if s.last().1 == v {
        assert forall|k: int| 0 <= k < s.len() implies s[k].1 == v by {
            assert(s[0].1 <= s[k].1 <= s[s.len() - 1].1);
        }
        lemma_count_score_all(s, v);
    } else {
        assert(t.len() > 0);
        assert(t[0] == s[0]);
        lemma_bottom_block(t);
        assert(count_score(s, v) == count_score(t, v));
        assert forall|j: int| 0 <= j < count_score(s, v) implies #[trigger] s[j].1 == v by {
            lemma_count_score_le_len(t, v);
            assert(s[j] == t[j]);
        }
    }
}

/// Counts the entries with the best score and draws one of them at random:
/// `None` for an empty list, else an index below that count.
pub fn get_random_from_multiple_best_moves(best_moves: &Vec<(Move, i32)>, color: Side) -> (r:
    Option<usize>)
    requires
        best_moves.len() <= i32::MAX,
    ensures
        r is None <==> best_moves@.len() == 0,
        r matches Some(i) ==> i < count_score(best_moves@, best_value(best_moves@, color)),
{
    if best_moves.len() == 0 {
        return None;
    }
    let best_value = match color {
        Side::White => best_moves[best_moves.len() - 1].1,
        Side::Black => best_moves[0].1,
    };
    let mut amount_of_equal_moves: i32 = 0;
    let mut i: usize = 0;
    while i < best_moves.len()
        invariant
            i <= best_moves.len() <= i32::MAX,
            amount_of_equal_moves == count_score(best_moves@.take(i as int), best_value),
        decreases best_moves.len() - i,
    {
        proof {
            assert(best_moves@.take(i + 1).drop_last() =~= best_moves@.take(i as int));
            lemma_count_score_le_len(best_moves@.take(i as int), best_value);
        }
        if best_moves[i].1 == best_value {
            amount_of_equal_moves = amount_of_equal_moves + 1;
        }
        i = i + 1;
    }
    proof {
        assert(best_moves@.take(i as int) =~= best_moves@);
        if color == Side::White {
            assert(best_moves@.contains(best_moves@.last()));
        }
        lemma_count_score_positive(best_moves@, best_value);
    }
    let selected_index = random_range(0, amount_of_equal_moves as i64);
    Some(selected_index as usize)
}

proof fn lemma_count_score_positive(s: Seq<(Move, i32)>, v: i32)
    requires
        exists|k: int| 0 <= k < s.len() && s[k].1 == v,
    ensures
        count_score(s, v) >= 1,
    decreases s.len(),
{
    if s.last().1 != v {
        let k = choose|k: int| 0 <= k < s.len() && s[k].1 == v;
        assert(s.drop_last()[k].1 == v);
        lemma_count_score_positive(s.drop_last(), v);
    }
}

/// The root entry picked by a draw among the best: White counts from the
/// end of the ascending list, Black from the start.
pub fn pick_best_move(best_moves: &Vec<(Move, i32)>, color: Side, selected_index: usize) -> (r: (
    Move,
    i32,
))
    requires
        sorted_by_score(best_moves@),
        selected_index < count_score(best_moves@, best_value(best_moves@, color)),
    ensures
        r == match color {
            Side::White => best_moves@[best_moves@.len() - 1 - selected_index],
            Side::Black => best_moves@[selected_index as int],
        },
        is_best_choice(best_moves@, color, r),
{
    proof {
        lemma_count_score_le_len(best_moves@, best_value(best_moves@, color));
        if color == Side::White {
            lemma_top_block(best_moves@);
        } else {
            lemma_bottom_block(best_moves@);
        }
    }
    let r = match color {
        Side::White => best_moves[best_moves.len() - 1 - selected_index],
        Side::Black => best_moves[selected_index],
    };
    proof {
        let k0 = match color {
            Side::White => best_moves@.len() - 1 - selected_index,
            Side::Black => selected_index as int,
        };
        assert(best_moves@[k0] == r);
        assert(best_moves@.contains(r));
    }
    r
}

/// The entries with score `v`, in their order.
pub open spec fn with_score(s: Seq<(Move, i32)>, v: i32) -> Seq<(Move, i32)>
    decreases s.len(),
{
    if s.len() == 0 {
        Seq::empty()
    } else if s.last().1 == v {
        with_score(s.drop_last(), v).push(s.last())
    } else {
        with_score(s.drop_last(), v)
    }
}

proof fn lemma_with_score_push(s: Seq<(Move, i32)>, x: (Move, i32), v: i32)
    ensures
        with_score(s.push(x), v) == if x.1 == v {
            with_score(s, v).push(x)
        } else {
            with_score(s, v)
        },
{
    assert(s.push(x).drop_last() =~= s);
}

proof fn lemma_with_score_add(a: Seq<(Move, i32)>, b: Seq<(Move, i32)>, v: i32)
    ensures
        with_score(a + b, v) == with_score(a, v) + with_score(b, v),
    decreases b.len(),
{
    if b.len() == 0 {
        assert(a + b =~= a);
        assert(with_score(a, v) + with_score(b, v) =~= with_score(a, v));
    } else {
        lemma_with_score_add(a, b.drop_last(), v);
        assert((a + b).drop_last() =~= a + b.drop_last());
        assert((a + b).last() == b.last());
        if b.last().1 == v {
            assert(with_score(a, v) + with_score(b.drop_last(), v).push(b.last()) =~= (with_score(a, v)
                + with_score(b.drop_last(), v)).push(b.last()));
        }
    }
}

proof fn lemma_with_score_none(s: Seq<(Move, i32)>, v: i32)
    requires
        forall|k: int| 0 <= k < s.len() ==> s[k].1 != v,
    ensures
        with_score(s, v) == Seq::<(Move, i32)>::empty(),
    decreases s.len(),
{
    if s.len() > 0 {
        lemma_with_score_none(s.drop_last(), v);
    }
}

/// Sorts root moves by ascending score, keeping moves of equal score in
/// their order (a stable insertion sort).
pub fn sort_by_score(moves: Vec<(Move, i32)>) -> (r: Vec<(Move, i32)>)
    ensures
        sorted_by_score(r@),
        r@.to_multiset() == moves@.to_multiset(),
        r@.len() == moves@.len(),
        forall|v: i32| #[trigger] with_score(r@, v) == with_score(moves@, v),
{
    let mut sorted: Vec<(Move, i32)> = Vec::new();
    let mut i: usize = 0;
    assert(sorted@ =~= moves@.take(0));
    while i < moves.len()
        invariant
            i <= moves.len(),
            sorted_by_score(sorted@),
            sorted@.to_multiset() == moves@.take(i as int).to_multiset(),
            forall|v: i32| #[trigger] with_score(sorted@, v) == with_score(moves@.take(i as int), v),
        decreases moves.len() - i,
    {
        let entry = moves[i];
        let mut j: usize = 0;
        while j < sorted.len() && sorted[j].1 <= entry.1
            invariant
                j <= sorted.len(),
                forall|k: int| 0 <= k < j ==> sorted@[k].1 <= entry.1,
            decreases sorted.len() - j,
        {
            j = j + 1;
        }
        let ghost before = sorted@;
        sorted.insert(j, entry);
        proof {
            broadcast use vstd::seq_lib::to_multiset_insert;
            broadcast use vstd::seq_lib::to_multiset_build;
            assert(moves@.take(i + 1) =~= moves@.take(i as int).push(entry));
            assert(sorted@ == before.insert(j as int, entry));
            assert forall|v: i32| #[trigger] with_score(sorted@, v) == with_score(moves@.take(i + 1), v) by {
                let front = before.take(j as int);
                let back = before.skip(j as int);
                assert(before =~= front + back);
                assert(sorted@ =~= front.push(entry) + back);
                lemma_with_score_add(front, back, v);
                lemma_with_score_add(front.push(entry), back, v);
                lemma_with_score_push(front, entry, v);
                lemma_with_score_push(moves@.take(i as int), entry, v);
                if entry.1 == v {
                    assert forall|k: int| 0 <= k < back.len() implies back[k].1 != v by {
                        assert(back[k] == before[j + k]);
                        assert(before[j as int].1 > entry.1);
                    }
                    lemma_with_score_none(back, v);
                    assert(with_score(front, v) + Seq::<(Move, i32)>::empty() =~= with_score(front, v));
                    assert(with_score(front, v).push(entry) + Seq::<(Move, i32)>::empty() =~= with_score(
                        front,
                        v,
                    ).push(entry));
                }
            }
            assert(sorted_by_score(sorted@)) by {
                assert forall|a: int, b: int| 0 <= a <= b < sorted@.len() implies sorted@[a].1
                    <= sorted@[b].1 by {
                    if j < before.len() {
                        assert(before[j as int].1 > entry.1);
                    }
                }
            }
        }
        i = i + 1;
    }
    proof {
        assert(moves@.take(i as int) =~= moves@);
        broadcast use vstd::seq_lib::to_multiset_len;
        assert(sorted@.len() == sorted@.to_multiset().len());
        assert(moves@.len() == moves@.to_multiset().len());
    }
    sorted
}

} // verus!
verus! {

/// Counters of one search.
#[derive(Clone, Copy, Debug)]
pub struct SearchStats {
    pub nodes_searched: u64,
    pub evaluations: u64,
    pub cutoffs: u64,
    pub terminal_nodes: u64,
    pub tt_hits: u64,
    pub tt_misses: u64,
    pub tt_collisions: u64,
}

impl SearchStats {
    /// All counters at zero.
    pub open spec fn is_zero(&self) -> bool {
        &&& self.nodes_searched == 0
        &&& self.evaluations == 0
        &&& self.cutoffs == 0
        &&& self.terminal_nodes == 0
        &&& self.tt_hits == 0
        &&& self.tt_misses == 0
        &&& self.tt_collisions == 0
    }

    /// Fresh counters, all zero.
    pub fn new() -> (r: Self)
        ensures
            r.is_zero(),
    {
        Self {
            nodes_searched: 0,
            evaluations: 0,
            cutoffs: 0,
            terminal_nodes: 0,
            tt_hits: 0,
            tt_misses: 0,
            tt_collisions: 0,
        }
    }
}

impl Default for SearchStats {
    fn default() -> (r: Self)
        ensures
            r.is_zero(),
    {
        Self::new()
    }
}

/// A score the search may return or cache.
pub open spec fn score_in_range(s: int) -> bool {
    -SCORE_LIMIT <= s <= SCORE_LIMIT
}

/// A cached score that reads back within range at its depth or any
/// shallower one.
pub open spec fn storable(score: i32, depth: i32) -> bool {
    &&& score_in_range(score as int)
    &&& score > MATE_SCORE_THRESHOLD ==> score + depth <= SCORE_LIMIT
    &&& score < -MATE_SCORE_THRESHOLD ==> score - depth >= -SCORE_LIMIT
}

/// An entry the search may have cached.
pub open spec fn entry_ok(e: TTEntry) -> bool {
    TT_MIN_DEPTH <= e.depth <= MAX_SEARCH_DEPTH && storable(e.score, e.depth)
}

/// Every cached entry is one the search may have cached.
pub open spec fn entries_ok(m: TtModel) -> bool {
    forall|i: int|
        0 <= i < m.slots.len() && (#[trigger] m.slots[i]) is Some ==> entry_ok(m.slots[i]->0)
}

/// A search window: `alpha` may sit one below the score range, `beta` one
/// above it.
pub open spec fn window_ok(alpha: i32, beta: i32) -> bool {
    -SCORE_LIMIT - 1 <= alpha <= SCORE_LIMIT && -SCORE_LIMIT <= beta <= SCORE_LIMIT + 1
}

/// The score a table probe settles a node with, if any: an entry for this
/// position from a search at least as deep, whose re-based score is exact,
/// or a lower bound at or above `beta`, or an upper bound at or below
/// `alpha`.  Below `TT_MIN_DEPTH` the table is not consulted.
pub open spec fn tt_cutoff(m: TtModel, hash: u64, depth: i32, alpha: i32, beta: i32) -> Option<
    int,
> {
    if depth < TT_MIN_DEPTH {
        None
    } else {
        match m.lookup(hash) {
            Some(e) => {
                let s = spec_from_tt_score(e.score as int, depth as int);
                if e.depth >= depth {
                    match e.node_type {
                        NodeType::Exact => Some(s),
                        NodeType::LowerBound => if s >= beta { Some(s) } else { None },
                        NodeType::UpperBound => if s <= alpha { Some(s) } else { None },
                    }
                } else {
                    None
                }
            },
            None => None,
        }
    }
}

/// What a search node returns: the table's verdict when it settles the
/// node; else for a position without legal moves its terminal score; else at
/// depth 0 the material balance; else a score of the window, fail-hard: `alpha`
/// (nothing better found), `beta` (a refutation found) or a score strictly
/// between them.
pub open spec fn node_result(
    m: TtModel,
    state: BoardState,
    alpha: i32,
    beta: i32,
    depth: i32,
    chromosome: Option<Chromosome>,
    r: i32,
) -> bool {
    match tt_cutoff(m, state.hash, depth, alpha, beta) {
        Some(s) => r == s,
        None => if spec_legal_move_count(state) == 0 {
            r == spec_terminal_score(state, depth as int)
        } else if depth == 0 {
            r == material_score(state, chromosome)
        } else {
            r == alpha || r == beta || (alpha < r < beta)
        },
    }
}

/// The bound type a node stores with its result `r` in window
/// (`alpha`, `beta`): a lower bound when it returned `beta` after a
/// refutation, an upper bound when it returned `alpha` finding nothing
/// better, exact for a score strictly inside the window.
pub open spec fn stored_bound(nt: NodeType, r: i32, alpha: i32, beta: i32) -> bool {
    ||| nt == NodeType::LowerBound && r == beta
    ||| nt == NodeType::UpperBound && r == alpha
    ||| nt == NodeType::Exact && alpha < r < beta
}

/// What a node leaves in the table.  At a depth below `TT_MIN_DEPTH` the
/// table is untouched.  A node that searched its moves at a depth where
/// the table is used ends by storing its result, re-based, for its
/// position at its depth, with the bound type that `stored_bound` gives and
/// the best move it found (a legal one) if any.
pub open spec fn node_table(
    old: TtModel,
    new: TtModel,
    state: BoardState,
    alpha: i32,
    beta: i32,
    depth: i32,
    r: i32,
) -> bool {
    &&& depth < TT_MIN_DEPTH ==> new == old
    &&& (depth >= TT_MIN_DEPTH && tt_cutoff(old, state.hash, depth, alpha, beta) is None
        && spec_legal_move_count(state) > 0) ==> exists|
        pre: TtModel,
        nt: NodeType,
        mv: Option<Move>,
    |
        #[trigger] pre.after_store(state.hash, depth, nt, spec_to_tt_score(r as int, depth as int) as i32, mv)
            == new && pre.wf() && stored_bound(nt, r, alpha, beta) && (mv matches Some(m)
            ==> is_generated_move(state, m))
}

/// The table counters of `b` are those of `a`.
pub open spec fn table_counters_kept(a: SearchStats, b: SearchStats) -> bool {
    b.tt_hits == a.tt_hits && b.tt_misses == a.tt_misses && b.tt_collisions == a.tt_collisions
}

/// No search counter went down from `a` to `b`.
pub open spec fn stats_grown(a: SearchStats, b: SearchStats) -> bool {
    &&& b.nodes_searched >= a.nodes_searched
    &&& b.evaluations >= a.evaluations
    &&& b.terminal_nodes >= a.terminal_nodes
    &&& b.cutoffs >= a.cutoffs
}

/// The evaluations, terminal nodes and cutoffs counted from `a` to `b`.
pub open spec fn events(a: SearchStats, b: SearchStats) -> int {
    (b.evaluations - a.evaluations) + (b.terminal_nodes - a.terminal_nodes) + (b.cutoffs - a.cutoffs)
}

/// The counters from `a` to `b` record a search: no counter went down, and
/// unless the node counter has reached the top of its range (the counters
/// saturate), at least one node was counted and every evaluation, terminal
/// node and cutoff happened at a counted node, at most one at each.
pub open spec fn counted(a: SearchStats, b: SearchStats) -> bool {
    &&& stats_grown(a, b)
    &&& b.nodes_searched == u64::MAX || (b.nodes_searched > a.nodes_searched && events(a, b) <= b.nodes_searched
        - a.nodes_searched)
}

/// As `counted`, for a node that has counted itself and searched some of
/// its children, without a cutoff at the node yet.
pub open spec fn counted_so_far(a: SearchStats, b: SearchStats) -> bool {
    &&& stats_grown(a, b)
    &&& b.nodes_searched == u64::MAX || (b.nodes_searched > a.nodes_searched && events(a, b) <= b.nodes_searched
        - a.nodes_searched - 1)
}

/// The probes counted by the table: hits, misses and collisions.
pub open spec fn probe_count(t: TtModel) -> int {
    t.hits + t.misses + t.collisions
}

/// From `ta` to `tb` no probe counter went down, and unless the node
/// counter has reached the top of its range, the table counted no more
/// probes than nodes were counted from `a` to `b`: at most one probe a
/// node.
pub open spec fn probes_counted(a: SearchStats, b: SearchStats, ta: TtModel, tb: TtModel) -> bool {
    &&& tb.hits >= ta.hits && tb.misses >= ta.misses && tb.collisions >= ta.collisions
    &&& b.nodes_searched == u64::MAX || probe_count(tb) - probe_count(ta) <= b.nodes_searched - a.nodes_searched
}

/// The counters `s` and the table `t` after the searches of `i` root
/// moves, all counters starting from zero: unless the node counter has
/// reached the top of its range, at least one node for each, and no more
/// evaluations, terminal nodes and cutoffs together, nor probes, than
/// nodes.
pub open spec fn root_counted(s: SearchStats, t: TtModel, i: int) -> bool {
    s.nodes_searched == u64::MAX || (i <= s.nodes_searched && s.evaluations + s.terminal_nodes + s.cutoffs
        <= s.nodes_searched && probe_count(t) <= s.nodes_searched)
}

/// The counters `s` of a finished root search of `state`: unless the node
/// counter has reached the top of its range, at least one node for each
/// root move, and no more evaluations, terminal nodes and cutoffs
/// together, nor table probes (hits, misses and collisions), than nodes.
pub open spec fn search_counted(state: BoardState, s: SearchStats) -> bool {
    s.nodes_searched == u64::MAX || (spec_ordered_moves(state).len() <= s.nodes_searched && s.evaluations
        + s.terminal_nodes + s.cutoffs <= s.nodes_searched && s.tt_hits + s.tt_misses + s.tt_collisions
        <= s.nodes_searched)
}

/// The counters after a node with no depth left: one more node, and one
/// more terminal node (no legal move) or evaluation.
pub open spec fn leaf_stats(s: SearchStats, terminal: bool) -> SearchStats {
    if terminal {
        SearchStats { nodes_searched: bump(s.nodes_searched), terminal_nodes: bump(s.terminal_nodes), ..s }
    } else {
        SearchStats { nodes_searched: bump(s.nodes_searched), evaluations: bump(s.evaluations), ..s }
    }
}

/// The value of a position with no depth left: its terminal score when it
/// has no legal move, else its material balance.
pub open spec fn leaf_value(state: BoardState, depth: int, chromosome: Option<Chromosome>) -> int {
    if spec_legal_move_count(state) == 0 {
        spec_terminal_score(state, depth)
    } else {
        material_score(state, chromosome)
    }
}

/// The leaf value of the position after a move.
pub open spec fn child_value(state: BoardState, m: Move, chromosome: Option<Chromosome>) -> int {
    leaf_value(spec_make_move(state, m), 0, chromosome)
}

/// The best (largest when maximizing, else smallest) child value over the
/// first `n` of `moves`.
pub open spec fn best_child(
    state: BoardState,
    moves: Seq<Move>,
    n: int,
    chromosome: Option<Chromosome>,
    maximize: bool,
) -> int
    decreases n,
{
    if n <= 1 {
        child_value(state, moves[0], chromosome)
    } else {
        let b = best_child(state, moves, n - 1, chromosome, maximize);
        let c = child_value(state, moves[n - 1], chromosome);
        if maximize {
            if b >= c { b } else { c }
        } else {
            if b <= c { b } else { c }
        }
    }
}

/// The depth-limited minimax value of a position for the node kind that
/// plays it (maximizing or not): its terminal score without legal moves, its
/// material balance with no depth left, else the best value of its children
/// (each after one of its ordered moves, one ply shallower, for the other
/// node kind).
pub open spec fn minimax(state: BoardState, depth: int, chromosome: Option<Chromosome>, maximize: bool) -> int
    decreases depth + 1, 0int,
{
    if spec_legal_move_count(state) == 0 {
        spec_terminal_score(state, depth)
    } else if depth <= 0 {
        material_score(state, chromosome)
    } else {
        best_of(
            state,
            spec_ordered_moves(state),
            spec_ordered_moves(state).len() as int,
            depth - 1,
            chromosome,
            maximize,
        )
    }
}

/// The best (largest when maximizing, else smallest) minimax value of the
/// children after the first `n` of `moves`, searched at `child_depth`.
pub open spec fn best_of(
    state: BoardState,
    moves: Seq<Move>,
    n: int,
    child_depth: int,
    chromosome: Option<Chromosome>,
    maximize: bool,
) -> int
    decreases child_depth + 1, n,
{
    if n <= 0 || child_depth < 0 {
        0
    } else {
        let c = minimax(spec_make_move(state, moves[n - 1]), child_depth, chromosome, !maximize);
        if n == 1 {
            c
        } else {
            extreme(best_of(state, moves, n - 1, child_depth, chromosome, maximize), c, maximize)
        }
    }
}













proof fn lemma_best_of_shallow(
    state: BoardState,
    moves: Seq<Move>,
    n: int,
    chromosome: Option<Chromosome>,
    maximize: bool,
)
    requires
        n >= 1,
    ensures
        best_of(state, moves, n, 0, chromosome, maximize) == best_child(state, moves, n, chromosome, maximize),
    decreases n,
{
    let c = spec_make_move(state, moves[n - 1]);
    assert(minimax(c, 0, chromosome, !maximize) == child_value(state, moves[n - 1], chromosome));
    if n > 1 {
        lemma_best_of_shallow(state, moves, n - 1, chromosome, maximize);
    }
}

/// Where the table is not used, the minimax value is the shallow value.
proof fn lemma_minimax_shallow(state: BoardState, depth: int, chromosome: Option<Chromosome>, maximize: bool)
    requires
        0 <= depth <= 1,
        spec_legal_move_count(state) == 0 || spec_ordered_moves(state).len() >= 1,
    ensures
        minimax(state, depth, chromosome, maximize) == shallow_value(state, depth, chromosome, maximize),
{
    if spec_legal_move_count(state) != 0 && depth == 1 {
        lemma_best_of_shallow(state, spec_ordered_moves(state), spec_ordered_moves(state).len() as int, chromosome, maximize);
    }
}

/// The minimax value of a position searched at most one ply deep (where
/// the table is not used): terminal score without legal moves, material at
/// depth 0, else the best child value for the side the node plays.
pub open spec fn shallow_value(
    state: BoardState,
    depth: int,
    chromosome: Option<Chromosome>,
    maximize: bool,
) -> int {
    if spec_legal_move_count(state) == 0 {
        spec_terminal_score(state, depth)
    } else if depth == 0 {
        material_score(state, chromosome)
    } else {
        best_child(state, spec_ordered_moves(state), spec_ordered_moves(state).len() as int, chromosome, maximize)
    }
}

/// Fail-hard alpha-beta: a value inside the window is returned exactly, a
/// value at or below `alpha` comes back at or below `alpha`, one at or above
/// `beta` at or above `beta`.
pub open spec fn window_value(v: int, alpha: int, beta: int, r: int) -> bool {
    &&& alpha < v < beta ==> r == v
    &&& v <= alpha ==> r <= alpha
    &&& v >= beta ==> r >= beta
}

/// The larger (maximizing) or smaller of two values.
pub open spec fn extreme(a: int, b: int, maximize: bool) -> int {
    if maximize {
        if a >= b { a } else { b }
    } else {
        if a <= b { a } else { b }
    }
}

proof fn lemma_best_child_bounds(
    state: BoardState,
    moves: Seq<Move>,
    n: int,
    chromosome: Option<Chromosome>,
    maximize: bool,
    j: int,
)
    requires
        0 <= j < n,
    ensures
        maximize ==> best_child(state, moves, n, chromosome, maximize) >= child_value(
            state,
            moves[j],
            chromosome,
        ),
        !maximize ==> best_child(state, moves, n, chromosome, maximize) <= child_value(
            state,
            moves[j],
            chromosome,
        ),
    decreases n,
{
    if n > 1 && j < n - 1 {
        lemma_best_child_bounds(state, moves, n - 1, chromosome, maximize, j);
    }
}

/// The search's table after a probe at this depth.
pub open spec fn probed(m: TtModel, hash: u64, depth: i32) -> TtModel {
    if depth < TT_MIN_DEPTH {
        m
    } else {
        m.after_probe(hash)
    }
}

/// Outcome of a transposition-table probe at the start of a search node.
enum ProbeResult {
    /// The cached entry already determines the score; the caller should return it directly.
    Cutoff(i32),
    /// No usable cached score; continue searching with the given hash and (optional) hint move.
    Continue { hash: u64, tt_move: Option<Move> },
}

proof fn lemma_to_tt_storable(score: i32, depth: i32)
    requires
        score_in_range(score as int),
        0 <= depth <= MAX_SEARCH_DEPTH,
    ensures
        to_tt_score_fits(score, depth),
        storable(spec_to_tt_score(score as int, depth as int) as i32, depth),
{
}

proof fn lemma_cutoff_in_range(m: TtModel, hash: u64, depth: i32, alpha: i32, beta: i32)
    requires
        m.wf(),
        entries_ok(m),
        0 <= depth,
    ensures
        tt_cutoff(m, hash, depth, alpha, beta) matches Some(s) ==> score_in_range(s),
        m.lookup(hash) matches Some(e) ==> entry_ok(e),
{
    lemma_slot_in_range(m, hash);
    assert(m.slots[m.slot(hash)] is Some ==> entry_ok(m.slots[m.slot(hash)]->0));
}

pub proof fn lemma_slot_in_range(m: TtModel, key: u64)
    requires
        m.wf(),
    ensures
        0 <= m.slot(key) < m.slots.len(),
{
    let k = key as usize;
    let mask = m.mask;
    assert(k & mask <= mask) by (bit_vector);
}

/// Alpha-beta search with a transposition table.
pub struct AlphaBetaAlgorithm {
    pub stats: SearchStats,
    pub transposition_table: TranspositionTable,
}

impl AlphaBetaAlgorithm {
    /// The table is well formed and holds only entries the search may have
    /// cached.
    pub open spec fn ready(&self) -> bool {
        self.transposition_table.wf() && entries_ok(self.transposition_table@)
    }

    /// A fresh search: zero counters and an empty table of 2^20 slots.
    pub fn new() -> (r: Self)
        ensures
            r.ready(),
            r.stats.is_zero(),
            r.transposition_table@.slots.len() == 0x100000,
            forall|i: int|
                0 <= i < r.transposition_table@.slots.len() ==> #[trigger] r.transposition_table@.slots[i] is None,
            r.transposition_table@.age == 0,
            r.transposition_table@.hits == 0 && r.transposition_table@.misses == 0
                && r.transposition_table@.collisions == 0,
    {
        Self { stats: SearchStats::new(), transposition_table: TranspositionTable::default() }
    }

    /// Clears the counters and starts a new search generation in the table.
    pub fn reset_stats(&mut self)
        requires
            old(self).ready(),
        ensures
            final(self).ready(),
            final(self).stats.is_zero(),
            final(self).transposition_table@ == old(self).transposition_table@.after_new_search(),
    {
        self.stats = SearchStats::new();
        self.transposition_table.new_search();
    }

    /// Copies the table's probe counters into the search counters.
    fn update_stats_from_tt(&mut self)
        requires
            old(self).ready(),
        ensures
            final(self).ready(),
            final(self).transposition_table@ == old(self).transposition_table@,
            final(self).stats == (SearchStats {
                tt_hits: old(self).transposition_table@.hits,
                tt_misses: old(self).transposition_table@.misses,
                tt_collisions: old(self).transposition_table@.collisions,
                ..old(self).stats
            }),
    {
        let tt = self.transposition_table.stats();
        self.stats.tt_hits = tt.hits;
        self.stats.tt_misses = tt.misses;
        self.stats.tt_collisions = tt.collisions;
    }

    fn probe_tt(&mut self, board: &Position, depth: i32, alpha: i32, beta: i32) -> (r: ProbeResult)
        requires
            old(self).ready(),
            0 <= depth <= MAX_SEARCH_DEPTH,
        ensures
            final(self).ready(),
            final(self).stats == old(self).stats,
            final(self).transposition_table@ == probed(
                old(self).transposition_table@,
                board@.hash,
                depth,
            ),
            match r {
                ProbeResult::Cutoff(s) => tt_cutoff(
                    old(self).transposition_table@,
                    board@.hash,
                    depth,
                    alpha,
                    beta,
                ) == Some(s as int) && score_in_range(s as int),
                ProbeResult::Continue { hash, tt_move } => tt_cutoff(
                    old(self).transposition_table@,
                    board@.hash,
                    depth,
                    alpha,
                    beta,
                ) is None && (depth >= TT_MIN_DEPTH ==> hash == board@.hash && tt_move == match old(
                    self,
                ).transposition_table@.lookup(board@.hash) {
                    Some(e) => e.best_move,
                    None => None,
                }) && (depth < TT_MIN_DEPTH ==> hash == 0 && tt_move is None),
            },
    {
        if depth < TT_MIN_DEPTH {
            return ProbeResult::Continue { hash: 0, tt_move: None };
        }
        let hash = board.hash();
        proof {
            lemma_cutoff_in_range(self.transposition_table@, hash, depth, alpha, beta);
        }
        let (entry_depth, node_type, score, best_move) = match self.transposition_table.probe(hash) {
            Some(entry) => (entry.depth, entry.node_type, from_tt_score(entry.score, depth), entry.best_move),
            None => return ProbeResult::Continue { hash, tt_move: None },
        };
        if entry_depth >= depth {
            match node_type {
                NodeType::Exact => return ProbeResult::Cutoff(score),
                NodeType::LowerBound => if score >= beta {
                    return ProbeResult::Cutoff(score);
                },
                NodeType::UpperBound => if score <= alpha {
                    return ProbeResult::Cutoff(score);
                },
            }
        }
        ProbeResult::Continue { hash, tt_move: best_move }
    }

    fn store_tt(&mut self, hash: u64, depth: i32, node_type: NodeType, score: i32, best_move: Option<Move>)
        requires
            old(self).ready(),
            0 <= depth <= MAX_SEARCH_DEPTH,
            score_in_range(score as int),
        ensures
            final(self).ready(),
            final(self).stats == old(self).stats,
            final(self).transposition_table@ == if depth < TT_MIN_DEPTH {
                old(self).transposition_table@
            } else {
                old(self).transposition_table@.after_store(
                    hash,
                    depth,
                    node_type,
                    spec_to_tt_score(score as int, depth as int) as i32,
                    best_move,
                )
            },
    {
        if depth < TT_MIN_DEPTH {
            return ;
        }
        proof {
            lemma_to_tt_storable(score, depth);
        }
        let stored = to_tt_score(score, depth);
        let ghost before = self.transposition_table@;
        self.transposition_table.store(hash, depth, node_type, stored, best_move);
        proof {
            let after = self.transposition_table@;
            lemma_slot_in_range(before, hash);
            assert forall|i: int|
                0 <= i < after.slots.len() && (#[trigger] after.slots[i]) is Some implies entry_ok(
                after.slots[i]->0) by {
                if i != before.slot(hash) {
                    assert(after.slots[i] == before.slots[i]);
                }
            }
        }
    }
}

} // verus!
verus! {

proof fn lemma_tt_move_first_generated(state: BoardState, moves: Seq<Move>, tt_move: Option<Move>)
    requires
        all_generated(state, moves),
    ensures
        all_generated(state, spec_tt_move_first(moves, tt_move)),
        spec_tt_move_first(moves, tt_move).len() == moves.len(),
{
    match tt_move {
        Some(m) => {
            moves.index_of_first_ensures(m);
        },
        None => {},
    }
}

proof fn lemma_ordered_count(state: BoardState, count: nat)
    requires
        forall|mask: u64|
            #[trigger] spec_legal_moves(state, mask).len() + spec_legal_moves(state, !mask).len()
                == count,
    ensures
        spec_ordered_moves(state).len() == count,
{
    let t = capture_targets(state);
    assert(spec_legal_moves(state, t).len() + spec_legal_moves(state, !t).len() == count);
}

impl AlphaBetaAlgorithm {
    /// Get moves in order of priority (captures first, then others).
    pub fn get_ordered_moves(&self, board: &Position) -> (r: Vec<Move>)
        ensures
            r@ == spec_ordered_moves(board@),
            all_generated(board@, r@),
            r@.len() <= 2 * 18 * 64 * 4,
            captures_first(board@, r@),
            r@.to_multiset() == all_legal_moves(board@).to_multiset(),
            r@.no_duplicates(),
    {
        ordered_moves(board)
    }

    /// The maximizing (White) node of the search.  See `node_result` for what
    /// it returns.  Where the table cannot mislead the search
    /// (`search_sound`), the result is the node's minimax value wherever
    /// that lies inside the window, and fails hard at the window's edges
    /// otherwise, and the table is left sound for the nodes the search met.
    /// The counters record this search (`counted`, `probes_counted`).
    pub fn alpha_beta_max(
        &mut self,
        board: Position,
        alpha_before: i32,
        beta: i32,
        depth_left_before: i32,
        chromosome: Option<&Chromosome>,
    ) -> (r: i32)
        requires
            old(self).ready(),
            0 <= depth_left_before <= MAX_SEARCH_DEPTH,
            window_ok(alpha_before, beta),
            values_in_range(owned(chromosome)),
        ensures
            final(self).ready(),
            final(self).transposition_table@.age == old(self).transposition_table@.age,
            table_counters_kept(old(self).stats, final(self).stats),
            score_in_range(r as int),
            node_result(
                old(self).transposition_table@,
                board@,
                alpha_before,
                beta,
                depth_left_before,
                owned(chromosome),
                r,
            ),
            node_table(
                old(self).transposition_table@,
                final(self).transposition_table@,
                board@,
                alpha_before,
                beta,
                depth_left_before,
                r,
            ),
            depth_left_before == 0 ==> final(self).stats == leaf_stats(
                old(self).stats,
                spec_legal_move_count(board@) == 0,
            ),
            tt_cutoff(old(self).transposition_table@, board@.hash, depth_left_before, alpha_before, beta) is Some
                ==> final(self).stats == (SearchStats {
                nodes_searched: bump(old(self).stats.nodes_searched),
                ..old(self).stats
            }),
            tt_cutoff(old(self).transposition_table@, board@.hash, depth_left_before, alpha_before, beta) is None
                && spec_legal_move_count(board@) == 0 ==> final(self).stats == leaf_stats(old(self).stats, true),
            depth_left_before < TT_MIN_DEPTH ==> window_value(
                shallow_value(board@, depth_left_before as int, owned(chromosome), true),
                alpha_before as int,
                beta as int,
                r as int,
            ),
            search_sound(
                old(self).transposition_table@,
                board@,
                depth_left_before as int,
                owned(chromosome),
                true,
                alpha_before as int,
                beta as int,
            ) ==> window_value(
                minimax(board@, depth_left_before as int, owned(chromosome), true),
                alpha_before as int,
                beta as int,
                r as int,
            ),
            search_sound(
                old(self).transposition_table@,
                board@,
                depth_left_before as int,
                owned(chromosome),
                true,
                alpha_before as int,
                beta as int,
            ) ==> table_sound(
                final(self).transposition_table@,
                tree_nodes(board@, depth_left_before as int, true),
                owned(chromosome),
            ) && keeps_outside(
                old(self).transposition_table@,
                final(self).transposition_table@,
                node_keys(tree_nodes(board@, depth_left_before as int, true)),
            ),
            counted(old(self).stats, final(self).stats),
            probes_counted(
                old(self).stats,
                final(self).stats,
                old(self).transposition_table@,
                final(self).transposition_table@,
            ),
        decreases depth_left_before,
    {
        self.stats.nodes_searched = self.stats.nodes_searched.saturating_add(1);
        let ghost tt0 = self.transposition_table@;
        let ghost d = depth_left_before as int;
        let ghost ch = owned(chromosome);
        let ghost nodes = tree_nodes(board@, d, true);
        let ghost sound = depth_left_before >= TT_MIN_DEPTH && search_sound(
            tt0,
            board@,
            d,
            ch,
            true,
            alpha_before as int,
            beta as int,
        );
        proof {
            lemma_tree_contains_self(board@, d, true);
            if d < TT_MIN_DEPTH {
                lemma_shallow_sound(tt0, board@, d, true, ch);
            }
        }
        let (board_hash, tt_move) = match self.probe_tt(&board, depth_left_before, alpha_before, beta) {
            ProbeResult::Cutoff(score) => {
                proof {
                    lemma_same_slots(tt0, self.transposition_table@, nodes, ch);
                }
                return score;
            },
            ProbeResult::Continue { hash, tt_move } => (hash, tt_move),
        };
        proof {
            lemma_same_slots(tt0, self.transposition_table@, nodes, ch);
        }
        proof {
            use_type_invariant(&board);
        }
        let count = board.legal_move_count();
        if count == 0 {
            self.stats.terminal_nodes = self.stats.terminal_nodes.saturating_add(1);
            return terminal_score(&board, depth_left_before);
        }
        if depth_left_before == 0 {
            self.stats.evaluations = self.stats.evaluations.saturating_add(1);
            proof {
                lemma_material_score_bound(board@, owned(chromosome));
                lemma_in_range_evaluation_fits(board@, owned(chromosome));
            }
            return match chromosome {
                Some(chr) => Evaluator::evaluate_with_chromosome(board, chr),
                None => Evaluator::evaluate(board),
            };
        }
        let mut alpha = alpha_before;
        let mut moves = ordered_moves(&board);
        proof {
            lemma_ordered_count(board@, count as nat);
            lemma_tt_move_first_generated(board@, moves@, tt_move);
        }
        let ghost ordered = moves@;
        order_tt_move_first(&mut moves, tt_move);
        proof {
            if sound {
                lemma_best_of_hint_first(board@, ordered, tt_move, d - 1, ch, true);
            }
        }
        let mut best_move: Option<Move> = None;
        let mut i: usize = 0;
        while i < moves.len()
            invariant
                self.ready(),
                self.transposition_table@.age == tt0.age,
                table_counters_kept(old(self).stats, self.stats),
                0 <= i <= moves.len(),
                moves.len() == count > 0,
                counted_so_far(old(self).stats, self.stats),
                probes_counted(
                    old(self).stats,
                    self.stats,
                    tt0,
                    self.transposition_table@,
                ),
                all_generated(board@, moves@),
                1 <= depth_left_before <= MAX_SEARCH_DEPTH,
                window_ok(alpha_before, beta),
                values_in_range(owned(chromosome)),
                -SCORE_LIMIT - 1 <= alpha <= SCORE_LIMIT,
                alpha == alpha_before || (alpha_before < alpha < beta),
                i == 0 ==> alpha == alpha_before,
                i > 0 ==> alpha >= -SCORE_LIMIT,
                best_move matches Some(m) ==> is_generated_move(board@, m),
                alpha == alpha_before ==> best_move is None,
                depth_left_before < TT_MIN_DEPTH ==> self.transposition_table@ == tt0,
                depth_left_before >= TT_MIN_DEPTH ==> board_hash == board@.hash,
                depth_left_before < TT_MIN_DEPTH ==> moves@ == spec_ordered_moves(board@),
                depth_left_before < TT_MIN_DEPTH ==> forall|j: int|
                    0 <= j < i ==> child_value(board@, #[trigger] moves@[j], owned(chromosome)) < beta,
                depth_left_before < TT_MIN_DEPTH && i > 0 ==> alpha as int == extreme(
                    alpha_before as int,
                    best_child(board@, moves@, i as int, owned(chromosome), true),
                    true,
                ),
                tt_cutoff(tt0, board@.hash, depth_left_before, alpha_before, beta) is None,
                tt0 == old(self).transposition_table@,
                spec_legal_move_count(board@) == count,
                spec_ordered_moves(board@).len() == count,
                d == depth_left_before,
                ch == owned(chromosome),
                nodes == tree_nodes(board@, d, true),
                sound == (depth_left_before >= TT_MIN_DEPTH && search_sound(
                    tt0,
                    board@,
                    d,
                    ch,
                    true,
                    alpha_before as int,
                    beta as int,
                )),
                ordered == spec_ordered_moves(board@),
                moves@ == spec_tt_move_first(ordered, tt_move),
                sound ==> best_of(board@, moves@, moves@.len() as int, d - 1, ch, true) == minimax(board@, d, ch, true),
                sound ==> table_sound(self.transposition_table@, nodes, ch) && keeps_outside(
                    tt0,
                    self.transposition_table@,
                    node_keys(nodes),
                ),
                sound && i > 0 ==> best_of(board@, moves@, i as int, d - 1, ch, true) < beta
                    && alpha as int == extreme(
                    alpha_before as int,
                    best_of(board@, moves@, i as int, d - 1, ch, true),
                    true,
                ),
            decreases moves.len() - i,
        {
            let mov = moves[i];
            let new_board = board.make_move(mov);
            let ghost alpha_prev = alpha;
            let ghost tt_before = self.transposition_table@;
            proof {
                if sound {
                    let c = spec_make_move(board@, mov);
                    lemma_tt_move_first_from(ordered, tt_move, i as int);
                    lemma_child_subtree(board@, d, true, mov);
                    lemma_sound_subset(tt_before, nodes, tree_nodes(c, d - 1, false), ch, d, d - 1);
                    if i > 0 {
                        let j = lemma_best_of_attained(board@, moves@, i as int, d - 1, ch, true);
                        lemma_tt_move_first_from(ordered, tt_move, j);
                        lemma_child_subtree(board@, d, true, moves@[j]);
                        lemma_tree_contains_self(spec_make_move(board@, moves@[j]), d - 1, false);
                    }
                }
            }
            let score = self.alpha_beta_min(new_board, alpha, beta, depth_left_before - 1, chromosome);
            proof {
                if sound {
                    let c = spec_make_move(board@, mov);
                    lemma_sound_after_child(tt0, tt_before, self.transposition_table@, nodes, tree_nodes(c, d - 1, false), ch);
                }
                if sound {
                    let n = moves@.len() as int;
                    lemma_best_of_dominates(board@, moves@, n, d - 1, ch, true, i as int);
                    if i > 0 {
                        assert(best_of(board@, moves@, i + 1, d - 1, ch, true) == extreme(
                            best_of(board@, moves@, i as int, d - 1, ch, true),
                            minimax(spec_make_move(board@, mov), d - 1, ch, false),
                            true,
                        ));
                    } else {
                        assert(best_of(board@, moves@, 1, d - 1, ch, true) == minimax(
                            spec_make_move(board@, mov),
                            d - 1,
                            ch,
                            false,
                        ));
                    }
                }
            }
            proof {
                if depth_left_before < TT_MIN_DEPTH {
                    assert(score == child_value(board@, mov, owned(chromosome)));
                    let n = moves@.len() as int;
                    lemma_best_child_bounds(board@, moves@, n, owned(chromosome), true, i as int);
                }
            }
            if score >= beta {
                self.stats.cutoffs = self.stats.cutoffs.saturating_add(1);
                let ghost pre = self.transposition_table@;
                self.store_tt(board_hash, depth_left_before, NodeType::LowerBound, beta, Some(mov));
                proof {
                    if depth_left_before >= TT_MIN_DEPTH {
                        assert(pre.after_store(board@.hash, depth_left_before, NodeType::LowerBound, spec_to_tt_score(beta as int, depth_left_before as int) as i32, Some(mov)) == self.transposition_table@);
                        assert(is_generated_move(board@, moves@[i as int]));
                    }
                    if sound {
                        lemma_best_of_dominates(board@, moves@, moves@.len() as int, d - 1, ch, true, i as int);
                        lemma_sound_store(pre, nodes, (board@, d, true), NodeType::LowerBound, spec_to_tt_score(beta as int, depth_left_before as int) as i32, Some(mov), ch);
                        lemma_keeps_outside_trans(tt0, pre, self.transposition_table@, node_keys(nodes));
                    }
                    if depth_left_before < TT_MIN_DEPTH {
                        lemma_minimax_shallow(board@, d, ch, true);
                        lemma_shallow_sound(tt0, board@, d, true, ch);
                    }
                }
                return beta;
            }
            if score > alpha {
                alpha = score;
                best_move = Some(mov);
            }
            proof {
                if depth_left_before < TT_MIN_DEPTH {
                    let c = child_value(board@, mov, owned(chromosome));
                    if i > 0 {
                        assert(best_child(board@, moves@, i + 1, owned(chromosome), true) == extreme(
                            best_child(board@, moves@, i as int, owned(chromosome), true),
                            c,
                            true,
                        ));
                    } else {
                        assert(best_child(board@, moves@, 1, owned(chromosome), true) == c);
                    }
                }
            }
            i = i + 1;
        }
        let node_type = if alpha <= alpha_before {
            NodeType::UpperBound
        } else {
            NodeType::Exact
        };
        let ghost pre = self.transposition_table@;
        self.store_tt(board_hash, depth_left_before, node_type, alpha, best_move);
        proof {
            if depth_left_before >= TT_MIN_DEPTH {
                assert(pre.after_store(board@.hash, depth_left_before, node_type, spec_to_tt_score(alpha as int, depth_left_before as int) as i32, best_move) == self.transposition_table@);
                assert(stored_bound(node_type, alpha, alpha_before, beta));
            }
            if sound {
                lemma_sound_store(pre, nodes, (board@, d, true), node_type, spec_to_tt_score(alpha as int, depth_left_before as int) as i32, best_move, ch);
                lemma_keeps_outside_trans(tt0, pre, self.transposition_table@, node_keys(nodes));
            }
            if depth_left_before < TT_MIN_DEPTH {
                lemma_minimax_shallow(board@, d, ch, true);
            }
        }
        alpha
    }

    /// The minimizing (Black) node of the search.  See `node_result` for what
    /// it returns.  Where the table cannot mislead the search
    /// (`search_sound`), the result is the node's minimax value wherever
    /// that lies inside the window, and fails hard at the window's edges
    /// otherwise, and the table is left sound for the nodes the search met.
    /// The counters record this search (`counted`, `probes_counted`).
    pub fn alpha_beta_min(
        &mut self,
        board: Position,
        alpha: i32,
        beta_before: i32,
        depth_left_before: i32,
        chromosome: Option<&Chromosome>,
    ) -> (r: i32)
        requires
            old(self).ready(),
            0 <= depth_left_before <= MAX_SEARCH_DEPTH,
            window_ok(alpha, beta_before),
            values_in_range(owned(chromosome)),
        ensures
            final(self).ready(),
            final(self).transposition_table@.age == old(self).transposition_table@.age,
            table_counters_kept(old(self).stats, final(self).stats),
            score_in_range(r as int),
            node_result(
                old(self).transposition_table@,
                board@,
                alpha,
                beta_before,
                depth_left_before,
                owned(chromosome),
                r,
            ),
            node_table(
                old(self).transposition_table@,
                final(self).transposition_table@,
                board@,
                alpha,
                beta_before,
                depth_left_before,
                r,
            ),
            depth_left_before == 0 ==> final(self).stats == leaf_stats(
                old(self).stats,
                spec_legal_move_count(board@) == 0,
            ),
            tt_cutoff(old(self).transposition_table@, board@.hash, depth_left_before, alpha, beta_before) is Some
                ==> final(self).stats == (SearchStats {
                nodes_searched: bump(old(self).stats.nodes_searched),
                ..old(self).stats
            }),
            tt_cutoff(old(self).transposition_table@, board@.hash, depth_left_before, alpha, beta_before) is None
                && spec_legal_move_count(board@) == 0 ==> final(self).stats == leaf_stats(old(self).stats, true),
            depth_left_before < TT_MIN_DEPTH ==> window_value(
                shallow_value(board@, depth_left_before as int, owned(chromosome), false),
                alpha as int,
                beta_before as int,
                r as int,
            ),
            search_sound(
                old(self).transposition_table@,
                board@,
                depth_left_before as int,
                owned(chromosome),
                false,
                alpha as int,
                beta_before as int,
            ) ==> window_value(
                minimax(board@, depth_left_before as int, owned(chromosome), false),
                alpha as int,
                beta_before as int,
                r as int,
            ),
            search_sound(
                old(self).transposition_table@,
                board@,
                depth_left_before as int,
                owned(chromosome),
                false,
                alpha as int,
                beta_before as int,
            ) ==> table_sound(
                final(self).transposition_table@,
                tree_nodes(board@, depth_left_before as int, false),
                owned(chromosome),
            ) && keeps_outside(
                old(self).transposition_table@,
                final(self).transposition_table@,
                node_keys(tree_nodes(board@, depth_left_before as int, false)),
            ),
            counted(old(self).stats, final(self).stats),
            probes_counted(
                old(self).stats,
                final(self).stats,
                old(self).transposition_table@,
                final(self).transposition_table@,
            ),
        decreases depth_left_before,
    {
        self.stats.nodes_searched = self.stats.nodes_searched.saturating_add(1);
        let ghost tt0 = self.transposition_table@;
        let ghost d = depth_left_before as int;
        let ghost ch = owned(chromosome);
        let ghost nodes = tree_nodes(board@, d, false);
        let ghost sound = depth_left_before >= TT_MIN_DEPTH && search_sound(
            tt0,
            board@,
            d,
            ch,
            false,
            alpha as int,
            beta_before as int,
        );
        proof {
            lemma_tree_contains_self(board@, d, false);
            if d < TT_MIN_DEPTH {
                lemma_shallow_sound(tt0, board@, d, false, ch);
            }
        }
        let (board_hash, tt_move) = match self.probe_tt(&board, depth_left_before, alpha, beta_before) {
            ProbeResult::Cutoff(score) => {
                proof {
                    lemma_same_slots(tt0, self.transposition_table@, nodes, ch);
                }
                return score;
            },
            ProbeResult::Continue { hash, tt_move } => (hash, tt_move),
        };
        proof {
            lemma_same_slots(tt0, self.transposition_table@, nodes, ch);
        }
        proof {
            use_type_invariant(&board);
        }
        let count = board.legal_move_count();
        if count == 0 {
            self.stats.terminal_nodes = self.stats.terminal_nodes.saturating_add(1);
            return terminal_score(&board, depth_left_before);
        }
        if depth_left_before == 0 {
            self.stats.evaluations = self.stats.evaluations.saturating_add(1);
            proof {
                lemma_material_score_bound(board@, owned(chromosome));
                lemma_in_range_evaluation_fits(board@, owned(chromosome));
            }
            return match chromosome {
                Some(chr) => Evaluator::evaluate_with_chromosome(board, chr),
                None => Evaluator::evaluate(board),
            };
        }
        let mut beta = beta_before;
        let mut moves = ordered_moves(&board);
        proof {
            lemma_ordered_count(board@, count as nat);
            lemma_tt_move_first_generated(board@, moves@, tt_move);
        }
        let ghost ordered = moves@;
        order_tt_move_first(&mut moves, tt_move);
        proof {
            if sound {
                lemma_best_of_hint_first(board@, ordered, tt_move, d - 1, ch, false);
            }
        }
        let mut best_move: Option<Move> = None;
        let mut i: usize = 0;
        while i < moves.len()
            invariant
                self.ready(),
                self.transposition_table@.age == tt0.age,
                table_counters_kept(old(self).stats, self.stats),
                0 <= i <= moves.len(),
                moves.len() == count > 0,
                counted_so_far(old(self).stats, self.stats),
                probes_counted(
                    old(self).stats,
                    self.stats,
                    tt0,
                    self.transposition_table@,
                ),
                all_generated(board@, moves@),
                1 <= depth_left_before <= MAX_SEARCH_DEPTH,
                window_ok(alpha, beta_before),
                values_in_range(owned(chromosome)),
                -SCORE_LIMIT <= beta <= SCORE_LIMIT + 1,
                beta == beta_before || (alpha < beta < beta_before),
                i == 0 ==> beta == beta_before,
                i > 0 ==> beta <= SCORE_LIMIT,
                best_move matches Some(m) ==> is_generated_move(board@, m),
                depth_left_before < TT_MIN_DEPTH ==> self.transposition_table@ == tt0,
                depth_left_before >= TT_MIN_DEPTH ==> board_hash == board@.hash,
                depth_left_before < TT_MIN_DEPTH ==> moves@ == spec_ordered_moves(board@),
                depth_left_before < TT_MIN_DEPTH ==> forall|j: int|
                    0 <= j < i ==> child_value(board@, #[trigger] moves@[j], owned(chromosome)) > alpha,
                depth_left_before < TT_MIN_DEPTH && i > 0 ==> beta as int == extreme(
                    beta_before as int,
                    best_child(board@, moves@, i as int, owned(chromosome), false),
                    false,
                ),
                tt_cutoff(tt0, board@.hash, depth_left_before, alpha, beta_before) is None,
                tt0 == old(self).transposition_table@,
                spec_legal_move_count(board@) == count,
                spec_ordered_moves(board@).len() == count,
                d == depth_left_before,
                ch == owned(chromosome),
                nodes == tree_nodes(board@, d, false),
                sound == (depth_left_before >= TT_MIN_DEPTH && search_sound(
                    tt0,
                    board@,
                    d,
                    ch,
                    false,
                    alpha as int,
                    beta_before as int,
                )),
                ordered == spec_ordered_moves(board@),
                moves@ == spec_tt_move_first(ordered, tt_move),
                sound ==> best_of(board@, moves@, moves@.len() as int, d - 1, ch, false) == minimax(board@, d, ch, false),
                sound ==> table_sound(self.transposition_table@, nodes, ch) && keeps_outside(
                    tt0,
                    self.transposition_table@,
                    node_keys(nodes),
                ),
                sound && i > 0 ==> best_of(board@, moves@, i as int, d - 1, ch, false) > alpha
                    && beta as int == extreme(
                    beta_before as int,
                    best_of(board@, moves@, i as int, d - 1, ch, false),
                    false,
                ),
            decreases moves.len() - i,
        {
            let mov = moves[i];
            let new_board = board.make_move(mov);
            let ghost tt_before = self.transposition_table@;
            proof {
                if sound {
                    let c = spec_make_move(board@, mov);
                    lemma_tt_move_first_from(ordered, tt_move, i as int);
                    lemma_child_subtree(board@, d, false, mov);
                    lemma_sound_subset(tt_before, nodes, tree_nodes(c, d - 1, true), ch, d, d - 1);
                    if i > 0 {
                        let j = lemma_best_of_attained(board@, moves@, i as int, d - 1, ch, false);
                        lemma_tt_move_first_from(ordered, tt_move, j);
                        lemma_child_subtree(board@, d, false, moves@[j]);
                        lemma_tree_contains_self(spec_make_move(board@, moves@[j]), d - 1, true);
                    }
                }
            }
            let score = self.alpha_beta_max(new_board, alpha, beta, depth_left_before - 1, chromosome);
            proof {
                if sound {
                    let c = spec_make_move(board@, mov);
                    lemma_sound_after_child(tt0, tt_before, self.transposition_table@, nodes, tree_nodes(c, d - 1, true), ch);
                }
                if sound {
                    let n = moves@.len() as int;
                    lemma_best_of_dominates(board@, moves@, n, d - 1, ch, false, i as int);
                    if i > 0 {
                        assert(best_of(board@, moves@, i + 1, d - 1, ch, false) == extreme(
                            best_of(board@, moves@, i as int, d - 1, ch, false),
                            minimax(spec_make_move(board@, mov), d - 1, ch, true),
                            false,
                        ));
                    } else {
                        assert(best_of(board@, moves@, 1, d - 1, ch, false) == minimax(
                            spec_make_move(board@, mov),
                            d - 1,
                            ch,
                            true,
                        ));
                    }
                }
            }
            proof {
                if depth_left_before < TT_MIN_DEPTH {
                    assert(score == child_value(board@, mov, owned(chromosome)));
                    let n = moves@.len() as int;
                    lemma_best_child_bounds(board@, moves@, n, owned(chromosome), false, i as int);
                }
            }
            if score <= alpha {
                self.stats.cutoffs = self.stats.cutoffs.saturating_add(1);
                let ghost pre = self.transposition_table@;
                self.store_tt(board_hash, depth_left_before, NodeType::UpperBound, alpha, Some(mov));
                proof {
                    if depth_left_before >= TT_MIN_DEPTH {
                        assert(pre.after_store(board@.hash, depth_left_before, NodeType::UpperBound, spec_to_tt_score(alpha as int, depth_left_before as int) as i32, Some(mov)) == self.transposition_table@);
                        assert(is_generated_move(board@, moves@[i as int]));
                    }
                    if sound {
                        lemma_best_of_dominates(board@, moves@, moves@.len() as int, d - 1, ch, false, i as int);
                        lemma_sound_store(pre, nodes, (board@, d, false), NodeType::UpperBound, spec_to_tt_score(alpha as int, depth_left_before as int) as i32, Some(mov), ch);
                        lemma_keeps_outside_trans(tt0, pre, self.transposition_table@, node_keys(nodes));
                    }
                    if depth_left_before < TT_MIN_DEPTH {
                        lemma_minimax_shallow(board@, d, ch, false);
                        lemma_shallow_sound(tt0, board@, d, false, ch);
                    }
                }
                return alpha;
            }
            if score < beta {
                beta = score;
                best_move = Some(mov);
            }
            proof {
                if depth_left_before < TT_MIN_DEPTH {
                    let c = child_value(board@, mov, owned(chromosome));
                    if i > 0 {
                        assert(best_child(board@, moves@, i + 1, owned(chromosome), false) == extreme(
                            best_child(board@, moves@, i as int, owned(chromosome), false),
                            c,
                            false,
                        ));
                    } else {
                        assert(best_child(board@, moves@, 1, owned(chromosome), false) == c);
                    }
                }
            }
            i = i + 1;
        }
        let node_type = if beta >= beta_before {
            NodeType::LowerBound
        } else {
            NodeType::Exact
        };
        let ghost pre = self.transposition_table@;
        self.store_tt(board_hash, depth_left_before, node_type, beta, best_move);
        proof {
            if depth_left_before >= TT_MIN_DEPTH {
                assert(pre.after_store(board@.hash, depth_left_before, node_type, spec_to_tt_score(beta as int, depth_left_before as int) as i32, best_move) == self.transposition_table@);
                assert(stored_bound(node_type, beta, alpha, beta_before));
            }
            if sound {
                lemma_sound_store(pre, nodes, (board@, d, false), node_type, spec_to_tt_score(beta as int, depth_left_before as int) as i32, best_move, ch);
                lemma_keeps_outside_trans(tt0, pre, self.transposition_table@, node_keys(nodes));
            }
            if depth_left_before < TT_MIN_DEPTH {
                lemma_minimax_shallow(board@, d, ch, false);
            }
        }
        beta
    }
}

} // verus!
verus! {

/// The minimax value of the position after a root move at the search's
/// depth, for the node kind the search gives it (maximizing when White is to
/// move).
pub open spec fn root_child_value(state: BoardState, m: Move, depth: int, chromosome: Option<
    Chromosome,
>) -> int {
    let child = spec_make_move(state, m);
    minimax(child, depth, chromosome, child.side == Side::White)
}

/// The nodes the searches of the first `n` of `moves` meet at the root.
pub open spec fn root_nodes(state: BoardState, moves: Seq<Move>, n: int, depth: int) -> Set<(BoardState, int, bool)>
    decreases n,
{
    if n <= 0 {
        Set::empty()
    } else {
        root_nodes(state, moves, n - 1, depth) + root_child_nodes(state, moves[n - 1], depth)
    }
}

/// A root search of `state` at `depth` that the table cannot mislead: the
/// table is not used at that depth, or among the nodes the root moves'
/// searches meet those that share a key are the same node, every entry the
/// table holds for them is sound, and their values re-base exactly.
pub open spec fn root_sound(m: TtModel, state: BoardState, depth: int, chromosome: Option<Chromosome>) -> bool {
    let r = root_nodes(state, spec_ordered_moves(state), spec_ordered_moves(state).len() as int, depth);
    depth < TT_MIN_DEPTH || (hash_distinct(r) && table_sound(m, r, chromosome) && values_safe(r, chromosome, depth))
}

proof fn lemma_root_nodes_contain(state: BoardState, moves: Seq<Move>, n: int, depth: int, j: int)
    requires
        0 <= j < n,
    ensures
        root_child_nodes(state, moves[j], depth).subset_of(root_nodes(state, moves, n, depth)),
    decreases n,
{
    if j < n - 1 {
        lemma_root_nodes_contain(state, moves, n - 1, depth, j);
    }
}

/// The nodes the search of a root move's child meets.
pub open spec fn root_child_nodes(state: BoardState, m: Move, depth: int) -> Set<(BoardState, int, bool)> {
    let child = spec_make_move(state, m);
    tree_nodes(child, depth, child.side == Side::White)
}

/// The search of a root move's child, in the window the root gives it,
/// is one the table cannot mislead (`search_sound`).
pub open spec fn root_child_sound(
    m: TtModel,
    state: BoardState,
    mv: Move,
    depth: int,
    chromosome: Option<Chromosome>,
    best_so_far: Option<i32>,
) -> bool {
    let child = spec_make_move(state, mv);
    search_sound(
        m,
        child,
        depth,
        chromosome,
        child.side == Side::White,
        root_alpha(opponent(state.side), best_so_far),
        root_beta(opponent(state.side), best_so_far),
    )
}

/// The lower end of the window a root move's child is searched with.
pub open spec fn root_alpha(child_side: Side, best_so_far: Option<i32>) -> int {
    match child_side {
        Side::White => -FULL_WINDOW,
        Side::Black => match best_so_far {
            Some(b) => b - 1,
            None => -FULL_WINDOW,
        },
    }
}

/// The upper end of the window a root move's child is searched with.
pub open spec fn root_beta(child_side: Side, best_so_far: Option<i32>) -> int {
    match child_side {
        Side::White => match best_so_far {
            Some(b) => b + 1,
            None => FULL_WINDOW as int,
        },
        Side::Black => FULL_WINDOW as int,
    }
}

/// The best minimax value over the first `n` root moves for the side to
/// move at the root (largest for White, smallest for Black).
pub open spec fn root_best(state: BoardState, moves: Seq<Move>, n: int, depth: int, chromosome: Option<
    Chromosome,
>) -> int
    decreases n,
{
    if n <= 1 {
        root_child_value(state, moves[0], depth, chromosome)
    } else {
        extreme(
            root_best(state, moves, n - 1, depth, chromosome),
            root_child_value(state, moves[n - 1], depth, chromosome),
            state.side == Side::White,
        )
    }
}

/// Every root move's minimax value lies strictly inside the full window.
pub open spec fn root_values_in_window(state: BoardState, depth: int, chromosome: Option<Chromosome>) -> bool {
    forall|k: int|
        0 <= k < spec_ordered_moves(state).len() ==> -FULL_WINDOW < root_child_value(
            state,
            #[trigger] spec_ordered_moves(state)[k],
            depth,
            chromosome,
        ) < FULL_WINDOW
}

/// `m` is a move whose minimax value is the best over all root moves.
pub open spec fn is_minimax_move(state: BoardState, m: Move, depth: int, chromosome: Option<Chromosome>) -> bool {
    let ordered = spec_ordered_moves(state);
    root_child_value(state, m, depth, chromosome) == root_best(
        state,
        ordered,
        ordered.len() as int,
        depth,
        chromosome,
    )
}

proof fn lemma_root_best_attained(
    state: BoardState,
    moves: Seq<Move>,
    n: int,
    depth: int,
    chromosome: Option<Chromosome>,
)
    requires
        n >= 1,
    ensures
        exists|j: int|
            0 <= j < n && #[trigger] root_child_value(state, moves[j], depth, chromosome) == root_best(
                state,
                moves,
                n,
                depth,
                chromosome,
            ),
    decreases n,
{
    if n == 1 {
        assert(root_child_value(state, moves[0], depth, chromosome) == root_best(state, moves, 1, depth, chromosome));
    } else {
        lemma_root_best_attained(state, moves, n - 1, depth, chromosome);
        let j = choose|j: int|
            0 <= j < n - 1 && #[trigger] root_child_value(state, moves[j], depth, chromosome) == root_best(
                state,
                moves,
                n - 1,
                depth,
                chromosome,
            );
        if root_best(state, moves, n, depth, chromosome) == root_best(state, moves, n - 1, depth, chromosome) {
            assert(root_child_value(state, moves[j], depth, chromosome) == root_best(state, moves, n, depth, chromosome));
        } else {
            assert(root_child_value(state, moves[n - 1], depth, chromosome) == root_best(state, moves, n, depth, chromosome));
        }
    }
}

/// The move chosen from tie-exact root scores is a minimax move.
proof fn lemma_best_choice_is_minimax(
    state: BoardState,
    root: Seq<(Move, i32)>,
    entry: (Move, i32),
    depth: int,
    chromosome: Option<Chromosome>,
)
    requires
        root_result(state, root),
        ties_exact(state, root, depth, chromosome),
        is_best_choice(root, state.side, entry),
    ensures
        is_minimax_move(state, entry.0, depth, chromosome),
{
    let ordered = spec_ordered_moves(state);
    let n = ordered.len() as int;
    let b = root_best(state, ordered, n, depth, chromosome);
    let q = choose|q: int| 0 <= q < root.len() && root[q] == entry;
    assert(root[q] == entry);
    assert(n >= 1);
    lemma_root_best_attained(state, ordered, n, depth, chromosome);
    let j = choose|j: int|
        0 <= j < n && #[trigger] root_child_value(state, ordered[j], depth, chromosome) == b;
    assert(has_move(root, ordered[j]));
    let k = choose|k: int| 0 <= k < root.len() && root[k].0 == ordered[j];
    assert(root_child_value(state, root[k].0, depth, chromosome) == b);
    assert(root[k].1 == b);
    let vq = root_child_value(state, root[q].0, depth, chromosome);
    if vq != b {
        assert(worse_for(state.side, root[q].1 as int, b));
        match state.side {
            Side::White => assert(root[k].1 <= entry.1),
            Side::Black => assert(root[k].1 >= entry.1),
        }
    }
}

/// `s` is strictly worse than `b` for `side` (smaller for White, larger for
/// Black).
pub open spec fn worse_for(side: Side, s: int, b: int) -> bool {
    match side {
        Side::White => s < b,
        Side::Black => s > b,
    }
}

/// The root scores serve the tie-break: every move whose value ties the best
/// carries its exact value, and every other move carries a score strictly
/// worse than the best.
pub open spec fn ties_exact(state: BoardState, root: Seq<(Move, i32)>, depth: int, chromosome: Option<Chromosome>) -> bool {
    let ordered = spec_ordered_moves(state);
    let b = root_best(state, ordered, ordered.len() as int, depth, chromosome);
    forall|j: int|
        0 <= j < root.len() ==> {
            let v = root_child_value(state, (#[trigger] root[j]).0, depth, chromosome);
            (v == b ==> root[j].1 == v) && (v != b ==> worse_for(state.side, root[j].1 as int, b))
        }
}

proof fn lemma_root_best_monotone(
    state: BoardState,
    moves: Seq<Move>,
    j: int,
    n: int,
    depth: int,
    chromosome: Option<Chromosome>,
)
    requires
        1 <= j <= n,
    ensures
        state.side == Side::White ==> root_best(state, moves, j, depth, chromosome) <= root_best(
            state,
            moves,
            n,
            depth,
            chromosome,
        ),
        state.side == Side::Black ==> root_best(state, moves, j, depth, chromosome) >= root_best(
            state,
            moves,
            n,
            depth,
            chromosome,
        ),
    decreases n,
{
    if j < n {
        lemma_root_best_monotone(state, moves, j, n - 1, depth, chromosome);
    }
}

proof fn lemma_root_entry_tie(
    state: BoardState,
    moves: Seq<Move>,
    j: int,
    n: int,
    s: i32,
    depth: int,
    chromosome: Option<Chromosome>,
)
    requires
        0 <= j < n,
        root_entry_ok(state, moves, j, s, depth, chromosome),
    ensures
        ({
            let v = root_child_value(state, moves[j], depth, chromosome);
            let b = root_best(state, moves, n, depth, chromosome);
            (v == b ==> s == v) && (v != b ==> worse_for(state.side, s as int, b))
        }),
{
    lemma_root_best_monotone(state, moves, j + 1, n, depth, chromosome);
    if j > 0 {
        assert(root_best(state, moves, j + 1, depth, chromosome) == extreme(
            root_best(state, moves, j, depth, chromosome),
            root_child_value(state, moves[j], depth, chromosome),
            state.side == Side::White,
        ));
    }
}

/// The `j`-th root move's recorded score `s` is exact when the move is at
/// least as good as the best before it (or is the first), and worse than
/// that best otherwise.
pub open spec fn root_entry_ok(
    state: BoardState,
    moves: Seq<Move>,
    j: int,
    s: i32,
    depth: int,
    chromosome: Option<Chromosome>,
) -> bool {
    let v = root_child_value(state, moves[j], depth, chromosome);
    if j == 0 {
        s == v
    } else {
        let pb = root_best(state, moves, j, depth, chromosome);
        if state.side == Side::White {
            (v >= pb ==> s == v) && (v < pb ==> s < pb)
        } else {
            (v <= pb ==> s == v) && (v > pb ==> s > pb)
        }
    }
}

/// The root list holds each legal move exactly once.
pub open spec fn root_moves_once(state: BoardState, root: Seq<(Move, i32)>) -> bool {
    &&& root.len() == all_legal_moves(state).len()
    &&& forall|k: int| 0 <= k < root.len() ==> all_legal_moves(state).contains((#[trigger] root[k]).0)
    &&& forall|i: int, j: int| 0 <= i < j < root.len() ==> (#[trigger] root[i]).0 != (#[trigger] root[j]).0
}

/// A finished root search: one entry per ordered legal move, sorted by
/// ascending score, each move legal here and each score within range.
pub open spec fn root_result(state: BoardState, root: Seq<(Move, i32)>) -> bool {
    &&& sorted_by_score(root)
    &&& root.len() == spec_ordered_moves(state).len()
    &&& forall|k: int|
        0 <= k < root.len() ==> is_generated_move(state, (#[trigger] root[k]).0) && score_in_range(
            root[k].1 as int,
        )
    &&& forall|k: int|
        0 <= k < spec_ordered_moves(state).len() ==> has_move(
            root,
            #[trigger] spec_ordered_moves(state)[k],
        )
}

/// Some entry of the root list is for move `m`.
pub open spec fn has_move(root: Seq<(Move, i32)>, m: Move) -> bool {
    exists|j: int| 0 <= j < root.len() && root[j].0 == m
}

impl AlphaBetaAlgorithm {
    /// Search every root move and return them sorted by score (ascending).
    /// The window is narrowed as the best score improves, so that strictly
    /// worse moves are pruned early.  Where the table cannot mislead the
    /// search (`root_sound` below: positions that share a key are one
    /// position at one depth, the table's entries for them are sound, and
    /// their values re-base exactly) and every root value lies inside the
    /// full window, moves that tie the
    /// best keep their exact minimax value and every other move scores
    /// strictly worse than the best.  The counters and the table's probe
    /// counters start from zero and count this search (`root_counted`).
    pub fn search_root_moves(&mut self, board: Position, depth: i32, chromosome: Option<&Chromosome>) -> (r:
        Vec<(Move, i32)>)
        requires
            old(self).ready(),
            0 <= depth <= MAX_SEARCH_DEPTH,
            values_in_range(owned(chromosome)),
        ensures
            final(self).ready(),
            final(self).transposition_table@.age == crate::transposition_table::next_age(
                old(self).transposition_table@.age,
            ),
            final(self).stats.tt_hits == 0 && final(self).stats.tt_misses == 0
                && final(self).stats.tt_collisions == 0,
            root_result(board@, r@),
            root_moves_once(board@, r@),
            r@.len() <= 2 * 18 * 64 * 4,
            root_counted(final(self).stats, final(self).transposition_table@, r@.len() as int),
            root_sound(old(self).transposition_table@, board@, depth as int, owned(chromosome)) && root_values_in_window(
                board@,
                depth as int,
                owned(chromosome),
            ) ==> ties_exact(board@, r@, depth as int, owned(chromosome)),
    {
        let ghost tt_start = self.transposition_table@;
        self.reset_stats();
        let ghost age = self.transposition_table@.age;
        let mut best_moves: Vec<(Move, i32)> = Vec::new();
        let moves = self.get_ordered_moves(&board);
        let mut best_score: Option<i32> = None;
        let ghost shallow_root = root_sound(tt_start, board@, depth as int, owned(chromosome)) && root_values_in_window(
            board@,
            depth as int,
            owned(chromosome),
        );
        let ghost deep_root = shallow_root && depth >= TT_MIN_DEPTH;
        let ghost all_nodes = root_nodes(board@, moves@, moves@.len() as int, depth as int);
        proof {
            lemma_same_slots(tt_start, self.transposition_table@, all_nodes, owned(chromosome));
        }
        let mut i: usize = 0;
        while i < moves.len()
            invariant
                self.ready(),
                self.transposition_table@.age == age,
                self.stats.tt_hits == 0 && self.stats.tt_misses == 0 && self.stats.tt_collisions == 0,
                i <= moves.len(),
                moves@ == spec_ordered_moves(board@),
                moves@.to_multiset() == all_legal_moves(board@).to_multiset(),
                moves@.no_duplicates(),
                all_generated(board@, moves@),
                0 <= depth <= MAX_SEARCH_DEPTH,
                values_in_range(owned(chromosome)),
                best_moves@.len() == i,
                moves@.len() <= 2 * 18 * 64 * 4,
                root_counted(self.stats, self.transposition_table@, i as int),
                forall|k: int|
                    0 <= k < i ==> (#[trigger] best_moves@[k]).0 == moves@[k] && score_in_range(
                        best_moves@[k].1 as int,
                    ),
                best_score matches Some(b) ==> score_in_range(b as int),
                i == 0 <==> best_score is None,
                shallow_root ==> (best_score matches Some(b) ==> b as int == root_best(
                    board@,
                    moves@,
                    i as int,
                    depth as int,
                    owned(chromosome),
                )),
                shallow_root ==> forall|j: int| 0 <= j < i ==> #[trigger] root_entry_ok(
                    board@,
                    moves@,
                    j,
                    best_moves@[j].1,
                    depth as int,
                    owned(chromosome),
                ),
                shallow_root == (root_sound(tt_start, board@, depth as int, owned(chromosome)) && root_values_in_window(
                    board@,
                    depth as int,
                    owned(chromosome),
                )),
                deep_root == (shallow_root && depth >= TT_MIN_DEPTH),
                all_nodes == root_nodes(board@, moves@, moves@.len() as int, depth as int),
                deep_root ==> table_sound(self.transposition_table@, all_nodes, owned(chromosome)),
            decreases moves.len() - i,
        {
            let mov = moves[i];
            let ghost prev_best = best_score;
            let ghost tt_before = self.transposition_table@;
            proof {
                if shallow_root {
                    let st = board@;
                    let ch = owned(chromosome);
                    let c = spec_make_move(st, mov);
                    let n = moves@.len() as int;
                    if deep_root {
                        lemma_root_nodes_contain(st, moves@, n, depth as int, i as int);
                        lemma_sound_subset(tt_before, all_nodes, root_child_nodes(st, mov, depth as int), ch, depth as int, depth as int);
                    }
                    if i > 0 {
                        let pb = root_best(st, moves@, i as int, depth as int, ch);
                        lemma_root_best_attained(st, moves@, i as int, depth as int, ch);
                        let w = choose|w: int|
                            0 <= w < i && #[trigger] root_child_value(st, moves@[w], depth as int, ch) == pb;
                        assert(moves@[w] == spec_ordered_moves(st)[w]);
                        assert(-FULL_WINDOW < pb < FULL_WINDOW);
                        if deep_root {
                            let cw = spec_make_move(st, moves@[w]);
                            lemma_root_nodes_contain(st, moves@, n, depth as int, w);
                            lemma_tree_contains_self(cw, depth as int, cw.side == Side::White);
                            assert(all_nodes.contains((cw, depth as int, cw.side == Side::White)));
                        }
                    }
                    assert(root_child_sound(tt_before, st, mov, depth as int, ch, best_score));
                }
            }
            let score = self.calc_one_move(&mut best_moves, mov, board, depth, chromosome, best_score);
            proof {
                if deep_root {
                    let ch = owned(chromosome);
                    lemma_same_slots(tt_before, tt_before, all_nodes, ch);
                    lemma_sound_after_child(tt_before, tt_before, self.transposition_table@, all_nodes, root_child_nodes(board@, mov, depth as int), ch);
                }
            }
            best_score = Some(update_root_best(best_score, score, board.side_to_move()));
            proof {
                if shallow_root {
                    let st = board@;
                    let ch = owned(chromosome);
                    let v = root_child_value(st, mov, depth as int, ch);
                    assert(-FULL_WINDOW < v < FULL_WINDOW) by {
                        assert(moves@[i as int] == spec_ordered_moves(st)[i as int]);
                    }
                    if i > 0 {
                        let pb = root_best(st, moves@, i as int, depth as int, ch);
                        assert(prev_best == Some(pb as i32));
                        assert(root_best(st, moves@, i + 1, depth as int, ch) == extreme(
                            pb,
                            v,
                            st.side == Side::White,
                        ));
                    } else {
                        assert(root_best(st, moves@, 1, depth as int, ch) == v);
                    }
                    assert(root_entry_ok(st, moves@, i as int, score, depth as int, ch));
                    assert forall|j: int| 0 <= j < i + 1 implies #[trigger] root_entry_ok(
                        st,
                        moves@,
                        j,
                        best_moves@[j].1,
                        depth as int,
                        ch,
                    ) by {
                        if j < i {
                            assert(best_moves@[j] == best_moves@.drop_last()[j]);
                        }
                    }
                }
            }
            i = i + 1;
        }
        let ghost pushed = best_moves@;
        let sorted = sort_by_score(best_moves);
        proof {
            broadcast use vstd::seq_lib::to_multiset_contains;
            assert forall|k: int| 0 <= k < sorted@.len() implies is_generated_move(
                board@,
                (#[trigger] sorted@[k]).0,
            ) && score_in_range(sorted@[k].1 as int) by {
                assert(sorted@.contains(sorted@[k]));
                assert(sorted@.to_multiset().count(sorted@[k]) > 0);
                assert(pushed.contains(sorted@[k]));
                let j = choose|j: int| 0 <= j < pushed.len() && pushed[j] == sorted@[k];
                assert(pushed[j].0 == moves@[j]);
            }
            assert forall|k: int| 0 <= k < spec_ordered_moves(board@).len() implies has_move(
                sorted@,
                #[trigger] spec_ordered_moves(board@)[k],
            ) by {
                assert(pushed.contains(pushed[k]));
                assert(pushed.to_multiset().count(pushed[k]) > 0);
                assert(sorted@.contains(pushed[k]));
                let j = choose|j: int| 0 <= j < sorted@.len() && sorted@[j] == pushed[k];
                assert(sorted@[j].0 == spec_ordered_moves(board@)[k]);
            }
            if shallow_root {
                let n = moves@.len() as int;
                assert forall|k: int| 0 <= k < sorted@.len() implies {
                    let v = root_child_value(board@, (#[trigger] sorted@[k]).0, depth as int, owned(chromosome));
                    let b = root_best(board@, spec_ordered_moves(board@), n, depth as int, owned(chromosome));
                    (v == b ==> sorted@[k].1 == v) && (v != b ==> worse_for(board@.side, sorted@[k].1 as int, b))
                } by {
                    assert(sorted@.contains(sorted@[k]));
                    assert(sorted@.to_multiset().count(sorted@[k]) > 0);
                    assert(pushed.contains(sorted@[k]));
                    let j = choose|j: int| 0 <= j < pushed.len() && pushed[j] == sorted@[k];
                    assert(root_entry_ok(board@, moves@, j, pushed[j].1, depth as int, owned(chromosome)));
                    lemma_root_entry_tie(board@, moves@, j, n, pushed[j].1, depth as int, owned(chromosome));
                }
                assert(ties_exact(board@, sorted@, depth as int, owned(chromosome)));
            }
            let full = all_legal_moves(board@);
            assert(pushed.no_duplicates()) by {
                assert forall|a: int, b: int| 0 <= a < pushed.len() && 0 <= b < pushed.len() && a != b implies pushed[a]
                    != pushed[b] by {
                    assert(pushed[a].0 == moves@[a] && pushed[b].0 == moves@[b]);
                }
            }
            pushed.lemma_multiset_has_no_duplicates();
            sorted@.lemma_multiset_has_no_duplicates_conv();
            assert forall|a: int, b: int| 0 <= a < b < sorted@.len() implies (#[trigger] sorted@[a]).0 != (
            #[trigger] sorted@[b]).0 by {
                assert(sorted@.contains(sorted@[a]));
                assert(sorted@.contains(sorted@[b]));
                assert(sorted@.to_multiset().count(sorted@[a]) > 0);
                assert(sorted@.to_multiset().count(sorted@[b]) > 0);
                assert(pushed.contains(sorted@[a]));
                assert(pushed.contains(sorted@[b]));
                let x = choose|x: int| 0 <= x < pushed.len() && pushed[x] == sorted@[a];
                let y = choose|y: int| 0 <= y < pushed.len() && pushed[y] == sorted@[b];
                assert(pushed[x].0 == moves@[x] && pushed[y].0 == moves@[y]);
            }
            assert forall|k: int| 0 <= k < sorted@.len() implies full.contains((#[trigger] sorted@[k]).0) by {
                assert(sorted@.contains(sorted@[k]));
                assert(sorted@.to_multiset().count(sorted@[k]) > 0);
                assert(pushed.contains(sorted@[k]));
                let x = choose|x: int| 0 <= x < pushed.len() && pushed[x] == sorted@[k];
                assert(pushed[x].0 == moves@[x]);
                assert(moves@.contains(moves@[x]));
                assert(moves@.to_multiset().count(moves@[x]) > 0);
                assert(full.to_multiset().count(moves@[x]) > 0);
            }
            broadcast use vstd::seq_lib::to_multiset_len;
            assert(moves@.len() == full.len()) by {
                assert(moves@.to_multiset().len() == full.to_multiset().len());
            }
            assert(root_moves_once(board@, sorted@));
            assert(sorted_by_score(sorted@));
            assert(sorted@.len() == spec_ordered_moves(board@).len());
            assert(root_result(board@, sorted@));
        }
        sorted
    }

    /// Searches one root move and records it with its score.  The child is
    /// searched with the window narrowed to one point past the best score so
    /// far, so that strictly worse moves fail early.  Where the table cannot
    /// mislead the child's search (`root_child_sound`), the score is the
    /// child's minimax value wherever that lies inside the window, and fails
    /// hard at the window's edges otherwise, and the table is left sound for
    /// the nodes the search met.
    pub fn calc_one_move(
        &mut self,
        best_moves: &mut Vec<(Move, i32)>,
        a_move: Move,
        test_game: Position,
        depth: i32,
        chromosome: Option<&Chromosome>,
        best_so_far: Option<i32>,
    ) -> (r: i32)
        requires
            old(self).ready(),
            is_generated_move(test_game@, a_move),
            0 <= depth <= MAX_SEARCH_DEPTH,
            values_in_range(owned(chromosome)),
            best_so_far matches Some(b) ==> score_in_range(b as int),
        ensures
            final(self).ready(),
            final(self).transposition_table@.age == old(self).transposition_table@.age,
            table_counters_kept(old(self).stats, final(self).stats),
            final(best_moves)@ == old(best_moves)@.push((a_move, r)),
            score_in_range(r as int),
            counted(old(self).stats, final(self).stats),
            probes_counted(
                old(self).stats,
                final(self).stats,
                old(self).transposition_table@,
                final(self).transposition_table@,
            ),
            root_child_sound(
                old(self).transposition_table@,
                test_game@,
                a_move,
                depth as int,
                owned(chromosome),
                best_so_far,
            ) ==> window_value(
                root_child_value(test_game@, a_move, depth as int, owned(chromosome)),
                root_alpha(opponent(test_game@.side), best_so_far),
                root_beta(opponent(test_game@.side), best_so_far),
                r as int,
            ) && table_sound(
                final(self).transposition_table@,
                root_child_nodes(test_game@, a_move, depth as int),
                owned(chromosome),
            ) && keeps_outside(
                old(self).transposition_table@,
                final(self).transposition_table@,
                node_keys(root_child_nodes(test_game@, a_move, depth as int)),
            ),
    {
        let new_board = test_game.make_move(a_move);
        let result: i32 = match new_board.side_to_move() {
            Side::White => {
                let beta = match best_so_far {
                    Some(best) => best + 1,
                    None => FULL_WINDOW,
                };
                self.alpha_beta_max(new_board, -FULL_WINDOW, beta, depth, chromosome)
            },
            Side::Black => {
                let alpha = match best_so_far {
                    Some(best) => best - 1,
                    None => -FULL_WINDOW,
                };
                self.alpha_beta_min(new_board, alpha, FULL_WINDOW, depth, chromosome)
            },
        };
        best_moves.push((a_move, result));
        result
    }

    fn choose_move(&mut self, board: Position, depth: i32, chromosome: Option<&Chromosome>) -> (r:
        Option<Move>)
        requires
            old(self).ready(),
            0 <= depth <= MAX_SEARCH_DEPTH,
            values_in_range(owned(chromosome)),
        ensures
            final(self).ready(),
            final(self).transposition_table@.age == crate::transposition_table::next_age(
                old(self).transposition_table@.age,
            ),
            r is None <==> spec_ordered_moves(board@).len() == 0,
            r matches Some(m) ==> is_generated_move(board@, m),
            r matches Some(m) ==> (root_sound(old(self).transposition_table@, board@, depth as int, owned(chromosome)) && root_values_in_window(
                board@,
                depth as int,
                owned(chromosome),
            ) ==> is_minimax_move(board@, m, depth as int, owned(chromosome))),
            search_counted(
                board@,
                SearchStats {
                    tt_hits: final(self).transposition_table@.hits,
                    tt_misses: final(self).transposition_table@.misses,
                    tt_collisions: final(self).transposition_table@.collisions,
                    ..final(self).stats
                },
            ),
    {
        let best_moves = self.search_root_moves(board, depth, chromosome);
        let selected_index = match get_random_from_multiple_best_moves(&best_moves, board.side_to_move()) {
            Some(i) => i,
            None => return None,
        };
        let selected_move = pick_best_move(&best_moves, board.side_to_move(), selected_index);
        proof {
            assert(best_moves@.contains(selected_move));
            let k = choose|k: int| 0 <= k < best_moves@.len() && best_moves@[k] == selected_move;
            assert(is_generated_move(board@, best_moves@[k].0));
            assert(is_best_choice(best_moves@, board@.side, (selected_move.0, selected_move.1)));
            if root_sound(old(self).transposition_table@, board@, depth as int, owned(chromosome)) && root_values_in_window(board@, depth as int, owned(chromosome)) {
                lemma_best_choice_is_minimax(board@, best_moves@, selected_move, depth as int, owned(chromosome));
            }
        }
        Some(selected_move.0)
    }
}


} // verus!
verus! {

/// A move-choosing algorithm.
pub trait AlgorithmTraits {
    /// The algorithm's state allows a search.
    spec fn search_ready(&self) -> bool;

    /// A best move for the side to move, searched `depth` plies below the
    /// root moves with the default piece values; `None` without legal moves.
    fn get_best_move(&mut self, board: Position, depth: i32) -> (r: Option<Move>)
        requires
            old(self).search_ready(),
            0 <= depth <= MAX_SEARCH_DEPTH,
        ensures
            final(self).search_ready(),
    ;

    /// As `get_best_move`, with the chromosome's piece values.
    fn get_best_move_with_chromosome(&mut self, board: Position, depth: i32, chromosome: &Chromosome) -> (r:
        Option<Move>)
        requires
            old(self).search_ready(),
            0 <= depth <= MAX_SEARCH_DEPTH,
            chromosome.in_range(),
        ensures
            final(self).search_ready(),
    ;

    /// As `get_best_move`, also giving the search counters.
    fn get_best_move_with_stats(&mut self, board: Position, depth: i32) -> (r: (
        Option<Move>,
        SearchStats,
    ))
        requires
            old(self).search_ready(),
            0 <= depth <= MAX_SEARCH_DEPTH,
        ensures
            final(self).search_ready(),
    ;

    /// As `get_best_move_with_chromosome`, also giving the search counters.
    fn get_best_move_with_chromosome_and_stats(
        &mut self,
        board: Position,
        depth: i32,
        chromosome: &Chromosome,
    ) -> (r: (Option<Move>, SearchStats))
        requires
            old(self).search_ready(),
            0 <= depth <= MAX_SEARCH_DEPTH,
            chromosome.in_range(),
        ensures
            final(self).search_ready(),
    ;
}

impl AlgorithmTraits for AlphaBetaAlgorithm {
    open spec fn search_ready(&self) -> bool {
        self.ready()
    }

    fn get_best_move(&mut self, board: Position, depth: i32) -> (r: Option<Move>)
        ensures
            final(self).transposition_table@.age == crate::transposition_table::next_age(
                old(self).transposition_table@.age,
            ),
            r is None <==> spec_ordered_moves(board@).len() == 0,
            r matches Some(m) ==> is_generated_move(board@, m),
            r matches Some(m) ==> (root_sound(old(self).transposition_table@, board@, depth as int, None) && root_values_in_window(board@, depth as int, None)
                ==> is_minimax_move(board@, m, depth as int, None)),
    {
        self.choose_move(board, depth, None)
    }

    fn get_best_move_with_chromosome(&mut self, board: Position, depth: i32, chromosome: &Chromosome) -> (r:
        Option<Move>)
        ensures
            final(self).transposition_table@.age == crate::transposition_table::next_age(
                old(self).transposition_table@.age,
            ),
            r is None <==> spec_ordered_moves(board@).len() == 0,
            r matches Some(m) ==> is_generated_move(board@, m),
            r matches Some(m) ==> (root_sound(old(self).transposition_table@, board@, depth as int, Some(*chromosome)) && root_values_in_window(board@, depth as int, Some(*chromosome))
                ==> is_minimax_move(board@, m, depth as int, Some(*chromosome))),
    {
        self.choose_move(board, depth, Some(chromosome))
    }

    fn get_best_move_with_stats(&mut self, board: Position, depth: i32) -> (r: (
        Option<Move>,
        SearchStats,
    ))
        ensures
            final(self).transposition_table@.age == crate::transposition_table::next_age(
                old(self).transposition_table@.age,
            ),
            r.0 is None <==> spec_ordered_moves(board@).len() == 0,
            r.0 matches Some(m) ==> is_generated_move(board@, m),
            r.0 matches Some(m) ==> (root_sound(old(self).transposition_table@, board@, depth as int, None) && root_values_in_window(board@, depth as int, None)
                ==> is_minimax_move(board@, m, depth as int, None)),
            r.1 == final(self).stats,
            search_counted(board@, r.1),
            r.1.tt_hits == final(self).transposition_table@.hits,
            r.1.tt_misses == final(self).transposition_table@.misses,
            r.1.tt_collisions == final(self).transposition_table@.collisions,
    {
        let selected_move = self.choose_move(board, depth, None);
        self.update_stats_from_tt();
        (selected_move, self.stats)
    }

    fn get_best_move_with_chromosome_and_stats(
        &mut self,
        board: Position,
        depth: i32,
        chromosome: &Chromosome,
    ) -> (r: (Option<Move>, SearchStats))
        ensures
            final(self).transposition_table@.age == crate::transposition_table::next_age(
                old(self).transposition_table@.age,
            ),
            r.0 is None <==> spec_ordered_moves(board@).len() == 0,
            r.0 matches Some(m) ==> is_generated_move(board@, m),
            r.0 matches Some(m) ==> (root_sound(old(self).transposition_table@, board@, depth as int, Some(*chromosome)) && root_values_in_window(board@, depth as int, Some(*chromosome))
                ==> is_minimax_move(board@, m, depth as int, Some(*chromosome))),
            r.1 == final(self).stats,
            search_counted(board@, r.1),
            r.1.tt_hits == final(self).transposition_table@.hits,
            r.1.tt_misses == final(self).transposition_table@.misses,
            r.1.tt_collisions == final(self).transposition_table@.collisions,
    {
        let selected_move = self.choose_move(board, depth, Some(chromosome));
        self.update_stats_from_tt();
        (selected_move, self.stats)
    }
}

impl Default for AlphaBetaAlgorithm {
    fn default() -> (r: Self)
        ensures
            r.ready(),
            r.stats.is_zero(),
            r.transposition_table@.slots.len() == 0x100000,
            forall|i: int|
                0 <= i < r.transposition_table@.slots.len() ==> #[trigger] r.transposition_table@.slots[i] is None,
            r.transposition_table@.age == 0,
            r.transposition_table@.hits == 0 && r.transposition_table@.misses == 0
                && r.transposition_table@.collisions == 0,
    {
        Self::new()
    }
}

} // verus!
