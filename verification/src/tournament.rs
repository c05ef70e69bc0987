//! Matches between chromosomes.
use vstd::prelude::*;
use vstd::multiset::Multiset;
use crate::alpha_beta_algorithm::{
    AlgorithmTraits, AlphaBetaAlgorithm, MAX_SEARCH_DEPTH, is_minimax_move, root_sound, root_values_in_window,
    spec_ordered_moves,
};
use crate::transposition_table::TtModel;
use crate::board::{BoardState, GameStatus, Move, Position, Side, is_generated_move, spec_make_move, spec_parse_fen, spec_status, start_fen};
use crate::chromosome::{Chromosome, crossed};
use crate::evaluator::{Evaluator, material_score, lemma_material_score_bound};
use crate::random::random_range;

verus! {

/// The most moves a game lasts before material decides it.
pub const MAX_GAME_MOVES: u32 = 100;

/// Both players of each pair.
pub open spec fn paired(s: Seq<(Chromosome, Chromosome)>) -> Multiset<Chromosome>
    decreases s.len(),
{
    if s.len() == 0 {
        Multiset::empty()
    } else {
        paired(s.drop_last()).insert(s.last().0).insert(s.last().1)
    }
}

/// Pairs the players at random: every pair takes two of them, no one plays
/// twice, and at most one (of an odd number) is left without an opponent.
pub fn randomize_opponents(players: Vec<Chromosome>) -> (r: Vec<(Chromosome, Chromosome)>)
    requires
        players.len() <= i64::MAX,
    ensures
        r@.len() == players@.len() / 2,
        paired(r@).subset_of(players@.to_multiset()),
        players@.to_multiset().len() - paired(r@).len() == players@.len() % 2,
{
    let ghost all = players@.to_multiset();
    let mut matches: Vec<(Chromosome, Chromosome)> = Vec::new();
    let mut players = players;
    proof {
        broadcast use vstd::multiset::group_multiset_axioms;
        broadcast use vstd::seq_lib::to_multiset_len;
        assert(paired(matches@) =~= Multiset::empty());
        assert(paired(matches@).add(players@.to_multiset()) =~= all);
    }
    while players.len() > 1
        invariant
            players.len() <= i64::MAX,
            paired(matches@).add(players@.to_multiset()) == all,
            2 * matches@.len() + players@.len() == all.len(),
        decreases players.len(),
    {
        proof {
            broadcast use vstd::seq_lib::to_multiset_len;
        }
        let ghost before = players@;
        let i1 = random_range(0, players.len() as i64) as usize;
        let player1 = players.remove(i1);
        let ghost middle = players@;
        let i2 = random_range(0, players.len() as i64) as usize;
        let player2 = players.remove(i2);
        let ghost prev = matches@;
        matches.push((player1, player2));
        proof {
            broadcast use vstd::seq_lib::to_multiset_remove;
            broadcast use vstd::multiset::group_multiset_axioms;
            broadcast use vstd::seq_lib::to_multiset_len;
            assert(matches@.drop_last() =~= prev);
            assert(paired(matches@) == paired(prev).insert(player1).insert(player2));
            assert(before.to_multiset() == middle.to_multiset().insert(player1)) by {
                assert(middle.to_multiset() == before.to_multiset().remove(player1));
                assert(before.to_multiset().count(player1) > 0) by {
                    broadcast use vstd::seq_lib::to_multiset_contains;
                    assert(before.contains(before[i1 as int]));
                }
            }
            assert(middle.to_multiset() == players@.to_multiset().insert(player2)) by {
                assert(players@.to_multiset() == middle.to_multiset().remove(player2));
                assert(middle.to_multiset().count(player2) > 0) by {
                    broadcast use vstd::seq_lib::to_multiset_contains;
                    assert(middle.contains(middle[i2 as int]));
                }
            }
            assert(paired(matches@).add(players@.to_multiset()) =~= all);
        }
    }
    proof {
        broadcast use vstd::multiset::group_multiset_axioms;
        broadcast use vstd::seq_lib::to_multiset_len;
        lemma_paired_len(matches@);
        assert(paired(matches@).subset_of(all));
    }
    matches
}

/// How strongly a bred chromosome is to be mutated before it plays.
#[derive(Clone, Copy, Debug, PartialEq, Eq, Structural)]
pub enum MutationRate {
    /// Kept as it is (the odd winner out).
    Unchanged,
    /// The usual rate for crossed children.
    Normal,
    /// The higher rate for copies of a lone winner.
    High,
}

/// `x`, `y` are `a`, `b` after one of the five crossover choices.
pub open spec fn crossed_pair(a: Chromosome, b: Chromosome, x: Chromosome, y: Chromosome) -> bool {
    exists|c: i64| 0 <= c <= 4 && #[trigger] crossed(a, b, c, x, y)
}

/// The `k`-th pair of winners, crossed, gives the `k`-th pair of children,
/// both to be mutated at the usual rate.
pub open spec fn pair_bred(w: Seq<Chromosome>, full: Seq<(Chromosome, MutationRate)>, k: int) -> bool {
    &&& crossed_pair(w[2 * k], w[2 * k + 1], full[2 * k].0, full[2 * k + 1].0)
    &&& full[2 * k].1 == MutationRate::Normal
    &&& full[2 * k + 1].1 == MutationRate::Normal
}

/// The `t`-th pair of children after the winners' own comes from crossing
/// two different winners, both to be mutated at the usual rate.
pub open spec fn filler_bred(w: Seq<Chromosome>, full: Seq<(Chromosome, MutationRate)>, t: int) -> bool {
    let n = w.len() as int;
    &&& exists|i: int, j: int|
        0 <= i < n && 0 <= j < n && i != j && #[trigger] crossed_pair(
            w[i],
            w[j],
            full[n + 2 * t].0,
            full[n + 2 * t + 1].0,
        )
    &&& full[n + 2 * t].1 == MutationRate::Normal
    &&& full[n + 2 * t + 1].1 == MutationRate::Normal
}

/// How many chromosomes are bred from `n` winners towards `wanted`: one per
/// winner, then (from two or more winners) pairs, or (from a lone winner)
/// single copies, until `wanted` is reached.
pub open spec fn bred_size(n: int, wanted: int) -> int {
    if n == 0 {
        0
    } else if wanted <= n {
        n
    } else if n == 1 {
        wanted
    } else {
        n + 2 * ((wanted - n + 1) / 2)
    }
}

/// The size of a new generation: the bred chromosomes, cut down to `wanted`
/// unless `wanted` is negative.
pub open spec fn generation_size(n: int, wanted: int) -> int {
    if 0 <= wanted < bred_size(n, wanted) {
        wanted
    } else {
        bred_size(n, wanted)
    }
}

/// From at least one winner, a new generation has exactly the wanted
/// number of chromosomes (when that number is not negative).
pub proof fn law_generation_has_wanted_size(n: int, wanted: int)
    requires
        n >= 1,
        wanted >= 0,
    ensures
        generation_size(n, wanted) == wanted,
{
}

/// `full` is a generation bred from the winners `w` towards `wanted`: the
/// winners crossed two by two in order, an odd last winner kept as it is,
/// then crossed pairs of two different winners or, from a lone winner,
/// copies of it to be mutated at the higher rate.
pub open spec fn bred_from(w: Seq<Chromosome>, wanted: int, full: Seq<(Chromosome, MutationRate)>) -> bool {
    let n = w.len() as int;
    &&& full.len() == bred_size(n, wanted)
    &&& forall|k: int| 0 <= k < n / 2 ==> #[trigger] pair_bred(w, full, k)
    &&& n % 2 == 1 ==> full[n - 1] == (w[n - 1], MutationRate::Unchanged)
    &&& n >= 2 ==> forall|t: int| 0 <= t && n + 2 * t < full.len() ==> #[trigger] filler_bred(w, full, t)
    &&& n == 1 ==> forall|j: int| 1 <= j < full.len() ==> #[trigger] full[j] == (w[0], MutationRate::High)
}

/// Breeds the next generation from the winners of a round, towards
/// `wanted_genes_count` chromosomes: each consecutive pair of winners is
/// crossed, an odd last winner is kept, and then, while the generation is
/// short, two different random winners are crossed (or a lone winner is
/// copied); the result is cut down to `wanted_genes_count`.  Each
/// chromosome comes with the rate at which it is still to be mutated.
pub fn breed_generation(winner_genes: &Vec<Chromosome>, wanted_genes_count: i32) -> (r: Vec<
    (Chromosome, MutationRate),
>)
    requires
        winner_genes.len() <= i32::MAX,
    ensures
        r@.len() == generation_size(winner_genes.len() as int, wanted_genes_count as int),
        exists|full: Seq<(Chromosome, MutationRate)>|
            bred_from(winner_genes@, wanted_genes_count as int, full) && r@ == full.take(
                generation_size(winner_genes.len() as int, wanted_genes_count as int),
            ),
{
    let ghost w = winner_genes@;
    let n = winner_genes.len();
    let mut generation: Vec<(Chromosome, MutationRate)> = Vec::new();
    let mut i: usize = 0;
    while i + 1 < n
        invariant
            n == winner_genes.len() <= i32::MAX,
            w == winner_genes@,
            i % 2 == 0,
            i <= n,
            generation@.len() == i,
            forall|k: int| 0 <= k < i / 2 ==> #[trigger] pair_bred(w, generation@, k),
        decreases n - i,
    {
        let mut prev_gene = winner_genes[i];
        let mut current_gene = winner_genes[i + 1];
        prev_gene.crossover(&mut current_gene);
        let ghost before = generation@;
        generation.push((prev_gene, MutationRate::Normal));
        generation.push((current_gene, MutationRate::Normal));
        proof {
            assert forall|k: int| 0 <= k < (i + 2) / 2 implies #[trigger] pair_bred(w, generation@, k) by {
                if k < i / 2 {
                    assert(pair_bred(w, before, k));
                    assert(generation@[2 * k] == before[2 * k]);
                    assert(generation@[2 * k + 1] == before[2 * k + 1]);
                } else {
                    assert(k == i / 2);
                }
            }
        }
        i = i + 2;
    }
    let ghost paired_gen = generation@;
    if i < n {
        generation.push((winner_genes[i], MutationRate::Unchanged));
    }
    let ghost phase_one = generation@;
    proof {
        assert(phase_one.len() == n);
        assert forall|k: int| 0 <= k < n / 2 implies #[trigger] pair_bred(w, phase_one, k) by {
            if i < n {
                assert(pair_bred(w, paired_gen, k));
                assert(phase_one[2 * k] == paired_gen[2 * k]);
                assert(phase_one[2 * k + 1] == paired_gen[2 * k + 1]);
            }
        }
    }
    if n >= 2 {
        while (generation.len() as i64) < wanted_genes_count as i64
            invariant
                n == winner_genes.len() <= i32::MAX,
                n >= 2,
                w == winner_genes@,
                phase_one.len() == n,
                generation@.len() >= n,
                (generation@.len() - n) % 2 == 0,
                generation@.len() <= n || generation@.len() <= wanted_genes_count + 1,
                generation@.subrange(0, n as int) == phase_one,
                forall|t: int| 0 <= t && n + 2 * t < generation@.len() ==> #[trigger] filler_bred(w, generation@, t),
            decreases wanted_genes_count + 1 - generation@.len(),
        {
            let idx1 = random_range(0, n as i64) as usize;
            let mut idx2 = random_range(0, (n - 1) as i64) as usize;
            if idx2 >= idx1 {
                idx2 = idx2 + 1;
            }
            let mut gene1 = winner_genes[idx1];
            let mut gene2 = winner_genes[idx2];
            gene1.crossover(&mut gene2);
            let ghost before = generation@;
            generation.push((gene1, MutationRate::Normal));
            generation.push((gene2, MutationRate::Normal));
            proof {
                assert(generation@.subrange(0, n as int) =~= before.subrange(0, n as int));
                assert forall|t: int| 0 <= t && n + 2 * t < generation@.len() implies #[trigger] filler_bred(w, generation@, t) by {
                    if n + 2 * t < before.len() {
                        assert(filler_bred(w, before, t));
                        assert(generation@[n + 2 * t] == before[n + 2 * t]);
                        assert(generation@[n + 2 * t + 1] == before[n + 2 * t + 1]);
                    } else {
                        assert(n + 2 * t == before.len());
                        assert(crossed_pair(w[idx1 as int], w[idx2 as int], generation@[n + 2 * t].0, generation@[n + 2 * t + 1].0));
                    }
                }
            }
        }
    } else if n == 1 {
        while (generation.len() as i64) < wanted_genes_count as i64
            invariant
                n == winner_genes.len() == 1,
                w == winner_genes@,
                phase_one.len() == 1,
                generation@.len() >= 1,
                generation@.len() <= 1 || generation@.len() <= wanted_genes_count,
                generation@[0] == phase_one[0],
                forall|j: int| 1 <= j < generation@.len() ==> #[trigger] generation@[j] == (w[0], MutationRate::High),
            decreases wanted_genes_count - generation@.len(),
        {
            generation.push((winner_genes[0], MutationRate::High));
        }
    }
    let ghost full = generation@;
    proof {
        assert(full.len() == bred_size(n as int, wanted_genes_count as int));
        assert forall|k: int| 0 <= k < n / 2 implies #[trigger] pair_bred(w, full, k) by {
            assert(pair_bred(w, phase_one, k));
            if n >= 2 {
                assert(full[2 * k] == full.subrange(0, n as int)[2 * k]);
                assert(full[2 * k + 1] == full.subrange(0, n as int)[2 * k + 1]);
            }
        }
        if n % 2 == 1 {
            if n >= 2 {
                assert(full[n - 1] == full.subrange(0, n as int)[n - 1]);
            }
        }
        assert(bred_from(w, wanted_genes_count as int, full));
    }
    if wanted_genes_count >= 0 {
        generation.truncate(wanted_genes_count as usize);
    }
    proof {
        assert(generation@ =~= full.take(generation_size(n as int, wanted_genes_count as int)));
    }
    generation
}

/// The most rounds a tournament plays.
pub const MAX_TOURNAMENT_ROUNDS: u32 = 2;

/// A tournament plays another round while two players or more are left and
/// no more than `MAX_TOURNAMENT_ROUNDS` rounds have been played.
pub fn tournament_continues(player_count: usize, round_number: u32) -> (r: bool)
    ensures
        r == (player_count >= 2 && round_number <= MAX_TOURNAMENT_ROUNDS),
{
    player_count >= 2 && round_number <= MAX_TOURNAMENT_ROUNDS
}

/// The champion of a finished tournament: the first of its final players,
/// if any are left.
pub fn tournament_champion(players: &Vec<Chromosome>) -> (r: Option<Chromosome>)
    ensures
        r == (if players@.len() > 0 {
            Some(players@[0])
        } else {
            None
        }),
{
    if players.len() > 0 {
        Some(players[0])
    } else {
        None
    }
}

/// `w` won a best-of-three match at `depth` between the two players of `pair`.
pub open spec fn won_match(pair: (Chromosome, Chromosome), w: Chromosome, depth: int) -> bool {
    exists|results: Seq<i32>, coin: i64|
        match_games(results, pair, depth) && 0 <= coin < 2 && w == #[trigger] match_winner(pair, results, coin)
}

/// `winners` are the winners of a round among `players` at `depth`: one per
/// pair of a pairing that takes every player at most once and leaves at most
/// one out, each the winner of a best-of-three match of its pair.
pub open spec fn round_winners(players: Seq<Chromosome>, winners: Seq<Chromosome>, depth: int) -> bool {
    exists|pairs: Seq<(Chromosome, Chromosome)>|
        pairs.len() == players.len() / 2 && #[trigger] paired(pairs).subset_of(players.to_multiset())
            && winners.len() == pairs.len() && forall|k: int|
            0 <= k < pairs.len() ==> won_match(pairs[k], #[trigger] winners[k], depth)
}

/// What follows a round of a tournament.
pub enum RoundOutcome {
    /// The next round's players are bred from the winners; each still is to
    /// be mutated at its rate.
    Breed(Vec<(Chromosome, MutationRate)>),
    /// The tournament ends with these players.
    Final(Vec<Chromosome>),
}

/// The winners of a round breed the next round's players when there are
/// several of them and the round is not the last; otherwise they are final.
pub open spec fn breeds(winner_count: int, round_number: u32) -> bool {
    winner_count > 1 && round_number < MAX_TOURNAMENT_ROUNDS
}

/// Plays a round of a tournament: pairs the players at random, plays a
/// best-of-three match in each pair, and then either breeds the next
/// generation towards `wanted` from the winners or ends with them.
pub fn tournament_round(players: Vec<Chromosome>, round_number: u32, wanted: i32, depth: i32) -> (r:
    RoundOutcome)
    requires
        players.len() <= i64::MAX,
        players.len() / 2 <= i32::MAX,
        forall|k: int| 0 <= k < players.len() ==> (#[trigger] players@[k]).in_range(),
        0 <= depth <= MAX_SEARCH_DEPTH,
    ensures
        exists|winners: Seq<Chromosome>|
            #[trigger] round_winners(players@, winners, depth as int) && match r {
                RoundOutcome::Breed(g) => breeds(winners.len() as int, round_number) && g@.len()
                    == generation_size(winners.len() as int, wanted as int) && exists|
                    full: Seq<(Chromosome, MutationRate)>,
                |
                    bred_from(winners, wanted as int, full) && g@ == full.take(
                        generation_size(winners.len() as int, wanted as int),
                    ),
                RoundOutcome::Final(v) => !breeds(winners.len() as int, round_number) && v@ == winners,
            },
{
    let ghost all = players@;
    let matches = randomize_opponents(players);
    proof {
        broadcast use vstd::seq_lib::to_multiset_contains;
        assert forall|k: int| 0 <= k < matches@.len() implies (#[trigger] matches@[k]).0.in_range()
            && matches@[k].1.in_range() by {
            lemma_paired_contains(matches@, k);
            assert(all.to_multiset().count(matches@[k].0) > 0);
            assert(all.to_multiset().count(matches@[k].1) > 0);
            assert(all.contains(matches@[k].0));
            assert(all.contains(matches@[k].1));
        }
    }
    let mut winners: Vec<Chromosome> = Vec::new();
    let mut i: usize = 0;
    while i < matches.len()
        invariant
            i <= matches.len(),
            winners@.len() == i,
            forall|k: int| 0 <= k < matches@.len() ==> (#[trigger] matches@[k]).0.in_range()
                && matches@[k].1.in_range(),
            forall|k: int| 0 <= k < i ==> won_match(matches@[k], #[trigger] winners@[k], depth as int),
            0 <= depth <= MAX_SEARCH_DEPTH,
        decreases matches.len() - i,
    {
        let winner = play_best_of_3_match(matches[i], depth);
        winners.push(winner);
        proof {
            assert forall|k: int| 0 <= k < i + 1 implies won_match(matches@[k], #[trigger] winners@[k], depth as int) by {
                if k == i {
                    assert(winners@[k] == winner);
                }
            }
        }
        i = i + 1;
    }
    proof {
        assert(round_winners(all, winners@, depth as int));
    }
    if winners.len() > 1 && round_number < MAX_TOURNAMENT_ROUNDS {
        RoundOutcome::Breed(breed_generation(&winners, wanted))
    } else {
        RoundOutcome::Final(winners)
    }
}

proof fn lemma_paired_contains(s: Seq<(Chromosome, Chromosome)>, k: int)
    requires
        0 <= k < s.len(),
    ensures
        paired(s).count(s[k].0) > 0,
        paired(s).count(s[k].1) > 0,
    decreases s.len(),
{
    broadcast use vstd::multiset::group_multiset_axioms;
    if k < s.len() - 1 {
        lemma_paired_contains(s.drop_last(), k);
        assert(s.drop_last()[k] == s[k]);
    }
}

proof fn lemma_paired_len(s: Seq<(Chromosome, Chromosome)>)
    ensures
        paired(s).len() == 2 * s.len(),
    decreases s.len(),
{
    if s.len() > 0 {
        lemma_paired_len(s.drop_last());
    }
}

/// How a game ends at a position reached after `moves` moves with score
/// `r`: checkmate is lost by the side to move (1 White wins, -1 Black
/// wins); stalemate is a draw; a game still on after the move limit goes to
/// the side ahead in material; and a game with no move to play is a draw.
pub open spec fn game_end(state: BoardState, moves: int, r: i32) -> bool {
    match spec_status(state) {
        GameStatus::Checkmate => r == match state.side {
            Side::White => -1i32,
            Side::Black => 1i32,
        },
        GameStatus::Stalemate => r == 0,
        GameStatus::Ongoing => if moves >= MAX_GAME_MOVES {
            let m = material_score(state, None);
            r == if m > 0 {
                1i32
            } else if m < 0 {
                -1i32
            } else {
                0i32
            }
        } else {
            spec_ordered_moves(state).len() == 0 && r == 0
        },
    }
}

/// A game that ends in checkmate is lost by the mated side, the side to
/// move: -1 (player 2, Black, wins) when White is mated, 1 when Black is;
/// a game that ends in stalemate is a draw, 0.
pub proof fn law_checkmate_is_lost_by_the_mated_side(state: BoardState, moves: int, r: i32)
    requires
        game_end(state, moves, r),
    ensures
        spec_status(state) == GameStatus::Checkmate && state.side == Side::White ==> r == -1,
        spec_status(state) == GameStatus::Checkmate && state.side == Side::Black ==> r == 1,
        spec_status(state) == GameStatus::Stalemate ==> r == 0,
{
}

/// The chromosome that plays the side to move: `p1` plays White, `p2` Black.
pub open spec fn player_of(state: BoardState, p1: Chromosome, p2: Chromosome) -> Chromosome {
    match state.side {
        Side::White => p1,
        Side::Black => p2,
    }
}

/// `b` follows `a` by a move that the search chose in `a` at `depth` with
/// the piece values `ch`, the table being `t` before the search: a legal
/// move, and, where the table cannot mislead the search (`root_sound`) and
/// every root value lies inside the full window, a minimax move for those
/// piece values.
pub open spec fn searched_step(a: BoardState, b: BoardState, depth: int, ch: Chromosome, t: TtModel) -> bool {
    exists|m: Move|
        #[trigger] is_generated_move(a, m) && b == spec_make_move(a, m) && (root_sound(t, a, depth, Some(ch))
            && root_values_in_window(a, depth, Some(ch)) ==> is_minimax_move(
            a,
            m,
            depth,
            Some(ch),
        ))
}

/// The positions of a game between `p1` (White) and `p2` (Black) searching
/// at `depth` with one search, whose table before each move is in
/// `tables`: from the starting position, each next one after a move that
/// the search chose for the player to move, while the game went on (no
/// checkmate or stalemate, and the move limit not reached).
pub open spec fn game_played(
    states: Seq<BoardState>,
    tables: Seq<TtModel>,
    p1: Chromosome,
    p2: Chromosome,
    depth: int,
) -> bool {
    &&& states.len() >= 1
    &&& tables.len() == states.len() - 1
    &&& spec_parse_fen(start_fen()) == Some(states[0])
    &&& forall|k: int|
        0 <= k < states.len() - 1 ==> searched_step(
            #[trigger] states[k],
            states[k + 1],
            depth,
            player_of(states[k], p1, p2),
            tables[k],
        ) && spec_status(states[k]) == GameStatus::Ongoing && k < MAX_GAME_MOVES
}

/// `r` is how a game between `p1` (White) and `p2` (Black) at `depth` ends:
/// the last position of such a game decides it as `game_end` says.
#[verifier::opaque]
pub open spec fn game_result(r: i32, p1: Chromosome, p2: Chromosome, depth: int) -> bool {
    exists|states: Seq<BoardState>, tables: Seq<TtModel>|
        #[trigger] game_played(states, tables, p1, p2, depth) && game_end(states.last(), states.len() - 1, r)
}

/// Plays one game from the starting position, `player1` with White and
/// `player2` with Black: 1 when White wins, -1 when Black wins, 0 for a draw.
pub fn play_chess_match(player1: Chromosome, player2: Chromosome, depth: i32) -> (r: i32)
    requires
        player1.in_range(),
        player2.in_range(),
        0 <= depth <= MAX_SEARCH_DEPTH,
    ensures
        -1 <= r <= 1,
        game_result(r, player1, player2, depth as int),
{
    reveal(game_result);
    let mut board = Position::start();
    let mut alg = AlphaBetaAlgorithm::new();
    let mut move_count: u32 = 0;
    let max_moves: u32 = MAX_GAME_MOVES;
    let ghost mut states: Seq<BoardState> = seq![board@];
    let ghost mut tables: Seq<TtModel> = Seq::empty();
    loop
        invariant
            alg.ready(),
            move_count <= max_moves,
            max_moves == MAX_GAME_MOVES,
            game_played(states, tables, player1, player2, depth as int),
            states.last() == board@,
            states.len() == move_count + 1,
            player1.in_range(),
            player2.in_range(),
            0 <= depth <= MAX_SEARCH_DEPTH,
        decreases max_moves - move_count,
    {
        proof {
            use_type_invariant(&board);
            reveal(game_result);
        }
        let game_result = board.status();
        if game_result != GameStatus::Ongoing {
            let r = match game_result {
                GameStatus::Checkmate => match board.side_to_move() {
                    Side::White => -1,
                    Side::Black => 1,
                },
                _ => 0,
            };
            assert(game_end(states.last(), states.len() - 1, r));
            return r;
        }
        if move_count >= max_moves {
            let evaluation = Evaluator::evaluate(board);
            let r = if evaluation > 0 {
                1
            } else if evaluation < 0 {
                -1
            } else {
                0
            };
            assert(game_end(states.last(), states.len() - 1, r));
            return r;
        }
        let ghost table = alg.transposition_table@;
        let chess_move = match board.side_to_move() {
            Side::White => alg.get_best_move_with_chromosome(board, depth, &player1),
            Side::Black => alg.get_best_move_with_chromosome(board, depth, &player2),
        };
        match chess_move {
            Some(mov) => {
                let ghost prev = states;
                let ghost prev_tables = tables;
                board = board.make_move(mov);
                move_count = move_count + 1;
                proof {
                    states = states.push(board@);
                    tables = tables.push(table);
                    assert(searched_step(prev.last(), board@, depth as int, player_of(prev.last(), player1, player2), table));
                    assert forall|k: int| 0 <= k < states.len() - 1 implies searched_step(
                        #[trigger] states[k],
                        states[k + 1],
                        depth as int,
                        player_of(states[k], player1, player2),
                        tables[k],
                    ) && spec_status(states[k]) == GameStatus::Ongoing && k < MAX_GAME_MOVES by {
                        if k < prev.len() - 1 {
                            assert(states[k] == prev[k] && states[k + 1] == prev[k + 1] && tables[k] == prev_tables[k]);
                        }
                    }
                }
            },
            None => {
                assert(game_end(states.last(), states.len() - 1, 0));
                return 0;
            },
        }
    }
}

/// Player 1's and player 2's wins among the first `n` game results.
pub open spec fn tally(results: Seq<i32>, n: int) -> (int, int)
    decreases n,
{
    if n <= 0 {
        (0, 0)
    } else {
        let t = tally(results, n - 1);
        if results[n - 1] == 1 {
            (t.0 + 1, t.1)
        } else if results[n - 1] == -1 {
            (t.0, t.1 + 1)
        } else {
            t
        }
    }
}

/// The games of a best-of-three match between `players` at `depth`: each a
/// game between them (the first with White) that ended in a win (1), loss
/// (-1) or draw (0) for the first player, played until someone has two wins
/// or three games are played.
pub open spec fn match_games(results: Seq<i32>, players: (Chromosome, Chromosome), depth: int) -> bool {
    &&& 1 <= results.len() <= 3
    &&& forall|k: int|
        0 <= k < results.len() ==> -1 <= #[trigger] results[k] <= 1 && game_result(
            results[k],
            players.0,
            players.1,
            depth,
        )
    &&& forall|n: int|
        0 <= n < results.len() ==> (#[trigger] tally(results, n)).0 < 2 && tally(results, n).1 < 2
    &&& (tally(results, results.len() as int).0 == 2 || tally(results, results.len() as int).1 == 2
        || results.len() == 3)
}

/// The winner of a match with these games, 0 for the first player and 1 for
/// the second: the one with more wins; on equal wins the coin decides (0 the
/// first player, any other the second).
pub open spec fn spec_match_winner(results: Seq<i32>, coin: i64) -> int {
    let t = tally(results, results.len() as int);
    if t.0 > t.1 {
        0
    } else if t.0 < t.1 {
        1
    } else if coin == 0 {
        0
    } else {
        1
    }
}

/// The player that `spec_match_winner` picks.
pub open spec fn match_winner(players: (Chromosome, Chromosome), results: Seq<i32>, coin: i64) -> Chromosome {
    if spec_match_winner(results, coin) == 0 {
        players.0
    } else {
        players.1
    }
}

/// The winner of a match with these game results (1 a win of the first
/// player, -1 of the second): 0 for the first player and 1 for the second,
/// whoever has more wins, and on equal wins the coin (0 the first player).
pub fn match_winner_of(results: &Vec<i32>, coin: i64) -> (r: usize)
    ensures
        r == spec_match_winner(results@, coin),
{
    let mut first: usize = 0;
    let mut second: usize = 0;
    let mut i: usize = 0;
    while i < results.len()
        invariant
            i <= results.len(),
            first <= i && second <= i,
            tally(results@, i as int) == (first as int, second as int),
        decreases results.len() - i,
    {
        if results[i] == 1 {
            first = first + 1;
        } else if results[i] == -1 {
            second = second + 1;
        }
        i = i + 1;
    }
    if first > second {
        0
    } else if first < second {
        1
    } else if coin == 0 {
        0
    } else {
        1
    }
}

/// Plays a best-of-three match and returns its winner: the first to two
/// wins, else the one with more wins after three games, else a coin toss.
#[verifier::rlimit(40)]
pub fn play_best_of_3_match(players: (Chromosome, Chromosome), depth: i32) -> (r: Chromosome)
    requires
        players.0.in_range(),
        players.1.in_range(),
        0 <= depth <= MAX_SEARCH_DEPTH,
    ensures
        exists|results: Seq<i32>, coin: i64|
            match_games(results, players, depth as int) && 0 <= coin < 2 && r == #[trigger] match_winner(
                players,
                results,
                coin,
            ),
{
    let mut player1_wins: u32 = 0;
    let mut player2_wins: u32 = 0;
    let mut results: Vec<i32> = Vec::new();
    while results.len() < 3 && player1_wins < 2 && player2_wins < 2
        invariant
            results.len() <= 3,
            player1_wins <= results.len() && player2_wins <= results.len(),
            forall|k: int|
                0 <= k < results.len() ==> -1 <= #[trigger] results@[k] <= 1 && game_result(
                    results@[k],
                    players.0,
                    players.1,
                    depth as int,
                ),
            forall|n: int|
                0 <= n < results.len() ==> (#[trigger] tally(results@, n)).0 < 2 && tally(results@, n).1 < 2,
            tally(results@, results.len() as int) == (player1_wins as int, player2_wins as int),
            players.0.in_range(),
            players.1.in_range(),
            0 <= depth <= MAX_SEARCH_DEPTH,
        decreases 3 - results.len(),
    {
        let result = play_chess_match(players.0, players.1, depth);
        let ghost prev = results@;
        results.push(result);
        proof {
            assert forall|n: int| 0 <= n <= prev.len() implies tally(results@, n) == tally(prev, n) by {
                lemma_tally_prefix(prev, results@, n);
            }
            assert(results@.drop_last() == prev);
            assert(results@[prev.len() as int] == result);
            assert forall|k: int| 0 <= k < results.len() implies -1 <= #[trigger] results@[k] <= 1 && game_result(
                results@[k],
                players.0,
                players.1,
                depth as int,
            ) by {
                if k < prev.len() {
                    assert(results@[k] == prev[k]);
                }
            }
        }
        if result == 1 {
            player1_wins = player1_wins + 1;
        } else if result == -1 {
            player2_wins = player2_wins + 1;
        }
    }
    assert(match_games(results@, players, depth as int));
    let coin: i64 = if player1_wins == player2_wins {
        random_range(0, 2)
    } else {
        0
    };
    let index = match_winner_of(&results, coin);
    let winner = if index == 0 {
        players.0
    } else {
        players.1
    };
    assert(winner == match_winner(players, results@, coin));
    winner
}

proof fn lemma_tally_prefix(a: Seq<i32>, b: Seq<i32>, n: int)
    requires
        0 <= n <= a.len() <= b.len(),
        forall|k: int| 0 <= k < a.len() ==> a[k] == b[k],
    ensures
        tally(a, n) == tally(b, n),
    decreases n,
{
    if n > 0 {
        lemma_tally_prefix(a, b, n - 1);
    }
}

} // verus!
