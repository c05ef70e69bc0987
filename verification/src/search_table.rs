//! What the transposition table may hold for a search, and what a search
//! leaves in it: the positions a search meets, the soundness of the
//! entries cached for them, and the scores whose re-basing is exact.
use vstd::prelude::*;
use crate::alpha_beta_algorithm::{
    best_of, extreme, minimax, spec_from_tt_score, spec_ordered_moves, spec_tt_move_first, spec_to_tt_score,
    MATE_SCORE_THRESHOLD, TT_MIN_DEPTH,
};
use crate::board::{spec_legal_move_count, spec_make_move, BoardState, Move};
use crate::chromosome::Chromosome;
use crate::transposition_table::{NodeType, TTEntry, TtModel};

verus! {

/// The nodes a search of `state` at `depth` meets, as (position, remaining
/// depth, maximizing) triples: the node itself and, where depth is left and
/// the position has moves, the nodes of its children's searches one ply
/// shallower for the other node kind.
pub open spec fn tree_nodes(state: BoardState, depth: int, maximize: bool) -> Set<(BoardState, int, bool)>
    decreases depth + 1, 0int,
{
    if depth <= 0 || spec_legal_move_count(state) == 0 {
        Set::empty().insert((state, depth, maximize))
    } else {
        child_nodes(state, spec_ordered_moves(state), spec_ordered_moves(state).len() as int, depth - 1, !maximize)
            .insert((state, depth, maximize))
    }
}

/// The nodes of the searches of the children after the first `n` of
/// `moves`, at `child_depth`, of kind `maximize`.
pub open spec fn child_nodes(state: BoardState, moves: Seq<Move>, n: int, child_depth: int, maximize: bool) -> Set<
    (BoardState, int, bool),
>
    decreases child_depth + 1, n,
{
    if n <= 0 || child_depth < 0 {
        Set::empty()
    } else {
        child_nodes(state, moves, n - 1, child_depth, maximize) + tree_nodes(
            spec_make_move(state, moves[n - 1]),
            child_depth,
            maximize,
        )
    }
}

/// Among the nodes of `s` where the table is used, two with the same key
/// are the same node: the same position at the same depth, of the same
/// kind.  (A position met twice at one depth is allowed.)
pub open spec fn hash_distinct(s: Set<(BoardState, int, bool)>) -> bool {
    forall|a: (BoardState, int, bool), b: (BoardState, int, bool)|
        #[trigger] s.contains(a) && #[trigger] s.contains(b) && a.1 >= TT_MIN_DEPTH && b.1 >= TT_MIN_DEPTH
            && a.0.hash == b.0.hash ==> a == b
}

/// `v` lies on the side of `s` that the node type claims: equal for an
/// exact entry, at least `s` for a lower bound, at most for an upper bound.
pub open spec fn bound_holds(nt: NodeType, s: int, v: int) -> bool {
    match nt {
        NodeType::Exact => v == s,
        NodeType::LowerBound => v >= s,
        NodeType::UpperBound => v <= s,
    }
}

/// An entry is sound for a node: it comes from a search at the node's
/// depth, and its score, re-based to that depth and read by its node
/// type, bounds the node's minimax value.
pub open spec fn entry_sound(e: TTEntry, n: (BoardState, int, bool), chromosome: Option<Chromosome>) -> bool {
    &&& e.depth == n.1
    &&& bound_holds(e.node_type, spec_from_tt_score(e.score as int, e.depth as int), minimax(n.0, n.1, chromosome, n.2))
}

/// Every entry the table holds for the key of a node of `s` where the
/// table is used is sound for that node.
pub open spec fn table_sound(m: TtModel, s: Set<(BoardState, int, bool)>, chromosome: Option<Chromosome>) -> bool {
    forall|n: (BoardState, int, bool)|
        #[trigger] s.contains(n) && n.1 >= TT_MIN_DEPTH && m.lookup(n.0.hash) is Some ==> entry_sound(
            m.lookup(n.0.hash)->0,
            n,
            chromosome,
        )
}

/// A score whose re-basing for a store at `depth` and a read at the same
/// depth gives it back: not a non-mate score re-based across the mate
/// threshold.
pub open spec fn rebase_exact(r: int, depth: int) -> bool {
    -MATE_SCORE_THRESHOLD <= r <= MATE_SCORE_THRESHOLD || r > MATE_SCORE_THRESHOLD + depth || r
        < -MATE_SCORE_THRESHOLD - depth
}

/// A value that, and whose neighbours one below and one above, re-base
/// exactly at every depth up to `depth`.
pub open spec fn value_safe(v: int, depth: int) -> bool {
    -MATE_SCORE_THRESHOLD < v < MATE_SCORE_THRESHOLD || v > MATE_SCORE_THRESHOLD + depth + 1 || v
        < -MATE_SCORE_THRESHOLD - depth - 1
}

/// The minimax value of every node of `s` is safe up to `depth`.
pub open spec fn values_safe(s: Set<(BoardState, int, bool)>, chromosome: Option<Chromosome>, depth: int) -> bool {
    forall|n: (BoardState, int, bool)| #[trigger] s.contains(n) ==> value_safe(minimax(n.0, n.1, chromosome, n.2), depth)
}

/// The keys of the nodes of `s` where the table is used.
pub open spec fn node_keys(s: Set<(BoardState, int, bool)>) -> Set<u64> {
    Set::new(|k: u64| exists|n: (BoardState, int, bool)| #[trigger] s.contains(n) && n.1 >= TT_MIN_DEPTH && n.0.hash == k)
}

/// Outside `keys`, `new` holds what `old` held or nothing (an entry may
/// have been evicted).
pub open spec fn keeps_outside(old: TtModel, new: TtModel, keys: Set<u64>) -> bool {
    forall|k: u64| !keys.contains(k) ==> #[trigger] new.lookup(k) == old.lookup(k) || new.lookup(k) is None
}

/// A search of `state` at `depth`, of kind `maximize`, in the window
/// (`alpha`, `beta`), where the table cannot mislead it: the table is not
/// used at that depth, or the window is not empty, the nodes the search
/// meets that share a key are the same node, every entry the table holds
/// for them is sound, and their values and the window's ends re-base
/// exactly.
pub open spec fn search_sound(
    m: TtModel,
    state: BoardState,
    depth: int,
    chromosome: Option<Chromosome>,
    maximize: bool,
    alpha: int,
    beta: int,
) -> bool {
    let s = tree_nodes(state, depth, maximize);
    depth < TT_MIN_DEPTH || (alpha < beta && rebase_exact(alpha, depth) && rebase_exact(beta, depth)
        && hash_distinct(s) && table_sound(m, s, chromosome) && values_safe(s, chromosome, depth))
}

pub proof fn lemma_tree_contains_self(state: BoardState, depth: int, maximize: bool)
    ensures
        tree_nodes(state, depth, maximize).contains((state, depth, maximize)),
{
}

/// The nodes of the child after `moves[j]` are among the children's nodes.
pub proof fn lemma_child_nodes_contain(
    state: BoardState,
    moves: Seq<Move>,
    n: int,
    child_depth: int,
    maximize: bool,
    j: int,
)
    requires
        0 <= j < n,
        child_depth >= 0,
    ensures
        tree_nodes(spec_make_move(state, moves[j]), child_depth, maximize).subset_of(
            child_nodes(state, moves, n, child_depth, maximize),
        ),
    decreases n,
{
    if j < n - 1 {
        lemma_child_nodes_contain(state, moves, n - 1, child_depth, maximize, j);
    }
}

/// The nodes of the search of any ordered move's child are nodes of the
/// search of the position.
pub proof fn lemma_child_subtree(state: BoardState, depth: int, maximize: bool, m: Move)
    requires
        depth >= 1,
        spec_legal_move_count(state) > 0,
        spec_ordered_moves(state).contains(m),
    ensures
        tree_nodes(spec_make_move(state, m), depth - 1, !maximize).subset_of(tree_nodes(state, depth, maximize)),
{
    let o = spec_ordered_moves(state);
    let j = choose|j: int| 0 <= j < o.len() && o[j] == m;
    lemma_child_nodes_contain(state, o, o.len() as int, depth - 1, !maximize, j);
}

/// The hint-first move list holds only moves of the list.
pub proof fn lemma_tt_move_first_from(moves: Seq<Move>, tt_move: Option<Move>, i: int)
    requires
        0 <= i < moves.len(),
    ensures
        moves.contains(spec_tt_move_first(moves, tt_move)[i]),
        spec_tt_move_first(moves, tt_move).len() == moves.len(),
{
    match tt_move {
        Some(m) => {
            moves.index_of_first_ensures(m);
            match moves.index_of_first(m) {
                Some(p) => {
                    let s = spec_tt_move_first(moves, tt_move);
                    if i == 0 {
                        assert(s[i] == moves[p]);
                    } else if i == p {
                        assert(s[i] == moves[0]);
                    } else {
                        assert(s[i] == moves[i]);
                    }
                },
                None => {
                    assert(spec_tt_move_first(moves, tt_move)[i] == moves[i]);
                },
            }
        },
        None => {
            assert(spec_tt_move_first(moves, tt_move)[i] == moves[i]);
        },
    }
}

/// The best value over the first `n` moves is the value of one of them.
pub proof fn lemma_best_of_attained(
    state: BoardState,
    moves: Seq<Move>,
    n: int,
    child_depth: int,
    chromosome: Option<Chromosome>,
    maximize: bool,
) -> (j: int)
    requires
        n >= 1,
        child_depth >= 0,
    ensures
        0 <= j < n,
        best_of(state, moves, n, child_depth, chromosome, maximize) == minimax(
            spec_make_move(state, moves[j]),
            child_depth,
            chromosome,
            !maximize,
        ),
    decreases n,
{
    if n == 1 {
        0
    } else {
        let j0 = lemma_best_of_attained(state, moves, n - 1, child_depth, chromosome, maximize);
        let c = minimax(spec_make_move(state, moves[n - 1]), child_depth, chromosome, !maximize);
        if extreme(best_of(state, moves, n - 1, child_depth, chromosome, maximize), c, maximize) == c {
            n - 1
        } else {
            j0
        }
    }
}

/// The best value over the first `n` moves is at least (maximizing) or at
/// most every one of their values.
pub proof fn lemma_best_of_dominates(
    state: BoardState,
    moves: Seq<Move>,
    n: int,
    child_depth: int,
    chromosome: Option<Chromosome>,
    maximize: bool,
    j: int,
)
    requires
        0 <= j < n,
        child_depth >= 0,
    ensures
        ({
            let c = minimax(spec_make_move(state, moves[j]), child_depth, chromosome, !maximize);
            let b = best_of(state, moves, n, child_depth, chromosome, maximize);
            (maximize ==> b >= c) && (!maximize ==> b <= c)
        }),
    decreases n,
{
    if j < n - 1 {
        lemma_best_of_dominates(state, moves, n - 1, child_depth, chromosome, maximize, j);
    }
}

/// Two move lists of the same length, each holding only moves of the
/// other, have the same best value.
pub proof fn lemma_best_of_same_moves(
    state: BoardState,
    a: Seq<Move>,
    b: Seq<Move>,
    child_depth: int,
    chromosome: Option<Chromosome>,
    maximize: bool,
)
    requires
        a.len() == b.len() >= 1,
        child_depth >= 0,
        forall|i: int| 0 <= i < a.len() ==> b.contains(#[trigger] a[i]),
        forall|i: int| 0 <= i < b.len() ==> a.contains(#[trigger] b[i]),
    ensures
        best_of(state, a, a.len() as int, child_depth, chromosome, maximize) == best_of(
            state,
            b,
            b.len() as int,
            child_depth,
            chromosome,
            maximize,
        ),
{
    let n = a.len() as int;
    let ja = lemma_best_of_attained(state, a, n, child_depth, chromosome, maximize);
    let jb = lemma_best_of_attained(state, b, n, child_depth, chromosome, maximize);
    assert(b.contains(a[ja]));
    let kb = choose|k: int| 0 <= k < b.len() && b[k] == a[ja];
    assert(a.contains(b[jb]));
    let ka = choose|k: int| 0 <= k < a.len() && a[k] == b[jb];
    lemma_best_of_dominates(state, b, n, child_depth, chromosome, maximize, kb);
    lemma_best_of_dominates(state, a, n, child_depth, chromosome, maximize, ka);
}

/// Moving the hint move to the front leaves the best value unchanged.
pub proof fn lemma_best_of_hint_first(
    state: BoardState,
    moves: Seq<Move>,
    tt_move: Option<Move>,
    child_depth: int,
    chromosome: Option<Chromosome>,
    maximize: bool,
)
    requires
        moves.len() >= 1,
        child_depth >= 0,
    ensures
        best_of(
            state,
            spec_tt_move_first(moves, tt_move),
            moves.len() as int,
            child_depth,
            chromosome,
            maximize,
        ) == best_of(state, moves, moves.len() as int, child_depth, chromosome, maximize),
{
    let s = spec_tt_move_first(moves, tt_move);
    lemma_tt_move_first_from(moves, tt_move, 0);
    assert forall|i: int| 0 <= i < s.len() implies moves.contains(#[trigger] s[i]) by {
        lemma_tt_move_first_from(moves, tt_move, i);
    }
    assert forall|i: int| 0 <= i < moves.len() implies s.contains(#[trigger] moves[i]) by {
        match tt_move {
            Some(m) => {
                moves.index_of_first_ensures(m);
                match moves.index_of_first(m) {
                    Some(p) => {
                        if i == 0 {
                            assert(s[p] == moves[i]);
                        } else if i == p {
                            assert(s[0] == moves[i]);
                        } else {
                            assert(s[i] == moves[i]);
                        }
                    },
                    None => {
                        assert(s[i] == moves[i]);
                    },
                }
            },
            None => {
                assert(s[i] == moves[i]);
            },
        }
    }
    lemma_best_of_same_moves(state, s, moves, child_depth, chromosome, maximize);
}

/// After a child's search, which left the table sound for its nodes and
/// changed nothing outside their keys, the table is still sound for the
/// parent's nodes, and changed nothing outside the parent's keys.
pub proof fn lemma_sound_after_child(
    start: TtModel,
    before: TtModel,
    after: TtModel,
    s: Set<(BoardState, int, bool)>,
    c: Set<(BoardState, int, bool)>,
    chromosome: Option<Chromosome>,
)
    requires
        c.subset_of(s),
        hash_distinct(s),
        table_sound(before, s, chromosome),
        table_sound(after, c, chromosome),
        keeps_outside(before, after, node_keys(c)),
        keeps_outside(start, before, node_keys(s)),
    ensures
        table_sound(after, s, chromosome),
        keeps_outside(start, after, node_keys(s)),
{
    assert forall|n: (BoardState, int, bool)|
        #[trigger] s.contains(n) && n.1 >= TT_MIN_DEPTH && after.lookup(n.0.hash) is Some implies entry_sound(
        after.lookup(n.0.hash)->0,
        n,
        chromosome,
    ) by {
        if !c.contains(n) {
            if node_keys(c).contains(n.0.hash) {
                let w = choose|w: (BoardState, int, bool)| #[trigger] c.contains(w) && w.1 >= TT_MIN_DEPTH && w.0.hash == n.0.hash;
                assert(s.contains(w));
            }
            assert(after.lookup(n.0.hash) == before.lookup(n.0.hash));
        }
    }
    assert forall|k: u64| !node_keys(s).contains(k) implies #[trigger] after.lookup(k) == start.lookup(k)
        || after.lookup(k) is None by {
        if node_keys(c).contains(k) {
            let w = choose|w: (BoardState, int, bool)| #[trigger] c.contains(w) && w.1 >= TT_MIN_DEPTH && w.0.hash == k;
            assert(s.contains(w));
            assert(node_keys(s).contains(k));
        }
        assert(after.lookup(k) == before.lookup(k) || after.lookup(k) is None);
    }
}

/// The key of a node where the table is used is one of the nodes' keys.
pub proof fn lemma_node_key(s: Set<(BoardState, int, bool)>, n: (BoardState, int, bool))
    requires
        s.contains(n),
        n.1 >= TT_MIN_DEPTH,
    ensures
        node_keys(s).contains(n.0.hash),
{
}

/// A store for a node's key, of an entry sound for it, keeps the table
/// sound for the nodes and changes nothing outside their keys.
pub proof fn lemma_sound_store(
    m: TtModel,
    s: Set<(BoardState, int, bool)>,
    node: (BoardState, int, bool),
    nt: NodeType,
    score: i32,
    mv: Option<crate::board::Move>,
    chromosome: Option<Chromosome>,
)
    requires
        m.wf(),
        s.contains(node),
        node.1 >= TT_MIN_DEPTH,
        node.1 <= i32::MAX,
        hash_distinct(s),
        table_sound(m, s, chromosome),
        bound_holds(nt, spec_from_tt_score(score as int, node.1), minimax(node.0, node.1, chromosome, node.2)),
    ensures
        table_sound(m.after_store(node.0.hash, node.1 as i32, nt, score, mv), s, chromosome),
        keeps_outside(m, m.after_store(node.0.hash, node.1 as i32, nt, score, mv), node_keys(s)),
{
    let key = node.0.hash;
    let d = node.1 as i32;
    let new = m.after_store(key, d, nt, score, mv);
    crate::alpha_beta_algorithm::lemma_slot_in_range(m, key);
    assert forall|n: (BoardState, int, bool)|
        #[trigger] s.contains(n) && n.1 >= TT_MIN_DEPTH && new.lookup(n.0.hash) is Some implies entry_sound(
        new.lookup(n.0.hash)->0,
        n,
        chromosome,
    ) by {
        crate::alpha_beta_algorithm::lemma_slot_in_range(m, n.0.hash);
        if n.0.hash == key {
            assert(n == node);
            if m.replaces(key, d) {
                assert(new.lookup(key) == Some(TTEntry { key, depth: d, node_type: nt, score, best_move: mv, age: m.age }));
            } else {
                assert(new == m);
            }
        } else {
            assert(new.lookup(n.0.hash) == m.lookup(n.0.hash) || new.lookup(n.0.hash) is None);
        }
    }
    assert forall|k: u64| !node_keys(s).contains(k) implies #[trigger] new.lookup(k) == m.lookup(k)
        || new.lookup(k) is None by {
        lemma_node_key(s, node);
        crate::alpha_beta_algorithm::lemma_slot_in_range(m, k);
    }
}

/// A subset of the nodes keeps what the premise of `search_sound` asks of
/// the nodes, at any smaller depth bound for the values.
pub proof fn lemma_sound_subset(
    m: TtModel,
    s: Set<(BoardState, int, bool)>,
    c: Set<(BoardState, int, bool)>,
    chromosome: Option<Chromosome>,
    depth: int,
    smaller: int,
)
    requires
        c.subset_of(s),
        hash_distinct(s),
        table_sound(m, s, chromosome),
        values_safe(s, chromosome, depth),
        smaller <= depth,
    ensures
        hash_distinct(c),
        table_sound(m, c, chromosome),
        values_safe(c, chromosome, smaller),
{
    assert forall|a: (BoardState, int, bool), b: (BoardState, int, bool)|
        #[trigger] c.contains(a) && #[trigger] c.contains(b) && a.1 >= TT_MIN_DEPTH && b.1 >= TT_MIN_DEPTH
            && a.0.hash == b.0.hash implies a == b by {
        assert(s.contains(a) && s.contains(b));
    }
    assert forall|n: (BoardState, int, bool)|
        #[trigger] c.contains(n) && n.1 >= TT_MIN_DEPTH && m.lookup(n.0.hash) is Some implies entry_sound(
        m.lookup(n.0.hash)->0,
        n,
        chromosome,
    ) by {
        assert(s.contains(n));
    }
    assert forall|n: (BoardState, int, bool)| #[trigger] c.contains(n) implies value_safe(
        minimax(n.0, n.1, chromosome, n.2),
        smaller,
    ) by {
        assert(s.contains(n));
    }
}

/// Changes outside `keys` compose.
pub proof fn lemma_keeps_outside_trans(a: TtModel, b: TtModel, c: TtModel, keys: Set<u64>)
    requires
        keeps_outside(a, b, keys),
        keeps_outside(b, c, keys),
    ensures
        keeps_outside(a, c, keys),
{
    assert forall|k: u64| !keys.contains(k) implies #[trigger] c.lookup(k) == a.lookup(k) || c.lookup(k) is None by {
        assert(b.lookup(k) == a.lookup(k) || b.lookup(k) is None);
    }
}

/// Two tables with the same slots and index mask hold the same entries, so
/// one is sound for nodes where the other is, and changes nothing.
pub proof fn lemma_same_slots(a: TtModel, b: TtModel, s: Set<(BoardState, int, bool)>, chromosome: Option<Chromosome>)
    requires
        a.slots == b.slots,
        a.mask == b.mask,
    ensures
        table_sound(a, s, chromosome) ==> table_sound(b, s, chromosome),
        forall|keys: Set<u64>| keeps_outside(a, b, keys),
        forall|k: u64| #[trigger] b.lookup(k) == a.lookup(k),
{
    assert forall|k: u64| #[trigger] b.lookup(k) == a.lookup(k) by {}
}

/// No node of a search is deeper than the search.
pub proof fn lemma_tree_depths(state: BoardState, depth: int, maximize: bool)
    ensures
        forall|n: (BoardState, int, bool)| #[trigger] tree_nodes(state, depth, maximize).contains(n) ==> n.1 <= depth,
    decreases depth + 1, 0int,
{
    if depth > 0 && spec_legal_move_count(state) > 0 {
        let o = spec_ordered_moves(state);
        let c = child_nodes(state, o, o.len() as int, depth - 1, !maximize);
        lemma_child_depths(state, o, o.len() as int, depth - 1, !maximize);
        assert(tree_nodes(state, depth, maximize) == c.insert((state, depth, maximize)));
        assert forall|n: (BoardState, int, bool)| #[trigger] tree_nodes(state, depth, maximize).contains(n) implies n.1 <= depth by {
            if n != (state, depth, maximize) {
                assert(c.contains(n));
            }
        }
    } else {
        assert(tree_nodes(state, depth, maximize) == Set::empty().insert((state, depth, maximize)));
    }
}

pub proof fn lemma_child_depths(state: BoardState, moves: Seq<Move>, n: int, child_depth: int, maximize: bool)
    ensures
        forall|x: (BoardState, int, bool)| #[trigger] child_nodes(state, moves, n, child_depth, maximize).contains(x)
            ==> x.1 <= child_depth,
    decreases child_depth + 1, n,
{
    if n > 0 && child_depth >= 0 {
        let a = child_nodes(state, moves, n - 1, child_depth, maximize);
        let t = tree_nodes(spec_make_move(state, moves[n - 1]), child_depth, maximize);
        lemma_child_depths(state, moves, n - 1, child_depth, maximize);
        lemma_tree_depths(spec_make_move(state, moves[n - 1]), child_depth, maximize);
        assert(child_nodes(state, moves, n, child_depth, maximize) == a + t);
        assert forall|x: (BoardState, int, bool)| #[trigger] child_nodes(state, moves, n, child_depth, maximize).contains(x)
            implies x.1 <= child_depth by {
            if a.contains(x) {
            } else {
                assert(t.contains(x));
            }
        }
    } else {
        assert(child_nodes(state, moves, n, child_depth, maximize) == Set::<(BoardState, int, bool)>::empty());
    }
}

/// A search at a depth where the table is not used is sound for a table
/// that it leaves as it was.
pub proof fn lemma_shallow_sound(m: TtModel, state: BoardState, depth: int, maximize: bool, chromosome: Option<Chromosome>)
    requires
        depth < TT_MIN_DEPTH,
    ensures
        table_sound(m, tree_nodes(state, depth, maximize), chromosome),
        keeps_outside(m, m, node_keys(tree_nodes(state, depth, maximize))),
{
    lemma_tree_depths(state, depth, maximize);
}

/// A table with no entry (as a new engine's) is sound for every set of
/// nodes: a search from it is one the table cannot mislead as soon as its
/// nodes that share a key are the same node and their values re-base
/// exactly.
pub proof fn law_empty_table_is_sound(m: TtModel, s: Set<(BoardState, int, bool)>, chromosome: Option<Chromosome>)
    requires
        m.wf(),
        forall|i: int| 0 <= i < m.slots.len() ==> #[trigger] m.slots[i] is None,
    ensures
        table_sound(m, s, chromosome),
{
    assert forall|n: (BoardState, int, bool)|
        #[trigger] s.contains(n) && n.1 >= TT_MIN_DEPTH && m.lookup(n.0.hash) is Some implies entry_sound(
        m.lookup(n.0.hash)->0,
        n,
        chromosome,
    ) by {
        crate::alpha_beta_algorithm::lemma_slot_in_range(m, n.0.hash);
    }
}

} // verus!
