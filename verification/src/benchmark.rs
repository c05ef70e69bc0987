//! Standard positions for benchmarking the search, and totals over runs.
use vstd::prelude::*;
use crate::alpha_beta_algorithm::SearchStats;

verus! {

/// Standard chess positions for benchmarking.
pub struct BenchmarkPositions;

impl BenchmarkPositions {
    /// Returns a collection of standard chess positions for benchmarking, as
    /// (name, FEN) pairs.
    pub fn get_standard_positions() -> (r: Vec<(&'static str, &'static str)>)
        ensures
            r@.len() == 8,
            r@[0] == ("Starting Position", "rnbqkbnr/pppppppp/8/8/8/8/PPPPPPPP/RNBQKBNR w KQkq - 0 1"),
            r@[1] == ("Middlegame Position", "r1bqkb1r/pppp1ppp/2n2n2/4p3/2B1P3/3P1N2/PPP2PPP/RNBQK2R w KQkq - 0 4"),
            r@[2] == ("Tactical Position", "r1bqk2r/pppp1ppp/2n2n2/2b1p3/2B1P3/3P1N2/PPP2PPP/RNBQK2R w KQkq - 0 4"),
            r@[3] == ("Endgame Position", "8/2p5/3p4/KP5r/1R3p1k/8/4P1P1/8 w - - 0 1"),
            r@[4] == ("Complex Middlegame", "r1bq1rk1/ppp1nppp/3p1n2/3Pp3/1bP1P3/2N2N2/PP2BPPP/R1BQK2R w KQ - 0 8"),
            r@[5] == ("Queen's Gambit", "rnbqkb1r/ppp2ppp/4pn2/3p4/2PP4/2N5/PP2PPPP/R1BQKBNR w KQkq - 0 4"),
            r@[6] == ("Sicilian Defense", "rnbqkb1r/pp1ppppp/5n2/2p5/4P3/5N2/PPPP1PPP/RNBQKB1R w KQkq - 0 3"),
            r@[7] == ("King's Indian Attack", "rnbqkb1r/pppppp1p/5np1/8/3PP3/2N2N2/PPP2PPP/R1BQKB1R w KQkq - 0 4"),
    {
        vec![
            ("Starting Position", "rnbqkbnr/pppppppp/8/8/8/8/PPPPPPPP/RNBQKBNR w KQkq - 0 1"),
            ("Middlegame Position", "r1bqkb1r/pppp1ppp/2n2n2/4p3/2B1P3/3P1N2/PPP2PPP/RNBQK2R w KQkq - 0 4"),
            ("Tactical Position", "r1bqk2r/pppp1ppp/2n2n2/2b1p3/2B1P3/3P1N2/PPP2PPP/RNBQK2R w KQkq - 0 4"),
            ("Endgame Position", "8/2p5/3p4/KP5r/1R3p1k/8/4P1P1/8 w - - 0 1"),
            ("Complex Middlegame", "r1bq1rk1/ppp1nppp/3p1n2/3Pp3/1bP1P3/2N2N2/PP2BPPP/R1BQK2R w KQ - 0 8"),
            ("Queen's Gambit", "rnbqkb1r/ppp2ppp/4pn2/3p4/2PP4/2N5/PP2PPPP/R1BQKBNR w KQkq - 0 4"),
            ("Sicilian Defense", "rnbqkb1r/pp1ppppp/5n2/2p5/4P3/5N2/PPPP1PPP/RNBQKB1R w KQkq - 0 3"),
            ("King's Indian Attack", "rnbqkb1r/pppppp1p/5np1/8/3PP3/2N2N2/PPP2PPP/R1BQKB1R w KQkq - 0 4"),
        ]
    }
}

/// Counter `k` of the search counters: 0 nodes searched, 1 evaluations,
/// 2 cutoffs, 3 terminal nodes, 4 table hits, 5 table misses, 6 table
/// collisions.
pub open spec fn counter(s: SearchStats, k: int) -> int {
    if k == 0 {
        s.nodes_searched as int
    } else if k == 1 {
        s.evaluations as int
    } else if k == 2 {
        s.cutoffs as int
    } else if k == 3 {
        s.terminal_nodes as int
    } else if k == 4 {
        s.tt_hits as int
    } else if k == 5 {
        s.tt_misses as int
    } else {
        s.tt_collisions as int
    }
}

/// The sum of counter `k` over benchmark runs (counters, milliseconds).
pub open spec fn counter_total(runs: Seq<(SearchStats, u128)>, k: int) -> int
    decreases runs.len(),
{
    if runs.len() == 0 {
        0
    } else {
        counter_total(runs.drop_last(), k) + counter(runs.last().0, k)
    }
}

/// The sum of the milliseconds of benchmark runs.
pub open spec fn time_total(runs: Seq<(SearchStats, u128)>) -> int
    decreases runs.len(),
{
    if runs.len() == 0 {
        0
    } else {
        time_total(runs.drop_last()) + runs.last().1
    }
}

/// Every total over the runs fits its integer type.
pub open spec fn totals_fit(runs: Seq<(SearchStats, u128)>) -> bool {
    &&& forall|k: int| 0 <= k < 7 ==> #[trigger] counter_total(runs, k) <= u64::MAX
    &&& time_total(runs) <= u128::MAX
}

/// Totals over benchmark runs: of each search counter, and of the time.
#[derive(Clone, Copy, Debug)]
pub struct BenchmarkTotals {
    pub stats: SearchStats,
    pub time_ms: u128,
}

/// The counters of two searches added up, if every sum fits a `u64`.
fn add_stats(a: SearchStats, b: SearchStats) -> (r: Option<SearchStats>)
    ensures
        r is Some <==> forall|k: int| 0 <= k < 7 ==> #[trigger] counter(a, k) + counter(b, k) <= u64::MAX,
        r matches Some(t) ==> forall|k: int| 0 <= k < 7 ==> #[trigger] counter(t, k) == counter(a, k) + counter(b, k),
{
    let nodes_searched = match a.nodes_searched.checked_add(b.nodes_searched) {
        Some(v) => v,
        None => {
            assert(counter(a, 0) + counter(b, 0) > u64::MAX);
            return None;
        },
    };
    let evaluations = match a.evaluations.checked_add(b.evaluations) {
        Some(v) => v,
        None => {
            assert(counter(a, 1) + counter(b, 1) > u64::MAX);
            return None;
        },
    };
    let cutoffs = match a.cutoffs.checked_add(b.cutoffs) {
        Some(v) => v,
        None => {
            assert(counter(a, 2) + counter(b, 2) > u64::MAX);
            return None;
        },
    };
    let terminal_nodes = match a.terminal_nodes.checked_add(b.terminal_nodes) {
        Some(v) => v,
        None => {
            assert(counter(a, 3) + counter(b, 3) > u64::MAX);
            return None;
        },
    };
    let tt_hits = match a.tt_hits.checked_add(b.tt_hits) {
        Some(v) => v,
        None => {
            assert(counter(a, 4) + counter(b, 4) > u64::MAX);
            return None;
        },
    };
    let tt_misses = match a.tt_misses.checked_add(b.tt_misses) {
        Some(v) => v,
        None => {
            assert(counter(a, 5) + counter(b, 5) > u64::MAX);
            return None;
        },
    };
    let tt_collisions = match a.tt_collisions.checked_add(b.tt_collisions) {
        Some(v) => v,
        None => {
            assert(counter(a, 6) + counter(b, 6) > u64::MAX);
            return None;
        },
    };
    let t = SearchStats {
        nodes_searched,
        evaluations,
        cutoffs,
        terminal_nodes,
        tt_hits,
        tt_misses,
        tt_collisions,
    };
    assert forall|k: int| 0 <= k < 7 implies #[trigger] counter(t, k) == counter(a, k) + counter(b, k) by {}
    Some(t)
}

proof fn lemma_totals_grow(runs: Seq<(SearchStats, u128)>, i: int)
    requires
        0 <= i <= runs.len(),
    ensures
        forall|k: int| #[trigger] counter_total(runs.take(i), k) <= counter_total(runs, k),
        time_total(runs.take(i)) <= time_total(runs),
    decreases runs.len(),
{
    if i < runs.len() {
        assert(runs.drop_last().take(i) =~= runs.take(i));
        lemma_totals_grow(runs.drop_last(), i);
    } else {
        assert(runs.take(i) =~= runs);
    }
}

/// Adds up the search counters and the times of benchmark runs; `None`
/// exactly when some total does not fit its integer type.
pub fn benchmark_totals(runs: &Vec<(SearchStats, u128)>) -> (r: Option<BenchmarkTotals>)
    ensures
        r is Some <==> totals_fit(runs@),
        r matches Some(t) ==> t.time_ms == time_total(runs@) && forall|k: int|
            0 <= k < 7 ==> #[trigger] counter(t.stats, k) == counter_total(runs@, k),
{
    let mut stats = SearchStats::new();
    let mut time_ms: u128 = 0;
    let mut i: usize = 0;
    while i < runs.len()
        invariant
            i <= runs.len(),
            time_ms == time_total(runs@.take(i as int)),
            forall|k: int| 0 <= k < 7 ==> #[trigger] counter(stats, k) == counter_total(runs@.take(i as int), k),
        decreases runs.len() - i,
    {
        let ghost prefix = runs@.take(i as int);
        let ghost next = runs@.take(i + 1);
        proof {
            assert(next.drop_last() =~= prefix);
            assert(next.last() == runs@[i as int]);
            lemma_totals_grow(runs@, i + 1);
        }
        let (run_stats, run_time) = runs[i];
        stats = match add_stats(stats, run_stats) {
            Some(t) => t,
            None => {
                proof {
                    let k = choose|k: int| 0 <= k < 7 && !(#[trigger] counter(stats, k) + counter(run_stats, k) <= u64::MAX);
                    assert(counter_total(next, k) > u64::MAX);
                    assert(counter_total(runs@, k) >= counter_total(next, k));
                }
                return None;
            },
        };
        time_ms = match time_ms.checked_add(run_time) {
            Some(v) => v,
            None => {
                proof {
                    assert(time_total(next) > u128::MAX);
                }
                return None;
            },
        };
        i = i + 1;
    }
    proof {
        assert(runs@.take(i as int) =~= runs@);
        assert forall|k: int| 0 <= k < 7 implies #[trigger] counter_total(runs@, k) <= u64::MAX by {
            assert(counter(stats, k) == counter_total(runs@, k));
        }
    }
    Some(BenchmarkTotals { stats, time_ms })
}

/// Two lists of benchmark runs, each run named by its position and depth,
/// measured the same positions at the same depths in the same order.
pub open spec fn same_runs(a: Seq<(String, i32)>, b: Seq<(String, i32)>) -> bool {
    &&& a.len() == b.len()
    &&& forall|k: int| 0 <= k < a.len() ==> (#[trigger] a[k]).0@ == b[k].0@ && a[k].1 == b[k].1
}

/// Whether two benchmark runs can be compared: they measured the same
/// positions at the same depths in the same order.
pub fn runs_comparable(baseline: &Vec<(String, i32)>, other: &Vec<(String, i32)>) -> (r: bool)
    ensures
        r == same_runs(baseline@, other@),
{
    if baseline.len() != other.len() {
        return false;
    }
    let mut i: usize = 0;
    while i < baseline.len()
        invariant
            i <= baseline.len() == other.len(),
            forall|k: int| 0 <= k < i ==> (#[trigger] baseline@[k]).0@ == other@[k].0@ && baseline@[k].1 == other@[k].1,
        decreases baseline.len() - i,
    {
        if baseline[i].0 != other[i].0 || baseline[i].1 != other[i].1 {
            return false;
        }
        i = i + 1;
    }
    true
}

} // verus!
