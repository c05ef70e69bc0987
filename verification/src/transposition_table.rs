//! A fixed-size hash table that caches search results by position hash.
use vstd::prelude::*;
use crate::board::Move;

verus! {

/// How a cached score relates to the true value of its position.
#[derive(Clone, Copy, Debug, PartialEq, Eq, Structural)]
pub enum NodeType {
    /// The score is the value of the position.
    Exact,
    /// The value is at least the score.
    LowerBound,
    /// The value is at most the score.
    UpperBound,
}

/// One cached search result.
#[derive(Clone, Copy, Debug)]
pub struct TTEntry {
    pub key: u64,
    pub depth: i32,
    pub node_type: NodeType,
    pub score: i32,
    pub best_move: Option<Move>,
    pub age: u8,
}

/// Probe counters of a transposition table.
#[derive(Clone, Copy, Debug)]
pub struct TtStats {
    pub hits: u64,
    pub misses: u64,
    pub collisions: u64,
}

impl Default for TtStats {
    fn default() -> (r: TtStats)
        ensures
            r.hits == 0 && r.misses == 0 && r.collisions == 0,
    {
        TtStats { hits: 0, misses: 0, collisions: 0 }
    }
}

/// Fixed-size hash table caching position evaluations across the search.
pub struct TranspositionTable {
    table: Vec<Option<TTEntry>>,
    current_age: u8,
    size_mask: usize,
    hits: u64,
    misses: u64,
    collisions: u64,
}

/// The abstract content of a transposition table.
pub struct TtModel {
    pub slots: Seq<Option<TTEntry>>,
    pub mask: usize,
    pub age: u8,
    pub hits: u64,
    pub misses: u64,
    pub collisions: u64,
}

/// `n` is a power of two.
pub open spec fn is_power_of_two(n: nat) -> bool
    decreases n,
{
    if n <= 1 {
        n == 1
    } else {
        n % 2 == 0 && is_power_of_two(n / 2)
    }
}

/// A counter after one more event (staying at the top of the range once
/// there).
pub open spec fn bump(x: u64) -> u64 {
    if x == u64::MAX {
        u64::MAX
    } else {
        (x + 1) as u64
    }
}

/// A search generation after one more search (wrapping at the top of the range).
pub open spec fn next_age(a: u8) -> u8 {
    if a == u8::MAX {
        0
    } else {
        (a + 1) as u8
    }
}

impl TtModel {
    /// The table has one slot more than its index mask, a power of two.
    pub open spec fn wf(self) -> bool {
        &&& self.slots.len() == self.mask + 1
        &&& is_power_of_two(self.slots.len())
    }

    /// The slot of a key: its low bits.
    pub open spec fn slot(self, key: u64) -> int {
        ((key as usize) & self.mask) as int
    }

    /// The entry cached for exactly this key, if its slot holds one.
    pub open spec fn lookup(self, key: u64) -> Option<TTEntry> {
        match self.slots[self.slot(key)] {
            Some(e) => if e.key == key { Some(e) } else { None },
            None => None,
        }
    }

    /// The table after a probe for `key`: the matching counter goes up.
    pub open spec fn after_probe(self, key: u64) -> TtModel {
        match self.slots[self.slot(key)] {
            Some(e) => if e.key == key {
                TtModel { hits: bump(self.hits), ..self }
            } else {
                TtModel { collisions: bump(self.collisions), ..self }
            },
            None => TtModel { misses: bump(self.misses), ..self },
        }
    }

    /// Whether storing a result for `key` at `depth` replaces its slot: an
    /// empty slot always; the same key when the new search is at least as
    /// deep; another key when that entry comes from an older search or the
    /// new search is deeper.
    pub open spec fn replaces(self, key: u64, depth: i32) -> bool {
        match self.slots[self.slot(key)] {
            None => true,
            Some(e) => if e.key == key {
                depth >= e.depth
            } else {
                e.age != self.age || depth > e.depth
            },
        }
    }

    /// The table after storing a result.
    pub open spec fn after_store(
        self,
        key: u64,
        depth: i32,
        node_type: NodeType,
        score: i32,
        best_move: Option<Move>,
    ) -> TtModel {
        if self.replaces(key, depth) {
            TtModel {
                slots: self.slots.update(
                    self.slot(key),
                    Some(TTEntry { key, depth, node_type, score, best_move, age: self.age }),
                ),
                ..self
            }
        } else {
            self
        }
    }

    /// The table at the start of a new search: next generation, counters cleared.
    pub open spec fn after_new_search(self) -> TtModel {
        TtModel { age: next_age(self.age), hits: 0, misses: 0, collisions: 0, ..self }
    }
}

impl View for TranspositionTable {
    type V = TtModel;

    closed spec fn view(&self) -> TtModel {
        TtModel {
            slots: self.table@,
            mask: self.size_mask,
            age: self.current_age,
            hits: self.hits,
            misses: self.misses,
            collisions: self.collisions,
        }
    }
}

/// A power of two between `k` and `2k` (exclusive), `k` itself a power of
/// two, is `k`.
proof fn lemma_power_of_two_unique(p: nat, k: nat)
    requires
        is_power_of_two(p),
        is_power_of_two(k),
        k <= p < 2 * k,
    ensures
        p == k,
    decreases k,
{
    if k > 1 {
        lemma_power_of_two_unique(p / 2, k / 2);
    }
}

proof fn lemma_and_le(x: usize, m: usize)
    ensures
        x & m <= m,
{
    assert(x & m <= m) by (bit_vector);
}

impl TranspositionTable {
    /// The table is well formed.
    pub open spec fn wf(&self) -> bool {
        self@.wf()
    }

    /// A table with the least power of two at least `size` (and at least
    /// one) of empty slots, search generation 0 and cleared counters.
    pub fn new(size: usize) -> (r: TranspositionTable)
        requires
            size <= usize::MAX / 2 + 1,
        ensures
            r.wf(),
            r@.slots.len() >= size,
            r@.slots.len() > 1 ==> r@.slots.len() / 2 < size,
            forall|i: int| 0 <= i < r@.slots.len() ==> r@.slots[i] is None,
            r@.age == 0 && r@.hits == 0 && r@.misses == 0 && r@.collisions == 0,
    {
        let mut n: usize = 1;
        while n < size
            invariant
                1 <= n,
                is_power_of_two(n as nat),
                n > 1 ==> n / 2 < size,
                size <= usize::MAX / 2 + 1,
            decreases usize::MAX - n,
        {
            assert(n <= usize::MAX / 2);
            n = n * 2;
            assert(is_power_of_two(n as nat)) by {
                assert((n as nat) / 2 == (n / 2) as nat);
            }
        }
        let mut table: Vec<Option<TTEntry>> = Vec::new();
        let mut i: usize = 0;
        while i < n
            invariant
                i <= n,
                table@.len() == i,
                forall|j: int| 0 <= j < i ==> table@[j] is None,
            decreases n - i,
        {
            table.push(None);
            i = i + 1;
        }
        TranspositionTable {
            table,
            current_age: 0,
            size_mask: n - 1,
            hits: 0,
            misses: 0,
            collisions: 0,
        }
    }

    fn slot_index(&self, key: u64) -> (i: usize)
        requires
            self.wf(),
        ensures
            i == self@.slot(key),
            i < self.table.len(),
    {
        proof {
            lemma_and_le(key as usize, self.size_mask);
        }
        (key as usize) & self.size_mask
    }

    /// Looks up `key`: the cached entry when its slot holds this key, counting
    /// a hit; otherwise `None`, counting a collision (slot taken by another
    /// key) or a miss (empty slot).
    pub fn probe(&mut self, key: u64) -> (r: Option<TTEntry>)
        requires
            old(self).wf(),
        ensures
            r == old(self)@.lookup(key),
            final(self)@ == old(self)@.after_probe(key),
    {
        let index = self.slot_index(key);
        match self.table[index] {
            Some(entry) => {
                if entry.key == key {
                    self.hits = self.hits.saturating_add(1);
                    Some(entry)
                } else {
                    self.collisions = self.collisions.saturating_add(1);
                    None
                }
            },
            None => {
                self.misses = self.misses.saturating_add(1);
                None
            },
        }
    }

    /// Stores an entry, preferring deeper results and evicting entries from
    /// older searches (see `TtModel::replaces`).
    pub fn store(
        &mut self,
        key: u64,
        depth: i32,
        node_type: NodeType,
        score: i32,
        best_move: Option<Move>,
    )
        requires
            old(self).wf(),
        ensures
            final(self)@ == old(self)@.after_store(key, depth, node_type, score, best_move),
    {
        let index = self.slot_index(key);
        let should_replace = match self.table[index] {
            None => true,
            Some(existing) => if existing.key == key {
                depth >= existing.depth
            } else {
                existing.age != self.current_age || depth > existing.depth
            },
        };
        if should_replace {
            self.table.set(
                index,
                Some(TTEntry { key, depth, node_type, score, best_move, age: self.current_age }),
            );
        }
    }

    /// Begin a new search: bump generation and reset per-search counters.
    pub fn new_search(&mut self)
        ensures
            final(self)@ == old(self)@.after_new_search(),
    {
        self.current_age = self.current_age.wrapping_add(1);
        self.hits = 0;
        self.misses = 0;
        self.collisions = 0;
    }

    /// The probe counters.
    pub fn stats(&self) -> (r: TtStats)
        ensures
            r.hits == self@.hits,
            r.misses == self@.misses,
            r.collisions == self@.collisions,
    {
        TtStats { hits: self.hits, misses: self.misses, collisions: self.collisions }
    }
}

/// A read gives back a write: once a result for `key` replaces its slot, a
/// probe for `key` finds exactly that result, stamped with the current search
/// generation.
pub proof fn law_probe_after_store(
    m: TtModel,
    key: u64,
    depth: i32,
    node_type: NodeType,
    score: i32,
    best_move: Option<Move>,
)
    requires
        m.wf(),
        m.replaces(key, depth),
    ensures
        m.after_store(key, depth, node_type, score, best_move).lookup(key) == Some(
            TTEntry { key, depth, node_type, score, best_move, age: m.age },
        ),
{
    lemma_and_le(key as usize, m.mask);
}

/// A store touches only the slot of its key: a probe for a key of another
/// slot finds what it found before.
pub proof fn law_store_keeps_other_slots(
    m: TtModel,
    key: u64,
    depth: i32,
    node_type: NodeType,
    score: i32,
    best_move: Option<Move>,
    other: u64,
)
    requires
        m.wf(),
        m.slot(other) != m.slot(key),
    ensures
        m.after_store(key, depth, node_type, score, best_move).lookup(other) == m.lookup(other),
{
    lemma_and_le(key as usize, m.mask);
    lemma_and_le(other as usize, m.mask);
}

/// Deeper results win: a shallower result for a key whose deeper result is
/// cached, or for a slot that the current search filled at least as deep,
/// leaves the table as it was.
pub proof fn law_store_keeps_deeper(
    m: TtModel,
    key: u64,
    depth: i32,
    node_type: NodeType,
    score: i32,
    best_move: Option<Move>,
)
    requires
        m.wf(),
        m.slots[m.slot(key)] matches Some(e) && ((e.key == key && depth < e.depth) || (e.key
            != key && e.age == m.age && depth <= e.depth)),
    ensures
        m.after_store(key, depth, node_type, score, best_move) == m,
{
}

/// Probes and new searches never change what the table holds.
pub proof fn law_probe_and_new_search_keep_entries(m: TtModel, key: u64, other: u64)
    requires
        m.wf(),
    ensures
        m.after_probe(key).lookup(other) == m.lookup(other),
        m.after_new_search().lookup(other) == m.lookup(other),
        m.after_probe(key).wf(),
        m.after_new_search().wf(),
{
}

/// Each probe counts exactly one event: a hit when it finds its key, a
/// collision when another key holds the slot, a miss when the slot is empty.
pub proof fn law_probe_counts_one_event(m: TtModel, key: u64)
    requires
        m.wf(),
    ensures
        ({
            let n = m.after_probe(key);
            if m.lookup(key) is Some {
                n.hits == bump(m.hits) && n.misses == m.misses && n.collisions == m.collisions
            } else if m.slots[m.slot(key)] is Some {
                n.hits == m.hits && n.misses == m.misses && n.collisions == bump(m.collisions)
            } else {
                n.hits == m.hits && n.misses == bump(m.misses) && n.collisions == m.collisions
            }
        }),
{
}

impl Default for TranspositionTable {
    /// A table of 2^20 empty slots.
    fn default() -> (r: TranspositionTable)
        ensures
            r.wf(),
            r@.slots.len() == 0x100000,
            forall|i: int| 0 <= i < r@.slots.len() ==> r@.slots[i] is None,
            r@.age == 0 && r@.hits == 0 && r@.misses == 0 && r@.collisions == 0,
    {
        let r = TranspositionTable::new(0x100000);
        proof {
            reveal_with_fuel(is_power_of_two, 22);
            assert(is_power_of_two(0x100000));
            lemma_power_of_two_unique(r@.slots.len(), 0x100000);
        }
        r
    }
}

} // verus!
