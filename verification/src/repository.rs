//! Where chromosomes are kept between tournaments.
use vstd::prelude::*;
use crate::chromosome::Chromosome;

verus! {

/// A store of chromosomes.
pub trait ChromosomeRepository {
    /// All chromosomes kept so far.
    fn read_chromosomes(&self) -> Result<Vec<Chromosome>, String>;

    /// A write of `chromosomes` took the store from `before` to `after` and
    /// answered `r`.  A store that does not say what its writes do leaves
    /// this open.
    open spec fn written(before: &Self, after: &Self, chromosomes: Seq<Chromosome>, r: Result<(), String>) -> bool {
        true
    }

    /// Keeps more chromosomes.
    fn write_chromosomes(&mut self, chromosomes: &[Chromosome]) -> (r: Result<(), String>)
        ensures
            Self::written(&*old(self), &*final(self), chromosomes@, r),
    ;

    /// Keeps the winners of a tournament: a write of the winners.
    fn write_tournament_winners(&mut self, winners: &[Chromosome]) -> (r: Result<(), String>)
        ensures
            Self::written(&*old(self), &*final(self), winners@, r),
    {
        self.write_chromosomes(winners)
    }

    /// Keeps the winners of a tournament of `player_count` players; unless a
    /// store records the count, a write of the winners.
    fn write_tournament_winners_with_count(&mut self, winners: &[Chromosome], player_count: i32) -> (r:
        Result<(), String>)
        default_ensures
            Self::written(&*old(self), &*final(self), winners@, r),
    {
        self.write_tournament_winners(winners)
    }

    /// Checks that a tournament of `player_count` players may be run; a store
    /// in memory accepts any count.
    fn validate_player_count(&self, player_count: i32) -> (r: Result<(), String>)
        default_ensures
            r is Ok,
    {
        Ok(())
    }
}

/// A store of chromosomes in memory.
pub struct MemoryChromosomeRepository {
    chromosomes: Vec<Chromosome>,
}

impl View for MemoryChromosomeRepository {
    type V = Seq<Chromosome>;

    closed spec fn view(&self) -> Seq<Chromosome> {
        self.chromosomes@
    }
}

impl MemoryChromosomeRepository {
    /// An empty store.
    pub fn new() -> (r: Self)
        ensures
            r@ == Seq::<Chromosome>::empty(),
    {
        Self { chromosomes: Vec::new() }
    }
}

impl ChromosomeRepository for MemoryChromosomeRepository {
    /// A write appends the chromosomes and never fails.
    open spec fn written(
        before: &Self,
        after: &Self,
        chromosomes: Seq<Chromosome>,
        r: Result<(), String>,
    ) -> bool {
        r is Ok && after@ == before@ + chromosomes
    }

    /// All chromosomes written so far, in the order they were written.
    fn read_chromosomes(&self) -> (r: Result<Vec<Chromosome>, String>)
        ensures
            r matches Ok(v) && v@ == self@,
    {
        let mut out: Vec<Chromosome> = Vec::new();
        let mut i: usize = 0;
        while i < self.chromosomes.len()
            invariant
                i <= self.chromosomes.len(),
                out@ == self.chromosomes@.take(i as int),
            decreases self.chromosomes.len() - i,
        {
            out.push(self.chromosomes[i]);
            i = i + 1;
            assert(out@ =~= self.chromosomes@.take(i as int));
        }
        assert(out@ =~= self.chromosomes@);
        Ok(out)
    }

    /// Appends the chromosomes; never fails.
    fn write_chromosomes(&mut self, chromosomes: &[Chromosome]) -> (r: Result<(), String>)
        ensures
            r is Ok,
            final(self)@ == old(self)@ + chromosomes@,
    {
        let ghost before = self.chromosomes@;
        let mut i: usize = 0;
        while i < chromosomes.len()
            invariant
                i <= chromosomes.len(),
                self.chromosomes@ == before + chromosomes@.take(i as int),
            decreases chromosomes.len() - i,
        {
            self.chromosomes.push(chromosomes[i]);
            i = i + 1;
            assert(self.chromosomes@ =~= before + chromosomes@.take(i as int));
        }
        assert(chromosomes@.take(i as int) =~= chromosomes@);
        Ok(())
    }
}

} // verus!
