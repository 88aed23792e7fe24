//! The regions of stable memory, handed out so that no two stores ever
//! live on one region.
//!
//! A region is taken by one store, which keeps it. A service that is
//! given up hands its regions back as regions of that service, which only
//! that service takes again: a region that has held a log never comes
//! under a table, nor the reverse.

use crate::lists::reversed;
use crate::store::{REGION_COUNT, Region, StableMemory};
use vstd::prelude::*;

verus! {

/// Regions of stable memory that no store has taken yet.
pub struct StableRegions {
    /// The regions, the one that is taken next at the end.
    regions: Vec<Region>,
}

impl View for StableRegions {
    type V = Seq<Region>;

    /// The regions in the order in which they are taken.
    closed spec fn view(&self) -> Seq<Region> {
        self.regions@.reverse()
    }
}

impl StableRegions {
    /// All regions of the stable memory of the program, in the order of
    /// their numbers. The stable memory is one: a program asks for its
    /// regions once, when it starts, and gives each service a part of them
    /// with `take`. Regions that are asked for a second time may share
    /// their bytes with the first, and nothing that this library states
    /// holds of stores on shared regions.
    pub fn new() -> (all: StableRegions)
        ensures
            all@.len() == REGION_COUNT,
    {
        let memory = StableMemory::new();
        let mut regions: Vec<Region> = Vec::new();
        let mut number: u8 = REGION_COUNT;
        while number > 0
            invariant
                number <= REGION_COUNT,
                regions@.len() == REGION_COUNT - number,
            decreases number,
        {
            number -= 1;
            regions.push(memory.region(number));
        }
        StableRegions { regions }
    }

    /// The number of regions.
    pub fn len(&self) -> (count: usize)
        ensures
            count == self@.len(),
    {
        self.regions.len()
    }

    /// Takes the first `count` regions out, in their order, or none where
    /// there are fewer.
    pub fn take(&mut self, count: usize) -> (taken: Option<StableRegions>)
        ensures
            match taken {
                Some(front) => count <= old(self)@.len() && front@ == old(self)@.take(
                    count as int,
                ) && final(self)@ == old(self)@.skip(count as int),
                None => count > old(self)@.len() && final(self)@ == old(self)@,
            },
    {
        if count > self.regions.len() {
            return None;
        }
        let ghost all = self.regions@;
        let mut front: Vec<Region> = Vec::new();
        let mut i: usize = 0;
        while i < count
            invariant
                i <= count,
                count <= all.len(),
                self.regions@ == all.take(all.len() - i),
                front@ == all.skip(all.len() - i).reverse(),
            decreases count - i,
        {
            let region = self.regions.pop().unwrap();
            front.push(region);
            i += 1;
            proof {
                assert(self.regions@ =~= all.take(all.len() - i));
                assert(front@ =~= all.skip(all.len() - i).reverse());
            }
        }
        let taken = StableRegions { regions: reversed(front) };
        proof {
            assert(taken@ =~= all.reverse().take(count as int));
            assert(self@ =~= all.reverse().skip(count as int));
        }
        Some(taken)
    }

    /// Takes the first region out.
    pub(crate) fn next(&mut self) -> (region: Region)
        requires
            old(self)@.len() > 0,
        ensures
            region == old(self)@[0],
            final(self)@ == old(self)@.skip(1),
    {
        let region = self.regions.pop().unwrap();
        assert(self@ =~= old(self)@.skip(1));
        region
    }
}

} // verus!
