//! The nine regions of a grid, numbered left to right, top to bottom.

use crate::model::cell::{all_wf, values_of, CellView};
use crate::model::region::Region;
use crate::rules::all_distinct_assigned;
use vstd::prelude::*;

verus! {

/// The nine regions of a grid.
#[derive(PartialEq, Eq, Debug)]
pub struct Regions {
    regions: Vec<Region>,
}

impl Clone for Regions {
    fn clone(&self) -> (out: Self)
        ensures
            out@ == self@,
    {
        let mut regions: Vec<Region> = Vec::new();
        let n = self.regions.len();
        let mut g: usize = 0;
        while g < n
            invariant
                g <= n,
                n == self.regions@.len(),
                regions@ == self.regions@.take(g as int),
            decreases n - g,
        {
            regions.push(self.regions[g]);
            proof {
                assert(regions@ =~= self.regions@.take(g + 1));
            }
            g = g + 1;
        }
        proof {
            assert(regions@ =~= self.regions@);
        }
        Regions { regions }
    }
}

impl View for Regions {
    type V = Seq<Seq<CellView>>;

    closed spec fn view(&self) -> Seq<Seq<CellView>> {
        Seq::new(self.regions@.len(), |g: int| self.regions@[g]@)
    }
}

impl Regions {
    /// There are nine regions, each of nine well-formed cells.
    pub open spec fn wf(&self) -> bool {
        &&& self@.len() == 9
        &&& forall|g: int|
            0 <= g < 9 ==> (#[trigger] self@[g]).len() == 9 && all_wf(self@[g])
    }

    /// Nine regions of empty cells without notes.
    pub fn new() -> (out: Regions)
        ensures
            out@ == Seq::new(9, |g: int| Seq::new(9, |k: int| CellView::plain(0))),
            out.wf(),
    {
        let mut regions: Vec<Region> = Vec::new();
        let mut g: usize = 0;
        while g < 9
            invariant
                g <= 9,
                regions@.len() == g,
                forall|h: int|
                    0 <= h < g ==> (#[trigger] regions@[h])@ == Seq::new(
                        9,
                        |k: int| CellView::plain(0),
                    ),
            decreases 9 - g,
        {
            regions.push(Region::new());
            g = g + 1;
        }
        let out = Regions { regions };
        proof {
            assert(out@ =~= Seq::new(9, |g: int| Seq::new(9, |k: int| CellView::plain(0))));
        }
        out
    }

    /// Puts `region` at place `i`.
    pub fn add_region_at(&mut self, region: Region, i: usize)
        requires
            old(self).wf(),
            region.wf(),
            i < 9,
        ensures
            final(self)@ == old(self)@.update(i as int, region@),
            final(self).wf(),
    {
        assert(self@.len() == self.regions@.len());
        self.regions.set(i, region);
        proof {
            region.lemma_len();
            assert(self@ =~= old(self)@.update(i as int, region@));
        }
    }

    /// The region at place `i`.
    pub fn get_at(&self, i: usize) -> (region: Region)
        requires
            self.wf(),
            i < 9,
        ensures
            region@ == self@[i as int],
    {
        assert(self@.len() == self.regions@.len());
        self.regions[i]
    }

    /// Tells whether no region holds an assigned digit twice.
    pub fn is_valid(&self) -> (b: bool)
        requires
            self.wf(),
        ensures
            b == forall|g: int|
                0 <= g < 9 ==> all_distinct_assigned(values_of(#[trigger] self@[g])),
    {
        let mut g: usize = 0;
        while g < 9
            invariant
                g <= 9,
                self.wf(),
                forall|h: int|
                    0 <= h < g ==> all_distinct_assigned(values_of(#[trigger] self@[h])),
            decreases 9 - g,
        {
            if !self.get_at(g).is_valid() {
                return false;
            }
            g = g + 1;
        }
        true
    }
}

} // verus!
