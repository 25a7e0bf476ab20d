//! Takes the nine regions out of the 81 cells of a grid.

use crate::model::cell::{Cell, CellView};
use crate::model::cells::Cells;
use crate::model::region::Region;
use crate::model::regions::Regions;
use crate::rules::region_position;
use vstd::prelude::*;

verus! {

/// The regions of 81 cells in row-major order: region `g` holds, as its
/// `k`-th cell, the digit of the cell at `region_position(g, k)`, without
/// notes.
pub open spec fn regions_of(s: Seq<CellView>) -> Seq<Seq<CellView>> {
    Seq::new(9, |g: int| Seq::new(9, |k: int| CellView::plain(s[region_position(g, k)].value)))
}

/// Flat position of the top left cell of region `g`.
fn region_root(g: usize) -> (root: usize)
    requires
        g < 9,
    ensures
        root == region_position(g as int, 0),
        root + 20 < 81,
{
    (g / 3) * 27 + (g % 3) * 3
}

/// Collects the nine regions of the given cells. Each region walks three
/// rows of three cells from its top left corner, and holds copies of the
/// digits: notes are not taken over.
pub fn collect_regions(cells: &Cells) -> (out: Regions)
    requires
        cells@.len() == 81,
        cells.wf(),
    ensures
        out@ == regions_of(cells@),
        out.wf(),
{
    let mut regions = Regions::new();
    let mut g: usize = 0;
    while g < 9
        invariant
            g <= 9,
            cells@.len() == 81,
            cells.wf(),
            regions.wf(),
            forall|h: int| 0 <= h < g ==> #[trigger] regions@[h] == regions_of(cells@)[h],
        decreases 9 - g,
    {
        let root = region_root(g);
        let mut taken: [Cell; 9] = [Cell::new(0);9];
        let mut r: usize = 0;
        while r < 3
            invariant
                r <= 3,
                g < 9,
                cells@.len() == 81,
                cells.wf(),
                root == region_position(g as int, 0),
                forall|k: int|
                    0 <= k < 3 * r ==> (#[trigger] taken@[k])@ == CellView::plain(
                        cells@[region_position(g as int, k)].value,
                    ),
                forall|k: int| 0 <= k < 9 ==> (#[trigger] taken@[k]).wf(),
            decreases 3 - r,
        {
            let start = root + 9 * r;
            let mut c: usize = 0;
            while c < 3
                invariant
                    c <= 3,
                    r < 3,
                    g < 9,
                    cells@.len() == 81,
                    cells.wf(),
                    root == region_position(g as int, 0),
                    start == root + 9 * r,
                    forall|k: int|
                        0 <= k < 3 * r + c ==> (#[trigger] taken@[k])@ == CellView::plain(
                            cells@[region_position(g as int, k)].value,
                        ),
                    forall|k: int| 0 <= k < 9 ==> (#[trigger] taken@[k]).wf(),
                decreases 3 - c,
            {
                let k = 3 * r + c;
                assert(start + c == region_position(g as int, k as int));
                let digit = cells.get_at(start + c).unwrap().value();
                assert(cells@[start + c].wf());
                taken[k] = Cell::new(digit);
                c = c + 1;
            }
            r = r + 1;
        }
        let region = Region::with_cells(taken);
        proof {
            assert(region@ =~= regions_of(cells@)[g as int]);
        }
        regions.add_region_at(region, g);
        g = g + 1;
    }
    proof {
        assert(regions@ =~= regions_of(cells@));
    }
    regions
}

} // verus!
