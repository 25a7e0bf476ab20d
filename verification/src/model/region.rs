//! One 3×3 region of the grid, as nine cells taken row by row.

use crate::model::cell::{all_wf, values_of, Cell, CellView};
use crate::rules::all_distinct_assigned;
use vstd::prelude::*;

verus! {

/// The nine cells of a region.
#[derive(Clone, Copy, PartialEq, Eq, Debug)]
pub struct Region {
    cells: [Cell; 9],
}

impl View for Region {
    type V = Seq<CellView>;

    closed spec fn view(&self) -> Seq<CellView> {
        Seq::new(9, |k: int| self.cells@[k]@)
    }
}

impl Region {
    /// Every cell holds a digit in `0..=9` and notes in `1..=9`.
    pub open spec fn wf(&self) -> bool {
        all_wf(self@)
    }

    /// A region has nine cells.
    pub proof fn lemma_len(self)
        ensures
            self@.len() == 9,
    {
    }

    /// A region of nine empty cells without notes.
    pub fn new() -> (out: Region)
        ensures
            out@ == Seq::new(9, |k: int| CellView::plain(0)),
            out.wf(),
    {
        let out = Region { cells: [Cell::new(0);9] };
        proof {
            assert(out@ =~= Seq::new(9, |k: int| CellView::plain(0)));
        }
        out
    }

    /// The region made of the given cells.
    pub fn with_cells(cells: [Cell; 9]) -> (out: Region)
        ensures
            out@ == Seq::new(9, |k: int| cells@[k]@),
    {
        Region { cells }
    }

    /// The `k`-th cell of the region.
    pub fn get_at(&self, k: usize) -> (cell: Cell)
        requires
            k < 9,
        ensures
            cell@ == self@[k as int],
    {
        self.cells[k]
    }

    /// Tells whether no assigned digit occurs twice in the region.
    pub fn is_valid(&self) -> (b: bool)
        ensures
            b == all_distinct_assigned(values_of(self@)),
    {
        let ghost v = values_of(self@);
        let mut a: usize = 0;
        while a < 9
            invariant
                a <= 9,
                v == values_of(self@),
                forall|x: int, y: int|
                    0 <= x < a && x < y < 9 && #[trigger] v[x] != 0 ==> v[x] != #[trigger] v[y],
            decreases 9 - a,
        {
            let digit = self.cells[a].value();
            assert(v[a as int] == self@[a as int].value);
            if digit != 0 {
                let mut b: usize = a + 1;
                while b < 9
                    invariant
                        a < b <= 9,
                        v == values_of(self@),
                        digit == v[a as int],
                        digit != 0,
                        forall|y: int| a < y < b ==> v[a as int] != #[trigger] v[y],
                    decreases 9 - b,
                {
                    assert(v[b as int] == self@[b as int].value);
                    if self.cells[b].value() == digit {
                        return false;
                    }
                    b = b + 1;
                }
            }
            a = a + 1;
        }
        proof {
            assert forall|x: int, y: int|
                0 <= x < v.len() && 0 <= y < v.len() && x != y && #[trigger] v[x]
                    != 0 implies v[x] != #[trigger] v[y] by {
                if y < x {
                    if v[y] != 0 {
                        assert(v[y] != v[x]);
                    }
                }
            }
        }
        true
    }
}

} // verus!
