//! A puzzle as read from its text, with its regions taken out.

use crate::model::cell::CellView;
use crate::model::cells::{plain_cells, Cells};
use crate::model::collect_regions::{collect_regions, regions_of};
use crate::model::regions::Regions;
use crate::model::text::{check_text, digits_of, text_verdict, ParsePuzzleError};
use vstd::prelude::*;

verus! {

/// The 81 cells of a puzzle and its nine regions.
#[derive(PartialEq, Eq, Debug)]
pub struct Puzzle {
    cells: Cells,
    regions: Regions,
}

impl Clone for Puzzle {
    fn clone(&self) -> (out: Self)
        ensures
            out@ == self@,
            self.wf() ==> out.wf(),
    {
        Puzzle { cells: self.cells.clone(), regions: self.regions.clone() }
    }
}

impl View for Puzzle {
    type V = Seq<CellView>;

    closed spec fn view(&self) -> Seq<CellView> {
        self.cells@
    }
}

impl Puzzle {
    /// The puzzle has 81 well-formed cells, and its regions are those of its
    /// cells.
    pub closed spec fn wf(&self) -> bool {
        &&& self.cells@.len() == 81
        &&& self.cells.wf()
        &&& self.regions.wf()
        &&& self.regions@ == regions_of(self.cells@)
    }

    /// Reads a puzzle from its text: see `try_from`.
    pub fn new(value: &str) -> (r: Result<Puzzle, ParsePuzzleError>)
        ensures
            match r {
                Ok(puzzle) => text_verdict(value@) is Ok && puzzle.wf() && puzzle@ == plain_cells(
                    digits_of(value@),
                ),
                Err(e) => text_verdict(value@) == Err::<(), ParsePuzzleError>(e),
            },
    {
        Puzzle::try_from(value)
    }

    /// Reads a puzzle from its text: 81 ASCII digits in row-major order, `0`
    /// for an empty cell. Any other character is refused as `HasAlpha`,
    /// whatever the length; a text of digits that is too long or too short
    /// is refused as such.
    pub fn try_from(value: &str) -> (r: Result<Puzzle, ParsePuzzleError>)
        ensures
            match r {
                Ok(puzzle) => text_verdict(value@) is Ok && puzzle.wf() && puzzle@ == plain_cells(
                    digits_of(value@),
                ),
                Err(e) => text_verdict(value@) == Err::<(), ParsePuzzleError>(e),
            },
    {
        match check_text(value) {
            Ok(()) => {
                let cells = Cells::from(value);
                let regions = collect_regions(&cells);
                Ok(Puzzle { cells, regions })
            },
            Err(e) => Err(e),
        }
    }

    /// A copy of the cells of the puzzle.
    pub fn cells(&self) -> (out: Cells)
        ensures
            out@ == self@,
    {
        self.cells.clone()
    }

    /// The regions of the puzzle.
    pub fn regions(&self) -> (out: &Regions)
        requires
            self.wf(),
        ensures
            out@ == regions_of(self@),
            out.wf(),
    {
        &self.regions
    }
}

} // verus!
