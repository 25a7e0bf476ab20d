//! Solving with notes: the candidate pre-pass, then the backtracking search.

use crate::model::grid::Grid;
use crate::solution::{has_solution, is_first_solution, is_solution, lemma_solvable_is_valid};
use crate::solvers::collect_candidates::{collect_candidates, with_safe_notes};
use crate::solvers::solve_sudoku_backtrack::solve_sudoku_backtrack;
use vstd::prelude::*;

verus! {

/// Solves the grid in place. The candidates of every empty cell are
/// collected first. A grid that is not valid is then given up at once: a
/// clash among the digits of the puzzle stays in every grid that keeps
/// them. On a valid grid the backtracking search goes through the empty
/// cells in row-major order, whatever `_row` and `_col` are.
///
/// Returns `true` exactly when the puzzle has a solution, and the grid then
/// holds the first one in the order of the search: a full valid grid in
/// which no digit of the puzzle is altered. Returns `false` with every digit
/// as it was and the collected candidates as notes.
pub fn solve_sudoku_notes(grid: &mut Grid, _row: usize, _col: usize) -> (solved: bool)
    requires
        old(grid).wf(),
    ensures
        final(grid).wf(),
        solved <==> has_solution(old(grid).values()),
        solved ==> is_solution(old(grid).values(), final(grid).values()),
        solved ==> is_first_solution(old(grid).values(), final(grid).values()),
        !solved ==> final(grid)@ == with_safe_notes(old(grid)@),
{
    collect_candidates(grid);
    if !grid.validate() {
        proof {
            if has_solution(grid.values()) {
                lemma_solvable_is_valid(grid.values());
            }
        }
        return false;
    }
    solve_sudoku_backtrack(grid)
}

} // verus!
