//! The backtracking search over the candidates of the empty cells.
//!
//! A placement removes the placed digit from the notes of the row, the
//! column and the region of the cell. When the search below a placement
//! fails, the grid is put back as it was before the placement, notes
//! included: the notes of a cell are then never missing a digit that has
//! become safe again, and the search passes over no solution.

use crate::model::cell::{all_wf, values_of, CellView};
use crate::model::grid::{notes_cleared, Grid};
use crate::rules::{is_board, is_first_empty, is_peer, is_safe_placement, is_valid, same_group};
use crate::solution::{
    count_empty, has_solution, is_first_solution, is_solution, lemma_count_empty_update,
    lemma_first_solution_after_placement, lemma_full_board, lemma_safe_iff_stays_valid,
    lemma_solution_after_placement, lemma_unsafe_digit, none_below,
};
use crate::solvers::collect_candidates::candidates_cover;
use vstd::prelude::*;

verus! {

/// The cells `s` after digit `d` went into the cell at position `i` and left
/// the notes of the row, the column and the region of that cell.
pub open spec fn placed(s: Seq<CellView>, i: int, d: u8) -> Seq<CellView> {
    notes_cleared(s.update(i, s[i].with_value(d)), i, d)
}

/// A placement changes one digit, and candidates that covered the safe
/// digits before it still do so after it.
pub proof fn lemma_placed_covers(s: Seq<CellView>, i: int, d: u8)
    requires
        s.len() == 81,
        0 <= i < 81,
        s[i].value == 0,
        1 <= d <= 9,
        candidates_cover(s),
    ensures
        values_of(placed(s, i, d)) == values_of(s).update(i, d),
        candidates_cover(placed(s, i, d)),
{
    let t = placed(s, i, d);
    let v = values_of(s);
    let w = v.update(i, d);
    assert(values_of(t) =~= w);
    assert forall|j: int, e: u8|
        0 <= j < t.len() && t[j].value == 0 && 1 <= e <= 9 && is_safe_placement(
            values_of(t),
            j,
            e,
        ) implies #[trigger] t[j].has_candidate(e) by {
        assert(j != i);
        assert forall|p: int| 0 <= p < 81 && #[trigger] is_peer(j, p) implies v[p] != e by {
            assert(w[p] != e);
        }
        assert(s[j].has_candidate(e));
        if same_group(i, j) {
            assert(is_peer(j, i));
            assert(w[i] != e);
        }
    }
}

/// Digits that are no candidates of an empty cell are held there by no
/// solution: where every solution holds at least `low` at position `i` and
/// no digit from `low` up to `high` is a candidate, every solution holds at
/// least `high` there.
pub proof fn lemma_skip_non_candidates(s: Seq<CellView>, i: int, low: int, high: int)
    requires
        s.len() == 81,
        is_board(values_of(s)),
        0 <= i < 81,
        s[i].value == 0,
        candidates_cover(s),
        none_below(values_of(s), i, low),
        1 <= low,
        forall|e: u8| low <= e < high && e <= 9 ==> !s[i].has_candidate(e),
    ensures
        none_below(values_of(s), i, high),
{
    let a = values_of(s);
    assert forall|c: Seq<u8>| #[trigger] is_solution(a, c) implies c[i] >= high by {
        let e = c[i];
        assert(e >= low);
        assert(e <= 9);
        if e < high {
            assert(!s[i].has_candidate(e));
            assert(!is_safe_placement(a, i, e));
            lemma_unsafe_digit(a, i, e, c);
        }
    }
}

/// In a strictly ascending sequence no element lies strictly between two
/// neighbours, before the first or after the last.
proof fn lemma_gap(notes: Seq<u8>, n: int, e: u8)
    requires
        forall|x: int, y: int| 0 <= x < y < notes.len() ==> notes[x] < notes[y],
        0 <= n <= notes.len(),
        n > 0 ==> notes[n - 1] < e,
        n < notes.len() ==> e < notes[n],
    ensures
        !notes.contains(e),
{
    if notes.contains(e) {
        let k = choose|k: int| 0 <= k < notes.len() && notes[k] == e;
        if k < n {
            if k < n - 1 {
                assert(notes[k] < notes[n - 1]);
            }
        } else {
            if k > n {
                assert(notes[n] < notes[k]);
            }
        }
    }
}

/// Searches for a solution of a valid grid. The first empty cell in
/// row-major order is chosen, its candidates are tried in ascending order,
/// and each one that is safe to place is placed, cleared from the notes
/// around the cell, and followed by the search of the rest. The first
/// success ends the search; a failure puts the grid back and goes on with
/// the next candidate.
///
/// Returns `true` exactly when the grid has a solution, and the grid then
/// holds the first one: a full valid grid that keeps every digit it had.
/// Returns `false` with the grid as it was.
pub fn solve_sudoku_backtrack(grid: &mut Grid) -> (solved: bool)
    requires
        old(grid).wf(),
        is_valid(old(grid).values()),
        candidates_cover(old(grid)@),
    ensures
        final(grid).wf(),
        solved <==> has_solution(old(grid).values()),
        solved ==> is_solution(old(grid).values(), final(grid).values()),
        solved ==> is_first_solution(old(grid).values(), final(grid).values()),
        !solved ==> final(grid)@ == old(grid)@,
    decreases count_empty(old(grid).values()),
{
    let ghost a = grid.values();
    let ghost before = grid@;
    proof {
        assert(is_board(a)) by {
            assert forall|i: int| 0 <= i < 81 implies #[trigger] a[i] <= 9 by {
                assert(before[i].wf());
            }
        }
    }
    match grid.find_unassigned_location() {
        None => {
            proof {
                lemma_full_board(a);
            }
            true
        },
        Some((row, col)) => {
            let ghost target = (row * 9 + col) as int;
            let notes = grid.get_notes_at_row_col(row, col);
            let saved = grid.raw_cells();
            proof {
                assert(none_below(a, target, 1)) by {
                    assert forall|c: Seq<u8>| #[trigger] is_solution(a, c) implies c[target]
                        >= 1 by {
                        assert(c[target] != 0);
                    }
                }
                let first: int = if 0 < notes.len() {
                    notes@[0] as int
                } else {
                    10
                };
                assert forall|e: u8| 1 <= e < first && e <= 9 implies !before[target]
                    .has_candidate(e) by {
                    lemma_gap(notes@, 0, e);
                }
                lemma_skip_non_candidates(before, target, 1, first);
            }
            let mut n: usize = 0;
            while n < notes.len()
                invariant
                    n <= notes.len(),
                    row < 9,
                    col < 9,
                    target == row * 9 + col,
                    grid.wf(),
                    grid@ == before,
                    before == old(grid)@,
                    saved@ == before,
                    before.len() == 81,
                    all_wf(before),
                    a == values_of(before),
                    is_board(a),
                    is_valid(a),
                    is_first_empty(a, target),
                    candidates_cover(before),
                    forall|d: u8| notes@.contains(d) <==> before[target].has_candidate(d),
                    forall|x: int, y: int| 0 <= x < y < notes@.len() ==> notes@[x] < notes@[y],
                    none_below(
                        a,
                        target,
                        if n < notes.len() {
                            notes@[n as int] as int
                        } else {
                            10
                        },
                    ),
                decreases notes.len() - n,
            {
                let num = notes[n];
                let ghost next: int = if n + 1 < notes.len() {
                    notes@[n + 1] as int
                } else {
                    10
                };
                proof {
                    assert(notes@.contains(num));
                    assert(1 <= num <= 9);
                }
                if grid.check_is_safe(row, col, num) {
                    grid.set_value_at_row_col(row, col, num);
                    grid.clear_note(row, col, num);
                    proof {
                        assert(grid@ == placed(before, target, num));
                        lemma_placed_covers(before, target, num);
                        lemma_count_empty_update(a, target, num);
                        lemma_safe_iff_stays_valid(a, target, num);
                        assert(grid.values() == a.update(target, num));
                    }
                    if solve_sudoku_backtrack(grid) {
                        proof {
                            lemma_first_solution_after_placement(
                                a,
                                target,
                                num,
                                grid.values(),
                            );
                            assert(is_solution(a, grid.values()));
                        }
                        return true;
                    }
                    grid.with_cells(&saved);
                }
                proof {
                    assert(none_below(a, target, num + 1)) by {
                        assert forall|c: Seq<u8>| #[trigger] is_solution(a, c) implies c[target]
                            >= num + 1 by {
                            assert(c[target] >= num);
                            if c[target] == num {
                                if is_safe_placement(a, target, num) {
                                    lemma_solution_after_placement(a, target, c);
                                    assert(is_solution(a.update(target, num), c));
                                } else {
                                    lemma_unsafe_digit(a, target, num, c);
                                }
                            }
                        }
                    }
                    assert forall|e: u8| num + 1 <= e < next && e <= 9 implies !before[target]
                        .has_candidate(e) by {
                        lemma_gap(notes@, n + 1, e);
                    }
                    lemma_skip_non_candidates(before, target, num + 1, next);
                }
                n = n + 1;
            }
            proof {
                assert forall|c: Seq<u8>| !is_solution(a, c) by {
                    if is_solution(a, c) {
                        assert(c[target] >= 10);
                        assert(c[target] <= 9);
                    }
                }
            }
            false
        },
    }
}

} // verus!
