//! The candidate pre-pass: notes for every empty cell.

use crate::model::cell::{values_of, CellView};
use crate::model::grid::Grid;
use crate::rules::is_safe_placement;
use vstd::prelude::*;

verus! {

/// The digits in `1..d` that are safe to place at position `i` of board `v`.
pub open spec fn safe_digits_below(v: Seq<u8>, i: int, d: int) -> Set<u8> {
    Set::new(|e: u8| 1 <= e < d && e <= 9 && is_safe_placement(v, i, e))
}

/// The digits in `1..=9` that are safe to place at position `i` of board `v`.
pub open spec fn safe_digits(v: Seq<u8>, i: int) -> Set<u8> {
    safe_digits_below(v, i, 10)
}

/// The cells `s` after the pre-pass: each empty cell has, besides the notes
/// it had, every digit that is safe to place there; assigned cells are as
/// they were.
pub open spec fn with_safe_notes(s: Seq<CellView>) -> Seq<CellView> {
    Seq::new(
        s.len(),
        |i: int|
            if s[i].value == 0 {
                CellView { value: 0, notes: s[i].notes.union(safe_digits(values_of(s), i)) }
            } else {
                s[i]
            },
    )
}

/// The candidates of every empty cell hold each digit that is safe to place
/// there: a search that tries candidates only passes over no solution.
pub open spec fn candidates_cover(s: Seq<CellView>) -> bool {
    forall|i: int, d: u8|
        0 <= i < s.len() && s[i].value == 0 && 1 <= d <= 9 && is_safe_placement(values_of(s), i, d)
            ==> #[trigger] s[i].has_candidate(d)
}

/// After the pre-pass the candidates cover the safe digits.
pub proof fn lemma_safe_notes_cover(s: Seq<CellView>)
    ensures
        candidates_cover(with_safe_notes(s)),
        values_of(with_safe_notes(s)) == values_of(s),
{
    let t = with_safe_notes(s);
    assert(values_of(t) =~= values_of(s));
    assert forall|i: int, d: u8|
        0 <= i < t.len() && t[i].value == 0 && 1 <= d <= 9 && is_safe_placement(
            values_of(t),
            i,
            d,
        ) implies #[trigger] t[i].has_candidate(d) by {
        assert(safe_digits(values_of(s), i).contains(d));
    }
}

/// Collects the candidates: for every empty cell, each digit of `1..=9` that
/// is safe to place there joins the notes of the cell. Digits and the notes
/// of assigned cells stay as they are.
pub fn collect_candidates(grid: &mut Grid)
    requires
        old(grid).wf(),
    ensures
        final(grid)@ == with_safe_notes(old(grid)@),
        final(grid).wf(),
        final(grid).values() == old(grid).values(),
        candidates_cover(final(grid)@),
{
    let ghost before = grid@;
    let ghost v = grid.values();
    let ghost after = with_safe_notes(before);
    let mut row: usize = 0;
    while row < 9
        invariant
            row <= 9,
            grid.wf(),
            before.len() == 81,
            v == values_of(before),
            after == with_safe_notes(before),
            grid.values() == v,
            forall|j: int|
                0 <= j < 81 ==> #[trigger] grid@[j] == (if j < row * 9 {
                    after[j]
                } else {
                    before[j]
                }),
        decreases 9 - row,
    {
        let mut col: usize = 0;
        while col < 9
            invariant
                col <= 9,
                row < 9,
                grid.wf(),
                before.len() == 81,
                v == values_of(before),
                after == with_safe_notes(before),
                grid.values() == v,
                forall|j: int|
                    0 <= j < 81 ==> #[trigger] grid@[j] == (if j < row * 9 + col {
                        after[j]
                    } else {
                        before[j]
                    }),
            decreases 9 - col,
        {
            let ghost target = row * 9 + col;
            let cell = grid.get_value_at_row_col(row, col);
            assert(cell == v[target]);
            if cell == 0 {
                let ghost start = grid@;
                let mut num: u8 = 1;
                while num <= 9
                    invariant
                        1 <= num <= 10,
                        row < 9,
                        col < 9,
                        target == row * 9 + col,
                        grid.wf(),
                        before.len() == 81,
                        start.len() == 81,
                        v == values_of(before),
                        grid.values() == v,
                        before[target].value == 0,
                        start[target] == before[target],
                        grid@ =~~= start.update(
                            target,
                            CellView {
                                value: 0,
                                notes: before[target].notes.union(
                                    safe_digits_below(v, target, num as int),
                                ),
                            },
                        ),
                    decreases 10 - num,
                {
                    let ghost held = grid@;
                    if grid.check_is_safe(row, col, num) {
                        grid.add_note_at_row_col(row, col, num);
                        proof {
                            assert(held[target].notes.insert(num) =~= before[target].notes.union(
                                safe_digits_below(v, target, num + 1),
                            ));
                            assert(grid.values() =~= v);
                        }
                    } else {
                        proof {
                            assert(held[target].notes =~= before[target].notes.union(
                                safe_digits_below(v, target, num + 1),
                            ));
                        }
                    }
                    num = num + 1;
                }
                proof {
                    assert(grid@[target] =~= after[target]);
                }
            } else {
                proof {
                    assert(grid@[target] == after[target]);
                }
            }
            col = col + 1;
        }
        row = row + 1;
    }
    proof {
        assert(grid@ =~= after);
        lemma_safe_notes_cover(before);
    }
}

} // verus!
