//! The grid: 81 cells in row-major order, from which rows, columns and
//! regions are taken on demand.

use crate::model::cell::{all_wf, values_of, Cell, CellView};
use crate::model::cells::{plain_cells, Cells};
use crate::model::collect_regions::collect_regions;
use crate::model::text::{
    char_of, check_text, digits_of, text_of, text_verdict, ParsePuzzleError,
};
use crate::rules::{
    all_distinct_assigned, all_groups_distinct, col_of, column_position, column_values,
    in_first_of_groups, is_first_empty, is_full, is_peer, is_safe_placement, is_valid,
    lemma_group_positions, lemma_in_first_of_groups_ends, lemma_in_first_of_groups_step,
    lemma_region_position, lemma_row_position, lemma_valid_by_groups, region_at, region_of,
    region_position, region_values, row_of, row_position, row_values, same_group,
};
use vstd::prelude::*;
use vstd::string::*;

verus! {

/// The cells `s` after `d` has left the notes of every cell that shares the
/// row, the column or the region of position `i` (the cell at `i` included).
pub open spec fn notes_cleared(s: Seq<CellView>, i: int, d: u8) -> Seq<CellView> {
    Seq::new(s.len(), |j: int| if same_group(i, j) { s[j].without_note(d) } else { s[j] })
}

/// The one-character text of a digit.
fn digit_str(d: u8) -> (s: &'static str)
    requires
        d <= 9,
    ensures
        s@ == seq![char_of(d)],
{
    proof {
        reveal_strlit("0");
        reveal_strlit("1");
        reveal_strlit("2");
        reveal_strlit("3");
        reveal_strlit("4");
        reveal_strlit("5");
        reveal_strlit("6");
        reveal_strlit("7");
        reveal_strlit("8");
        reveal_strlit("9");
    }
    let s = match d {
        0 => "0",
        1 => "1",
        2 => "2",
        3 => "3",
        4 => "4",
        5 => "5",
        6 => "6",
        7 => "7",
        8 => "8",
        _ => "9",
    };
    proof {
        assert(s@ =~= seq![char_of(d)]);
    }
    s
}

/// Flat position of the `k`-th cell of row `row`.
fn row_cell(row: usize, k: usize) -> (i: usize)
    requires
        row < 9,
        k < 9,
    ensures
        i == row_position(row as int, k as int),
        i < 81,
{
    row * 9 + k
}

/// Flat position of the `k`-th cell of column `col`.
fn column_cell(col: usize, k: usize) -> (i: usize)
    requires
        col < 9,
        k < 9,
    ensures
        i == column_position(col as int, k as int),
        i < 81,
{
    k * 9 + col
}

/// Flat position of the `k`-th cell of region `region`.
fn region_cell(region: usize, k: usize) -> (i: usize)
    requires
        region < 9,
        k < 9,
    ensures
        i == region_position(region as int, k as int),
        i < 81,
{
    proof {
        lemma_region_position(region as int, k as int);
    }
    ((region / 3) * 3 + k / 3) * 9 + (region % 3) * 3 + k % 3
}

/// A 9×9 grid of cells.
#[derive(PartialEq, Eq, Debug)]
pub struct Grid {
    raw_cells: Cells,
}

impl Clone for Grid {
    fn clone(&self) -> (out: Self)
        ensures
            out@ == self@,
    {
        Grid { raw_cells: self.raw_cells.clone() }
    }
}

impl View for Grid {
    type V = Seq<CellView>;

    closed spec fn view(&self) -> Seq<CellView> {
        self.raw_cells@
    }
}

impl Grid {
    /// The grid has 81 cells, each with a digit in `0..=9` and notes in
    /// `1..=9`.
    pub open spec fn wf(&self) -> bool {
        &&& self@.len() == 81
        &&& all_wf(self@)
    }

    /// The digits of the grid in row-major order.
    pub open spec fn values(&self) -> Seq<u8> {
        values_of(self@)
    }

    /// A grid of 81 empty cells without notes.
    pub fn new() -> (out: Grid)
        ensures
            out@ == Seq::new(81, |i: int| CellView::plain(0)),
            out.wf(),
    {
        let mut cells = Cells::new();
        let mut i: usize = 0;
        while i < 81
            invariant
                i <= 81,
                cells@ == Seq::new(i as nat, |k: int| CellView::plain(0)),
            decreases 81 - i,
        {
            cells.push(Cell::new(0));
            i = i + 1;
        }
        Grid { raw_cells: cells }
    }

    /// Replaces the cells of the grid by a copy of `cells`.
    pub fn with_cells(&mut self, cells: &Cells)
        requires
            cells@.len() == 81,
            cells.wf(),
        ensures
            final(self)@ == cells@,
            final(self).wf(),
    {
        self.raw_cells = cells.clone();
    }

    /// Fills the grid from the text of a puzzle: 81 ASCII digits in
    /// row-major order, `0` for an empty cell. A text that is refused leaves
    /// the grid as it was.
    pub fn try_from(&mut self, value: &str) -> (r: Result<(), ParsePuzzleError>)
        ensures
            r == text_verdict(value@),
            r is Ok ==> final(self)@ == plain_cells(digits_of(value@)) && final(self).wf(),
            r is Err ==> final(self)@ == old(self)@,
    {
        match check_text(value) {
            Ok(()) => {
                self.raw_cells = Cells::from(value);
                Ok(())
            },
            Err(e) => Err(e),
        }
    }

    /// A copy of the cells of the grid.
    pub fn raw_cells(&self) -> (out: Cells)
        ensures
            out@ == self@,
    {
        self.raw_cells.clone()
    }

    /// The digit at (`row`, `col`), `0` for an empty cell.
    pub fn get_value_at_row_col(&self, row: usize, col: usize) -> (v: u8)
        requires
            self.wf(),
            row < 9,
            col < 9,
        ensures
            v == self@[row * 9 + col].value,
            v <= 9,
    {
        assert(self@[row * 9 + col].wf());
        self.raw_cells.get_inner_at_row_col(row, col)
    }

    /// Sets the digit at (`row`, `col`). Nothing is checked: the caller
    /// decides whether the placement is safe.
    pub fn set_value_at_row_col(&mut self, row: usize, col: usize, value: u8)
        requires
            old(self).wf(),
            row < 9,
            col < 9,
            value <= 9,
        ensures
            final(self)@ == old(self)@.update(
                row * 9 + col,
                old(self)@[row * 9 + col].with_value(value),
            ),
            final(self).wf(),
    {
        assert(self@[row * 9 + col].wf());
        self.raw_cells.set_inner_at_row_col(row, col, value);
    }

    /// Records `value` among the notes of the cell at (`row`, `col`).
    pub fn add_note_at_row_col(&mut self, row: usize, col: usize, value: u8)
        requires
            old(self).wf(),
            row < 9,
            col < 9,
            1 <= value <= 9,
        ensures
            final(self)@ == old(self)@.update(
                row * 9 + col,
                old(self)@[row * 9 + col].with_note(value),
            ),
            final(self).wf(),
    {
        assert(self@[row * 9 + col].wf());
        self.raw_cells.add_note_at_row_col(row, col, value);
    }

    /// The candidates of the cell at (`row`, `col`) in ascending order: its
    /// notes, or all of `1..=9` when none is recorded.
    pub fn get_notes_at_row_col(&self, row: usize, col: usize) -> (out: Vec<u8>)
        requires
            self.wf(),
            row < 9,
            col < 9,
        ensures
            forall|d: u8| out@.contains(d) <==> self@[row * 9 + col].has_candidate(d),
            forall|a: int, b: int| 0 <= a < b < out@.len() ==> out@[a] < out@[b],
    {
        self.raw_cells.get_notes_at_row_col(row, col)
    }

    /// The first empty cell in row-major order, as (row, column); `None`
    /// when every cell is assigned.
    pub fn find_unassigned_location(&self) -> (out: Option<(usize, usize)>)
        requires
            self.wf(),
        ensures
            match out {
                Some((row, col)) => row < 9 && col < 9 && is_first_empty(
                    self.values(),
                    row * 9 + col,
                ),
                None => is_full(self.values()),
            },
    {
        let mut i: usize = 0;
        while i < 81
            invariant
                i <= 81,
                self.wf(),
                forall|j: int| 0 <= j < i ==> #[trigger] self.values()[j] != 0,
            decreases 81 - i,
        {
            let row = i / 9;
            let col = i % 9;
            if self.raw_cells.get_inner_at_row_col(row, col) == 0 {
                return Some((row, col));
            }
            i = i + 1;
        }
        None
    }

    /// The nine cells of row `row`, left to right.
    pub fn get_row(&self, row: usize) -> (out: Cells)
        requires
            self.wf(),
            row < 9,
        ensures
            out@ == Seq::new(9, |k: int| self@[row_position(row as int, k)]),
            out.wf(),
    {
        let mut out = Cells::new();
        let mut k: usize = 0;
        while k < 9
            invariant
                k <= 9,
                row < 9,
                self.wf(),
                out@ == Seq::new(k as nat, |k: int| self@[row_position(row as int, k)]),
                out.wf(),
            decreases 9 - k,
        {
            let cell = self.raw_cells.get_at(row * 9 + k).unwrap();
            assert(self@[row * 9 + k].wf());
            out.push(cell);
            k = k + 1;
        }
        out
    }

    /// The nine cells of column `col`, top to bottom.
    pub fn get_column(&self, col: usize) -> (out: Cells)
        requires
            self.wf(),
            col < 9,
        ensures
            out@ == Seq::new(9, |k: int| self@[column_position(col as int, k)]),
            out.wf(),
    {
        let mut out = Cells::new();
        let mut k: usize = 0;
        while k < 9
            invariant
                k <= 9,
                col < 9,
                self.wf(),
                out@ == Seq::new(k as nat, |k: int| self@[column_position(col as int, k)]),
                out.wf(),
            decreases 9 - k,
        {
            let cell = self.raw_cells.get_at(k * 9 + col).unwrap();
            assert(self@[k * 9 + col].wf());
            out.push(cell);
            k = k + 1;
        }
        out
    }

    /// The number of the region that holds the cell at (`row`, `col`).
    pub fn get_region_by_row_col(&self, row: usize, col: usize) -> (region: usize)
        requires
            row < 9,
            col < 9,
        ensures
            region == region_at(row as int, col as int),
            region < 9,
    {
        let rrow = row / 3;
        let rcol = col / 3;
        rrow * 3 + rcol
    }

    /// Tells whether the grid is valid: no row, column or region holds an
    /// assigned digit twice. Empty cells do not count.
    pub fn validate(&self) -> (b: bool)
        requires
            self.wf(),
        ensures
            b == is_valid(self.values()),
    {
        let ghost v = self.values();
        proof {
            lemma_valid_by_groups(v);
        }
        let mut g: usize = 0;
        while g < 9
            invariant
                g <= 9,
                self.wf(),
                v == self.values(),
                is_valid(v) <==> all_groups_distinct(v),
                forall|h: int| 0 <= h < g ==> all_distinct_assigned(#[trigger] row_values(v, h)),
                forall|h: int|
                    0 <= h < g ==> all_distinct_assigned(#[trigger] column_values(v, h)),
            decreases 9 - g,
        {
            let row = self.get_row(g);
            proof {
                assert(values_of(row@) =~= row_values(v, g as int)) by {
                    assert forall|k: int| 0 <= k < 9 implies values_of(row@)[k] == row_values(
                        v,
                        g as int,
                    )[k] by {
                        lemma_group_positions(g as int, k);
                    }
                }
            }
            if !row.is_valid() {
                return false;
            }
            let column = self.get_column(g);
            proof {
                assert(values_of(column@) =~= column_values(v, g as int)) by {
                    assert forall|k: int| 0 <= k < 9 implies values_of(column@)[k]
                        == column_values(v, g as int)[k] by {
                        lemma_group_positions(g as int, k);
                    }
                }
            }
            if !column.is_valid() {
                return false;
            }
            g = g + 1;
        }
        let regions = collect_regions(&self.raw_cells);
        proof {
            assert forall|h: int| 0 <= h < 9 implies values_of(#[trigger] regions@[h])
                =~= region_values(v, h) by {
                assert forall|k: int| 0 <= k < 9 implies values_of(regions@[h])[k]
                    == region_values(v, h)[k] by {
                    lemma_group_positions(h, k);
                }
            }
        }
        let b = regions.is_valid();
        proof {
            if b {
                assert forall|h: int| 0 <= h < 9 implies all_distinct_assigned(
                    #[trigger] region_values(v, h),
                ) by {
                    assert(values_of(regions@[h]) == region_values(v, h));
                }
            } else {
                let h = choose|h: int|
                    0 <= h < 9 && !all_distinct_assigned(
                        values_of(#[trigger] regions@[h]),
                    );
                assert(values_of(regions@[h]) == region_values(v, h));
            }
        }
        b
    }

    /// Tells whether `num` may be placed at (`row`, `col`): no other cell of
    /// that row, column or region holds `num` now. What the cell itself holds
    /// does not count.
    pub fn check_is_safe(&self, row: usize, col: usize, num: u8) -> (b: bool)
        requires
            self.wf(),
            row < 9,
            col < 9,
        ensures
            b == is_safe_placement(self.values(), row * 9 + col, num),
    {
        let target = row * 9 + col;
        let region = self.get_region_by_row_col(row, col);
        let ghost v = self.values();
        proof {
            lemma_row_position(row as int, col as int);
            assert forall|j: int| 0 <= j < 81 implies !in_first_of_groups(target as int, 0, j) by {
                lemma_in_first_of_groups_ends(target as int, j);
            }
        }
        let mut k: usize = 0;
        while k < 9
            invariant
                k <= 9,
                row < 9,
                col < 9,
                self.wf(),
                target == row * 9 + col,
                row == row_of(target as int),
                col == col_of(target as int),
                region == region_of(target as int),
                v == self.values(),
                forall|j: int|
                    0 <= j < 81 && j != target && #[trigger] in_first_of_groups(
                        target as int,
                        k as int,
                        j,
                    ) ==> v[j] != num,
            decreases 9 - k,
        {
            let in_row = row_cell(row, k);
            let in_column = column_cell(col, k);
            let in_region = region_cell(region, k);
            proof {
                assert forall|j: int| 0 <= j < 81 implies (#[trigger] in_first_of_groups(
                    target as int,
                    k + 1,
                    j,
                ) <==> (in_first_of_groups(target as int, k as int, j) || j == in_row || j
                    == in_column || j == in_region)) by {
                    lemma_in_first_of_groups_step(target as int, k as int, j);
                }
                lemma_in_first_of_groups_ends(target as int, in_row as int);
                lemma_in_first_of_groups_ends(target as int, in_column as int);
                lemma_in_first_of_groups_ends(target as int, in_region as int);
                lemma_group_positions(row as int, k as int);
                lemma_group_positions(col as int, k as int);
                lemma_group_positions(region as int, k as int);
            }
            if in_row != target && self.value_at(in_row) == num {
                assert(is_peer(target as int, in_row as int));
                return false;
            }
            if in_column != target && self.value_at(in_column) == num {
                assert(is_peer(target as int, in_column as int));
                return false;
            }
            if in_region != target && self.value_at(in_region) == num {
                assert(is_peer(target as int, in_region as int));
                return false;
            }
            k = k + 1;
        }
        proof {
            assert forall|j: int| 0 <= j < 81 && #[trigger] is_peer(target as int, j) implies v[j]
                != num by {
                lemma_in_first_of_groups_ends(target as int, j);
            }
        }
        true
    }

    /// Tells whether every assigned digit is safe where it stands: no other
    /// cell of its row, column or region holds it. A grid is safe in this
    /// sense exactly when it is valid.
    pub fn is_safe(&self) -> (b: bool)
        requires
            self.wf(),
        ensures
            b == is_valid(self.values()),
    {
        let ghost v = self.values();
        let mut i: usize = 0;
        while i < 81
            invariant
                i <= 81,
                self.wf(),
                v == self.values(),
                forall|x: int, y: int|
                    0 <= x < i && 0 <= y < 81 && #[trigger] is_peer(x, y) && v[x] != 0 ==> v[x]
                        != v[y],
            decreases 81 - i,
        {
            let row = i / 9;
            let col = i % 9;
            let digit = self.get_value_at_row_col(row, col);
            if digit != 0 && !self.check_is_safe(row, col, digit) {
                proof {
                    let y = choose|y: int|
                        0 <= y < 81 && #[trigger] is_peer(i as int, y) && v[y] == digit;
                    assert(v[i as int] == v[y]);
                }
                return false;
            }
            i = i + 1;
        }
        true
    }

    /// Removes `value` from the notes of every cell that shares the row, the
    /// column or the region of (`row`, `col`), that cell included. Digits are
    /// left alone.
    pub fn clear_note(&mut self, row: usize, col: usize, value: u8)
        requires
            old(self).wf(),
            row < 9,
            col < 9,
        ensures
            final(self)@ == notes_cleared(old(self)@, row * 9 + col, value),
            final(self).wf(),
            final(self).values() == old(self).values(),
    {
        let region = self.get_region_by_row_col(row, col);
        let ghost target = (row * 9 + col) as int;
        let ghost before = self@;
        proof {
            lemma_row_position(row as int, col as int);
            assert forall|j: int| 0 <= j < 81 implies !in_first_of_groups(target, 0, j) by {
                lemma_in_first_of_groups_ends(target, j);
            }
        }
        let mut k: usize = 0;
        while k < 9
            invariant
                k <= 9,
                row < 9,
                col < 9,
                target == row * 9 + col,
                row == row_of(target),
                col == col_of(target),
                region == region_of(target),
                before.len() == 81,
                self@.len() == 81,
                forall|j: int|
                    0 <= j < 81 ==> #[trigger] self@[j] == (if in_first_of_groups(
                        target,
                        k as int,
                        j,
                    ) {
                        before[j].without_note(value)
                    } else {
                        before[j]
                    }),
            decreases 9 - k,
        {
            let in_row = row_cell(row, k);
            let in_column = column_cell(col, k);
            let in_region = region_cell(region, k);
            let ghost start = self@;
            self.raw_cells.clear_note_at(in_row, value);
            self.raw_cells.clear_note_at(in_column, value);
            self.raw_cells.clear_note_at(in_region, value);
            proof {
                assert forall|j: int| 0 <= j < 81 implies #[trigger] self@[j] == (
                if in_first_of_groups(target, k + 1, j) {
                    before[j].without_note(value)
                } else {
                    before[j]
                }) by {
                    lemma_in_first_of_groups_step(target, k as int, j);
                    assert(before[j].without_note(value).without_note(value)
                        =~= before[j].without_note(value));
                    if j == in_row || j == in_column || j == in_region {
                        assert(self@[j] =~= start[j].without_note(value));
                    } else {
                        assert(self@[j] == start[j]);
                    }
                }
            }
            k = k + 1;
        }
        proof {
            assert forall|j: int| 0 <= j < 81 implies #[trigger] self@[j] == notes_cleared(
                before,
                target,
                value,
            )[j] by {
                lemma_in_first_of_groups_ends(target, j);
            }
            assert(self@ =~= notes_cleared(before, target, value));
            assert forall|j: int| 0 <= j < 81 implies (#[trigger] self@[j]).wf() by {
                assert(before[j].wf());
            }
            assert(self.values() =~= values_of(before));
        }
    }

    /// The digit of the cell at flat position `i`.
    fn value_at(&self, i: usize) -> (v: u8)
        requires
            self.wf(),
            i < 81,
        ensures
            v == self.values()[i as int],
            v <= 9,
    {
        assert(self@[i as int].wf());
        self.raw_cells.get_at(i).unwrap().value()
    }

    /// The digits of the grid as text, in row-major order: the form that
    /// `try_from` reads.
    pub fn as_string(&self) -> (out: String)
        requires
            self.wf(),
        ensures
            out@ == text_of(self.values()),
    {
        let mut out = String::new();
        let mut i: usize = 0;
        while i < 81
            invariant
                i <= 81,
                self.wf(),
                out@ == text_of(self.values()).take(i as int),
            decreases 81 - i,
        {
            let cell = self.raw_cells.get_at(i).unwrap();
            assert(self@[i as int].wf());
            out.append(digit_str(cell.value()));
            proof {
                assert(out@ =~= text_of(self.values()).take(i + 1));
            }
            i = i + 1;
        }
        proof {
            assert(out@ =~= text_of(self.values()));
        }
        out
    }
}

} // verus!
