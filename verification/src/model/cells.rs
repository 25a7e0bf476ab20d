//! An ordered collection of cells: the 81 cells of a grid in row-major
//! order, or the nine cells of one row or column.

use crate::model::cell::{all_wf, values_of, Cell, CellView};
use crate::model::text::{all_digits, digits_of, is_digit_char};
use crate::rules::all_distinct_assigned;
use vstd::prelude::*;
use vstd::string::*;

verus! {

/// The cells that hold the digits `v` and no notes.
pub open spec fn plain_cells(v: Seq<u8>) -> Seq<CellView> {
    Seq::new(v.len(), |i: int| CellView::plain(v[i]))
}

/// An ordered collection of cells.
#[derive(Debug, PartialEq, Eq)]
pub struct Cells {
    cells: Vec<Cell>,
}

impl View for Cells {
    type V = Seq<CellView>;

    closed spec fn view(&self) -> Seq<CellView> {
        Seq::new(self.cells@.len(), |i: int| self.cells@[i]@)
    }
}

impl Clone for Cells {
    fn clone(&self) -> (out: Self)
        ensures
            out@ == self@,
    {
        let mut cells: Vec<Cell> = Vec::new();
        let n = self.cells.len();
        let mut i: usize = 0;
        while i < n
            invariant
                i <= n,
                n == self.cells@.len(),
                cells@ == self.cells@.take(i as int),
            decreases n - i,
        {
            cells.push(self.cells[i]);
            proof {
                assert(cells@ =~= self.cells@.take(i + 1));
            }
            i = i + 1;
        }
        proof {
            assert(cells@ =~= self.cells@);
        }
        Cells { cells }
    }
}

impl Cells {
    /// Every cell holds a digit in `0..=9` and notes in `1..=9`.
    pub open spec fn wf(&self) -> bool {
        all_wf(self@)
    }

    /// An empty collection.
    pub fn new() -> (out: Cells)
        ensures
            out@ == Seq::<CellView>::empty(),
            out.wf(),
    {
        let out = Cells { cells: Vec::new() };
        proof {
            assert(out@ =~= Seq::<CellView>::empty());
        }
        out
    }

    /// The cells that a text of digits writes, one for each character, each
    /// without notes.
    pub fn from(value: &str) -> (out: Cells)
        requires
            all_digits(value@),
        ensures
            out@ == plain_cells(digits_of(value@)),
            out.wf(),
    {
        broadcast use is_ascii_spec_bytes;

        proof {
            assert forall|k: int| 0 <= k < value@.len() implies '\0' <= #[trigger] value@[k]
                <= '\u{7f}' by {
                assert(is_digit_char(value@[k]));
            }
            assert(value.is_ascii());
        }
        let bytes = value.as_bytes();
        let n = bytes.len();
        let mut out = Cells::new();
        let mut i: usize = 0;
        while i < n
            invariant
                i <= n,
                n == bytes@.len(),
                n == value@.len(),
                all_digits(value@),
                forall|k: int| 0 <= k < n ==> bytes@[k] == value@[k] as u8,
                out@ == plain_cells(digits_of(value@)).take(i as int),
                out.wf(),
            decreases n - i,
        {
            proof {
                assert(bytes@[i as int] == value@[i as int] as u8);
                assert(is_digit_char(value@[i as int]));
            }
            out.push(Cell::new(bytes[i] - 48));
            proof {
                assert(out@ =~= plain_cells(digits_of(value@)).take(i + 1));
            }
            i = i + 1;
        }
        proof {
            assert(out@ =~= plain_cells(digits_of(value@)));
        }
        out
    }

    /// The index of the cell at (`row`, `col`).
    fn index_of(&self, row: usize, col: usize) -> (i: usize)
        requires
            col < 9,
            row * 9 + col < self@.len(),
        ensures
            i == row * 9 + col,
            i < self.cells@.len(),
    {
        let n = self.cells.len();
        assert(self@.len() == n);
        row * 9 + col
    }

    /// Number of cells.
    pub fn len(&self) -> (n: usize)
        ensures
            n == self@.len(),
    {
        self.cells.len()
    }

    /// Adds a cell at the end.
    pub fn push(&mut self, cell: Cell)
        ensures
            final(self)@ == old(self)@.push(cell@),
    {
        self.cells.push(cell);
        proof {
            assert(self@ =~= old(self)@.push(cell@));
        }
    }

    /// The cell at index `i`, if there is one.
    pub fn get_at(&self, i: usize) -> (out: Option<Cell>)
        ensures
            match out {
                Some(cell) => i < self@.len() && cell@ == self@[i as int],
                None => i >= self@.len(),
            },
    {
        if i < self.cells.len() {
            Some(self.cells[i])
        } else {
            None
        }
    }

    /// Puts `cell` at index `i`.
    pub fn set_at(&mut self, i: usize, cell: Cell)
        requires
            i < old(self)@.len(),
        ensures
            final(self)@ == old(self)@.update(i as int, cell@),
    {
        self.cells.set(i, cell);
        proof {
            assert(self@ =~= old(self)@.update(i as int, cell@));
        }
    }

    /// The digit at (`row`, `col`) of cells laid out row-major, nine to a
    /// row.
    pub fn get_inner_at_row_col(&self, row: usize, col: usize) -> (v: u8)
        requires
            col < 9,
            row * 9 + col < self@.len(),
        ensures
            v == self@[row * 9 + col].value,
    {
        let i = self.index_of(row, col);
        self.cells[i].value()
    }

    /// Sets the digit at (`row`, `col`) and keeps the notes of that cell.
    pub fn set_inner_at_row_col(&mut self, row: usize, col: usize, value: u8)
        requires
            col < 9,
            row * 9 + col < old(self)@.len(),
            value <= 9,
        ensures
            final(self)@ == old(self)@.update(
                row * 9 + col,
                old(self)@[row * 9 + col].with_value(value),
            ),
    {
        let i = self.index_of(row, col);
        let mut cell = self.cells[i];
        cell.set_value(value);
        self.set_at(i, cell);
    }

    /// Records `value` among the notes of the cell at (`row`, `col`).
    pub fn add_note_at_row_col(&mut self, row: usize, col: usize, value: u8)
        requires
            col < 9,
            row * 9 + col < old(self)@.len(),
            1 <= value <= 9,
        ensures
            final(self)@ == old(self)@.update(
                row * 9 + col,
                old(self)@[row * 9 + col].with_note(value),
            ),
    {
        let i = self.index_of(row, col);
        let mut cell = self.cells[i];
        cell.add_note(value);
        self.set_at(i, cell);
    }

    /// Removes `value` from the notes of the cell at index `i`.
    pub fn clear_note_at(&mut self, i: usize, value: u8)
        requires
            i < old(self)@.len(),
        ensures
            final(self)@ == old(self)@.update(i as int, old(self)@[i as int].without_note(value)),
    {
        let mut cell = self.cells[i];
        cell.clear_note(value);
        self.set_at(i, cell);
    }

    /// The candidates of the cell at (`row`, `col`) in ascending order: its
    /// notes, or all of `1..=9` when none is recorded.
    pub fn get_notes_at_row_col(&self, row: usize, col: usize) -> (out: Vec<u8>)
        requires
            col < 9,
            row * 9 + col < self@.len(),
        ensures
            forall|d: u8| out@.contains(d) <==> self@[row * 9 + col].has_candidate(d),
            forall|a: int, b: int| 0 <= a < b < out@.len() ==> out@[a] < out@[b],
    {
        let i = self.index_of(row, col);
        self.cells[i].candidates()
    }

    /// Tells whether no assigned digit occurs twice among the cells.
    pub fn is_valid(&self) -> (b: bool)
        ensures
            b == all_distinct_assigned(values_of(self@)),
    {
        let n = self.cells.len();
        let ghost v = values_of(self@);
        let mut a: usize = 0;
        while a < n
            invariant
                a <= n,
                n == self.cells@.len(),
                v == values_of(self@),
                forall|x: int, y: int|
                    0 <= x < a && x < y < n && #[trigger] v[x] != 0 ==> v[x] != #[trigger] v[y],
            decreases n - a,
        {
            let digit = self.cells[a].value();
            assert(v[a as int] == self@[a as int].value);
            if digit != 0 {
                let mut b: usize = a + 1;
                while b < n
                    invariant
                        a < b <= n,
                        n == self.cells@.len(),
                        v == values_of(self@),
                        digit == v[a as int],
                        digit != 0,
                        forall|y: int| a < y < b ==> v[a as int] != #[trigger] v[y],
                    decreases n - b,
                {
                    assert(v[b as int] == self@[b as int].value);
                    if self.cells[b].value() == digit {
                        proof {
                            assert(v[a as int] != 0 && v[a as int] == v[b as int]);
                        }
                        return false;
                    }
                    b = b + 1;
                }
            }
            a = a + 1;
        }
        proof {
            assert forall|x: int, y: int|
                0 <= x < v.len() && 0 <= y < v.len() && x != y && #[trigger] v[x]
                    != 0 implies v[x] != #[trigger] v[y] by {
                if y < x {
                    if v[y] != 0 {
                        assert(v[y] != v[x]);
                    }
                }
            }
        }
        true
    }
}

} // verus!
