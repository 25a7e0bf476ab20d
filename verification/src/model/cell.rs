//! One position of the grid: a digit and a set of candidate digits.

use vstd::prelude::*;

verus! {

/// What a cell holds: its digit (`0` for empty) and its notes, the candidate
/// digits recorded for it.
#[verifier::ext_equal]
pub struct CellView {
    pub value: u8,
    pub notes: Set<u8>,
}

impl CellView {
    /// The digit is in `0..=9` and every note is in `1..=9`.
    pub open spec fn wf(self) -> bool {
        &&& self.value <= 9
        &&& forall|d: u8| self.notes.contains(d) ==> 1 <= d <= 9
    }

    /// No note is recorded.
    pub open spec fn no_notes(self) -> bool {
        forall|d: u8| !self.notes.contains(d)
    }

    /// `d` is a candidate: a digit in `1..=9` that is among the notes, or any
    /// such digit when no note is recorded.
    pub open spec fn has_candidate(self, d: u8) -> bool {
        1 <= d <= 9 && (self.notes.contains(d) || self.no_notes())
    }

    /// An empty-noted cell with digit `value`.
    pub open spec fn plain(value: u8) -> CellView {
        CellView { value, notes: Set::empty() }
    }

    /// The same cell with another digit.
    pub open spec fn with_value(self, value: u8) -> CellView {
        CellView { value, notes: self.notes }
    }

    /// The same cell with `d` among its notes.
    pub open spec fn with_note(self, d: u8) -> CellView {
        CellView { value: self.value, notes: self.notes.insert(d) }
    }

    /// The same cell with `d` not among its notes.
    pub open spec fn without_note(self, d: u8) -> CellView {
        CellView { value: self.value, notes: self.notes.remove(d) }
    }
}

/// The digits of a sequence of cells.
pub open spec fn values_of(s: Seq<CellView>) -> Seq<u8> {
    Seq::new(s.len(), |i: int| s[i].value)
}

/// Every cell of the sequence is well formed.
pub open spec fn all_wf(s: Seq<CellView>) -> bool {
    forall|i: int| 0 <= i < s.len() ==> (#[trigger] s[i]).wf()
}

/// Bit `d` of the note mask is set, for `d` in `1..=9`.
pub open spec fn mask_has(mask: u16, d: u8) -> bool {
    1 <= d <= 9 && mask & (1u16 << (d as u16)) != 0
}

proof fn lemma_mask_set(mask: u16, d: u16, e: u16)
    requires
        d < 16,
        e < 16,
    ensures
        ((mask | (1u16 << d)) & (1u16 << e) != 0) == (e == d || mask & (1u16 << e) != 0),
{
    assert(((mask | (1u16 << d)) & (1u16 << e) != 0) == (e == d || mask & (1u16 << e) != 0))
        by (bit_vector)
        requires
            d < 16,
            e < 16,
    ;
}

proof fn lemma_mask_clear(mask: u16, d: u16, e: u16)
    requires
        d < 16,
        e < 16,
    ensures
        ((mask & !(1u16 << d)) & (1u16 << e) != 0) == (e != d && mask & (1u16 << e) != 0),
{
    assert(((mask & !(1u16 << d)) & (1u16 << e) != 0) == (e != d && mask & (1u16 << e) != 0))
        by (bit_vector)
        requires
            d < 16,
            e < 16,
    ;
}

proof fn lemma_mask_zero(e: u16)
    requires
        e < 16,
    ensures
        0u16 & (1u16 << e) == 0,
{
    assert(0u16 & (1u16 << e) == 0) by (bit_vector);
}

/// A cell of the grid. The notes are kept as a bit mask, bit `d` standing for
/// digit `d`.
#[derive(Clone, Copy, PartialEq, Eq, Debug)]
pub struct Cell {
    value: u8,
    notes: u16,
}

impl View for Cell {
    type V = CellView;

    closed spec fn view(&self) -> CellView {
        CellView { value: self.value, notes: Set::new(|d: u8| mask_has(self.notes, d)) }
    }
}

impl Cell {
    /// The cell holds a digit in `0..=9`.
    pub open spec fn wf(&self) -> bool {
        self@.wf()
    }

    /// A cell with the given digit and no notes.
    pub fn new(value: u8) -> (c: Cell)
        requires
            value <= 9,
        ensures
            c@ == CellView::plain(value),
            c.wf(),
    {
        let c = Cell { value, notes: 0 };
        proof {
            assert forall|d: u8| !mask_has(c.notes, d) by {
                if d < 16 {
                    lemma_mask_zero(d as u16);
                }
            }
            assert(c@.notes =~= Set::<u8>::empty());
        }
        c
    }

    /// The digit of the cell, `0` when it is empty.
    pub fn value(&self) -> (v: u8)
        ensures
            v == self@.value,
    {
        self.value
    }

    /// Replaces the digit and keeps the notes.
    pub fn set_value(&mut self, value: u8)
        requires
            value <= 9,
        ensures
            final(self)@ == old(self)@.with_value(value),
    {
        self.value = value;
    }

    /// Tells whether `d` is among the notes.
    pub fn has_note(&self, d: u8) -> (b: bool)
        ensures
            b == self@.notes.contains(d),
    {
        if d < 1 || d > 9 {
            false
        } else {
            self.notes & (1u16 << (d as u16)) != 0
        }
    }

    /// Tells whether no note is recorded.
    pub fn has_no_notes(&self) -> (b: bool)
        ensures
            b == self@.no_notes(),
    {
        let mut d: u8 = 1;
        while d <= 9
            invariant
                1 <= d <= 10,
                forall|e: u8| 1 <= e < d ==> !self@.notes.contains(e),
            decreases 10 - d,
        {
            if self.has_note(d) {
                return false;
            }
            d = d + 1;
        }
        true
    }

    /// Tells whether `d` is a candidate for this cell.
    pub fn has_candidate(&self, d: u8) -> (b: bool)
        ensures
            b == self@.has_candidate(d),
    {
        1 <= d && d <= 9 && (self.has_note(d) || self.has_no_notes())
    }

    /// Records `d` among the notes.
    pub fn add_note(&mut self, d: u8)
        requires
            1 <= d <= 9,
        ensures
            final(self)@ == old(self)@.with_note(d),
    {
        let mask = self.notes;
        self.notes = mask | (1u16 << (d as u16));
        proof {
            assert forall|e: u8| #[trigger]
                mask_has(self.notes, e) == (e == d || mask_has(mask, e)) by {
                if e < 16 {
                    lemma_mask_set(mask, d as u16, e as u16);
                }
            }
            assert(self@.notes =~= old(self)@.notes.insert(d));
        }
    }

    /// Removes `d` from the notes; nothing changes where `d` is no note.
    pub fn clear_note(&mut self, d: u8)
        ensures
            final(self)@ == old(self)@.without_note(d),
    {
        if 1 <= d && d <= 9 {
            let mask = self.notes;
            self.notes = mask & !(1u16 << (d as u16));
            proof {
                assert forall|e: u8| #[trigger]
                    mask_has(self.notes, e) == (e != d && mask_has(mask, e)) by {
                    if e < 16 {
                        lemma_mask_clear(mask, d as u16, e as u16);
                    }
                }
                assert(self@.notes =~= old(self)@.notes.remove(d));
            }
        } else {
            proof {
                assert(self@.notes =~= old(self)@.notes.remove(d));
            }
        }
    }

    /// The candidates of the cell in ascending order: its notes, or all of
    /// `1..=9` when no note is recorded.
    pub fn candidates(&self) -> (out: Vec<u8>)
        ensures
            forall|d: u8| out@.contains(d) <==> self@.has_candidate(d),
            forall|a: int, b: int| 0 <= a < b < out@.len() ==> out@[a] < out@[b],
    {
        let all = self.has_no_notes();
        let mut out: Vec<u8> = Vec::new();
        let mut d: u8 = 1;
        while d <= 9
            invariant
                1 <= d <= 10,
                all == self@.no_notes(),
                forall|e: u8| out@.contains(e) <==> e < d && self@.has_candidate(e),
                forall|a: int, b: int| 0 <= a < b < out@.len() ==> out@[a] < out@[b],
                forall|a: int| 0 <= a < out@.len() ==> out@[a] < d,
            decreases 10 - d,
        {
            if all || self.has_note(d) {
                let ghost before = out@;
                out.push(d);
                proof {
                    assert(out@[out@.len() - 1] == d);
                    assert forall|e: u8| out@.contains(e) <==> e < d + 1 && self@.has_candidate(
                        e,
                    ) by {
                        if out@.contains(e) {
                            let k = choose|k: int| 0 <= k < out@.len() && out@[k] == e;
                            if k < before.len() {
                                assert(before[k] == e);
                                assert(before.contains(e));
                            }
                        }
                        if e < d && self@.has_candidate(e) {
                            assert(before.contains(e));
                            let k = choose|k: int| 0 <= k < before.len() && before[k] == e;
                            assert(out@[k] == e);
                        }
                    }
                }
            }
            d = d + 1;
        }
        out
    }
}

} // verus!
