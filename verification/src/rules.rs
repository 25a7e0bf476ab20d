//! The rules of the 9×9 board, stated over plain sequences of digits.
//!
//! A board is a sequence of 81 digits in row-major order; `0` stands for an
//! empty cell and `1..=9` for an assigned one. Everything here is
//! specification: the executable types state their contracts in these terms.

use vstd::prelude::*;

verus! {

/// Row of the cell at flat position `i`.
pub open spec fn row_of(i: int) -> int {
    i / 9
}

/// Column of the cell at flat position `i`.
pub open spec fn col_of(i: int) -> int {
    i % 9
}

/// Region (3×3 box) that holds the cell at (`row`, `col`).
pub open spec fn region_at(row: int, col: int) -> int {
    (row / 3) * 3 + col / 3
}

/// Region (3×3 box) of the cell at flat position `i`.
pub open spec fn region_of(i: int) -> int {
    region_at(row_of(i), col_of(i))
}

/// Flat position of the `k`-th cell of row `row`.
pub open spec fn row_position(row: int, k: int) -> int {
    row * 9 + k
}

/// Flat position of the `k`-th cell of column `col`.
pub open spec fn column_position(col: int, k: int) -> int {
    k * 9 + col
}

/// Flat position of the `k`-th cell of region `region`, the region being
/// walked row by row.
pub open spec fn region_position(region: int, k: int) -> int {
    ((region / 3) * 3 + k / 3) * 9 + (region % 3) * 3 + k % 3
}

/// Two positions lie in a common row, column or region.
pub open spec fn same_group(i: int, j: int) -> bool {
    row_of(i) == row_of(j) || col_of(i) == col_of(j) || region_of(i) == region_of(j)
}

/// Two distinct positions that lie in a common row, column or region.
pub open spec fn is_peer(i: int, j: int) -> bool {
    i != j && same_group(i, j)
}

/// A sequence of 81 digits, each in `0..=9`.
pub open spec fn is_board(v: Seq<u8>) -> bool {
    &&& v.len() == 81
    &&& forall|i: int| 0 <= i < 81 ==> #[trigger] v[i] <= 9
}

/// No two cells of the group hold the same assigned digit.
pub open spec fn all_distinct_assigned(g: Seq<u8>) -> bool {
    forall|a: int, b: int|
        0 <= a < g.len() && 0 <= b < g.len() && a != b && #[trigger] g[a] != 0 ==> g[a]
            != #[trigger] g[b]
}

/// The digits of row `row`, left to right.
pub open spec fn row_values(v: Seq<u8>, row: int) -> Seq<u8> {
    Seq::new(9, |k: int| v[row_position(row, k)])
}

/// The digits of column `col`, top to bottom.
pub open spec fn column_values(v: Seq<u8>, col: int) -> Seq<u8> {
    Seq::new(9, |k: int| v[column_position(col, k)])
}

/// The digits of region `region`, row by row.
pub open spec fn region_values(v: Seq<u8>, region: int) -> Seq<u8> {
    Seq::new(9, |k: int| v[region_position(region, k)])
}

/// The board is valid: any two cells that share a row, a column or a region
/// and are both assigned hold different digits.
pub open spec fn is_valid(v: Seq<u8>) -> bool {
    forall|i: int, j: int|
        0 <= i < 81 && 0 <= j < 81 && #[trigger] is_peer(i, j) && v[i] != 0 ==> v[i] != v[j]
}

/// Each of the 27 groups of the board, taken alone, holds no assigned digit
/// twice.
pub open spec fn all_groups_distinct(v: Seq<u8>) -> bool {
    &&& forall|g: int| 0 <= g < 9 ==> all_distinct_assigned(#[trigger] row_values(v, g))
    &&& forall|g: int| 0 <= g < 9 ==> all_distinct_assigned(#[trigger] column_values(v, g))
    &&& forall|g: int| 0 <= g < 9 ==> all_distinct_assigned(#[trigger] region_values(v, g))
}

/// Placing `d` at position `i` is safe: no other cell of the row, the column
/// or the region of `i` holds `d` now.
pub open spec fn is_safe_placement(v: Seq<u8>, i: int, d: u8) -> bool {
    forall|j: int| 0 <= j < 81 && #[trigger] is_peer(i, j) ==> v[j] != d
}

/// Position `i` is the first empty cell of the board in row-major order.
pub open spec fn is_first_empty(v: Seq<u8>, i: int) -> bool {
    &&& 0 <= i < v.len()
    &&& v[i] == 0
    &&& forall|j: int| 0 <= j < i ==> #[trigger] v[j] != 0
}

/// No cell of the board is empty.
pub open spec fn is_full(v: Seq<u8>) -> bool {
    forall|j: int| 0 <= j < v.len() ==> #[trigger] v[j] != 0
}

/// Within its region, the cell at position `i` is the `k`-th one.
pub open spec fn index_in_region(i: int) -> int {
    (row_of(i) % 3) * 3 + col_of(i) % 3
}

/// Every position is the cell of its row that stands in its column, the cell
/// of its column that stands in its row, and one cell of its region.
pub proof fn lemma_position_in_groups(i: int)
    requires
        0 <= i < 81,
    ensures
        0 <= row_of(i) < 9,
        0 <= col_of(i) < 9,
        0 <= region_of(i) < 9,
        0 <= index_in_region(i) < 9,
        row_position(row_of(i), col_of(i)) == i,
        column_position(col_of(i), row_of(i)) == i,
        region_position(region_of(i), index_in_region(i)) == i,
{
    let row = i / 9;
    let col = i % 9;
    assert(i == row * 9 + col);
    let a = row / 3;
    let c = row % 3;
    let b = col / 3;
    let d = col % 3;
    assert(row == a * 3 + c && col == b * 3 + d);
    let g = a * 3 + b;
    let k = c * 3 + d;
    assert(g / 3 == a && g % 3 == b);
    assert(k / 3 == c && k % 3 == d);
    assert(region_of(i) == g);
    assert(index_in_region(i) == k);
    assert(region_position(g, k) == (a * 3 + c) * 9 + b * 3 + d);
}

/// The `k`-th cell of row `g` lies on the board, in that row, in column `k`.
pub proof fn lemma_row_position(g: int, k: int)
    requires
        0 <= g < 9,
        0 <= k < 9,
    ensures
        0 <= row_position(g, k) < 81,
        row_of(row_position(g, k)) == g,
        col_of(row_position(g, k)) == k,
{
}

/// The `k`-th cell of column `g` lies on the board, in that column, in row
/// `k`.
pub proof fn lemma_column_position(g: int, k: int)
    requires
        0 <= g < 9,
        0 <= k < 9,
    ensures
        0 <= column_position(g, k) < 81,
        col_of(column_position(g, k)) == g,
        row_of(column_position(g, k)) == k,
{
}

/// The `k`-th cell of region `g` lies on the board, in that region, at that
/// place.
pub proof fn lemma_region_position(g: int, k: int)
    requires
        0 <= g < 9,
        0 <= k < 9,
    ensures
        0 <= region_position(g, k) < 81,
        region_of(region_position(g, k)) == g,
        index_in_region(region_position(g, k)) == k,
{
    let a = g / 3;
    let b = g % 3;
    let c = k / 3;
    let d = k % 3;
    assert(g == a * 3 + b && k == c * 3 + d);
    let row = a * 3 + c;
    let col = b * 3 + d;
    let i = row * 9 + col;
    assert(region_position(g, k) == i);
    assert(0 <= row < 9 && 0 <= col < 9);
    assert(i / 9 == row && i % 9 == col);
    assert(row / 3 == a && row % 3 == c);
    assert(col / 3 == b && col % 3 == d);
}

/// The `k`-th cell of a group lies on the board, in that group, at that
/// place.
pub proof fn lemma_group_positions(g: int, k: int)
    requires
        0 <= g < 9,
        0 <= k < 9,
    ensures
        0 <= row_position(g, k) < 81,
        row_of(row_position(g, k)) == g,
        col_of(row_position(g, k)) == k,
        0 <= column_position(g, k) < 81,
        col_of(column_position(g, k)) == g,
        row_of(column_position(g, k)) == k,
        0 <= region_position(g, k) < 81,
        region_of(region_position(g, k)) == g,
        index_in_region(region_position(g, k)) == k,
{
    lemma_row_position(g, k);
    lemma_column_position(g, k);
    lemma_region_position(g, k);
}

/// Position `j` is among the first `k` cells of the row, of the column or of
/// the region of position `i`.
pub open spec fn in_first_of_groups(i: int, k: int, j: int) -> bool {
    ||| row_of(j) == row_of(i) && col_of(j) < k
    ||| col_of(j) == col_of(i) && row_of(j) < k
    ||| region_of(j) == region_of(i) && index_in_region(j) < k
}

/// Going from the first `k` cells of each group to the first `k + 1` adds
/// the `k`-th cell of the row, of the column and of the region.
pub proof fn lemma_in_first_of_groups_step(i: int, k: int, j: int)
    requires
        0 <= i < 81,
        0 <= j < 81,
        0 <= k < 9,
    ensures
        in_first_of_groups(i, k + 1, j) <==> (in_first_of_groups(i, k, j) || j == row_position(
            row_of(i),
            k,
        ) || j == column_position(col_of(i), k) || j == region_position(region_of(i), k)),
{
    lemma_position_in_groups(i);
    lemma_position_in_groups(j);
    lemma_group_positions(row_of(i), k);
    lemma_group_positions(col_of(i), k);
    lemma_group_positions(region_of(i), k);
}

/// No cell is among the first none, and the first nine cells of the three
/// groups of a position are the cells that share a group with it.
pub proof fn lemma_in_first_of_groups_ends(i: int, j: int)
    requires
        0 <= i < 81,
        0 <= j < 81,
    ensures
        !in_first_of_groups(i, 0, j),
        in_first_of_groups(i, 9, j) <==> same_group(i, j),
{
    lemma_position_in_groups(i);
    lemma_position_in_groups(j);
}

/// A board is valid exactly when each of its nine rows, nine columns and
/// nine regions holds no assigned digit twice.
pub proof fn lemma_valid_by_groups(v: Seq<u8>)
    requires
        v.len() == 81,
    ensures
        is_valid(v) <==> all_groups_distinct(v),
{
    if is_valid(v) {
        assert forall|g: int| 0 <= g < 9 implies all_distinct_assigned(
            #[trigger] row_values(v, g),
        ) by {
            let s = row_values(v, g);
            assert forall|a: int, b: int|
                0 <= a < s.len() && 0 <= b < s.len() && a != b && #[trigger] s[a] != 0 implies s[a]
                != #[trigger] s[b] by {
                lemma_group_positions(g, a);
                lemma_group_positions(g, b);
                assert(is_peer(row_position(g, a), row_position(g, b)));
            }
        }
        assert forall|g: int| 0 <= g < 9 implies all_distinct_assigned(
            #[trigger] column_values(v, g),
        ) by {
            let s = column_values(v, g);
            assert forall|a: int, b: int|
                0 <= a < s.len() && 0 <= b < s.len() && a != b && #[trigger] s[a] != 0 implies s[a]
                != #[trigger] s[b] by {
                lemma_group_positions(g, a);
                lemma_group_positions(g, b);
                assert(is_peer(column_position(g, a), column_position(g, b)));
            }
        }
        assert forall|g: int| 0 <= g < 9 implies all_distinct_assigned(
            #[trigger] region_values(v, g),
        ) by {
            let s = region_values(v, g);
            assert forall|a: int, b: int|
                0 <= a < s.len() && 0 <= b < s.len() && a != b && #[trigger] s[a] != 0 implies s[a]
                != #[trigger] s[b] by {
                lemma_group_positions(g, a);
                lemma_group_positions(g, b);
                assert(is_peer(region_position(g, a), region_position(g, b)));
            }
        }
    }
    if all_groups_distinct(v) {
        assert forall|i: int, j: int|
            0 <= i < 81 && 0 <= j < 81 && #[trigger] is_peer(i, j) && v[i] != 0 implies v[i]
            != v[j] by {
            lemma_position_in_groups(i);
            lemma_position_in_groups(j);
            if row_of(i) == row_of(j) {
                let s = row_values(v, row_of(i));
                assert(all_distinct_assigned(s));
                assert(s[col_of(i)] == v[i]);
                assert(s[col_of(j)] == v[j]);
            } else if col_of(i) == col_of(j) {
                let s = column_values(v, col_of(i));
                assert(all_distinct_assigned(s));
                assert(s[row_of(i)] == v[i]);
                assert(s[row_of(j)] == v[j]);
            } else {
                let s = region_values(v, region_of(i));
                assert(all_distinct_assigned(s));
                assert(s[index_in_region(i)] == v[i]);
                assert(s[index_in_region(j)] == v[j]);
            }
        }
    }
}

} // verus!
