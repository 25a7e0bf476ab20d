//! What it means to solve a board, and which solution a search in row-major
//! order with ascending digits finds first.

use crate::rules::{is_board, is_first_empty, is_full, is_peer, is_safe_placement, is_valid};
use vstd::prelude::*;

verus! {

/// Number of empty cells of a board.
pub open spec fn count_empty(v: Seq<u8>) -> nat
    decreases v.len(),
{
    if v.len() == 0 {
        0
    } else {
        count_empty(v.drop_last()) + if v.last() == 0 {
            1nat
        } else {
            0nat
        }
    }
}

/// `b` keeps every assigned digit of `a`.
pub open spec fn extends(a: Seq<u8>, b: Seq<u8>) -> bool {
    &&& a.len() == b.len()
    &&& forall|i: int| 0 <= i < a.len() && #[trigger] a[i] != 0 ==> b[i] == a[i]
}

/// `b` solves `a`: it is a full, valid board that keeps every assigned digit
/// of `a`.
pub open spec fn is_solution(a: Seq<u8>, b: Seq<u8>) -> bool {
    &&& is_board(b)
    &&& is_full(b)
    &&& extends(a, b)
    &&& is_valid(b)
}

/// Some board solves `a`.
pub open spec fn has_solution(a: Seq<u8>) -> bool {
    exists|b: Seq<u8>| is_solution(a, b)
}

/// `b` and `c` agree before position `k`, where `b` holds the smaller digit.
pub open spec fn precedes_at(b: Seq<u8>, c: Seq<u8>, k: int) -> bool {
    &&& 0 <= k < b.len()
    &&& b[k] < c[k]
    &&& forall|j: int| 0 <= j < k ==> #[trigger] b[j] == c[j]
}

/// `b` comes no later than `c` in the lexicographic order of boards read in
/// row-major order.
pub open spec fn lex_le(b: Seq<u8>, c: Seq<u8>) -> bool {
    b == c || (b.len() == c.len() && exists|k: int| precedes_at(b, c, k))
}

/// `b` is the first solution of `a`: the one that comes first in
/// lexicographic order, which is the one that a search through the empty
/// cells in row-major order, trying digits in ascending order, reaches first.
pub open spec fn is_first_solution(a: Seq<u8>, b: Seq<u8>) -> bool {
    &&& is_solution(a, b)
    &&& forall|c: Seq<u8>| #[trigger] is_solution(a, c) ==> lex_le(b, c)
}

/// Every solution of `a` holds at position `i` a digit that is at least
/// `bound`.
pub open spec fn none_below(a: Seq<u8>, i: int, bound: int) -> bool {
    forall|c: Seq<u8>| #[trigger] is_solution(a, c) ==> c[i] >= bound
}

/// Assigning an empty cell leaves one empty cell fewer.
pub proof fn lemma_count_empty_update(v: Seq<u8>, i: int, d: u8)
    requires
        0 <= i < v.len(),
        v[i] == 0,
        d != 0,
    ensures
        count_empty(v.update(i, d)) + 1 == count_empty(v),
    decreases v.len(),
{
    let w = v.update(i, d);
    if i == v.len() - 1 {
        assert(w.drop_last() =~= v.drop_last());
    } else {
        lemma_count_empty_update(v.drop_last(), i, d);
        assert(w.drop_last() =~= v.drop_last().update(i, d));
    }
}

/// Only a valid board has a solution: a solution keeps the assigned digits,
/// and with them any clash among them.
pub proof fn lemma_solvable_is_valid(a: Seq<u8>)
    requires
        has_solution(a),
    ensures
        is_valid(a),
{
    let b = choose|b: Seq<u8>| is_solution(a, b);
    assert forall|i: int, j: int|
        0 <= i < 81 && 0 <= j < 81 && #[trigger] is_peer(i, j) && a[i] != 0 implies a[i]
        != a[j] by {
        if a[j] != 0 {
            assert(b[i] == a[i] && b[j] == a[j]);
        }
    }
}

/// Placing a digit in `1..=9` at an empty cell of a valid board is safe
/// exactly when the board is still valid with the digit in place.
pub proof fn lemma_safe_iff_stays_valid(v: Seq<u8>, i: int, d: u8)
    requires
        v.len() == 81,
        is_valid(v),
        0 <= i < 81,
        v[i] == 0,
        1 <= d <= 9,
    ensures
        is_safe_placement(v, i, d) <==> is_valid(v.update(i, d)),
{
    let w = v.update(i, d);
    if is_safe_placement(v, i, d) {
        assert forall|x: int, y: int|
            0 <= x < 81 && 0 <= y < 81 && #[trigger] is_peer(x, y) && w[x] != 0 implies w[x]
            != w[y] by {
            if x == i {
            } else if y == i {
                assert(is_peer(i, x));
            } else {
            }
        }
    }
    if is_valid(w) {
        assert forall|j: int| 0 <= j < 81 && #[trigger] is_peer(i, j) implies v[j] != d by {
            assert(w[i] == d && w[j] == v[j]);
        }
    }
}

/// At most one board is the first solution of a board: two searches that
/// start from the same digits and both end with the first solution end with
/// the same digits.
pub proof fn lemma_first_solution_unique(a: Seq<u8>, b: Seq<u8>, c: Seq<u8>)
    requires
        is_first_solution(a, b),
        is_first_solution(a, c),
    ensures
        b == c,
{
    assert(lex_le(b, c));
    assert(lex_le(c, b));
    if b != c {
        let k = choose|k: int| precedes_at(b, c, k);
        let m = choose|m: int| precedes_at(c, b, m);
        if k < m {
            assert(c[k] == b[k]);
        } else if m < k {
            assert(b[m] == c[m]);
        }
    }
}

/// A full valid board is its own first solution.
pub proof fn lemma_full_board(a: Seq<u8>)
    requires
        is_board(a),
        is_full(a),
        is_valid(a),
    ensures
        is_first_solution(a, a),
{
    assert forall|c: Seq<u8>| #[trigger] is_solution(a, c) implies lex_le(a, c) by {
        assert(a =~= c);
    }
}

/// No solution of `a` holds at an empty cell a digit that is not safe to
/// place there.
pub proof fn lemma_unsafe_digit(a: Seq<u8>, i: int, d: u8, c: Seq<u8>)
    requires
        is_board(a),
        0 <= i < 81,
        a[i] == 0,
        1 <= d <= 9,
        !is_safe_placement(a, i, d),
        is_solution(a, c),
    ensures
        c[i] != d,
{
    let j = choose|j: int| 0 <= j < 81 && #[trigger] is_peer(i, j) && a[j] == d;
    assert(c[j] == a[j]);
    assert(c[i] != 0);
}

/// A solution of `a` solves `a` with its own digit placed at `i`.
pub proof fn lemma_solution_after_placement(a: Seq<u8>, i: int, c: Seq<u8>)
    requires
        is_board(a),
        0 <= i < 81,
        a[i] == 0,
        is_solution(a, c),
    ensures
        is_solution(a.update(i, c[i]), c),
{
    let w = a.update(i, c[i]);
    assert forall|x: int| 0 <= x < w.len() && #[trigger] w[x] != 0 implies c[x] == w[x] by {
        if x != i {
            assert(a[x] != 0);
        }
    }
}

/// The first solution of `a` with a digit `d` placed at its first empty cell
/// is the first solution of `a`, where no solution of `a` holds less than
/// `d` there.
pub proof fn lemma_first_solution_after_placement(a: Seq<u8>, i: int, d: u8, b: Seq<u8>)
    requires
        is_board(a),
        is_first_empty(a, i),
        1 <= d <= 9,
        none_below(a, i, d as int),
        is_first_solution(a.update(i, d), b),
    ensures
        is_first_solution(a, b),
{
    let w = a.update(i, d);
    assert(b[i] == d) by {
        assert(w[i] != 0);
    }
    assert forall|x: int| 0 <= x < a.len() && #[trigger] a[x] != 0 implies b[x] == a[x] by {
        assert(w[x] != 0);
    }
    assert(is_solution(a, b));
    assert forall|c: Seq<u8>| #[trigger] is_solution(a, c) implies lex_le(b, c) by {
        assert(c[i] >= d);
        if c[i] == d {
            lemma_solution_after_placement(a, i, c);
            assert(a.update(i, c[i]) == w);
        } else {
            assert forall|j: int| 0 <= j < i implies #[trigger] b[j] == c[j] by {
                assert(a[j] != 0);
            }
            assert(precedes_at(b, c, i));
        }
    }
}

} // verus!
