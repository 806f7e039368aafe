use vstd::prelude::*;
use vstd::arithmetic::div_mod::{
    lemma_fundamental_div_mod,
    lemma_fundamental_div_mod_converse,
    lemma_mod_pos_bound,
    lemma_div_pos_is_pos,
    lemma_multiply_divide_lt,
};

verus! {

/// The largest number of cells a board may have, so that every position
/// fits in an `i16`.
pub const MAX_CELLS: usize = 32767;

/// Column of a linear index on a grid `width` cells wide.
pub open spec fn column_of(width: int, i: int) -> int {
    i % width
}

/// Row of a linear index on a grid `width` cells wide.
pub open spec fn row_of(width: int, i: int) -> int {
    i / width
}

/// The linear index of column `x`, row `y`, when that position lies on the
/// `width` by `height` grid; rows are laid out one after the other.
pub open spec fn index_at(width: int, height: int, x: int, y: int) -> Option<int> {
    if 0 <= x < width && 0 <= y < height {
        Some(x + y * width)
    } else {
        None
    }
}

/// Whether `j` is one of the up to eight cells around `i`: both lie on the
/// grid, differ, and are at most one column and one row apart.
pub open spec fn adjacent(width: int, height: int, i: int, j: int) -> bool {
    &&& 0 <= i < width * height
    &&& 0 <= j < width * height
    &&& i != j
    &&& -1 <= column_of(width, j) - column_of(width, i) <= 1
    &&& -1 <= row_of(width, j) - row_of(width, i) <= 1
}

/// The number of `true` entries of a sequence.
pub open spec fn count_true(s: Seq<bool>) -> nat
    decreases s.len(),
{
    if s.len() == 0 {
        0
    } else {
        count_true(s.drop_last()) + if s.last() {
            1nat
        } else {
            0nat
        }
    }
}

/// The number of mines among the indices below `k` that are adjacent to `n`.
pub open spec fn mines_around(mines: Seq<bool>, width: int, height: int, n: int, k: int) -> nat
    decreases k,
{
    if k <= 0 {
        0
    } else {
        mines_around(mines, width, height, n, k - 1) + if mines[k - 1] && adjacent(
            width,
            height,
            k - 1,
            n,
        ) {
            1nat
        } else {
            0nat
        }
    }
}

/// Turning an index into its position and back gives the index again, for
/// every index of the grid.
pub proof fn lemma_index_of_position(width: int, height: int, i: int)
    requires
        0 < width,
        0 <= i < width * height,
    ensures
        index_at(width, height, column_of(width, i), row_of(width, i)) == Some(i),
{
    lemma_fundamental_div_mod(i, width);
    lemma_mod_pos_bound(i, width);
    lemma_div_pos_is_pos(i, width);
    lemma_multiply_divide_lt(i, width, height);
    assert(width * (i / width) == (i / width) * width) by (nonlinear_arith);
}

/// Turning a position of the grid into its index and back gives the
/// position again.
pub proof fn lemma_position_of_index(width: int, x: int, y: int)
    requires
        0 <= x < width,
        0 <= y,
    ensures
        column_of(width, x + y * width) == x,
        row_of(width, x + y * width) == y,
{
    lemma_fundamental_div_mod_converse(x + y * width, width, y, x);
}

/// An index of the grid lies in a row of the grid.
pub proof fn lemma_position_in_grid(width: int, height: int, i: int)
    requires
        0 < width,
        0 <= i < width * height,
    ensures
        0 <= column_of(width, i) < width,
        0 <= row_of(width, i) < height,
        i == column_of(width, i) + row_of(width, i) * width,
{
    lemma_index_of_position(width, height, i);
}

pub proof fn lemma_count_true_update(s: Seq<bool>, i: int, b: bool)
    requires
        0 <= i < s.len(),
    ensures
        count_true(s.update(i, b)) == count_true(s) - (if s[i] {
            1int
        } else {
            0int
        }) + (if b {
            1int
        } else {
            0int
        }),
    decreases s.len(),
{
    let t = s.update(i, b);
    if i == s.len() - 1 {
        assert(t.drop_last() =~= s.drop_last());
    } else {
        assert(t.drop_last() =~= s.drop_last().update(i, b));
        lemma_count_true_update(s.drop_last(), i, b);
    }
}

pub proof fn lemma_count_true_bounded(s: Seq<bool>)
    ensures
        count_true(s) <= s.len(),
    decreases s.len(),
{
    if s.len() > 0 {
        lemma_count_true_bounded(s.drop_last());
    }
}

pub proof fn lemma_count_true_none(s: Seq<bool>)
    requires
        forall|i: int| 0 <= i < s.len() ==> !s[i],
    ensures
        count_true(s) == 0,
    decreases s.len(),
{
    if s.len() > 0 {
        lemma_count_true_none(s.drop_last());
    }
}

pub proof fn lemma_count_true_all(s: Seq<bool>)
    requires
        forall|i: int| 0 <= i < s.len() ==> s[i],
    ensures
        count_true(s) == s.len(),
    decreases s.len(),
{
    if s.len() > 0 {
        lemma_count_true_all(s.drop_last());
    }
}

/// One when `v` lies in `0..k`, else zero.
pub open spec fn below(v: int, k: int) -> nat {
    if 0 <= v < k {
        1
    } else {
        0
    }
}

/// How many of the eight cells that could surround `n` on a grid `width`
/// wide lie in `0..k`.
pub open spec fn candidates_below(width: int, n: int, k: int) -> nat {
    below(n - width - 1, k) + below(n - width, k) + below(n - width + 1, k) + below(n - 1, k)
        + below(n + 1, k) + below(n + width - 1, k) + below(n + width, k) + below(
        n + width + 1,
        k,
    )
}

/// A cell adjacent to `n` lies one row above, in the same row, or one row
/// below, at most one column off.
pub proof fn lemma_adjacent_offsets(width: int, height: int, m: int, n: int)
    requires
        0 < width,
        adjacent(width, height, m, n),
    ensures
        m == n - width - 1 || m == n - width || m == n - width + 1 || m == n - 1 || m == n + 1
            || m == n + width - 1 || m == n + width || m == n + width + 1,
{
    lemma_position_in_grid(width, height, m);
    lemma_position_in_grid(width, height, n);
    let rm = row_of(width, m);
    let rn = row_of(width, n);
    if rm == rn + 1 {
        assert(rm * width == rn * width + width) by (nonlinear_arith)
            requires
                rm == rn + 1,
        ;
    } else if rm == rn - 1 {
        assert(rm * width == rn * width - width) by (nonlinear_arith)
            requires
                rm == rn - 1,
        ;
    }
}

/// At most eight mines lie around a cell.
pub proof fn lemma_mines_around_at_most_eight(
    mines: Seq<bool>,
    width: int,
    height: int,
    n: int,
    k: int,
)
    requires
        0 < width,
        0 <= k,
    ensures
        mines_around(mines, width, height, n, k) <= candidates_below(width, n, k),
        mines_around(mines, width, height, n, k) <= 8,
    decreases k,
{
    if k > 0 {
        lemma_mines_around_at_most_eight(mines, width, height, n, k - 1);
        if adjacent(width, height, k - 1, n) {
            lemma_adjacent_offsets(width, height, k - 1, n);
        }
    }
}

} // verus!
