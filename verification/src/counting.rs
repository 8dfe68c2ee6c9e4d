//! Counting cells of a grid: how many power-up cells a grid holds, and how
//! many empty cells a region offers as seeding targets. The counts drive the
//! contracts of the power-up seeding operations and the termination of their
//! loops.

use vstd::prelude::*;

use crate::cells::Cell;

verus! {

/// Number of power-up cells in `s[j..]`.
pub open spec fn pu_row_from(s: Seq<Cell>, j: int) -> int
    decreases s.len() - j,
{
    if j < 0 || j >= s.len() {
        0
    } else {
        (if s[j] is PowerUp {
            1int
        } else {
            0int
        }) + pu_row_from(s, j + 1)
    }
}

/// Number of power-up cells in the rows `g[r..]`.
pub open spec fn pu_from(g: Seq<Seq<Cell>>, r: int) -> int
    decreases g.len() - r,
{
    if r < 0 || r >= g.len() {
        0
    } else {
        pu_row_from(g[r], 0) + pu_from(g, r + 1)
    }
}

/// Number of power-up cells in the whole grid.
pub open spec fn pu_count(g: Seq<Seq<Cell>>) -> int {
    pu_from(g, 0)
}

/// Number of empty cells in `s[j..]`, not counting column `skip_col`.
pub open spec fn empty_row_from(s: Seq<Cell>, skip_col: int, j: int) -> int
    decreases s.len() - j,
{
    if j < 0 || j >= s.len() {
        0
    } else {
        (if j != skip_col && s[j] is Empty {
            1int
        } else {
            0int
        }) + empty_row_from(s, skip_col, j + 1)
    }
}

/// Number of empty cells in the rows `g[r..]`, not counting column
/// `skip_col`.
pub open spec fn empty_from(g: Seq<Seq<Cell>>, skip_col: int, r: int) -> int
    decreases g.len() - r,
{
    if r < 0 || r >= g.len() {
        0
    } else {
        empty_row_from(g[r], skip_col, 0) + empty_from(g, skip_col, r + 1)
    }
}

/// Number of empty cells at row `from_row` or above, outside column
/// `skip_col`: the cells a seeding pass may still fill. A `skip_col` at or
/// beyond the grid's width excludes no column, and a `from_row` of zero
/// starts at the bottom, so `empty_in_region(g, 0, width)` counts every
/// empty cell of the grid.
pub open spec fn empty_in_region(g: Seq<Seq<Cell>>, from_row: int, skip_col: int) -> int {
    empty_from(g, skip_col, from_row)
}

/// Updating one cell of a row shifts its power-up count by the difference
/// between the new and the old cell, provided the cell lies in the counted
/// suffix.
pub proof fn lemma_pu_row_from_update(s: Seq<Cell>, j: int, v: Cell, i: int)
    requires
        0 <= i <= s.len(),
        0 <= j < s.len(),
    ensures
        pu_row_from(s.update(j, v), i) == pu_row_from(s, i) + if i <= j {
            (if v is PowerUp {
                1int
            } else {
                0int
            }) - (if s[j] is PowerUp {
                1int
            } else {
                0int
            })
        } else {
            0int
        },
    decreases s.len() - i,
{
    if i < s.len() {
        lemma_pu_row_from_update(s, j, v, i + 1);
    }
}

pub proof fn lemma_pu_from_update_row(g: Seq<Seq<Cell>>, r: int, row2: Seq<Cell>, i: int)
    requires
        0 <= i <= g.len(),
        0 <= r < g.len(),
    ensures
        pu_from(g.update(r, row2), i) == pu_from(g, i) + if i <= r {
            pu_row_from(row2, 0) - pu_row_from(g[r], 0)
        } else {
            0int
        },
    decreases g.len() - i,
{
    if i < g.len() {
        lemma_pu_from_update_row(g, r, row2, i + 1);
    }
}

pub proof fn lemma_empty_row_from_update(s: Seq<Cell>, skip_col: int, j: int, v: Cell, i: int)
    requires
        0 <= i <= s.len(),
        0 <= j < s.len(),
    ensures
        empty_row_from(s.update(j, v), skip_col, i) == empty_row_from(s, skip_col, i) + if i <= j
            && j != skip_col {
            (if v is Empty {
                1int
            } else {
                0int
            }) - (if s[j] is Empty {
                1int
            } else {
                0int
            })
        } else {
            0int
        },
    decreases s.len() - i,
{
    if i < s.len() {
        lemma_empty_row_from_update(s, skip_col, j, v, i + 1);
    }
}

pub proof fn lemma_empty_from_update_row(
    g: Seq<Seq<Cell>>,
    skip_col: int,
    r: int,
    row2: Seq<Cell>,
    i: int,
)
    requires
        0 <= i <= g.len(),
        0 <= r < g.len(),
    ensures
        empty_from(g.update(r, row2), skip_col, i) == empty_from(g, skip_col, i) + if i <= r {
            empty_row_from(row2, skip_col, 0) - empty_row_from(g[r], skip_col, 0)
        } else {
            0int
        },
    decreases g.len() - i,
{
    if i < g.len() {
        lemma_empty_from_update_row(g, skip_col, r, row2, i + 1);
    }
}

/// A row whose cells from `j` on are all empty, column `skip_col` aside,
/// counts one empty cell per position outside `skip_col`.
pub proof fn lemma_empty_row_from_all(s: Seq<Cell>, skip_col: int, j: int)
    requires
        0 <= j <= s.len(),
        forall|k: int| j <= k < s.len() ==> s[k] is Empty,
    ensures
        empty_row_from(s, skip_col, j) == s.len() - j - if j <= skip_col < s.len() {
            1int
        } else {
            0int
        },
    decreases s.len() - j,
{
    if j < s.len() {
        lemma_empty_row_from_all(s, skip_col, j + 1);
    }
}

/// A block of rows of width `w`, all empty from row `r` on, offers
/// `(rows - r) * (w - 1)` seeding targets when `skip_col` lies inside the
/// width, and `(rows - r) * w` when it lies outside.
pub proof fn lemma_empty_from_all(g: Seq<Seq<Cell>>, skip_col: int, r: int, w: int)
    requires
        0 <= r <= g.len(),
        forall|i: int| r <= i < g.len() ==> (#[trigger] g[i]).len() == w,
        forall|i: int, j: int| r <= i < g.len() && 0 <= j < w ==> g[i][j] is Empty,
    ensures
        empty_from(g, skip_col, r) == (g.len() - r) * (w - if 0 <= skip_col < w {
            1int
        } else {
            0int
        }),
    decreases g.len() - r,
{
    let per_row = w - if 0 <= skip_col < w {
        1int
    } else {
        0int
    };
    if r < g.len() {
        assert(forall|k: int| 0 <= k < g[r].len() ==> g[r][k] is Empty);
        lemma_empty_row_from_all(g[r], skip_col, 0);
        lemma_empty_from_all(g, skip_col, r + 1, w);
        assert((g.len() - r) * per_row == (g.len() - r - 1) * per_row + per_row)
            by (nonlinear_arith);
    } else {
        assert((g.len() - r) * per_row == 0) by (nonlinear_arith)
            requires g.len() == r;
    }
}

/// A row suffix without any power-up cell counts zero.
pub proof fn lemma_pu_row_from_none(s: Seq<Cell>, j: int)
    requires
        0 <= j <= s.len(),
        forall|k: int| j <= k < s.len() ==> !(s[k] is PowerUp),
    ensures
        pu_row_from(s, j) == 0,
    decreases s.len() - j,
{
    if j < s.len() {
        lemma_pu_row_from_none(s, j + 1);
    }
}

/// Extending a row with cells that hold no power-up leaves its power-up
/// count alone.
pub proof fn lemma_pu_row_extend(s1: Seq<Cell>, s2: Seq<Cell>, j: int)
    requires
        0 <= j <= s1.len() <= s2.len(),
        forall|k: int| j <= k < s1.len() ==> s2[k] == s1[k],
        forall|k: int| s1.len() <= k < s2.len() ==> !(#[trigger] s2[k] is PowerUp),
    ensures
        pu_row_from(s2, j) == pu_row_from(s1, j),
    decreases s1.len() - j,
{
    if j < s1.len() {
        lemma_pu_row_extend(s1, s2, j + 1);
    } else {
        lemma_pu_row_from_none(s2, j);
    }
}

/// A block of rows each counting zero power-ups counts zero in all.
pub proof fn lemma_pu_from_zero_rows(g: Seq<Seq<Cell>>, r: int)
    requires
        0 <= r <= g.len(),
        forall|i: int| r <= i < g.len() ==> pu_row_from(#[trigger] g[i], 0) == 0,
    ensures
        pu_from(g, r) == 0,
    decreases g.len() - r,
{
    if r < g.len() {
        lemma_pu_from_zero_rows(g, r + 1);
    }
}

/// Extending a grid with rows that count zero power-ups, while keeping the
/// per-row counts of the rows already there, leaves the grid's power-up
/// count alone.
pub proof fn lemma_pu_grid_extend(gold: Seq<Seq<Cell>>, gnew: Seq<Seq<Cell>>, r: int)
    requires
        0 <= r <= gold.len() <= gnew.len(),
        forall|i: int|
            r <= i < gold.len() ==> pu_row_from(#[trigger] gnew[i], 0) == pu_row_from(gold[i], 0),
        forall|i: int| gold.len() <= i < gnew.len() ==> pu_row_from(#[trigger] gnew[i], 0) == 0,
    ensures
        pu_from(gnew, r) == pu_from(gold, r),
    decreases gold.len() - r,
{
    if r < gold.len() {
        lemma_pu_grid_extend(gold, gnew, r + 1);
    } else {
        lemma_pu_from_zero_rows(gnew, r);
    }
}

pub proof fn lemma_pu_from_none(g: Seq<Seq<Cell>>, r: int)
    requires
        0 <= r <= g.len(),
        forall|i: int, j: int|
            r <= i < g.len() && 0 <= j < g[i].len() ==> !(#[trigger] g[i][j] is PowerUp),
    ensures
        pu_from(g, r) == 0,
    decreases g.len() - r,
{
    if r < g.len() {
        assert(forall|k: int| 0 <= k < g[r].len() ==> !(g[r][k] is PowerUp));
        lemma_pu_row_from_none(g[r], 0);
        lemma_pu_from_none(g, r + 1);
    }
}

} // verus!
