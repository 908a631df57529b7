//! Grid planning: how many columns and rows a sheet of `count` tiles uses,
//! and which cell each tile occupies.

use vstd::prelude::*;

verus! {

/// Tile counts whose row count fits in a `u32`.
pub open spec fn count_in_range(count: nat) -> bool {
    count <= 3 * (u32::MAX as nat)
}

/// The fixed layout policy: nothing for no tiles, one cell for one tile,
/// a 2 by 2 square for two to four tiles, and three columns beyond that.
pub open spec fn plan(count: nat) -> (nat, nat) {
    if count == 0 {
        (0, 0)
    } else if count == 1 {
        (1, 1)
    } else if count <= 4 {
        (2, 2)
    } else {
        (3, ceil_div(count, 3))
    }
}

/// `n / d` rounded up.
pub open spec fn ceil_div(n: nat, d: nat) -> nat
    recommends
        d > 0,
{
    ((n + d - 1) as nat) / d
}

/// Column of the cell that tile `index` occupies, in row-major order.
pub open spec fn cell_col(index: nat, cols: nat) -> nat {
    index % cols
}

/// Row of the cell that tile `index` occupies, in row-major order.
pub open spec fn cell_row(index: nat, cols: nat) -> nat {
    index / cols
}

/// Every tile of a non-empty sheet has a cell: the grid holds at least
/// `count` cells.
pub proof fn lemma_plan_holds_all(count: nat)
    ensures
        plan(count).0 * plan(count).1 >= count,
        count > 0 ==> plan(count).0 > 0 && plan(count).1 > 0,
{
    let (c, r) = plan(count);
    if count >= 5 {
        assert(c * r >= count) by (nonlinear_arith)
            requires
                c == 3,
                r == (count + 2) / 3,
        ;
    } else {
        assert(c * r >= count) by (nonlinear_arith)
            requires
                count <= 4,
                count == 0 || c >= 1,
                count == 0 || r >= 1,
                count <= 1 || (c == 2 && r == 2),
        ;
    }
}

/// Chooses the grid shape, `(columns, rows)`, for `count` tiles.
pub fn calculate_grid_dimensions(count: usize) -> (r: (u32, u32))
    requires
        count_in_range(count as nat),
    ensures
        r.0 as nat == plan(count as nat).0,
        r.1 as nat == plan(count as nat).1,
{
    if count == 0 {
        (0, 0)
    } else if count == 1 {
        (1, 1)
    } else if count <= 4 {
        (2, 2)
    } else {
        let whole: usize = count / 3;
        let rows: usize = if count % 3 == 0 { whole } else { whole + 1 };
        assert(rows as nat == ceil_div(count as nat, 3));
        (3, rows as u32)
    }
}

} // verus!
