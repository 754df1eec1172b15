//! Range shapes for spatial queries.
//!
//! A [`SpatialQuery`] walks the grid cells of its bounding rectangle in
//! row-major order (`first_cell`, then repeated `next_cell`) and accepts or
//! rejects individual positions with `in_range`. The proof obligations of
//! the trait tie the two together: any position the range test accepts has
//! its cell inside the walked rectangle, which is what makes a grid query
//! exact.

use vstd::prelude::*;

verus! {

use vstd::arithmetic::div_mod::{
    lemma_div_is_ordered,
    lemma_div_multiples_vanish,
    lemma_div_nonincreasing,
    lemma_div_pos_is_pos,
    lemma_fundamental_div_mod,
};
use vstd::arithmetic::mul::lemma_mul_inequality;
use crate::fx::{COORD_LIMIT, lemma_mul_within, within};
use crate::spatial_hashmap::{Cell, Grid};
use crate::vec2::Vec2Fx;

/// For positive `s`, stepping a cell is bounded by `b` exactly when the
/// cell index is at most `b / s` (spec `/` floors for positive divisors).
pub proof fn lemma_mul_le_iff_div(x: int, b: int, s: int)
    requires
        1 <= s,
    ensures
        (x * s <= b) <==> (x <= b / s),
{
    if x * s <= b {
        lemma_div_is_ordered(x * s, b, s);
        lemma_div_multiples_vanish(x, s);
        assert(x * s == s * x) by (nonlinear_arith);
    }
    if x <= b / s {
        lemma_mul_inequality(x, b / s, s);
        lemma_fundamental_div_mod(b, s);
        assert((b / s) * s == s * (b / s)) by (nonlinear_arith);
    }
}

/// The cell of a coordinate of magnitude at most `m` has magnitude at most
/// `m` as well, for any positive spacing.
pub proof fn lemma_cell_within(v: int, s: int, m: int)
    requires
        1 <= s,
        within(v, m),
    ensures
        within(v / s, m),
{
    if v >= 0 {
        lemma_div_nonincreasing(v, s);
        lemma_div_pos_is_pos(v, s);
    } else {
        assert(v * s <= v) by (nonlinear_arith)
            requires
                v < 0 && s >= 1,
        ;
        lemma_div_is_ordered(v * s, v, s);
        lemma_div_multiples_vanish(v, s);
        assert(v * s == s * v) by (nonlinear_arith);
        lemma_div_is_ordered(v, 0, s);
        assert(0int / s == 0) by {
            lemma_div_pos_is_pos(0, s);
            lemma_div_nonincreasing(0, s);
        }
    }
}

/// A query shape: a range predicate over positions, together with the
/// row-major walk of the grid cells of the shape's bounding rectangle.
pub trait SpatialQuery: Sized {
    /// The shape's parameters stay within the coordinate range.
    spec fn wf(&self) -> bool;

    /// The range test, at spec level.
    spec fn in_range_spec(&self, position: Vec2Fx) -> bool;

    /// Lowest cell column the walk visits.
    spec fn x_lo(&self, grid: Grid) -> int;

    /// Highest cell column the walk visits.
    spec fn x_hi(&self, grid: Grid) -> int;

    /// Lowest cell row the walk visits.
    spec fn y_lo(&self, grid: Grid) -> int;

    /// Highest cell row the walk visits.
    spec fn y_hi(&self, grid: Grid) -> int;

    /// The walked rectangle is ordered and stays within twice the
    /// coordinate range.
    proof fn lemma_box_wf(&self, grid: Grid)
        requires
            self.wf(),
            grid.wf(),
        ensures
            self.x_lo(grid) <= self.x_hi(grid),
            self.y_lo(grid) <= self.y_hi(grid),
            within(self.x_lo(grid), 2 * COORD_LIMIT as int),
            within(self.x_hi(grid), 2 * COORD_LIMIT as int),
            within(self.y_lo(grid), 2 * COORD_LIMIT as int),
            within(self.y_hi(grid), 2 * COORD_LIMIT as int),
    ;

    /// Any in-range position lies, cell-wise, inside the walked rectangle:
    /// the walk cannot miss an in-range entry.
    proof fn lemma_in_range_in_box(&self, grid: Grid, position: Vec2Fx)
        requires
            self.wf(),
            grid.wf(),
            position.wf(),
            self.in_range_spec(position),
        ensures
            self.x_lo(grid) <= grid.cell1d(position.x as int) <= self.x_hi(grid),
            self.y_lo(grid) <= grid.cell1d(position.y as int) <= self.y_hi(grid),
    ;

    /// The first cell of the walk: the low corner of the rectangle.
    fn first_cell(&self, grid: Grid) -> (c: Cell)
        requires
            self.wf(),
            grid.wf(),
        ensures
            c.x == self.x_lo(grid),
            c.y == self.y_lo(grid),
    ;

    /// The cell after `cell` in row-major order: advance one column; past
    /// the last column, restart at the first column of the next row; past
    /// the last row, stop.
    fn next_cell(&self, cell: Cell, grid: Grid) -> (r: Option<Cell>)
        requires
            self.wf(),
            grid.wf(),
            within(cell.x as int, 2 * COORD_LIMIT as int + 1),
            within(cell.y as int, 2 * COORD_LIMIT as int + 1),
        ensures
            ({
                let xn: int = if cell.x + 1 <= self.x_hi(grid) {
                    cell.x + 1
                } else {
                    self.x_lo(grid)
                };
                let yn: int = if cell.x + 1 <= self.x_hi(grid) {
                    cell.y as int
                } else {
                    cell.y + 1
                };
                if yn <= self.y_hi(grid) {
                    r matches Some(c) && c.x == xn && c.y == yn
                } else {
                    r is None
                }
            }),
    ;

    /// The range test.
    fn in_range(&self, position: Vec2Fx) -> (r: bool)
        requires
            self.wf(),
            position.wf(),
        ensures
            r == self.in_range_spec(position),
    ;
}

/// An axis-aligned square range: half-open per-axis bounds
/// `center - radius <= p < center + radius`.
#[derive(Clone, Copy, Debug)]
pub struct SquareQuery {
    pub center: Vec2Fx,
    pub radius: i64,
}

impl SquareQuery {
    pub fn new(center: Vec2Fx, radius: i64) -> (r: SquareQuery)
        requires
            center.wf(),
            0 <= radius <= COORD_LIMIT,
        ensures
            r.center == center,
            r.radius == radius,
            r.wf(),
    {
        SquareQuery { center, radius }
    }
}

impl SpatialQuery for SquareQuery {
    open spec fn wf(&self) -> bool {
        self.center.wf() && 0 <= self.radius <= COORD_LIMIT
    }

    open spec fn in_range_spec(&self, position: Vec2Fx) -> bool {
        &&& self.center.x - self.radius <= position.x < self.center.x + self.radius
        &&& self.center.y - self.radius <= position.y < self.center.y + self.radius
    }

    open spec fn x_lo(&self, grid: Grid) -> int {
        grid.cell1d(self.center.x - self.radius)
    }

    open spec fn x_hi(&self, grid: Grid) -> int {
        grid.cell1d(self.center.x + self.radius)
    }

    open spec fn y_lo(&self, grid: Grid) -> int {
        grid.cell1d(self.center.y - self.radius)
    }

    open spec fn y_hi(&self, grid: Grid) -> int {
        grid.cell1d(self.center.y + self.radius)
    }

    proof fn lemma_box_wf(&self, grid: Grid) {
        let s = grid.spacing as int;
        lemma_div_is_ordered(self.center.x - self.radius, self.center.x + self.radius, s);
        lemma_div_is_ordered(self.center.y - self.radius, self.center.y + self.radius, s);
        lemma_cell_within(self.center.x - self.radius, s, 2 * COORD_LIMIT as int);
        lemma_cell_within(self.center.x + self.radius, s, 2 * COORD_LIMIT as int);
        lemma_cell_within(self.center.y - self.radius, s, 2 * COORD_LIMIT as int);
        lemma_cell_within(self.center.y + self.radius, s, 2 * COORD_LIMIT as int);
    }

    proof fn lemma_in_range_in_box(&self, grid: Grid, position: Vec2Fx) {
        let s = grid.spacing as int;
        lemma_div_is_ordered(self.center.x - self.radius, position.x as int, s);
        lemma_div_is_ordered(position.x as int, self.center.x + self.radius, s);
        lemma_div_is_ordered(self.center.y - self.radius, position.y as int, s);
        lemma_div_is_ordered(position.y as int, self.center.y + self.radius, s);
    }

    fn first_cell(&self, grid: Grid) -> (c: Cell)
    {
        let low = Vec2Fx::new(self.center.x - self.radius, self.center.y - self.radius);
        grid.index2d(low)
    }

    fn next_cell(&self, cell: Cell, grid: Grid) -> (r: Option<Cell>)
    {
        next_cell_in_box(
            cell,
            grid,
            self.center.x,
            self.center.y,
            self.radius,
            Ghost(self.x_lo(grid)),
            Ghost(self.x_hi(grid)),
            Ghost(self.y_hi(grid)),
        )
    }

    fn in_range(&self, position: Vec2Fx) -> (r: bool)
    {
        position.x >= self.center.x - self.radius && position.x < self.center.x + self.radius
            && position.y >= self.center.y - self.radius && position.y < self.center.y
            + self.radius
    }
}

/// A circular range: strict squared-distance comparison
/// `|p - center|^2 < radius^2`, avoiding any square root.
#[derive(Clone, Copy, Debug)]
pub struct CircleQuery {
    pub center: Vec2Fx,
    pub radius: i64,
}

impl CircleQuery {
    pub fn new(center: Vec2Fx, radius: i64) -> (r: CircleQuery)
        requires
            center.wf(),
            0 <= radius <= COORD_LIMIT,
        ensures
            r.center == center,
            r.radius == radius,
            r.wf(),
    {
        CircleQuery { center, radius }
    }
}

impl SpatialQuery for CircleQuery {
    open spec fn wf(&self) -> bool {
        self.center.wf() && 0 <= self.radius <= COORD_LIMIT
    }

    open spec fn in_range_spec(&self, position: Vec2Fx) -> bool {
        let dx = position.x - self.center.x;
        let dy = position.y - self.center.y;
        dx * dx + dy * dy < self.radius * self.radius
    }

    open spec fn x_lo(&self, grid: Grid) -> int {
        grid.cell1d(self.center.x - self.radius)
    }

    open spec fn x_hi(&self, grid: Grid) -> int {
        grid.cell1d(self.center.x + self.radius)
    }

    open spec fn y_lo(&self, grid: Grid) -> int {
        grid.cell1d(self.center.y - self.radius)
    }

    open spec fn y_hi(&self, grid: Grid) -> int {
        grid.cell1d(self.center.y + self.radius)
    }

    proof fn lemma_box_wf(&self, grid: Grid) {
        let s = grid.spacing as int;
        lemma_div_is_ordered(self.center.x - self.radius, self.center.x + self.radius, s);
        lemma_div_is_ordered(self.center.y - self.radius, self.center.y + self.radius, s);
        lemma_cell_within(self.center.x - self.radius, s, 2 * COORD_LIMIT as int);
        lemma_cell_within(self.center.x + self.radius, s, 2 * COORD_LIMIT as int);
        lemma_cell_within(self.center.y - self.radius, s, 2 * COORD_LIMIT as int);
        lemma_cell_within(self.center.y + self.radius, s, 2 * COORD_LIMIT as int);
    }

    proof fn lemma_in_range_in_box(&self, grid: Grid, position: Vec2Fx) {
        let s = grid.spacing as int;
        let dx = position.x - self.center.x;
        let dy = position.y - self.center.y;
        assert(-self.radius < dx < self.radius && -self.radius < dy < self.radius)
            by (nonlinear_arith)
            requires
                dx * dx + dy * dy < (self.radius as int) * (self.radius as int),
                self.radius >= 0,
        ;
        lemma_div_is_ordered(self.center.x - self.radius, position.x as int, s);
        lemma_div_is_ordered(position.x as int, self.center.x + self.radius, s);
        lemma_div_is_ordered(self.center.y - self.radius, position.y as int, s);
        lemma_div_is_ordered(position.y as int, self.center.y + self.radius, s);
    }

    fn first_cell(&self, grid: Grid) -> (c: Cell)
    {
        let low = Vec2Fx::new(self.center.x - self.radius, self.center.y - self.radius);
        grid.index2d(low)
    }

    fn next_cell(&self, cell: Cell, grid: Grid) -> (r: Option<Cell>)
    {
        next_cell_in_box(
            cell,
            grid,
            self.center.x,
            self.center.y,
            self.radius,
            Ghost(self.x_lo(grid)),
            Ghost(self.x_hi(grid)),
            Ghost(self.y_hi(grid)),
        )
    }

    fn in_range(&self, position: Vec2Fx) -> (r: bool)
    {
        let dx: i128 = position.x as i128 - self.center.x as i128;
        let dy: i128 = position.y as i128 - self.center.y as i128;
        proof {
            let l = 2 * COORD_LIMIT as int;
            lemma_mul_within(dx as int, dx as int, l, l);
            lemma_mul_within(dy as int, dy as int, l, l);
            lemma_mul_within(self.radius as int, self.radius as int, COORD_LIMIT as int,
                COORD_LIMIT as int);
            assert(0 <= dx * dx && 0 <= dy * dy) by (nonlinear_arith);
        }
        dx * dx + dy * dy < (self.radius as i128) * (self.radius as i128)
    }
}

/// Shared row-major step for both shapes: advance one column within the
/// bounding box of `(cx, cy)` extended by `radius`; wrap to the next row
/// when the column's low edge passes `cx + radius`; stop when the row's
/// low edge passes `cy + radius`.
fn next_cell_in_box(
    cell: Cell,
    grid: Grid,
    cx: i64,
    cy: i64,
    radius: i64,
    x_lo: Ghost<int>,
    x_hi: Ghost<int>,
    y_hi: Ghost<int>,
) -> (r: Option<Cell>)
    requires
        grid.wf(),
        within(cx as int, COORD_LIMIT as int),
        within(cy as int, COORD_LIMIT as int),
        0 <= radius <= COORD_LIMIT,
        within(cell.x as int, 2 * COORD_LIMIT as int + 1),
        within(cell.y as int, 2 * COORD_LIMIT as int + 1),
        x_lo@ == grid.cell1d(cx - radius),
        x_hi@ == grid.cell1d(cx + radius),
        y_hi@ == grid.cell1d(cy + radius),
    ensures
        ({
            let xn: int = if cell.x + 1 <= x_hi@ {
                cell.x + 1
            } else {
                x_lo@
            };
            let yn: int = if cell.x + 1 <= x_hi@ {
                cell.y as int
            } else {
                cell.y + 1
            };
            if yn <= y_hi@ {
                r matches Some(c) && c.x == xn && c.y == yn
            } else {
                r is None
            }
        }),
{
    let s = grid.spacing;
    let nx: i64 = cell.x + 1;
    proof {
        lemma_mul_le_iff_div(nx as int, cx + radius, s as int);
        lemma_mul_le_iff_div(cell.y as int, cy + radius, s as int);
        lemma_mul_le_iff_div(cell.y + 1, cy + radius, s as int);
        lemma_cell_within(cx - radius, s as int, 2 * COORD_LIMIT as int);
        lemma_mul_within(nx as int, s as int, 2 * COORD_LIMIT as int + 2, COORD_LIMIT as int);
        lemma_mul_within(cell.y as int, s as int, 2 * COORD_LIMIT as int + 2, COORD_LIMIT as int);
        lemma_mul_within(cell.y + 1, s as int, 2 * COORD_LIMIT as int + 2, COORD_LIMIT as int);
    }
    let (x1, y1): (i64, i64) = if (nx as i128) * (s as i128) > (cx as i128) + (radius as i128) {
        let lo = grid.index1d(cx - radius);
        let ny: i64 = cell.y + 1;
        (lo, ny)
    } else {
        (nx, cell.y)
    };
    if (y1 as i128) * (s as i128) > (cy as i128) + (radius as i128) {
        None
    } else {
        Some(Cell { x: x1, y: y1 })
    }
}

} // verus!
