//! The player's body, the circle test against the grid, and sliding movement.

use crate::fixed::clamp_i64;
use crate::fixed::clamp_to;
use crate::fixed::floor_div;
use crate::fixed::in_world;
use crate::fixed::is_length;
use crate::fixed::lemma_floor_div_order;
use crate::fixed::lemma_square_monotone;
use crate::level::valid_cell_size;
use crate::level::Grid;
use vstd::prelude::*;

verus! {

/// The radius of a body, in sub-units.
pub const BODY_RADIUS: i64 = 12_000;

/// The player's speed, in sub-units per second.
pub const PLAYER_SPEED: i64 = 150_000;

/// The player's turning speed, in micro-radians per second.
pub const PLAYER_ROT_SPEED: i64 = 2_500_000;

/// The signed distance, along one axis, from the centre coordinate `c` to
/// the nearest point of cell `cell`.
pub open spec fn axis_gap(c: int, cell: int, cell_size: int) -> int {
    c - clamp_to(c, cell * cell_size, (cell + 1) * cell_size)
}

/// The circle with centre `(cx, cy)` and radius `r` overlaps the square of
/// the cell in column `col` and row `row`: the point of the square nearest
/// to the centre is nearer than `r`.
pub open spec fn touches_cell(
    cx: int,
    cy: int,
    r: int,
    col: int,
    row: int,
    cell_size: int,
) -> bool {
    let dx = axis_gap(cx, col, cell_size);
    let dy = axis_gap(cy, row, cell_size);
    dx * dx + dy * dy < r * r
}

/// The circle overlaps some blocking cell of the grid.
pub open spec fn collides(grid: &Grid, cell_size: int, cx: int, cy: int, r: int) -> bool {
    exists|col: int, row: int| #[trigger]
        grid.blocked_at(col, row) && touches_cell(cx, cy, r, col, row, cell_size)
}

/// A cell that the circle overlaps along one axis lies between the cells of
/// the circle's two ends on that axis.
pub proof fn lemma_touch_in_range(c: int, r: int, cell: int, cell_size: int)
    requires
        cell_size > 0,
        r >= 0,
        axis_gap(c, cell, cell_size) * axis_gap(c, cell, cell_size) < r * r,
    ensures
        (c - r) / cell_size <= cell <= (c + r) / cell_size,
{
    let gap = axis_gap(c, cell, cell_size);
    let lo = cell * cell_size;
    let hi = (cell + 1) * cell_size;
    assert(hi == lo + cell_size) by (nonlinear_arith)
        requires
            lo == cell * cell_size,
            hi == (cell + 1) * cell_size,
    ;
    if gap >= r {
        lemma_square_monotone(r, gap);
    }
    if -gap >= r {
        lemma_square_monotone(r, -gap);
        assert((-gap) * (-gap) == gap * gap) by (nonlinear_arith);
    }
    assert(-r < gap < r);
    assert(lo <= c + r);
    assert(hi > c - r);
    lemma_floor_div_order(c + r, cell_size, cell);
    lemma_floor_div_order(c - r, cell_size, cell + 1);
}

/// The bounding box of the circle with centre `(cx, cy)` and radius `r`
/// reaches the cell in column `col` and row `row`.
pub open spec fn box_reaches(cx: int, cy: int, r: int, col: int, row: int, cell_size: int) -> bool {
    &&& (cx - r) / cell_size <= col <= (cx + r) / cell_size
    &&& (cy - r) / cell_size <= row <= (cy + r) / cell_size
}

/// A circle whose bounding box reaches no blocking cell of the grid overlaps none.
pub proof fn lemma_free_box_no_collision(grid: &Grid, cell_size: int, cx: int, cy: int, r: int)
    requires
        cell_size > 0,
        r >= 0,
        forall|col: int, row: int|
            box_reaches(cx, cy, r, col, row, cell_size) ==> !#[trigger] grid.blocked_at(col, row),
    ensures
        !collides(grid, cell_size, cx, cy, r),
{
    assert forall|col: int, row: int| #[trigger]
        grid.blocked_at(col, row) implies !touches_cell(cx, cy, r, col, row, cell_size) by {
        if touches_cell(cx, cy, r, col, row, cell_size) {
            let dx = axis_gap(cx, col, cell_size);
            let dy = axis_gap(cy, row, cell_size);
            assert(dx * dx >= 0 && dy * dy >= 0) by (nonlinear_arith);
            lemma_touch_in_range(cx, r, col, cell_size);
            lemma_touch_in_range(cy, r, row, cell_size);
        }
    }
}

/// A circle of positive radius whose centre lies in a blocking cell of the
/// grid overlaps that cell.
pub proof fn lemma_centre_in_blocking_cell_collides(
    grid: &Grid,
    cell_size: int,
    cx: int,
    cy: int,
    r: int,
)
    requires
        cell_size > 0,
        r > 0,
        grid.blocked_at(cx / cell_size, cy / cell_size),
    ensures
        collides(grid, cell_size, cx, cy, r),
{
    let col = cx / cell_size;
    let row = cy / cell_size;
    lemma_floor_div_order(cx, cell_size, col);
    lemma_floor_div_order(cx, cell_size, col + 1);
    lemma_floor_div_order(cy, cell_size, row);
    lemma_floor_div_order(cy, cell_size, row + 1);
    assert(axis_gap(cx, col, cell_size) == 0);
    assert(axis_gap(cy, row, cell_size) == 0);
    assert(r * r > 0) by (nonlinear_arith)
        requires
            r > 0,
    ;
    assert(grid.blocked_at(col, row) && touches_cell(cx, cy, r, col, row, cell_size));
}

/// Whether the circle overlaps the square of one cell.
fn circle_touches_cell(cx: i64, cy: i64, r: i64, col: i64, row: i64, cell_size: i64) -> (hit: bool)
    requires
        in_world(cx as int),
        in_world(cy as int),
        is_length(r as int),
        valid_cell_size(cell_size as int),
        0 <= col <= (cx + r) / (cell_size as int),
        0 <= row <= (cy + r) / (cell_size as int),
    ensures
        hit == touches_cell(
            cx as int,
            cy as int,
            r as int,
            col as int,
            row as int,
            cell_size as int,
        ),
{
    proof {
        lemma_floor_div_order(cx + r, cell_size as int, col as int);
        lemma_floor_div_order(cy + r, cell_size as int, row as int);
        assert(col * cell_size >= 0 && row * cell_size >= 0) by (nonlinear_arith)
            requires
                col >= 0,
                row >= 0,
                cell_size > 0,
        ;
        assert((col + 1) * cell_size == col * cell_size + cell_size && (row + 1) * cell_size == row
            * cell_size + cell_size) by (nonlinear_arith);
    }
    let left: i64 = col * cell_size;
    let top: i64 = row * cell_size;
    let dx: i128 = (cx - clamp_i64(cx, left, left + cell_size)) as i128;
    let dy: i128 = (cy - clamp_i64(cy, top, top + cell_size)) as i128;
    let reach: i128 = r as i128;
    proof {
        assert(0 <= dx * dx <= 4_000_000_000_000 * 4_000_000_000_000) by (nonlinear_arith)
            requires
                -4_000_000_000_000 <= dx <= 4_000_000_000_000,
        ;
        assert(0 <= dy * dy <= 4_000_000_000_000 * 4_000_000_000_000) by (nonlinear_arith)
            requires
                -4_000_000_000_000 <= dy <= 4_000_000_000_000,
        ;
        assert(reach * reach <= 1_000_000_000_000 * 1_000_000_000_000 && reach * reach >= 0)
            by (nonlinear_arith)
            requires
                0 <= reach <= 1_000_000_000_000,
        ;
    }
    dx * dx + dy * dy < reach * reach
}

/// Whether the circle with centre `(cx, cy)` and radius `r` overlaps a
/// blocking cell of the grid. Walkable cells and everything outside the
/// grid overlap nothing.
pub fn circle_collides(cx: i64, cy: i64, r: i64, grid: &Grid, cell_size: i64) -> (hit: bool)
    requires
        grid.wf(),
        in_world(cx as int),
        in_world(cy as int),
        is_length(r as int),
        valid_cell_size(cell_size as int),
    ensures
        hit == collides(grid, cell_size as int, cx as int, cy as int, r as int),
{
    let min_col: i64 = floor_div(cx - r, cell_size);
    let max_col: i64 = floor_div(cx + r, cell_size);
    let min_row: i64 = floor_div(cy - r, cell_size);
    let max_row: i64 = floor_div(cy + r, cell_size);
    let first_col: i64 = if min_col < 0 {
        0
    } else {
        min_col
    };
    let first_row: i64 = if min_row < 0 {
        0
    } else {
        min_row
    };
    proof {
        lemma_floor_div_order(cx + r, cell_size as int, max_col as int);
        lemma_floor_div_order(cy + r, cell_size as int, max_row as int);
        assert(max_col <= 2_000_000_000_000) by (nonlinear_arith)
            requires
                max_col * cell_size <= cx + r,
                cx + r <= 2_000_000_000_000,
                cell_size >= 1,
        ;
        assert(max_row <= 2_000_000_000_000) by (nonlinear_arith)
            requires
                max_row * cell_size <= cy + r,
                cy + r <= 2_000_000_000_000,
                cell_size >= 1,
        ;
    }
    let mut row: i64 = first_row;
    while row <= max_row && grid.cell_at(0, row).is_some()
        invariant
            grid.wf(),
            in_world(cx as int),
            in_world(cy as int),
            is_length(r as int),
            valid_cell_size(cell_size as int),
            max_col == (cx + r) / (cell_size as int),
            max_row == (cy + r) / (cell_size as int),
            0 <= first_col,
            0 <= first_row <= row,
            max_col <= 2_000_000_000_000,
            max_row <= 2_000_000_000_000,
            forall|c: int, w: int|
                first_col <= c <= max_col && first_row <= w < row && #[trigger] grid.blocked_at(c, w)
                    ==> !touches_cell(cx as int, cy as int, r as int, c, w, cell_size as int),
        decreases max_row + 1 - row,
    {
        let mut col: i64 = first_col;
        while col <= max_col && grid.cell_at(col, row).is_some()
            invariant
                grid.wf(),
                in_world(cx as int),
                in_world(cy as int),
                is_length(r as int),
                valid_cell_size(cell_size as int),
                max_col == (cx + r) / (cell_size as int),
                max_row == (cy + r) / (cell_size as int),
                0 <= first_col <= col,
                max_col <= 2_000_000_000_000,
                max_row <= 2_000_000_000_000,
                0 <= first_row <= row <= max_row,
                grid.contains(0, row as int),
                forall|c: int, w: int|
                    first_col <= c <= max_col && first_row <= w < row && #[trigger] grid.blocked_at(
                        c,
                        w,
                    ) ==> !touches_cell(cx as int, cy as int, r as int, c, w, cell_size as int),
                forall|c: int|
                    first_col <= c < col && #[trigger] grid.blocked_at(c, row as int)
                        ==> !touches_cell(
                        cx as int,
                        cy as int,
                        r as int,
                        c,
                        row as int,
                        cell_size as int,
                    ),
            decreases max_col + 1 - col,
        {
            if grid.is_blocked_at(col, row) && circle_touches_cell(cx, cy, r, col, row, cell_size) {
                assert(grid.blocked_at(col as int, row as int) && touches_cell(
                    cx as int,
                    cy as int,
                    r as int,
                    col as int,
                    row as int,
                    cell_size as int,
                ));
                return true;
            }
            col = col + 1;
        }
        row = row + 1;
    }
    proof {
        assert forall|c: int, w: int| #[trigger] grid.blocked_at(c, w) implies !touches_cell(
            cx as int,
            cy as int,
            r as int,
            c,
            w,
            cell_size as int,
        ) by {
            if touches_cell(cx as int, cy as int, r as int, c, w, cell_size as int) {
                let dx = axis_gap(cx as int, c, cell_size as int);
                let dy = axis_gap(cy as int, w, cell_size as int);
                assert(dx * dx >= 0 && dy * dy >= 0) by (nonlinear_arith);
                lemma_touch_in_range(cx as int, r as int, c, cell_size as int);
                lemma_touch_in_range(cy as int, r as int, w, cell_size as int);
            }
        }
    }
    false
}

/// Where a body ends that tries to move by `(dx, dy)` from `(x, y)`: at the
/// full displacement if it is free there; else at the displacement along
/// the horizontal axis alone; else along the vertical axis alone; else
/// where it was.
pub open spec fn slide_target(
    grid: &Grid,
    cell_size: int,
    x: int,
    y: int,
    r: int,
    dx: int,
    dy: int,
) -> (int, int) {
    if !collides(grid, cell_size, x + dx, y + dy, r) {
        (x + dx, y + dy)
    } else if !collides(grid, cell_size, x + dx, y, r) {
        (x + dx, y)
    } else if !collides(grid, cell_size, x, y + dy, r) {
        (x, y + dy)
    } else {
        (x, y)
    }
}

/// A displacement of zero never changes the position.
pub proof fn lemma_zero_displacement_stays(grid: &Grid, cell_size: int, x: int, y: int, r: int)
    ensures
        slide_target(grid, cell_size, x, y, r, 0, 0) == (x, y),
{
}

/// A body never ends in a place where it overlaps a blocking cell, unless
/// it started in one and stayed.
pub proof fn lemma_slide_target_is_free(
    grid: &Grid,
    cell_size: int,
    x: int,
    y: int,
    r: int,
    dx: int,
    dy: int,
)
    ensures
        ({
            let t = slide_target(grid, cell_size, x, y, r, dx, dy);
            t == (x, y) || !collides(grid, cell_size, t.0, t.1, r)
        }),
{
}

/// The player: a position, a facing angle in micro-radians, a body radius,
/// a speed in sub-units per second and a turning speed in micro-radians per
/// second.
#[derive(Debug, Clone, Copy, PartialEq, Eq, Structural)]
pub struct Player {
    pub x: i64,
    pub y: i64,
    pub dir: i64,
    pub radius: i64,
    pub speed: i64,
    pub rot_speed: i64,
}

impl Player {
    /// Position and angle lie in the world; radius and speeds are lengths.
    pub open spec fn wf(&self) -> bool {
        &&& in_world(self.x as int)
        &&& in_world(self.y as int)
        &&& in_world(self.dir as int)
        &&& is_length(self.radius as int)
        &&& is_length(self.speed as int)
        &&& is_length(self.rot_speed as int)
    }

    /// A player at `(x, y)`, facing east.
    pub open spec fn spec_new(x: i64, y: i64) -> Player {
        Player {
            x,
            y,
            dir: 0,
            radius: BODY_RADIUS,
            speed: PLAYER_SPEED,
            rot_speed: PLAYER_ROT_SPEED,
        }
    }

    /// A player at `(x, y)`, facing east.
    pub fn new(x: i64, y: i64) -> (player: Player)
        ensures
            player == Player::spec_new(x, y),
            in_world(x as int) && in_world(y as int) ==> player.wf(),
    {
        Player {
            x,
            y,
            dir: 0,
            radius: BODY_RADIUS,
            speed: PLAYER_SPEED,
            rot_speed: PLAYER_ROT_SPEED,
        }
    }

    /// Moves the player by `(dx, dy)` as far as the grid lets it slide.
    /// Only the place where the move ends is tested: a displacement longer
    /// than a wall is thick can end beyond the wall.
    pub fn try_move(&mut self, dx: i64, dy: i64, grid: &Grid, cell_size: i64)
        requires
            old(self).wf(),
            grid.wf(),
            valid_cell_size(cell_size as int),
            in_world(old(self).x + dx),
            in_world(old(self).y + dy),
        ensures
            final(self).wf(),
            (final(self).x as int, final(self).y as int) == slide_target(
                grid,
                cell_size as int,
                old(self).x as int,
                old(self).y as int,
                old(self).radius as int,
                dx as int,
                dy as int,
            ),
            final(self).dir == old(self).dir,
            final(self).radius == old(self).radius,
            final(self).speed == old(self).speed,
            final(self).rot_speed == old(self).rot_speed,
    {
        let nx: i64 = self.x + dx;
        let ny: i64 = self.y + dy;
        if !circle_collides(nx, ny, self.radius, grid, cell_size) {
            self.x = nx;
            self.y = ny;
            return ;
        }
        if !circle_collides(nx, self.y, self.radius, grid, cell_size) {
            self.x = nx;
            return ;
        }
        if !circle_collides(self.x, ny, self.radius, grid, cell_size) {
            self.y = ny;
            return ;
        }
    }
}

} // verus!
