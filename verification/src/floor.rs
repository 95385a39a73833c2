//! The floor pass of the projection: the pixels below the horizon that show
//! a goal tile.

use crate::cast::Heading;
use crate::fixed::floor_div;
use crate::fixed::floor_div_wide;
use crate::fixed::in_world;
use crate::fixed::lemma_quotient_within;
use crate::fixed::UNIT;
use crate::level::valid_cell_size;
use crate::level::Cell;
use crate::level::Grid;
use crate::renderer::column_count;
use crate::renderer::Screen;
use crate::renderer::RAY_STRIDE;
use vstd::prelude::*;

verus! {

/// The tangent of half the field of view, times `UNIT`.
pub const TAN_HALF_FOV: i64 = 577;

/// A strip of floor on the screen, one pixel high: the columns from `x`
/// on, `width` of them, on scanline `y`.
#[derive(Debug, Clone, Copy, PartialEq, Eq, Structural)]
pub struct FloorSpan {
    pub x: i64,
    pub y: i64,
    pub width: i64,
}

/// A coordinate of the point of the floor that the pixel in column `x` of
/// scanline `y` shows, for a camera at `origin` on that axis. `along` is
/// the component of the camera's heading on the axis and `across` the
/// component of the heading a quarter turn further: the view plane runs
/// along the latter, `TAN_HALF_FOV` to either side. The point lies the
/// farther off, the nearer the scanline is to the horizon in the middle of
/// the screen.
pub open spec fn floor_point(
    origin: int,
    along: int,
    across: int,
    x: int,
    y: int,
    screen: Screen,
) -> int {
    let below = y - screen.height / 2;
    origin + screen.height * (along * UNIT * screen.width + across * TAN_HALF_FOV * (2 * x
        - screen.width)) / (2 * below * UNIT * screen.width)
}

/// The pixel in column `x` of scanline `y` shows a goal tile.
pub open spec fn goal_under(
    grid: &Grid,
    cell_size: int,
    px: int,
    py: int,
    heading: Heading,
    x: int,
    y: int,
    screen: Screen,
) -> bool {
    grid.lookup(
        floor_point(px, heading.x as int, -heading.y, x, y, screen) / cell_size,
        floor_point(py, heading.y as int, heading.x as int, x, y, screen) / cell_size,
    ) == Some(Cell::Goal)
}

/// The spans of scanline `y` over its first `n` sampled columns: one for
/// each `RAY_STRIDE`-th column that shows a goal tile.
pub open spec fn scanline_spans(
    grid: &Grid,
    cell_size: int,
    px: int,
    py: int,
    heading: Heading,
    y: int,
    screen: Screen,
    n: nat,
) -> Seq<FloorSpan>
    decreases n,
{
    if n == 0 {
        Seq::empty()
    } else {
        let rest = scanline_spans(grid, cell_size, px, py, heading, y, screen, (n - 1) as nat);
        let x = (n - 1) * RAY_STRIDE;
        if goal_under(grid, cell_size, px, py, heading, x, y, screen) {
            rest.push(
                FloorSpan {
                    x: x as i64,
                    y: y as i64,
                    width: (if screen.width - x < RAY_STRIDE {
                        screen.width - x
                    } else {
                        RAY_STRIDE as int
                    }) as i64,
                },
            )
        } else {
            rest
        }
    }
}

/// The spans of the first `n` scanlines below the horizon, from the top.
pub open spec fn floor_spans(
    grid: &Grid,
    cell_size: int,
    px: int,
    py: int,
    heading: Heading,
    screen: Screen,
    n: nat,
) -> Seq<FloorSpan>
    decreases n,
{
    if n == 0 {
        Seq::empty()
    } else {
        floor_spans(grid, cell_size, px, py, heading, screen, (n - 1) as nat) + scanline_spans(
            grid,
            cell_size,
            px,
            py,
            heading,
            screen.height / 2 + n,
            screen,
            column_count(screen.width as int) as nat,
        )
    }
}

/// A coordinate of the point of the floor that a pixel shows.
fn floor_coordinate(origin: i64, along: i64, across: i64, x: i64, y: i64, screen: Screen) -> (c:
    i64)
    requires
        in_world(origin as int),
        -UNIT <= along <= UNIT,
        -UNIT <= across <= UNIT,
        screen.wf(),
        0 <= x < screen.width,
        screen.height / 2 < y < screen.height,
    ensures
        c == floor_point(origin as int, along as int, across as int, x as int, y as int, screen),
{
    let below: i128 = (y - screen.height / 2) as i128;
    let width: i128 = screen.width as i128;
    let height: i128 = screen.height as i128;
    let spread: i128 = (2 * x - screen.width) as i128;
    let a: i128 = (along as i128) * (UNIT as i128);
    assert(-1_000_000_000_000 <= a * width <= 1_000_000_000_000) by (nonlinear_arith)
        requires
            -1_000_000 <= a <= 1_000_000,
            0 < width <= 1_000_000,
    ;
    assert(-577_000 <= across * TAN_HALF_FOV <= 577_000) by (nonlinear_arith)
        requires
            -1000 <= across <= 1000,
            TAN_HALF_FOV == 577,
    ;
    let b: i128 = (across as i128) * (TAN_HALF_FOV as i128);
    assert(-577_000_000_000 <= b * spread <= 577_000_000_000) by (nonlinear_arith)
        requires
            -577_000 <= b <= 577_000,
            -1_000_000 <= spread <= 1_000_000,
    ;
    let sum: i128 = a * width + b * spread;
    assert(-1_577_000_000_000_000_000 <= height * sum <= 1_577_000_000_000_000_000)
        by (nonlinear_arith)
        requires
            0 < height <= 1_000_000,
            -1_577_000_000_000 <= sum <= 1_577_000_000_000,
    ;
    let num: i128 = height * sum;
    assert(2 * below * UNIT * width == (2000 * below) * width && 2000 <= (2000 * below) * width
        <= 2_000_000_000 * 1_000_000) by (nonlinear_arith)
        requires
            1 <= below <= 1_000_000,
            1 <= width <= 1_000_000,
    ;
    let den_x: i128 = 2 * below * (UNIT as i128) * width;
    proof {
        assert(num == screen.height * (along * UNIT * screen.width + across * TAN_HALF_FOV * (2 * x
            - screen.width))) by (nonlinear_arith)
            requires
                num == height * sum,
                sum == a * width + b * spread,
                a == along * UNIT,
                b == across * TAN_HALF_FOV,
                width == screen.width,
                height == screen.height,
                spread == 2 * x - screen.width,
        ;
        lemma_quotient_within(num as int, den_x as int, 1_577_000_000_000_000_000);
    }
    let shift: i128 = floor_div_wide(num, den_x);
    (origin as i128 + shift) as i64
}

/// The floor overlay: for every scanline below the horizon and every
/// `RAY_STRIDE`-th column, the point of the floor that the pixel shows is
/// found from the camera's position and heading, and the pixels that show
/// a goal tile are returned as spans, scanline by scanline from the top
/// and from left to right.
pub fn overlay_goal_floor(
    grid: &Grid,
    cell_size: i64,
    px: i64,
    py: i64,
    heading: Heading,
    screen: Screen,
) -> (spans: Vec<FloorSpan>)
    requires
        grid.wf(),
        valid_cell_size(cell_size as int),
        in_world(px as int),
        in_world(py as int),
        heading.wf(),
        screen.wf(),
    ensures
        spans@ == floor_spans(
            grid,
            cell_size as int,
            px as int,
            py as int,
            heading,
            screen,
            (screen.height - screen.height / 2 - 1) as nat,
        ),
{
    let mut spans: Vec<FloorSpan> = Vec::new();
    let horizon: i64 = screen.height / 2;
    let columns: i64 = (screen.width + RAY_STRIDE - 1) / RAY_STRIDE;
    let mut y: i64 = horizon + 1;
    while y < screen.height
        invariant
            grid.wf(),
            valid_cell_size(cell_size as int),
            in_world(px as int),
            in_world(py as int),
            heading.wf(),
            screen.wf(),
            horizon == screen.height / 2,
            columns == column_count(screen.width as int),
            horizon + 1 <= y <= screen.height,
            spans@ == floor_spans(
                grid,
                cell_size as int,
                px as int,
                py as int,
                heading,
                screen,
                (y - horizon - 1) as nat,
            ),
        decreases screen.height - y,
    {
        let ghost before = spans@;
        let mut i: i64 = 0;
        while i < columns
            invariant
                grid.wf(),
                valid_cell_size(cell_size as int),
                in_world(px as int),
                in_world(py as int),
                heading.wf(),
                screen.wf(),
                horizon == screen.height / 2,
                columns == column_count(screen.width as int),
                horizon + 1 <= y < screen.height,
                0 <= i <= columns,
                spans@ == before + scanline_spans(
                    grid,
                    cell_size as int,
                    px as int,
                    py as int,
                    heading,
                    y as int,
                    screen,
                    i as nat,
                ),
            decreases columns - i,
        {
            let x: i64 = i * RAY_STRIDE;
            let ghost so_far = scanline_spans(
                grid,
                cell_size as int,
                px as int,
                py as int,
                heading,
                y as int,
                screen,
                i as nat,
            );
            let fx: i64 = floor_coordinate(px, heading.x, -heading.y, x, y, screen);
            let fy: i64 = floor_coordinate(py, heading.y, heading.x, x, y, screen);
            let cell = grid.cell_at(floor_div(fx, cell_size), floor_div(fy, cell_size));
            match cell {
                Some(Cell::Goal) => {
                    let span = FloorSpan {
                        x,
                        y,
                        width: if screen.width - x < RAY_STRIDE {
                            screen.width - x
                        } else {
                            RAY_STRIDE
                        },
                    };
                    spans.push(span);
                    proof {
                        assert(spans@ == before + so_far.push(span));
                    }
                },
                _ => {},
            }
            i = i + 1;
        }
        y = y + 1;
    }
    spans
}

} // verus!
