//! Ray casting over the grid by marching in steps of a fixed length.

use crate::fixed::clamp_i64;
use crate::fixed::clamp_to;
use crate::fixed::floor_div;
use crate::fixed::floor_rem;
use crate::fixed::in_world;
use crate::fixed::lemma_floor_div_order;
use crate::fixed::UNIT;
use crate::fixed::WORLD_LIMIT;
use crate::level::Grid;
use vstd::prelude::*;

verus! {

/// The length of one marching step, in world units.
pub const RAY_STEP_UNITS: i64 = 4;

/// The length of one marching step, in sub-units.
pub const RAY_STEP: i64 = 4000;

/// The longest ray that can be cast, in sub-units.
pub const RAY_LIMIT: i64 = 4_000_000_000_000;

/// A direction: the cosine and the sine of an angle, each times `UNIT`.
#[derive(Debug, Clone, Copy, PartialEq, Eq, Structural)]
pub struct Heading {
    pub x: i64,
    pub y: i64,
}

impl Heading {
    /// No component is longer than one world unit.
    pub open spec fn wf(&self) -> bool {
        -UNIT <= self.x <= UNIT && -UNIT <= self.y <= UNIT
    }

    /// The heading with the given components, each limited to one world unit.
    pub fn new(x: i64, y: i64) -> (h: Heading)
        ensures
            h.wf(),
            h.x == clamp_to(x as int, -UNIT as int, UNIT as int),
            h.y == clamp_to(y as int, -UNIT as int, UNIT as int),
    {
        Heading { x: clamp_i64(x, -UNIT, UNIT), y: clamp_i64(y, -UNIT, UNIT) }
    }
}

/// Where a ray met a blocking cell.
#[derive(Debug, Clone, Copy, PartialEq, Eq, Structural)]
pub struct RayHit {
    /// The length marched, in sub-units.
    pub distance: i64,
    /// The point reached.
    pub x: i64,
    pub y: i64,
    /// The blocking cell.
    pub map_x: i64,
    pub map_y: i64,
    /// Whether the point lies nearer to the cell's left edge than to its
    /// top edge: the face is then taken to run north to south. This is a
    /// cheap estimate that can be wrong near a cell's corner.
    pub hit_vertical: bool,
}

impl RayHit {
    /// The hit lies within the reach of a ray: a positive distance of at
    /// most `RAY_LIMIT` and one step, a point that far from the world at
    /// most, and a cell with no negative index.
    pub open spec fn wf(&self) -> bool {
        &&& 0 < self.distance < RAY_LIMIT + RAY_STEP
        &&& 0 <= self.x <= WORLD_LIMIT + RAY_LIMIT + RAY_STEP
        &&& 0 <= self.y <= WORLD_LIMIT + RAY_LIMIT + RAY_STEP
        &&& 0 <= self.map_x <= self.x
        &&& 0 <= self.map_y <= self.y
    }
}

/// The number of steps that a ray of length `max_dist` marches at most: the
/// least `n` with `n * RAY_STEP >= max_dist`.
pub open spec fn ray_steps(max_dist: int) -> nat {
    if max_dist <= 0 {
        0
    } else {
        ((max_dist + RAY_STEP - 1) / (RAY_STEP as int)) as nat
    }
}

/// A coordinate of the point after `k` steps from `origin` along a heading
/// component `h`.
pub open spec fn sample(origin: int, h: int, k: nat) -> int {
    origin + k * (h * RAY_STEP_UNITS)
}

/// The hit that step `k` reports.
pub open spec fn hit_at(cell_size: int, px: int, py: int, heading: Heading, k: nat) -> RayHit {
    let x = sample(px, heading.x as int, k);
    let y = sample(py, heading.y as int, k);
    let cx = x / cell_size;
    let cy = y / cell_size;
    RayHit {
        distance: (k * RAY_STEP) as i64,
        x: x as i64,
        y: y as i64,
        map_x: cx as i64,
        map_y: cy as i64,
        hit_vertical: x % cell_size < y % cell_size,
    }
}

/// The point after `k` steps lies in a walkable cell of the grid.
pub open spec fn clear_at(
    grid: &Grid,
    cell_size: int,
    px: int,
    py: int,
    heading: Heading,
    k: nat,
) -> bool {
    let cx = sample(px, heading.x as int, k) / cell_size;
    let cy = sample(py, heading.y as int, k) / cell_size;
    grid.contains(cx, cy) && !grid.at(cx, cy).blocking()
}

/// The point after `k` steps lies in a blocking cell of the grid.
pub open spec fn blocked_step(
    grid: &Grid,
    cell_size: int,
    px: int,
    py: int,
    heading: Heading,
    k: nat,
) -> bool {
    let cx = sample(px, heading.x as int, k) / cell_size;
    let cy = sample(py, heading.y as int, k) / cell_size;
    grid.blocked_at(cx, cy)
}

/// What the march reports from step `k` on, with `n` steps at most: the hit
/// of the first step that reaches a blocking cell, and nothing where the
/// ray leaves the grid first or all steps are clear.
pub open spec fn march(
    grid: &Grid,
    cell_size: int,
    px: int,
    py: int,
    heading: Heading,
    k: nat,
    n: nat,
) -> Option<RayHit>
    decreases n + 1 - k,
{
    if k > n {
        None
    } else if clear_at(grid, cell_size, px, py, heading, k) {
        march(grid, cell_size, px, py, heading, k + 1, n)
    } else if blocked_step(grid, cell_size, px, py, heading, k) {
        Some(hit_at(cell_size, px, py, heading, k))
    } else {
        None
    }
}

/// What a ray from `(px, py)` along `heading` reports within `max_dist`.
pub open spec fn ray_result(
    grid: &Grid,
    cell_size: int,
    px: int,
    py: int,
    heading: Heading,
    max_dist: int,
) -> Option<RayHit> {
    march(grid, cell_size, px, py, heading, 1, ray_steps(max_dist))
}

/// A march whose steps from `k` to `n` are all clear reports nothing.
pub proof fn lemma_clear_march(
    grid: &Grid,
    cell_size: int,
    px: int,
    py: int,
    heading: Heading,
    k: nat,
    n: nat,
)
    requires
        forall|j: nat| k <= j <= n ==> clear_at(grid, cell_size, px, py, heading, j),
    ensures
        march(grid, cell_size, px, py, heading, k, n) is None,
    decreases n + 1 - k,
{
    if k <= n {
        lemma_clear_march(grid, cell_size, px, py, heading, k + 1, n);
    }
}

/// A ray reports no hit where every point that it samples lies in a
/// walkable cell of the grid.
pub proof fn lemma_clear_path_reports_nothing(
    grid: &Grid,
    cell_size: int,
    px: int,
    py: int,
    heading: Heading,
    max_dist: int,
)
    requires
        forall|j: nat|
            1 <= j <= ray_steps(max_dist) ==> clear_at(grid, cell_size, px, py, heading, j),
    ensures
        ray_result(grid, cell_size, px, py, heading, max_dist) is None,
{
    lemma_clear_march(grid, cell_size, px, py, heading, 1, ray_steps(max_dist));
}

/// A march reports a hit exactly where some step reaches a blocking cell
/// after clear steps only, and the hit is that step's.
pub proof fn lemma_march_hit(
    grid: &Grid,
    cell_size: int,
    px: int,
    py: int,
    heading: Heading,
    k: nat,
    n: nat,
    m: nat,
)
    requires
        k <= m <= n,
        forall|j: nat| k <= j < m ==> clear_at(grid, cell_size, px, py, heading, j),
        blocked_step(grid, cell_size, px, py, heading, m),
    ensures
        march(grid, cell_size, px, py, heading, k, n) == Some(
            hit_at(cell_size, px, py, heading, m),
        ),
    decreases m - k,
{
    if k < m {
        lemma_march_hit(grid, cell_size, px, py, heading, k + 1, n, m);
    }
}

/// The hit that a march reports is that of a step into a blocking cell of
/// the grid before which every step was clear.
pub proof fn lemma_march_reports_first_block(
    grid: &Grid,
    cell_size: int,
    px: int,
    py: int,
    heading: Heading,
    k: nat,
    n: nat,
)
    requires
        march(grid, cell_size, px, py, heading, k, n) is Some,
    ensures
        exists|m: nat|
            {
                &&& k <= m <= n
                &&& #[trigger] blocked_step(grid, cell_size, px, py, heading, m)
                &&& march(grid, cell_size, px, py, heading, k, n) == Some(
                    hit_at(cell_size, px, py, heading, m),
                )
                &&& forall|j: nat| k <= j < m ==> clear_at(grid, cell_size, px, py, heading, j)
            },
    decreases n + 1 - k,
{
    if clear_at(grid, cell_size, px, py, heading, k) {
        lemma_march_reports_first_block(grid, cell_size, px, py, heading, k + 1, n);
        let m = choose|m: nat|
            {
                &&& k + 1 <= m <= n
                &&& #[trigger] blocked_step(grid, cell_size, px, py, heading, m)
                &&& march(grid, cell_size, px, py, heading, k + 1, n) == Some(
                    hit_at(cell_size, px, py, heading, m),
                )
                &&& forall|j: nat| k + 1 <= j < m ==> clear_at(grid, cell_size, px, py, heading, j)
            };
        assert(blocked_step(grid, cell_size, px, py, heading, m));
    } else {
        assert(blocked_step(grid, cell_size, px, py, heading, k));
    }
}

/// Casts a ray from `(px, py)` along `heading`, in steps of `RAY_STEP`,
/// until it has gone `max_dist`: the first step into a blocking cell is the
/// hit; a step out of the grid ends the ray without one.
pub fn cast_ray(
    grid: &Grid,
    cell_size: i64,
    px: i64,
    py: i64,
    heading: Heading,
    max_dist: i64,
) -> (hit: Option<RayHit>)
    requires
        grid.wf(),
        cell_size > 0,
        in_world(px as int),
        in_world(py as int),
        heading.wf(),
        max_dist <= RAY_LIMIT,
    ensures
        hit == ray_result(grid, cell_size as int, px as int, py as int, heading, max_dist as int),
        hit matches Some(h) ==> {
            &&& h.wf()
            &&& h.distance < max_dist + RAY_STEP
            &&& grid.blocked_at(h.map_x as int, h.map_y as int)
        },
{
    let sx: i64 = heading.x * RAY_STEP_UNITS;
    let sy: i64 = heading.y * RAY_STEP_UNITS;
    let mut rx: i64 = px;
    let mut ry: i64 = py;
    let mut traveled: i64 = 0;
    let ghost n = ray_steps(max_dist as int);
    let ghost mut k: nat = 0;
    while traveled < max_dist
        invariant
            grid.wf(),
            cell_size > 0,
            in_world(px as int),
            in_world(py as int),
            heading.wf(),
            max_dist <= RAY_LIMIT,
            sx == heading.x * RAY_STEP_UNITS,
            sy == heading.y * RAY_STEP_UNITS,
            n == ray_steps(max_dist as int),
            k <= n,
            traveled == k * RAY_STEP,
            traveled == 0 || traveled < max_dist + RAY_STEP,
            rx == sample(px as int, heading.x as int, k),
            ry == sample(py as int, heading.y as int, k),
            px - traveled <= rx <= px + traveled,
            py - traveled <= ry <= py + traveled,
            ray_result(grid, cell_size as int, px as int, py as int, heading, max_dist as int)
                == march(grid, cell_size as int, px as int, py as int, heading, k + 1, n),
        decreases n - k,
    {
        proof {
            assert((k + 1) * (heading.x * RAY_STEP_UNITS) == k * (heading.x * RAY_STEP_UNITS)
                + heading.x * RAY_STEP_UNITS) by (nonlinear_arith);
            assert((k + 1) * (heading.y * RAY_STEP_UNITS) == k * (heading.y * RAY_STEP_UNITS)
                + heading.y * RAY_STEP_UNITS) by (nonlinear_arith);
            k = k + 1;
        }
        rx = rx + sx;
        ry = ry + sy;
        traveled = traveled + RAY_STEP;
        let cx: i64 = floor_div(rx, cell_size);
        let cy: i64 = floor_div(ry, cell_size);
        match grid.cell_at(cx, cy) {
            None => {
                return None;
            },
            Some(cell) => {
                if cell.is_blocking() {
                    proof {
                        lemma_floor_div_order(rx as int, cell_size as int, 0);
                        lemma_floor_div_order(ry as int, cell_size as int, 0);
                        lemma_floor_div_order(rx as int, cell_size as int, cx as int);
                        lemma_floor_div_order(ry as int, cell_size as int, cy as int);
                        assert(cx * cell_size >= cx && cy * cell_size >= cy) by (nonlinear_arith)
                            requires
                                cx >= 0,
                                cy >= 0,
                                cell_size >= 1,
                        ;
                    }
                    let hit_vertical: bool = floor_rem(rx, cell_size) < floor_rem(ry, cell_size);
                    return Some(
                        RayHit {
                            distance: traveled,
                            x: rx,
                            y: ry,
                            map_x: cx,
                            map_y: cy,
                            hit_vertical,
                        },
                    );
                }
            },
        }
    }
    None
}

} // verus!
