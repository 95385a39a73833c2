//! Guards: bodies that pursue the player while they can see it.

use crate::cast::cast_ray;
use crate::cast::ray_result;
use crate::cast::Heading;
use crate::fixed::div_toward_zero;
use crate::fixed::floor_sqrt;
use crate::fixed::in_world;
use crate::fixed::is_floor_sqrt;
use crate::fixed::is_length;
use crate::fixed::isqrt;
use crate::fixed::lemma_floor_div_order;
use crate::fixed::lemma_axis_scaled;
use crate::fixed::lemma_floor_sqrt_is;
use crate::fixed::lemma_scaled_quot_bound;
use crate::fixed::lemma_square_monotone;
use crate::fixed::lemma_square_order;
use crate::fixed::magnitude;
use crate::fixed::quot_toward_zero;
use crate::fixed::span;
use crate::fixed::TICKS_PER_SECOND;
use crate::fixed::UNIT;
use crate::fixed::WORLD_LIMIT;
use crate::level::valid_cell_size;
use crate::level::Cell;
use crate::level::Grid;
use crate::player::circle_collides;
use crate::player::collides;
use crate::player::BODY_RADIUS;
use vstd::prelude::*;

verus! {

/// The speed of a guard of the first kind, in sub-units per second.
pub const GUARD1_SPEED: i64 = 70_000;

/// The speed of a guard of the second kind.
pub const GUARD2_SPEED: i64 = 90_000;

/// The speed of a guard of any other kind.
pub const GUARD_SPEED: i64 = 60_000;

/// The speed of the sideways step that a stuck guard tries.
pub const JIGGLE_SPEED: i64 = 6_000;

/// A guard nearer to the player than this stands still.
pub const MIN_PURSUIT: i64 = 1_000;

/// The speed of a guard of the given kind.
pub open spec fn kind_speed(kind: Cell) -> int {
    match kind {
        Cell::Guard1 => GUARD1_SPEED as int,
        Cell::Guard2 => GUARD2_SPEED as int,
        _ => GUARD_SPEED as int,
    }
}

/// The farthest that a guard of the given speed moves along an axis in one
/// update of `dt` ticks.
pub open spec fn guard_reach(speed: int, dt: int) -> int {
    if speed > JIGGLE_SPEED {
        span(speed, dt)
    } else {
        span(JIGGLE_SPEED as int, dt)
    }
}

/// Where a pursuing body ends that tries to move by `(vx, vy)` from
/// `(x, y)`: it slides as a player does, and where neither the full
/// displacement nor either axis alone is free it tries a step of length
/// `jiggle` to the right, to the left, down and up, in that order, and
/// stays where none is free.
pub open spec fn pursue_target(
    grid: &Grid,
    cell_size: int,
    x: int,
    y: int,
    r: int,
    vx: int,
    vy: int,
    jiggle: int,
) -> (int, int) {
    if !collides(grid, cell_size, x + vx, y + vy, r) {
        (x + vx, y + vy)
    } else if !collides(grid, cell_size, x + vx, y, r) {
        (x + vx, y)
    } else if !collides(grid, cell_size, x, y + vy, r) {
        (x, y + vy)
    } else if !collides(grid, cell_size, x + jiggle, y, r) {
        (x + jiggle, y)
    } else if !collides(grid, cell_size, x - jiggle, y, r) {
        (x - jiggle, y)
    } else if !collides(grid, cell_size, x, y + jiggle, r) {
        (x, y + jiggle)
    } else if !collides(grid, cell_size, x, y - jiggle, r) {
        (x, y - jiggle)
    } else {
        (x, y)
    }
}

/// What a guard does in one update.
pub enum Pursuit {
    /// The player is nearer than `MIN_PURSUIT`: the guard stands still.
    Idle,
    /// The ray toward the player hits a blocking cell: the guard stands still.
    Blocked,
    /// The guard sees the player and moves toward it.
    Pursuing,
}

/// A guard: a position, the kind of its spawn marker, a speed in sub-units
/// per second and a body radius.
#[derive(Debug, Clone, Copy, PartialEq, Eq, Structural)]
pub struct Guard {
    pub x: i64,
    pub y: i64,
    pub kind: Cell,
    pub speed: i64,
    pub radius: i64,
}

impl Guard {
    /// The position lies in the world; speed and radius are lengths.
    pub open spec fn wf(&self) -> bool {
        &&& in_world(self.x as int)
        &&& in_world(self.y as int)
        &&& is_length(self.speed as int)
        &&& is_length(self.radius as int)
    }

    /// The square of the distance to the point `(px, py)`.
    pub open spec fn dist2(&self, px: int, py: int) -> int {
        (px - self.x) * (px - self.x) + (py - self.y) * (py - self.y)
    }

    /// The distance to the point `(px, py)`, rounded down.
    pub open spec fn dist(&self, px: int, py: int) -> int {
        floor_sqrt(self.dist2(px, py))
    }

    /// The direction toward the point `(px, py)`.
    pub open spec fn heading_to(&self, px: int, py: int) -> Heading {
        Heading {
            x: quot_toward_zero((px - self.x) * UNIT, self.dist(px, py)) as i64,
            y: quot_toward_zero((py - self.y) * UNIT, self.dist(px, py)) as i64,
        }
    }

    /// What the guard does when the player is at `(px, py)`.
    pub open spec fn pursuit(&self, grid: &Grid, cell_size: int, px: int, py: int) -> Pursuit {
        if self.dist2(px, py) < MIN_PURSUIT * MIN_PURSUIT {
            Pursuit::Idle
        } else if ray_result(
            grid,
            cell_size,
            self.x as int,
            self.y as int,
            self.heading_to(px, py),
            self.dist(px, py),
        ) is Some {
            Pursuit::Blocked
        } else {
            Pursuit::Pursuing
        }
    }

    /// Where the guard is after an update of `dt` ticks with the player at
    /// `(px, py)`.
    pub open spec fn next_position(
        &self,
        grid: &Grid,
        cell_size: int,
        px: int,
        py: int,
        dt: int,
    ) -> (int, int) {
        match self.pursuit(grid, cell_size, px, py) {
            Pursuit::Pursuing => pursue_target(
                grid,
                cell_size,
                self.x as int,
                self.y as int,
                self.radius as int,
                quot_toward_zero(
                    (px - self.x) * self.speed * dt,
                    self.dist(px, py) * TICKS_PER_SECOND,
                ),
                quot_toward_zero(
                    (py - self.y) * self.speed * dt,
                    self.dist(px, py) * TICKS_PER_SECOND,
                ),
                span(JIGGLE_SPEED as int, dt),
            ),
            _ => (self.x as int, self.y as int),
        }
    }

    /// The guard has room in the world for one update of `dt` ticks: the
    /// farthest that it can move keeps it in the world.
    pub open spec fn has_room(&self, dt: int) -> bool {
        &&& in_world(self.x - guard_reach(self.speed as int, dt))
        &&& in_world(self.x + guard_reach(self.speed as int, dt))
        &&& in_world(self.y - guard_reach(self.speed as int, dt))
        &&& in_world(self.y + guard_reach(self.speed as int, dt))
    }

    /// Whether the guard has room in the world for one update of `dt` ticks.
    pub fn room_for(&self, dt: i64) -> (ok: bool)
        requires
            self.wf(),
            is_length(dt as int),
        ensures
            ok == self.has_room(dt as int),
    {
        let speed: i64 = if self.speed > JIGGLE_SPEED {
            self.speed
        } else {
            JIGGLE_SPEED
        };
        assert(0 <= speed * dt <= 1_000_000_000_000 * 1_000_000_000_000) by (nonlinear_arith)
            requires
                0 <= speed <= 1_000_000_000_000,
                0 <= dt <= 1_000_000_000_000,
        ;
        let reach: i128 = (speed as i128) * (dt as i128) / (TICKS_PER_SECOND as i128);
        let limit: i128 = WORLD_LIMIT as i128;
        let x: i128 = self.x as i128;
        let y: i128 = self.y as i128;
        x - reach >= -limit && x + reach <= limit && y - reach >= -limit && y + reach <= limit
    }

    /// A guard of the given kind at `(x, y)`.
    pub open spec fn spec_new(x: i64, y: i64, kind: Cell) -> Guard {
        Guard { x, y, kind, speed: kind_speed(kind) as i64, radius: BODY_RADIUS }
    }

    /// A guard of the given kind at `(x, y)`.
    pub fn new(x: i64, y: i64, kind: Cell) -> (guard: Guard)
        ensures
            guard == Guard::spec_new(x, y, kind),
            in_world(x as int) && in_world(y as int) ==> guard.wf(),
    {
        let speed: i64 = match kind {
            Cell::Guard1 => GUARD1_SPEED,
            Cell::Guard2 => GUARD2_SPEED,
            _ => GUARD_SPEED,
        };
        Guard { x, y, kind, speed, radius: BODY_RADIUS }
    }

    /// One update of `dt` ticks with the player at `(player_x, player_y)`:
    /// the guard moves toward the player if it is not too near and the ray
    /// toward the player hits nothing, and stands still otherwise. What it
    /// did in the update before plays no part. The step grows with `dt`
    /// without limit: after a long frame it can end beyond a thin wall.
    pub fn update(&mut self, player_x: i64, player_y: i64, dt: i64, grid: &Grid, cell_size: i64)
        requires
            old(self).wf(),
            grid.wf(),
            valid_cell_size(cell_size as int),
            in_world(player_x as int),
            in_world(player_y as int),
            is_length(dt as int),
            old(self).has_room(dt as int),
        ensures
            final(self).wf(),
            (final(self).x as int, final(self).y as int) == old(self).next_position(
                grid,
                cell_size as int,
                player_x as int,
                player_y as int,
                dt as int,
            ),
            final(self).kind == old(self).kind,
            final(self).speed == old(self).speed,
            final(self).radius == old(self).radius,
    {
        let dx: i64 = player_x - self.x;
        let dy: i64 = player_y - self.y;
        let wx: i128 = dx as i128;
        let wy: i128 = dy as i128;
        proof {
            assert(0 <= wx * wx <= 2_000_000_000_000 * 2_000_000_000_000) by (nonlinear_arith)
                requires
                    -2_000_000_000_000 <= wx <= 2_000_000_000_000,
            ;
            assert(0 <= wy * wy <= 2_000_000_000_000 * 2_000_000_000_000) by (nonlinear_arith)
                requires
                    -2_000_000_000_000 <= wy <= 2_000_000_000_000,
            ;
        }
        let d2: i128 = wx * wx + wy * wy;
        assert(d2 == self.dist2(player_x as int, player_y as int));
        let near: i128 = MIN_PURSUIT as i128;
        assert(near * near == 1_000_000) by (nonlinear_arith)
            requires
                near == 1000,
        ;
        if d2 < near * near {
            return ;
        }
        let dist: i128 = isqrt(d2 as u128) as i128;
        proof {
            lemma_floor_sqrt_is(d2 as int, dist as int);
            lemma_dist_bounds(d2 as int, wx as int, wy as int, dist as int);
            lemma_scaled_quot_bound(wx * UNIT, dist as int, UNIT as int, 1);
            lemma_scaled_quot_bound(wy * UNIT, dist as int, UNIT as int, 1);
            assert(dist * 1 == dist);
            assert(UNIT as int / 1 == UNIT);
        }
        let heading = Heading {
            x: div_toward_zero(wx * (UNIT as i128), dist) as i64,
            y: div_toward_zero(wy * (UNIT as i128), dist) as i64,
        };
        assert(heading == self.heading_to(player_x as int, player_y as int));
        let hit = cast_ray(grid, cell_size, self.x, self.y, heading, dist as i64);
        if hit.is_some() {
            return ;
        }
        assert(0 <= self.speed * dt <= 1_000_000_000_000 * 1_000_000_000_000) by (nonlinear_arith)
            requires
                0 <= self.speed <= 1_000_000_000_000,
                0 <= dt <= 1_000_000_000_000,
        ;
        let rate: i128 = (self.speed as i128) * (dt as i128);
        let ghost reach = guard_reach(self.speed as int, dt as int);
        proof {
            assert(0 <= dist * rate <= 3_000_000_000_000 * (1_000_000_000_000 * 1_000_000_000_000))
                by (nonlinear_arith)
                requires
                    0 <= dist <= 3_000_000_000_000,
                    0 <= rate <= 1_000_000_000_000 * 1_000_000_000_000,
            ;
            lemma_axis_scaled(wx as int, dist as int, rate as int);
            lemma_axis_scaled(wy as int, dist as int, rate as int);
            lemma_scaled_quot_bound(wx * rate, dist as int, rate as int, TICKS_PER_SECOND as int);
            lemma_scaled_quot_bound(wy * rate, dist as int, rate as int, TICKS_PER_SECOND as int);
            lemma_reach_covers(self.speed as int, dt as int);
            assert(wx * rate == (player_x - self.x) * self.speed * dt) by (nonlinear_arith)
                requires
                    wx == player_x - self.x,
                    rate == self.speed * dt,
            ;
            assert(wy * rate == (player_y - self.y) * self.speed * dt) by (nonlinear_arith)
                requires
                    wy == player_y - self.y,
                    rate == self.speed * dt,
            ;
        }
        let vx: i64 = div_toward_zero(wx * rate, dist * (TICKS_PER_SECOND as i128)) as i64;
        let vy: i64 = div_toward_zero(wy * rate, dist * (TICKS_PER_SECOND as i128)) as i64;
        let sideways: i128 = (JIGGLE_SPEED as i128) * (dt as i128);
        let jiggle: i64 = (sideways / (TICKS_PER_SECOND as i128)) as i64;
        assert(jiggle == span(JIGGLE_SPEED as int, dt as int));
        assert(0 <= jiggle <= reach);
        assert(-reach <= vx <= reach);
        assert(-reach <= vy <= reach);
        if !circle_collides(self.x + vx, self.y + vy, self.radius, grid, cell_size) {
            self.x = self.x + vx;
            self.y = self.y + vy;
            return ;
        }
        if !circle_collides(self.x + vx, self.y, self.radius, grid, cell_size) {
            self.x = self.x + vx;
            return ;
        }
        if !circle_collides(self.x, self.y + vy, self.radius, grid, cell_size) {
            self.y = self.y + vy;
            return ;
        }
        if !circle_collides(self.x + jiggle, self.y, self.radius, grid, cell_size) {
            self.x = self.x + jiggle;
        } else if !circle_collides(self.x - jiggle, self.y, self.radius, grid, cell_size) {
            self.x = self.x - jiggle;
        } else if !circle_collides(self.x, self.y + jiggle, self.radius, grid, cell_size) {
            self.y = self.y + jiggle;
        } else if !circle_collides(self.x, self.y - jiggle, self.radius, grid, cell_size) {
            self.y = self.y - jiggle;
        }
    }
}

/// The rounded distance of a displacement `(wx, wy)` in the world that is
/// not shorter than `MIN_PURSUIT` is at least `MIN_PURSUIT`, fits a ray,
/// and is not shorter than either component.
pub proof fn lemma_dist_bounds(d2: int, wx: int, wy: int, dist: int)
    requires
        d2 == wx * wx + wy * wy,
        d2 >= MIN_PURSUIT * MIN_PURSUIT,
        -2_000_000_000_000 <= wx <= 2_000_000_000_000,
        -2_000_000_000_000 <= wy <= 2_000_000_000_000,
        is_floor_sqrt(d2, dist),
    ensures
        MIN_PURSUIT <= dist <= 3_000_000_000_000,
        -dist <= wx <= dist,
        -dist <= wy <= dist,
{
    assert(wx * wx >= 0 && wy * wy >= 0) by (nonlinear_arith);
    assert(wx * wx <= 2_000_000_000_000 * 2_000_000_000_000) by (nonlinear_arith)
        requires
            -2_000_000_000_000 <= wx <= 2_000_000_000_000,
    ;
    assert(wy * wy <= 2_000_000_000_000 * 2_000_000_000_000) by (nonlinear_arith)
        requires
            -2_000_000_000_000 <= wy <= 2_000_000_000_000,
    ;
    assert(magnitude(wx) * magnitude(wx) == wx * wx) by (nonlinear_arith);
    assert(magnitude(wy) * magnitude(wy) == wy * wy) by (nonlinear_arith);
    lemma_square_order(magnitude(wx), dist + 1);
    lemma_square_order(magnitude(wy), dist + 1);
    assert(MIN_PURSUIT * MIN_PURSUIT == 1_000_000);
    lemma_square_order(999, dist + 1);
    if dist > 3_000_000_000_000 {
        lemma_square_monotone(3_000_000_000_000, dist);
    }
}

/// Neither the pursuit step nor the sideways step is longer than the reach.
pub proof fn lemma_reach_covers(speed: int, dt: int)
    requires
        speed >= 0,
        dt >= 0,
    ensures
        0 <= span(speed, dt) <= guard_reach(speed, dt),
        0 <= span(JIGGLE_SPEED as int, dt) <= guard_reach(speed, dt),
{
    let t = TICKS_PER_SECOND as int;
    assert(speed * dt >= 0) by (nonlinear_arith)
        requires
            speed >= 0,
            dt >= 0,
    ;
    assert(JIGGLE_SPEED * dt >= 0) by (nonlinear_arith)
        requires
            dt >= 0,
    ;
    lemma_floor_div_order(speed * dt, t, 0);
    lemma_floor_div_order(JIGGLE_SPEED * dt, t, 0);
    if speed > JIGGLE_SPEED {
        assert(JIGGLE_SPEED * dt <= speed * dt) by (nonlinear_arith)
            requires
                speed > JIGGLE_SPEED,
                dt >= 0,
        ;
        let q = span(JIGGLE_SPEED as int, dt);
        lemma_floor_div_order(JIGGLE_SPEED * dt, t, q);
        lemma_floor_div_order(speed * dt, t, q);
    } else {
        assert(speed * dt <= JIGGLE_SPEED * dt) by (nonlinear_arith)
            requires
                speed <= JIGGLE_SPEED,
                dt >= 0,
        ;
        let q = span(speed, dt);
        lemma_floor_div_order(speed * dt, t, q);
        lemma_floor_div_order(JIGGLE_SPEED * dt, t, q);
    }
}

/// A displacement of zero leaves a pursuing body where it is, unless the
/// body overlaps a blocking cell already and has a sideways step to try.
pub proof fn lemma_zero_pursuit_stays(
    grid: &Grid,
    cell_size: int,
    x: int,
    y: int,
    r: int,
    jiggle: int,
)
    requires
        jiggle == 0 || !collides(grid, cell_size, x, y, r),
    ensures
        pursue_target(grid, cell_size, x, y, r, 0, 0, jiggle) == (x, y),
{
}

/// A guard whose ray toward the player hits a blocking cell does not move,
/// and neither does one that is nearer to the player than `MIN_PURSUIT`.
pub proof fn lemma_unseeing_guard_stays(
    guard: Guard,
    grid: &Grid,
    cell_size: int,
    px: int,
    py: int,
    dt: int,
)
    requires
        !(guard.pursuit(grid, cell_size, px, py) is Pursuing),
    ensures
        guard.next_position(grid, cell_size, px, py, dt) == (guard.x as int, guard.y as int),
{
}

} // verus!
