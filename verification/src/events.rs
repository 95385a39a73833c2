//! The player's intent for one frame and what it does to the player.

use crate::cast::Heading;
use crate::fixed::div_toward_zero;
use crate::fixed::in_world;
use crate::fixed::is_length;
use crate::fixed::lemma_scaled_quot_bound;
use crate::fixed::lemma_span_within;
use crate::fixed::quot_toward_zero;
use crate::fixed::span;
use crate::fixed::TICKS_PER_SECOND;
use crate::fixed::UNIT;
use crate::fixed::WORLD_LIMIT;
use crate::level::valid_cell_size;
use crate::level::Grid;
use crate::player::slide_target;
use crate::player::Player;
use vstd::prelude::*;

verus! {

/// The turn, in micro-radians, for each thousandth of a pixel that the
/// pointer is dragged.
pub const MOUSE_TURN: i64 = 3;

/// What the player asks for in one frame. `mouse_dx` is the pointer's
/// horizontal movement in thousandths of a pixel; it turns the player only
/// while `mouse_down` holds.
#[derive(Debug, Clone, Copy, PartialEq, Eq, Structural)]
pub struct Input {
    pub move_forward: bool,
    pub move_back: bool,
    pub move_left: bool,
    pub move_right: bool,
    pub turn_left: bool,
    pub turn_right: bool,
    pub mouse_dx: i64,
    pub mouse_down: bool,
    pub exit: bool,
}

/// The part of a step of `rate` sub-unit ticks that falls on an axis whose
/// heading component is `h`, rounded toward zero.
pub open spec fn axis_step(h: int, rate: int) -> int {
    quot_toward_zero(h * rate, UNIT * TICKS_PER_SECOND)
}

/// The step `v` where it is asked for, and none where it is not.
pub open spec fn taken(asked: bool, v: int) -> int {
    if asked {
        v
    } else {
        0
    }
}

impl Input {
    /// The pointer's movement is a coordinate of the world.
    pub open spec fn wf(&self) -> bool {
        in_world(self.mouse_dx as int)
    }

    /// The turn that the intent asks for in `dt` ticks, in micro-radians:
    /// the turning speed to the left and to the right, and the pointer's
    /// drag against its direction.
    pub open spec fn rotation(&self, rot_speed: int, dt: int) -> int {
        (if self.turn_left {
            span(rot_speed, dt)
        } else {
            0
        }) - (if self.turn_right {
            span(rot_speed, dt)
        } else {
            0
        }) + (if self.mouse_down {
            -self.mouse_dx * MOUSE_TURN
        } else {
            0
        })
    }

    /// The displacement that the intent asks for in `dt` ticks at `speed`,
    /// for a player facing along `heading`: the sum of a step forward, a
    /// step back, a step to the left and a step to the right, for each
    /// that is asked for. With the y axis pointing down, the left of a
    /// heading `(hx, hy)` is `(hy, -hx)`.
    pub open spec fn displacement(&self, heading: Heading, speed: int, dt: int) -> (int, int) {
        let fx = axis_step(heading.x as int, speed * dt);
        let fy = axis_step(heading.y as int, speed * dt);
        (
            taken(self.move_forward, fx) - taken(self.move_back, fx) + taken(self.move_left, fy)
                - taken(self.move_right, fy),
            taken(self.move_forward, fy) - taken(self.move_back, fy) - taken(self.move_left, fx)
                + taken(self.move_right, fx),
        )
    }

    /// The intent can be applied to the player for a frame of `dt` ticks:
    /// the frame is not too long, and the player's new angle and the place
    /// that it tries to move to lie in the world.
    pub open spec fn can_apply(&self, player: Player, dt: int, heading: Heading) -> bool {
        &&& self.wf()
        &&& is_length(dt)
        &&& in_world(player.dir + self.rotation(player.rot_speed as int, dt))
        &&& in_world(player.x + self.displacement(heading, player.speed as int, dt).0)
        &&& in_world(player.y + self.displacement(heading, player.speed as int, dt).1)
    }

    /// An intent that asks for nothing.
    pub fn new() -> (input: Input)
        ensures
            input == (Input {
                move_forward: false,
                move_back: false,
                move_left: false,
                move_right: false,
                turn_left: false,
                turn_right: false,
                mouse_dx: 0,
                mouse_down: false,
                exit: false,
            }),
    {
        Input {
            move_forward: false,
            move_back: false,
            move_left: false,
            move_right: false,
            turn_left: false,
            turn_right: false,
            mouse_dx: 0,
            mouse_down: false,
            exit: false,
        }
    }

    /// The turn that the intent asks for in `dt` ticks.
    pub fn turn(&self, rot_speed: i64, dt: i64) -> (rot: i64)
        requires
            self.wf(),
            is_length(rot_speed as int),
            is_length(dt as int),
        ensures
            rot == self.rotation(rot_speed as int, dt as int),
    {
        assert(0 <= rot_speed * dt <= 1_000_000_000_000 * 1_000_000_000_000) by (nonlinear_arith)
            requires
                0 <= rot_speed <= 1_000_000_000_000,
                0 <= dt <= 1_000_000_000_000,
        ;
        let step: i64 = ((rot_speed as i128) * (dt as i128) / (TICKS_PER_SECOND as i128)) as i64;
        let mut rot: i64 = 0;
        if self.turn_left {
            rot = rot + step;
        }
        if self.turn_right {
            rot = rot - step;
        }
        if self.mouse_down {
            rot = rot - self.mouse_dx * MOUSE_TURN;
        }
        rot
    }

    /// The displacement that the intent asks for.
    pub fn step(&self, heading: Heading, speed: i64, dt: i64) -> (d: (i64, i64))
        requires
            heading.wf(),
            is_length(speed as int),
            is_length(dt as int),
        ensures
            (d.0 as int, d.1 as int) == self.displacement(heading, speed as int, dt as int),
            -2 * span(speed as int, dt as int) <= d.0 <= 2 * span(speed as int, dt as int),
            -2 * span(speed as int, dt as int) <= d.1 <= 2 * span(speed as int, dt as int),
    {
        assert(0 <= speed * dt <= 1_000_000_000_000 * 1_000_000_000_000) by (nonlinear_arith)
            requires
                0 <= speed <= 1_000_000_000_000,
                0 <= dt <= 1_000_000_000_000,
        ;
        let rate: i128 = (speed as i128) * (dt as i128);
        let hx: i128 = heading.x as i128;
        let hy: i128 = heading.y as i128;
        proof {
            assert(-(UNIT * rate) <= hx * rate <= UNIT * rate) by (nonlinear_arith)
                requires
                    -UNIT <= hx <= UNIT,
                    rate >= 0,
            ;
            assert(-(UNIT * rate) <= hy * rate <= UNIT * rate) by (nonlinear_arith)
                requires
                    -UNIT <= hy <= UNIT,
                    rate >= 0,
            ;
            lemma_scaled_quot_bound(hx * rate, UNIT as int, rate as int, TICKS_PER_SECOND as int);
            lemma_scaled_quot_bound(hy * rate, UNIT as int, rate as int, TICKS_PER_SECOND as int);
        }
        let scale: i128 = (UNIT as i128) * (TICKS_PER_SECOND as i128);
        let fx: i64 = div_toward_zero(hx * rate, scale) as i64;
        let fy: i64 = div_toward_zero(hy * rate, scale) as i64;
        let mut mvx: i64 = 0;
        let mut mvy: i64 = 0;
        if self.move_forward {
            mvx = mvx + fx;
            mvy = mvy + fy;
        }
        if self.move_back {
            mvx = mvx - fx;
            mvy = mvy - fy;
        }
        if self.move_left {
            mvx = mvx + fy;
            mvy = mvy - fx;
        }
        if self.move_right {
            mvx = mvx - fy;
            mvy = mvy + fx;
        }
        (mvx, mvy)
    }

    /// Whether the intent can be applied to the player for a frame of `dt` ticks.
    pub fn applies_to(&self, player: &Player, dt: i64, heading: Heading) -> (ok: bool)
        requires
            player.wf(),
            heading.wf(),
        ensures
            ok == self.can_apply(*player, dt as int, heading),
    {
        if self.mouse_dx < -WORLD_LIMIT || self.mouse_dx > WORLD_LIMIT {
            return false;
        }
        if dt < 0 || dt > WORLD_LIMIT {
            return false;
        }
        let rot: i64 = self.turn(player.rot_speed, dt);
        let d = self.step(heading, player.speed, dt);
        proof {
            lemma_span_within(player.rot_speed as int, dt as int);
            lemma_span_within(player.speed as int, dt as int);
        }
        let dir: i64 = player.dir + rot;
        let x: i64 = player.x + d.0;
        let y: i64 = player.y + d.1;
        -WORLD_LIMIT <= dir && dir <= WORLD_LIMIT && -WORLD_LIMIT <= x && x <= WORLD_LIMIT
            && -WORLD_LIMIT <= y && y <= WORLD_LIMIT
    }

    /// Applies the intent to the player for a frame of `dt` ticks: the
    /// player turns first, then moves along its new facing as far as the
    /// grid lets it slide. `heading` is the direction of the new facing,
    /// that is of the angle `player.dir + self.rotation(player.rot_speed, dt)`.
    pub fn apply_to_player(
        &self,
        player: &mut Player,
        dt: i64,
        heading: Heading,
        grid: &Grid,
        cell_size: i64,
    )
        requires
            old(player).wf(),
            heading.wf(),
            grid.wf(),
            valid_cell_size(cell_size as int),
            self.can_apply(*old(player), dt as int, heading),
        ensures
            final(player).wf(),
            final(player).dir == old(player).dir + self.rotation(
                old(player).rot_speed as int,
                dt as int,
            ),
            (final(player).x as int, final(player).y as int) == slide_target(
                grid,
                cell_size as int,
                old(player).x as int,
                old(player).y as int,
                old(player).radius as int,
                self.displacement(heading, old(player).speed as int, dt as int).0,
                self.displacement(heading, old(player).speed as int, dt as int).1,
            ),
            final(player).radius == old(player).radius,
            final(player).speed == old(player).speed,
            final(player).rot_speed == old(player).rot_speed,
    {
        let rot: i64 = self.turn(player.rot_speed, dt);
        player.dir = player.dir + rot;
        let d = self.step(heading, player.speed, dt);
        player.try_move(d.0, d.1, grid, cell_size);
    }
}

} // verus!
