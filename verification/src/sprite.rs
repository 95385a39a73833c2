//! The sprite pass of the projection: which sprites a frame shows, in which
//! order, and where each appears on the screen.

use crate::fixed::abs_i64;
use crate::fixed::div_toward_zero;
use crate::fixed::floor_div;
use crate::fixed::floor_sqrt;
use crate::fixed::in_world;
use crate::fixed::isqrt;
use crate::fixed::lemma_axis_scaled;
use crate::fixed::lemma_floor_div_order;
use crate::fixed::lemma_floor_sqrt_is;
use crate::fixed::lemma_scaled_quot_bound;
use crate::fixed::lemma_square_monotone;
use crate::fixed::magnitude;
use crate::fixed::quot_toward_zero;
use crate::fixed::UNIT;
use crate::fixed::WORLD_LIMIT;
use crate::guard::Guard;
use crate::level::fits_world;
use crate::level::valid_cell_size;
use crate::level::Cell;
use crate::level::Grid;
use crate::renderer::Screen;
use crate::renderer::TextureId;
use crate::renderer::FOV;
use crate::renderer::HALF_FOV;
use vstd::prelude::*;

verus! {

/// How a sprite moves while it stands.
#[derive(Debug, Clone, Copy, PartialEq, Eq, Structural)]
pub enum SpriteAnim {
    Guard,
    Folder,
}

/// Something in the world that is drawn as an image facing the camera.
#[derive(Debug, Clone, Copy, PartialEq, Eq, Structural)]
pub struct Sprite {
    pub x: i64,
    pub y: i64,
    pub texture: TextureId,
    pub anim: SpriteAnim,
}

/// The most sprites that one frame shows.
pub const SPRITE_CAP: usize = 65;

impl Sprite {
    /// The sprite stands in the world.
    pub open spec fn wf(&self) -> bool {
        in_world(self.x as int) && in_world(self.y as int)
    }

    /// The square of the sprite's distance from `(px, py)`.
    pub open spec fn dist2(&self, px: int, py: int) -> int {
        (self.x - px) * (self.x - px) + (self.y - py) * (self.y - py)
    }

    /// The square of the sprite's distance from `(px, py)`.
    pub fn distance_squared(&self, px: i64, py: i64) -> (d: i128)
        requires
            self.wf(),
            in_world(px as int),
            in_world(py as int),
        ensures
            d == self.dist2(px as int, py as int),
            0 <= d <= 8_000_000_000_000_000_000_000_000,
    {
        let wx: i128 = (self.x - px) as i128;
        let wy: i128 = (self.y - py) as i128;
        assert(0 <= wx * wx <= 2_000_000_000_000 * 2_000_000_000_000) by (nonlinear_arith)
            requires
                -2_000_000_000_000 <= wx <= 2_000_000_000_000,
        ;
        assert(0 <= wy * wy <= 2_000_000_000_000 * 2_000_000_000_000) by (nonlinear_arith)
            requires
                -2_000_000_000_000 <= wy <= 2_000_000_000_000,
        ;
        wx * wx + wy * wy
    }
}

/// The sprite that stands on a tile: one in the middle of every guard
/// marker and of every folder.
pub open spec fn marker_sprite(cell: Cell, col: int, row: int, cell_size: int) -> Option<Sprite> {
    let x = (col * cell_size + cell_size / 2) as i64;
    let y = (row * cell_size + cell_size / 2) as i64;
    match cell {
        Cell::Guard1 => Some(Sprite { x, y, texture: TextureId::Guard1, anim: SpriteAnim::Guard }),
        Cell::Guard2 => Some(Sprite { x, y, texture: TextureId::Guard2, anim: SpriteAnim::Guard }),
        Cell::Folder => Some(Sprite { x, y, texture: TextureId::Folder, anim: SpriteAnim::Folder }),
        _ => None,
    }
}

/// The sprites on the first `n` tiles of row `row`, from left to right.
pub open spec fn row_sprites(grid: &Grid, cell_size: int, row: int, n: nat) -> Seq<Sprite>
    decreases n,
{
    if n == 0 {
        Seq::empty()
    } else {
        let rest = row_sprites(grid, cell_size, row, (n - 1) as nat);
        match marker_sprite(grid.at(n - 1, row), n - 1, row, cell_size) {
            Some(sprite) => rest.push(sprite),
            None => rest,
        }
    }
}

/// The sprites on the first `n` rows, row by row from the top.
pub open spec fn grid_sprites(grid: &Grid, cell_size: int, n: nat) -> Seq<Sprite>
    decreases n,
{
    if n == 0 {
        Seq::empty()
    } else {
        grid_sprites(grid, cell_size, (n - 1) as nat) + row_sprites(
            grid,
            cell_size,
            n - 1,
            grid.width(),
        )
    }
}

/// The sprite of a guard; a guard of neither kind has none.
pub open spec fn guard_sprite(guard: Guard) -> Option<Sprite> {
    match guard.kind {
        Cell::Guard1 => Some(
            Sprite { x: guard.x, y: guard.y, texture: TextureId::Guard1, anim: SpriteAnim::Guard },
        ),
        Cell::Guard2 => Some(
            Sprite { x: guard.x, y: guard.y, texture: TextureId::Guard2, anim: SpriteAnim::Guard },
        ),
        _ => None,
    }
}

/// The sprites of the first `n` guards, in their order.
pub open spec fn guard_sprites(guards: Seq<Guard>, n: nat) -> Seq<Sprite>
    decreases n,
{
    if n == 0 {
        Seq::empty()
    } else {
        let rest = guard_sprites(guards, (n - 1) as nat);
        match guard_sprite(guards[n - 1]) {
            Some(sprite) => rest.push(sprite),
            None => rest,
        }
    }
}

/// Every sprite of the world: those on the tiles, then those of the guards.
pub open spec fn world_sprites(grid: &Grid, cell_size: int, guards: Seq<Guard>) -> Seq<Sprite> {
    grid_sprites(grid, cell_size, grid.height()) + guard_sprites(guards, guards.len())
}

/// Where a sprite goes into a sequence that runs from far to near: behind
/// the last sprite that is no nearer to `(px, py)` than it.
pub open spec fn far_slot(sorted: Seq<Sprite>, sprite: Sprite, px: int, py: int) -> nat
    decreases sorted.len(),
{
    if sorted.len() == 0 {
        0
    } else if sorted.last().dist2(px, py) >= sprite.dist2(px, py) {
        sorted.len()
    } else {
        far_slot(sorted.drop_last(), sprite, px, py)
    }
}

/// The sprites in the order from the farthest from `(px, py)` to the
/// nearest; sprites equally far keep their order.
pub open spec fn far_to_near(sprites: Seq<Sprite>, px: int, py: int) -> Seq<Sprite>
    decreases sprites.len(),
{
    if sprites.len() == 0 {
        Seq::empty()
    } else {
        let sorted = far_to_near(sprites.drop_last(), px, py);
        sorted.insert(far_slot(sorted, sprites.last(), px, py) as int, sprites.last())
    }
}

/// The last `SPRITE_CAP` sprites, or all where there are fewer: of a
/// sequence that runs from far to near, the farthest are left out.
pub open spec fn capped(sprites: Seq<Sprite>) -> Seq<Sprite> {
    if sprites.len() > SPRITE_CAP {
        sprites.skip(sprites.len() - SPRITE_CAP)
    } else {
        sprites
    }
}

/// No sprite in the sequence is nearer to `(px, py)` than one behind it.
pub open spec fn runs_far_to_near(sprites: Seq<Sprite>, px: int, py: int) -> bool {
    forall|i: int, j: int|
        0 <= i <= j < sprites.len() ==> (#[trigger] sprites[i]).dist2(px, py) >= (
        #[trigger] sprites[j]).dist2(px, py)
}

/// The slot of a sprite lies in the sequence; all behind it are nearer, and
/// the one before it is not.
pub proof fn lemma_far_slot(sorted: Seq<Sprite>, sprite: Sprite, px: int, py: int)
    ensures
        far_slot(sorted, sprite, px, py) <= sorted.len(),
        forall|j: int|
            far_slot(sorted, sprite, px, py) <= j < sorted.len() ==> (#[trigger] sorted[j]).dist2(
                px,
                py,
            ) < sprite.dist2(px, py),
        far_slot(sorted, sprite, px, py) > 0 ==> sorted[far_slot(sorted, sprite, px, py) - 1].dist2(
            px,
            py,
        ) >= sprite.dist2(px, py),
    decreases sorted.len(),
{
    if sorted.len() > 0 && sorted.last().dist2(px, py) < sprite.dist2(px, py) {
        let front = sorted.drop_last();
        lemma_far_slot(front, sprite, px, py);
        assert forall|j: int| far_slot(sorted, sprite, px, py) <= j < sorted.len() implies (
        #[trigger] sorted[j]).dist2(px, py) < sprite.dist2(px, py) by {
            if j < front.len() {
                assert(sorted[j] == front[j]);
            }
        }
        if far_slot(sorted, sprite, px, py) > 0 {
            assert(sorted[far_slot(sorted, sprite, px, py) - 1] == front[far_slot(
                front,
                sprite,
                px,
                py,
            ) - 1]);
        }
    }
}

/// The slot within a front part of a sequence that ends behind a sprite no
/// nearer than the given one, or is empty, is the end of that part.
pub proof fn lemma_far_slot_of_front(sorted: Seq<Sprite>, n: int, sprite: Sprite, px: int, py: int)
    requires
        0 <= n <= sorted.len(),
        n > 0 ==> sorted[n - 1].dist2(px, py) >= sprite.dist2(px, py),
    ensures
        far_slot(sorted.take(n), sprite, px, py) == n,
{
}

/// The order from far to near holds the same sprites, each as often, and
/// none of them is nearer than one behind it.
pub proof fn lemma_far_to_near_sorts(sprites: Seq<Sprite>, px: int, py: int)
    ensures
        far_to_near(sprites, px, py).to_multiset() == sprites.to_multiset(),
        far_to_near(sprites, px, py).len() == sprites.len(),
        runs_far_to_near(far_to_near(sprites, px, py), px, py),
    decreases sprites.len(),
{
    broadcast use vstd::seq_lib::to_multiset_build, vstd::seq_lib::to_multiset_insert;

    if sprites.len() > 0 {
        let rest = sprites.drop_last();
        let last = sprites.last();
        lemma_far_to_near_sorts(rest, px, py);
        let sorted = far_to_near(rest, px, py);
        let slot = far_slot(sorted, last, px, py) as int;
        lemma_far_slot(sorted, last, px, py);
        let out = sorted.insert(slot, last);
        assert(sprites == rest.push(last));
        assert(out.to_multiset() == sorted.to_multiset().insert(last));
        assert(rest.push(last).to_multiset() =~= rest.to_multiset().insert(last));
        assert forall|i: int, j: int| 0 <= i <= j < out.len() implies (#[trigger] out[i]).dist2(
            px,
            py,
        ) >= (#[trigger] out[j]).dist2(px, py) by {
            if i < slot && j > slot {
                assert(out[i] == sorted[i]);
                assert(out[j] == sorted[j - 1]);
            } else if i < slot && j == slot {
                assert(out[i] == sorted[i]);
                assert(sorted[i].dist2(px, py) >= sorted[slot - 1].dist2(px, py));
            } else if i < slot {
                assert(out[i] == sorted[i]);
                assert(out[j] == sorted[j]);
            } else if i == slot && j > slot {
                assert(out[j] == sorted[j - 1]);
            } else if i > slot {
                assert(out[i] == sorted[i - 1]);
                assert(out[j] == sorted[j - 1]);
            }
        }
    } else {
        assert(sprites =~= far_to_near(sprites, px, py));
    }
}

/// Puts the sprites in the order from the farthest from `(px, py)` to the
/// nearest; sprites equally far keep their order.
pub fn sort_far_to_near(sprites: &Vec<Sprite>, px: i64, py: i64) -> (sorted: Vec<Sprite>)
    requires
        in_world(px as int),
        in_world(py as int),
        forall|i: int| 0 <= i < sprites.len() ==> (#[trigger] sprites[i]).wf(),
    ensures
        sorted@ == far_to_near(sprites@, px as int, py as int),
        forall|i: int| 0 <= i < sorted.len() ==> (#[trigger] sorted[i]).wf(),
{
    let mut sorted: Vec<Sprite> = Vec::new();
    let mut i: usize = 0;
    while i < sprites.len()
        invariant
            in_world(px as int),
            in_world(py as int),
            forall|k: int| 0 <= k < sprites.len() ==> (#[trigger] sprites[k]).wf(),
            forall|k: int| 0 <= k < sorted.len() ==> (#[trigger] sorted[k]).wf(),
            i <= sprites.len(),
            sorted.len() == i,
            sorted@ == far_to_near(sprites@.take(i as int), px as int, py as int),
        decreases sprites.len() - i,
    {
        let sprite = sprites[i];
        let key: i128 = sprite.distance_squared(px, py);
        let mut slot: usize = sorted.len();
        proof {
            assert(sorted@.take(sorted.len() as int) == sorted@);
        }
        while slot > 0 && sorted[slot - 1].distance_squared(px, py) < key
            invariant
                in_world(px as int),
                in_world(py as int),
                forall|k: int| 0 <= k < sorted.len() ==> (#[trigger] sorted[k]).wf(),
                slot <= sorted.len(),
                key == sprite.dist2(px as int, py as int),
                far_slot(sorted@, sprite, px as int, py as int) == far_slot(
                    sorted@.take(slot as int),
                    sprite,
                    px as int,
                    py as int,
                ),
            decreases slot,
        {
            proof {
                assert(sorted@.take(slot as int).drop_last() == sorted@.take(slot - 1));
            }
            slot -= 1;
        }
        proof {
            lemma_far_slot_of_front(sorted@, slot as int, sprite, px as int, py as int);
            assert(sprites@.take(i + 1).drop_last() == sprites@.take(i as int));
            assert(sprites@.take(i + 1).last() == sprite);
        }
        sorted.insert(slot, sprite);
        i += 1;
    }
    proof {
        assert(sprites@.take(i as int) == sprites@);
    }
    sorted
}

/// The sprite that stands on a tile, if any.
fn marker_sprite_at(cell: Cell, col: usize, row: usize, cell_size: i64) -> (sprite: Option<Sprite>)
    requires
        valid_cell_size(cell_size as int),
        (col + 1) * cell_size <= WORLD_LIMIT,
        (row + 1) * cell_size <= WORLD_LIMIT,
    ensures
        sprite == marker_sprite(cell, col as int, row as int, cell_size as int),
        sprite matches Some(s) ==> s.wf(),
{
    proof {
        assert((col + 1) * cell_size == col * cell_size + cell_size && (row + 1) * cell_size == row
            * cell_size + cell_size) by (nonlinear_arith);
        assert(col * cell_size >= 0 && row * cell_size >= 0) by (nonlinear_arith)
            requires
                col >= 0,
                row >= 0,
                cell_size > 0,
        ;
        assert(col <= col * cell_size && row <= row * cell_size) by (nonlinear_arith)
            requires
                col >= 0,
                row >= 0,
                cell_size >= 1,
        ;
    }
    let x: i64 = (col as i64) * cell_size + cell_size / 2;
    let y: i64 = (row as i64) * cell_size + cell_size / 2;
    match cell {
        Cell::Guard1 => Some(Sprite { x, y, texture: TextureId::Guard1, anim: SpriteAnim::Guard }),
        Cell::Guard2 => Some(Sprite { x, y, texture: TextureId::Guard2, anim: SpriteAnim::Guard }),
        Cell::Folder => Some(Sprite { x, y, texture: TextureId::Folder, anim: SpriteAnim::Folder }),
        _ => None,
    }
}

/// Every sprite of the world: those on the tiles, row by row, then those
/// of the guards.
pub fn collect_sprites(grid: &Grid, cell_size: i64, guards: &Vec<Guard>) -> (sprites: Vec<Sprite>)
    requires
        grid.wf(),
        valid_cell_size(cell_size as int),
        fits_world(grid, cell_size as int),
        forall|i: int| 0 <= i < guards.len() ==> (#[trigger] guards[i]).wf(),
    ensures
        sprites@ == world_sprites(grid, cell_size as int, guards@),
        forall|i: int| 0 <= i < sprites.len() ==> (#[trigger] sprites[i]).wf(),
{
    let rows: usize = grid.rows();
    let cols: usize = grid.cols();
    let mut sprites: Vec<Sprite> = Vec::new();
    let mut row: usize = 0;
    while row < rows
        invariant
            grid.wf(),
            valid_cell_size(cell_size as int),
            fits_world(grid, cell_size as int),
            rows == grid.height(),
            cols == grid.width(),
            row <= rows,
            sprites@ == grid_sprites(grid, cell_size as int, row as nat),
            forall|i: int| 0 <= i < sprites.len() ==> (#[trigger] sprites[i]).wf(),
        decreases rows - row,
    {
        let ghost before = sprites@;
        let mut col: usize = 0;
        while col < cols
            invariant
                grid.wf(),
                valid_cell_size(cell_size as int),
                fits_world(grid, cell_size as int),
                rows == grid.height(),
                cols == grid.width(),
                row < rows,
                col <= cols,
                before == grid_sprites(grid, cell_size as int, row as nat),
                sprites@ == before + row_sprites(grid, cell_size as int, row as int, col as nat),
                forall|i: int| 0 <= i < sprites.len() ==> (#[trigger] sprites[i]).wf(),
            decreases cols - col,
        {
            proof {
                assert((col + 1) * cell_size <= cols * cell_size) by (nonlinear_arith)
                    requires
                        col + 1 <= cols,
                        cell_size > 0,
                ;
                assert((row + 1) * cell_size <= rows * cell_size) by (nonlinear_arith)
                    requires
                        row + 1 <= rows,
                        cell_size > 0,
                ;
            }
            let ghost so_far = row_sprites(grid, cell_size as int, row as int, col as nat);
            match marker_sprite_at(grid.get(col, row), col, row, cell_size) {
                Some(sprite) => {
                    sprites.push(sprite);
                    proof {
                        assert(sprites@ == before + so_far.push(sprite));
                    }
                },
                None => {},
            }
            col += 1;
        }
        row += 1;
    }
    let ghost tiles = sprites@;
    let mut i: usize = 0;
    while i < guards.len()
        invariant
            i <= guards.len(),
            forall|k: int| 0 <= k < guards.len() ==> (#[trigger] guards[k]).wf(),
            sprites@ == tiles + guard_sprites(guards@, i as nat),
            forall|k: int| 0 <= k < sprites.len() ==> (#[trigger] sprites[k]).wf(),
        decreases guards.len() - i,
    {
        let guard = guards[i];
        let ghost so_far = guard_sprites(guards@, i as nat);
        match guard.kind {
            Cell::Guard1 => {
                sprites.push(
                    Sprite {
                        x: guard.x,
                        y: guard.y,
                        texture: TextureId::Guard1,
                        anim: SpriteAnim::Guard,
                    },
                );
                proof {
                    assert(sprites@ == tiles + so_far.push(guard_sprite(guard)->0));
                }
            },
            Cell::Guard2 => {
                sprites.push(
                    Sprite {
                        x: guard.x,
                        y: guard.y,
                        texture: TextureId::Guard2,
                        anim: SpriteAnim::Guard,
                    },
                );
                proof {
                    assert(sprites@ == tiles + so_far.push(guard_sprite(guard)->0));
                }
            },
            _ => {},
        }
        i += 1;
    }
    sprites
}

/// The sprites that a frame shows, in the order in which they are drawn:
/// every sprite of the world, from the farthest from the camera at
/// `(px, py)` to the nearest, without the farthest where there are more
/// than `SPRITE_CAP`.
pub fn draw_world_sprites(
    grid: &Grid,
    cell_size: i64,
    px: i64,
    py: i64,
    guards: &Vec<Guard>,
) -> (sprites: Vec<Sprite>)
    requires
        grid.wf(),
        valid_cell_size(cell_size as int),
        fits_world(grid, cell_size as int),
        in_world(px as int),
        in_world(py as int),
        forall|i: int| 0 <= i < guards.len() ==> (#[trigger] guards[i]).wf(),
    ensures
        sprites@ == capped(
            far_to_near(world_sprites(grid, cell_size as int, guards@), px as int, py as int),
        ),
        forall|i: int| 0 <= i < sprites.len() ==> (#[trigger] sprites[i]).wf(),
{
    let all = collect_sprites(grid, cell_size, guards);
    let mut sorted = sort_far_to_near(&all, px, py);
    if sorted.len() > SPRITE_CAP {
        let nearest = sorted.split_off(sorted.len() - SPRITE_CAP);
        nearest
    } else {
        sorted
    }
}

/// Half a turn, in micro-radians.
pub const PI: i64 = 3_141_593;

/// A whole turn, in micro-radians.
pub const TAU: i64 = 6_283_185;

/// A sprite nearer to the camera than this is not drawn.
pub const MIN_SPRITE_DISTANCE: i64 = 8_000;

/// The size of a sprite, in sub-units of the world.
pub const SPRITE_SIZE: i64 = 64_000;

/// A sprite on the screen: the upper left corner of its square, the
/// length of the square's side in pixels, and its texture.
#[derive(Debug, Clone, Copy, PartialEq, Eq, Structural)]
pub struct SpriteDraw {
    pub x: i64,
    pub y: i64,
    pub size: i64,
    pub texture: TextureId,
}

/// The number of points between the camera and a sprite at which the grid
/// is probed for a wall: four for each cell size of distance, and one at
/// least.
pub open spec fn probe_count(dist: int, cell_size: int) -> int {
    if 4 * dist / cell_size < 1 {
        1
    } else {
        4 * dist / cell_size
    }
}

/// The `i`-th of `steps` evenly spaced points from `from` over the span `d`.
pub open spec fn probe_point(from: int, d: int, i: int, steps: int) -> int {
    from + quot_toward_zero(d * i, steps)
}

/// The `i`-th probe point between `(px, py)` and `(sx, sy)` lies in a wall.
pub open spec fn wall_at_probe(
    grid: &Grid,
    cell_size: int,
    px: int,
    py: int,
    sx: int,
    sy: int,
    i: int,
) -> bool {
    let dist = floor_sqrt((sx - px) * (sx - px) + (sy - py) * (sy - py));
    let steps = probe_count(dist, cell_size);
    grid.lookup(
        probe_point(px, sx - px, i, steps) / cell_size,
        probe_point(py, sy - py, i, steps) / cell_size,
    ) == Some(Cell::Wall)
}

/// A wall hides the point `(sx, sy)` from the point `(px, py)`: one of the
/// probe points strictly between them lies in a wall cell. This is a
/// coarse test that can see a wall through a doorway at a shallow angle.
pub open spec fn wall_between(
    grid: &Grid,
    cell_size: int,
    px: int,
    py: int,
    sx: int,
    sy: int,
) -> bool {
    let dist = floor_sqrt((sx - px) * (sx - px) + (sy - py) * (sy - py));
    exists|i: int|
        1 <= i < probe_count(dist, cell_size) && #[trigger] wall_at_probe(
            grid,
            cell_size,
            px,
            py,
            sx,
            sy,
            i,
        )
}

/// Whether a wall hides the point `(sx, sy)` from the point `(px, py)`.
pub fn has_wall_between(grid: &Grid, cell_size: i64, px: i64, py: i64, sx: i64, sy: i64) -> (hidden:
    bool)
    requires
        grid.wf(),
        valid_cell_size(cell_size as int),
        in_world(px as int),
        in_world(py as int),
        in_world(sx as int),
        in_world(sy as int),
    ensures
        hidden == wall_between(
            grid,
            cell_size as int,
            px as int,
            py as int,
            sx as int,
            sy as int,
        ),
{
    let dx: i128 = (sx - px) as i128;
    let dy: i128 = (sy - py) as i128;
    proof {
        assert(0 <= dx * dx <= 2_000_000_000_000 * 2_000_000_000_000) by (nonlinear_arith)
            requires
                -2_000_000_000_000 <= dx <= 2_000_000_000_000,
        ;
        assert(0 <= dy * dy <= 2_000_000_000_000 * 2_000_000_000_000) by (nonlinear_arith)
            requires
                -2_000_000_000_000 <= dy <= 2_000_000_000_000,
        ;
    }
    let d2: i128 = dx * dx + dy * dy;
    let dist: i128 = isqrt(d2 as u128) as i128;
    proof {
        lemma_floor_sqrt_is(d2 as int, dist as int);
        if dist > 3_000_000_000_000 {
            lemma_square_monotone(3_000_000_000_000, dist as int);
        }
        lemma_floor_div_order(4 * dist, cell_size as int, 0);
        lemma_floor_div_order(4 * dist, cell_size as int, 4 * dist + 1);
        assert((4 * dist + 1) * cell_size > 4 * dist) by (nonlinear_arith)
            requires
                dist >= 0,
                cell_size >= 1,
        ;
    }
    let quarters: i128 = 4 * dist / (cell_size as i128);
    let steps: i128 = if quarters < 1 {
        1
    } else {
        quarters
    };
    let mut i: i128 = 1;
    while i < steps
        invariant
            grid.wf(),
            valid_cell_size(cell_size as int),
            in_world(px as int),
            in_world(py as int),
            dx == sx - px,
            dy == sy - py,
            -2_000_000_000_000 <= dx <= 2_000_000_000_000,
            -2_000_000_000_000 <= dy <= 2_000_000_000_000,
            dist == floor_sqrt((sx - px) * (sx - px) + (sy - py) * (sy - py)),
            steps == probe_count(dist as int, cell_size as int),
            1 <= steps <= 12_000_000_000_000,
            1 <= i <= steps,
            forall|k: int|
                1 <= k < i ==> !#[trigger] wall_at_probe(
                    grid,
                    cell_size as int,
                    px as int,
                    py as int,
                    sx as int,
                    sy as int,
                    k,
                ),
        decreases steps - i,
    {
        proof {
            lemma_axis_scaled(dx as int, 2_000_000_000_000, i as int);
            lemma_axis_scaled(dy as int, 2_000_000_000_000, i as int);
            assert(-(steps * magnitude(dx as int)) <= dx * i <= steps * magnitude(dx as int))
                by (nonlinear_arith)
                requires
                    1 <= i <= steps,
            ;
            assert(-(steps * magnitude(dy as int)) <= dy * i <= steps * magnitude(dy as int))
                by (nonlinear_arith)
                requires
                    1 <= i <= steps,
            ;
            lemma_scaled_quot_bound(dx * i, steps as int, magnitude(dx as int), 1);
            lemma_scaled_quot_bound(dy * i, steps as int, magnitude(dy as int), 1);
            assert(steps * 1 == steps);
        }
        let x: i64 = px + (div_toward_zero(dx * i, steps) as i64);
        let y: i64 = py + (div_toward_zero(dy * i, steps) as i64);
        let cx: i64 = floor_div(x, cell_size);
        let cy: i64 = floor_div(y, cell_size);
        match grid.cell_at(cx, cy) {
            Some(Cell::Wall) => {
                assert(wall_at_probe(
                    grid,
                    cell_size as int,
                    px as int,
                    py as int,
                    sx as int,
                    sy as int,
                    i as int,
                ));
                return true;
            },
            _ => {},
        }
        i = i + 1;
    }
    false
}

/// An angle brought between minus half a turn and half a turn by whole
/// turns: an angle above `PI` by the fewest turns back that bring it to
/// `PI` or below, one below `-PI` by the fewest turns forward that bring
/// it to `-PI` or above.
pub open spec fn wrap_angle(a: int) -> int {
    if a > PI {
        a - TAU * ((a - PI + TAU - 1) / (TAU as int))
    } else if a < -PI {
        a + TAU * ((-PI - a + TAU - 1) / (TAU as int))
    } else {
        a
    }
}

/// A wrapped angle lies between minus half a turn and half a turn and
/// differs from the angle by whole turns.
pub proof fn lemma_wrap_angle(a: int)
    ensures
        -PI <= wrap_angle(a) <= PI,
        (wrap_angle(a) - a) % (TAU as int) == 0,
{
    let t = TAU as int;
    if a > PI {
        let k = (a - PI + TAU - 1) / t;
        assert((wrap_angle(a) - a) == (-k) * t) by (nonlinear_arith)
            requires
                wrap_angle(a) == a - t * k,
        ;
        vstd::arithmetic::div_mod::lemma_mod_multiples_basic(-k, t);
    } else if a < -PI {
        let k = (-PI - a + TAU - 1) / t;
        assert((wrap_angle(a) - a) == k * t) by (nonlinear_arith)
            requires
                wrap_angle(a) == a + t * k,
        ;
        vstd::arithmetic::div_mod::lemma_mod_multiples_basic(k, t);
    }
}

/// The angle brought between minus half a turn and half a turn.
pub fn wrapped_angle(a: i64) -> (w: i64)
    requires
        -4 * WORLD_LIMIT <= a <= 4 * WORLD_LIMIT,
    ensures
        w == wrap_angle(a as int),
        -PI <= w <= PI,
{
    if a > PI {
        let turns: i64 = (a - PI + TAU - 1) / TAU;
        a - TAU * turns
    } else if a < -PI {
        let turns: i64 = (-PI - a + TAU - 1) / TAU;
        a + TAU * turns
    } else {
        a
    }
}

/// The growth of a sprite's size at the height of its wave, in thousandths.
pub open spec fn pulse_of(anim: SpriteAnim) -> int {
    match anim {
        SpriteAnim::Folder => 200,
        SpriteAnim::Guard => 50,
    }
}

/// The rise of a sprite at the height of its wave, in pixels.
pub open spec fn bob_of(anim: SpriteAnim) -> int {
    match anim {
        SpriteAnim::Folder => 6,
        SpriteAnim::Guard => 3,
    }
}

/// The angles, in micro-radians, whose sines move a sprite after `elapsed`
/// ticks: the first pulses its size, the second bobs it up and down. A
/// folder pulses three and bobs four radians a second, a guard does both
/// two radians a second; each sprite is out of phase by a twentieth of a
/// radian for each world unit of the sum of its coordinates.
pub open spec fn wave_angles_of(sprite: Sprite, elapsed: int) -> (int, int) {
    let phase = (sprite.x + sprite.y) * 50;
    match sprite.anim {
        SpriteAnim::Folder => (3 * elapsed + phase, 4 * elapsed + phase),
        SpriteAnim::Guard => (2 * elapsed + phase, 2 * elapsed + phase),
    }
}

/// The angles whose sines move the sprite after `elapsed` ticks.
pub fn wave_angles(sprite: &Sprite, elapsed: i64) -> (angles: (i64, i64))
    requires
        sprite.wf(),
        0 <= elapsed <= WORLD_LIMIT,
    ensures
        (angles.0 as int, angles.1 as int) == wave_angles_of(*sprite, elapsed as int),
{
    let phase: i64 = (sprite.x + sprite.y) * 50;
    match sprite.anim {
        SpriteAnim::Folder => (3 * elapsed + phase, 4 * elapsed + phase),
        SpriteAnim::Guard => (2 * elapsed + phase, 2 * elapsed + phase),
    }
}

/// The side of a sprite's square at distance `dist`, before it pulses: the
/// sprite size times the screen height, divided by the distance, and twice
/// the screen height at most.
pub open spec fn sprite_base(dist: int, screen_height: int) -> int {
    let h = SPRITE_SIZE * screen_height / dist;
    if h > 2 * screen_height {
        2 * screen_height
    } else {
        h
    }
}

/// How a sprite at `(sx, sy)`, seen from `(px, py)` at the angle `rel`
/// from the camera's facing, appears on the screen. `sin_pulse` and
/// `sin_bob` are the sines, times `UNIT`, of the sprite's wave angles.
pub open spec fn sprite_on_screen(
    sprite: Sprite,
    dist: int,
    rel: int,
    sin_pulse: int,
    sin_bob: int,
    screen: Screen,
) -> SpriteDraw {
    let center = (rel + HALF_FOV) * screen.width / (FOV as int);
    let grown = UNIT + quot_toward_zero(pulse_of(sprite.anim) * sin_pulse, UNIT as int);
    let size = sprite_base(dist, screen.height as int) * grown / (UNIT as int);
    let rise = quot_toward_zero(bob_of(sprite.anim) * sin_bob, UNIT as int);
    SpriteDraw {
        x: (center - size / 2) as i64,
        y: (quot_toward_zero(screen.height - size, 2) + rise) as i64,
        size: size as i64,
        texture: sprite.texture,
    }
}

/// What is drawn of a sprite, seen by a camera at `(px, py)` that faces
/// the angle `dir`: nothing where the sprite is nearer than
/// `MIN_SPRITE_DISTANCE`, lies more than half the field of view off the
/// facing, is hidden by a wall, or falls beside the screen; else the
/// sprite scaled down with its distance, placed across the screen by its
/// angle, pulsing and bobbing.
pub open spec fn sprite_view(
    grid: &Grid,
    cell_size: int,
    px: int,
    py: int,
    dir: int,
    sprite: Sprite,
    sprite_angle: int,
    sin_pulse: int,
    sin_bob: int,
    screen: Screen,
) -> Option<SpriteDraw> {
    let dist = floor_sqrt(sprite.dist2(px, py));
    let rel = wrap_angle(sprite_angle - dir);
    let draw = sprite_on_screen(sprite, dist, rel, sin_pulse, sin_bob, screen);
    if dist < MIN_SPRITE_DISTANCE {
        None
    } else if magnitude(rel) > HALF_FOV {
        None
    } else if wall_between(grid, cell_size, px, py, sprite.x as int, sprite.y as int) {
        None
    } else if draw.x + draw.size < 0 || draw.x >= screen.width {
        None
    } else {
        Some(draw)
    }
}

/// What is drawn of a sprite. `sprite_angle` is the angle, in
/// micro-radians, of the direction from the camera to the sprite;
/// `sin_pulse` and `sin_bob` are the sines, times `UNIT`, of the two
/// angles that `wave_angles` gives for the sprite.
pub fn draw_sprite_animated(
    grid: &Grid,
    cell_size: i64,
    px: i64,
    py: i64,
    dir: i64,
    sprite: &Sprite,
    sprite_angle: i64,
    sin_pulse: i64,
    sin_bob: i64,
    screen: Screen,
) -> (draw: Option<SpriteDraw>)
    requires
        grid.wf(),
        valid_cell_size(cell_size as int),
        in_world(px as int),
        in_world(py as int),
        in_world(dir as int),
        in_world(sprite_angle as int),
        sprite.wf(),
        -UNIT <= sin_pulse <= UNIT,
        -UNIT <= sin_bob <= UNIT,
        screen.wf(),
    ensures
        draw == sprite_view(
            grid,
            cell_size as int,
            px as int,
            py as int,
            dir as int,
            *sprite,
            sprite_angle as int,
            sin_pulse as int,
            sin_bob as int,
            screen,
        ),
{
    let d2: i128 = sprite.distance_squared(px, py);
    let root: u64 = isqrt(d2 as u128);
    proof {
        lemma_floor_sqrt_is(d2 as int, root as int);
        if root > 3_000_000_000_000 {
            lemma_square_monotone(3_000_000_000_000, root as int);
        }
    }
    let dist: i64 = root as i64;
    if dist < MIN_SPRITE_DISTANCE {
        return None;
    }
    let rel: i64 = wrapped_angle(sprite_angle - dir);
    if abs_i64(rel) > HALF_FOV {
        return None;
    }
    if has_wall_between(grid, cell_size, px, py, sprite.x, sprite.y) {
        return None;
    }
    assert(0 <= (rel + HALF_FOV) * screen.width <= 1_047_198 * 1_000_000) by (nonlinear_arith)
        requires
            0 <= rel + HALF_FOV <= 1_047_198,
            0 < screen.width <= 1_000_000,
    ;
    let center: i64 = (rel + HALF_FOV) * screen.width / FOV;
    let full: i64 = SPRITE_SIZE * screen.height / dist;
    let base: i64 = if full > 2 * screen.height {
        2 * screen.height
    } else {
        full
    };
    let pulse: i64 = match sprite.anim {
        SpriteAnim::Folder => 200,
        SpriteAnim::Guard => 50,
    };
    let bob: i64 = match sprite.anim {
        SpriteAnim::Folder => 6,
        SpriteAnim::Guard => 3,
    };
    let grown: i64 = UNIT + (div_toward_zero((pulse * sin_pulse) as i128, UNIT as i128) as i64);
    proof {
        lemma_floor_div_order(SPRITE_SIZE * screen.height, dist as int, 0);
        assert(0 <= base * grown <= 2_000_000 * 1200) by (nonlinear_arith)
            requires
                0 <= base <= 2_000_000,
                800 <= grown <= 1200,
        ;
    }
    let size: i64 = base * grown / UNIT;
    let rise: i64 = div_toward_zero((bob * sin_bob) as i128, UNIT as i128) as i64;
    let x: i64 = center - size / 2;
    let y: i64 = (div_toward_zero((screen.height - size) as i128, 2) as i64) + rise;
    if x + size < 0 || x >= screen.width {
        return None;
    }
    Some(SpriteDraw { x, y, size, texture: sprite.texture })
}

} // verus!
