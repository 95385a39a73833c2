//! The wall pass of the projection: one ray for every other screen column
//! and a slice of wall for each ray that hits. Nothing is drawn here; the
//! pass returns what is to be drawn.

use crate::cast::cast_ray;
use crate::cast::ray_result;
use crate::cast::Heading;
use crate::cast::RayHit;
use crate::fixed::abs_i64;
use crate::fixed::floor_div;
use crate::fixed::floor_rem;
use crate::fixed::in_world;
use crate::fixed::lemma_floor_div_order;
use crate::fixed::magnitude;
use crate::fixed::UNIT;
use crate::level::valid_cell_size;
use crate::level::Grid;
use vstd::prelude::*;

verus! {

/// The width of the screen, in pixels.
pub const SCREEN_W: i64 = 1024;

/// The height of the screen, in pixels.
pub const SCREEN_H: i64 = 640;

/// The field of view, in micro-radians: a third of a half turn.
pub const FOV: i64 = 1_047_198;

/// Half the field of view, in micro-radians.
pub const HALF_FOV: i64 = 523_599;

/// Walls are cast for every column whose index is a multiple of this.
pub const RAY_STRIDE: i64 = 2;

/// How far a wall ray is cast, in sub-units.
pub const VIEW_DISTANCE: i64 = 2_000_000;

/// The largest width or height of a screen or a texture, in pixels.
pub const MAX_PIXELS: i64 = 1_000_000;

/// The tint of a wall face that runs north to south.
pub const TINT_BRIGHT: u8 = 255;

/// The tint of a wall face that runs east to west.
pub const TINT_DARK: u8 = 200;

/// The images that the passes refer to.
#[derive(Debug, Clone, Copy, PartialEq, Eq, Structural)]
pub enum TextureId {
    Floor,
    Wall1,
    Wall2,
    Guard1,
    Guard2,
    Folder,
}

/// The size of the screen, in pixels.
#[derive(Debug, Clone, Copy, PartialEq, Eq, Structural)]
pub struct Screen {
    pub width: i64,
    pub height: i64,
}

impl Screen {
    /// Both sides are positive and no longer than `MAX_PIXELS`.
    pub open spec fn wf(&self) -> bool {
        0 < self.width <= MAX_PIXELS && 0 < self.height <= MAX_PIXELS
    }
}

/// The ray of one screen column: its direction, and the cosine, times
/// `UNIT`, of the angle between it and the direction that the camera faces.
#[derive(Debug, Clone, Copy, PartialEq, Eq, Structural)]
pub struct ColumnRay {
    pub heading: Heading,
    pub cos_offset: i64,
}

impl ColumnRay {
    pub open spec fn wf(&self) -> bool {
        self.heading.wf() && -UNIT <= self.cos_offset <= UNIT
    }
}

/// The widths of the two wall textures, in pixels.
#[derive(Debug, Clone, Copy, PartialEq, Eq, Structural)]
pub struct WallTextures {
    pub wall1_width: i64,
    pub wall2_width: i64,
}

impl WallTextures {
    pub open spec fn wf(&self) -> bool {
        0 <= self.wall1_width <= MAX_PIXELS && 0 <= self.wall2_width <= MAX_PIXELS
    }
}

/// One vertical strip of wall: the screen columns from `x` on, `width` of
/// them; the texture and the column of it to draw; the strip's height and
/// its upper edge on the screen; and its tint.
#[derive(Debug, Clone, Copy, PartialEq, Eq, Structural)]
pub struct WallSlice {
    pub x: i64,
    pub width: i64,
    pub texture: TextureId,
    pub tex_x: i64,
    pub height: i64,
    pub top: i64,
    pub tint: u8,
}

/// The angle, in micro-radians, between the ray of column `x` and the
/// direction that the camera faces: it grows evenly from minus half the
/// field of view at the left edge toward half the field of view at the
/// right edge.
pub open spec fn column_offset(x: int, screen_width: int) -> int {
    (2 * x - screen_width) * HALF_FOV / screen_width
}

/// The cosine by which a distance is corrected: its magnitude, and one
/// thousandth at least.
pub open spec fn correction(cos_offset: int) -> int {
    if magnitude(cos_offset) < 1 {
        1
    } else {
        magnitude(cos_offset)
    }
}

/// The height of the wall slice for a hit at `distance`: the cell size
/// times the screen height, divided by the corrected distance, which is
/// the distance divided by the cosine of the ray's angle offset; rounded
/// down and limited to the screen height.
pub open spec fn wall_height(
    cell_size: int,
    screen_height: int,
    distance: int,
    cos_offset: int,
) -> int {
    let h = cell_size * screen_height * correction(cos_offset) / (distance * UNIT);
    if h > screen_height {
        screen_height
    } else {
        h
    }
}

/// The texture of a wall cell: the two textures alternate like the fields
/// of a chessboard.
pub open spec fn wall_texture(map_x: int, map_y: int) -> TextureId {
    if (map_x + map_y) % 2 == 0 {
        TextureId::Wall1
    } else {
        TextureId::Wall2
    }
}

/// The width of the texture of a wall cell.
pub open spec fn wall_texture_width(map_x: int, map_y: int, textures: WallTextures) -> int {
    if (map_x + map_y) % 2 == 0 {
        textures.wall1_width as int
    } else {
        textures.wall2_width as int
    }
}

/// The slice that column `x` shows of a hit.
pub open spec fn slice_of(
    hit: RayHit,
    x: int,
    cos_offset: int,
    cell_size: int,
    screen: Screen,
    textures: WallTextures,
) -> WallSlice {
    let height = wall_height(cell_size, screen.height as int, hit.distance as int, cos_offset);
    let along = if hit.hit_vertical {
        hit.y as int
    } else {
        hit.x as int
    };
    WallSlice {
        x: x as i64,
        width: (if screen.width - x < RAY_STRIDE {
            screen.width - x
        } else {
            RAY_STRIDE as int
        }) as i64,
        texture: wall_texture(hit.map_x as int, hit.map_y as int),
        tex_x: ((along % cell_size) * wall_texture_width(
            hit.map_x as int,
            hit.map_y as int,
            textures,
        ) / cell_size) as i64,
        height: height as i64,
        top: ((screen.height - height) / 2) as i64,
        tint: if hit.hit_vertical {
            TINT_BRIGHT
        } else {
            TINT_DARK
        },
    }
}

/// With the angle offset fixed, a hit farther away never gives a higher slice.
pub proof fn lemma_wall_height_decreases(
    cell_size: int,
    screen_height: int,
    cos_offset: int,
    near: int,
    far: int,
)
    requires
        cell_size > 0,
        screen_height > 0,
        0 < near <= far,
    ensures
        wall_height(cell_size, screen_height, near, cos_offset) >= wall_height(
            cell_size,
            screen_height,
            far,
            cos_offset,
        ),
{
    let n = cell_size * screen_height * correction(cos_offset);
    let a = near * UNIT;
    let b = far * UNIT;
    assert(n >= 0) by (nonlinear_arith)
        requires
            n == cell_size * screen_height * correction(cos_offset),
            cell_size > 0,
            screen_height > 0,
            correction(cos_offset) >= 1,
    ;
    let q = n / b;
    lemma_floor_div_order(n, b, q);
    lemma_floor_div_order(n, b, 0);
    assert(q * a <= q * b) by (nonlinear_arith)
        requires
            q >= 0,
            0 < a <= b,
    ;
    lemma_floor_div_order(n, a, q);
}

/// With the angle offset fixed, a hit farther away gives a strictly lower
/// slice, where the nearer slice is not cut to the screen height and the
/// two distances are far enough apart for the heights to differ by a pixel:
/// the difference of the distances, times the cell size, the screen height
/// and the cosine, is no less than the product of the distances times `UNIT`.
pub proof fn lemma_wall_height_strictly_decreases(
    cell_size: int,
    screen_height: int,
    cos_offset: int,
    near: int,
    far: int,
)
    requires
        cell_size > 0,
        screen_height > 0,
        0 < near < far,
        cell_size * screen_height * correction(cos_offset) / (near * UNIT) <= screen_height,
        cell_size * screen_height * correction(cos_offset) * (far - near) >= near * far * UNIT,
    ensures
        wall_height(cell_size, screen_height, near, cos_offset) > wall_height(
            cell_size,
            screen_height,
            far,
            cos_offset,
        ),
{
    let n = cell_size * screen_height * correction(cos_offset);
    let a = near * UNIT;
    let b = far * UNIT;
    let q = n / b;
    assert(n >= 0) by (nonlinear_arith)
        requires
            n == cell_size * screen_height * correction(cos_offset),
            cell_size > 0,
            screen_height > 0,
            correction(cos_offset) >= 1,
    ;
    lemma_floor_div_order(n, b, q);
    lemma_floor_div_order(n, b, 0);
    // n * (far - near) >= near * far * UNIT and q * b <= n give (q + 1) * a <= n.
    assert((q + 1) * a <= n) by (nonlinear_arith)
        requires
            q * b <= n,
            q >= 0,
            n * (far - near) >= near * far * UNIT,
            a == near * UNIT,
            b == far * UNIT,
            0 < near < far,
    ;
    lemma_floor_div_order(n, a, q + 1);
    lemma_wall_height_decreases(cell_size, screen_height, cos_offset, near, far);
}

/// The angle offset of column `x`.
pub fn column_angle(x: i64, screen: Screen) -> (offset: i64)
    requires
        screen.wf(),
        0 <= x <= screen.width,
    ensures
        offset == column_offset(x as int, screen.width as int),
{
    floor_div((2 * x - screen.width) * HALF_FOV, screen.width)
}

/// The slice that column `x` shows of a hit. `cos_offset` is the cosine,
/// times `UNIT`, of the angle between the ray and the camera's facing.
pub fn wall_slice(
    hit: &RayHit,
    x: i64,
    cos_offset: i64,
    cell_size: i64,
    screen: Screen,
    textures: WallTextures,
) -> (slice: WallSlice)
    requires
        hit.wf(),
        screen.wf(),
        textures.wf(),
        valid_cell_size(cell_size as int),
        0 <= x < screen.width,
        -UNIT <= cos_offset <= UNIT,
    ensures
        slice == slice_of(*hit, x as int, cos_offset as int, cell_size as int, screen, textures),
        0 <= slice.height <= screen.height,
        0 <= slice.top,
        0 < slice.width <= RAY_STRIDE,
{
    let c: i64 = if abs_i64(cos_offset) < 1 {
        1
    } else {
        abs_i64(cos_offset)
    };
    let ghost n = cell_size * screen.height * c;
    proof {
        assert(0 <= cell_size * screen.height <= 1_000_000_000_000 * 1_000_000) by (nonlinear_arith)
            requires
                0 < cell_size <= 1_000_000_000_000,
                0 < screen.height <= 1_000_000,
        ;
        assert(0 <= cell_size * screen.height * c <= 1_000_000_000_000 * 1_000_000 * 1000)
            by (nonlinear_arith)
            requires
                0 <= cell_size * screen.height <= 1_000_000_000_000 * 1_000_000,
                1 <= c <= 1000,
        ;
        lemma_floor_div_order(n, hit.distance * UNIT, 0);
    }
    let scaled: i128 = (cell_size as i128) * (screen.height as i128) * (c as i128);
    let full: i128 = scaled / ((hit.distance as i128) * (UNIT as i128));
    let height: i64 = if full > screen.height as i128 {
        screen.height
    } else {
        full as i64
    };
    let even: bool = (hit.map_x + hit.map_y) % 2 == 0;
    let texture = if even {
        TextureId::Wall1
    } else {
        TextureId::Wall2
    };
    let tex_width: i64 = if even {
        textures.wall1_width
    } else {
        textures.wall2_width
    };
    let along: i64 = if hit.hit_vertical {
        hit.y
    } else {
        hit.x
    };
    let offset: i64 = floor_rem(along, cell_size);
    proof {
        assert(0 <= offset * tex_width <= 1_000_000_000_000 * 1_000_000) by (nonlinear_arith)
            requires
                0 <= offset <= 1_000_000_000_000,
                0 <= tex_width <= 1_000_000,
        ;
        lemma_floor_div_order(offset * tex_width, cell_size as int, 0);
        lemma_floor_div_order(offset * tex_width, cell_size as int, offset * tex_width + 1);
        assert((offset * tex_width + 1) * cell_size > offset * tex_width) by (nonlinear_arith)
            requires
                offset * tex_width >= 0,
                cell_size >= 1,
        ;
    }
    let tex_x: i64 = offset * tex_width / cell_size;
    WallSlice {
        x,
        width: if screen.width - x < RAY_STRIDE {
            screen.width - x
        } else {
            RAY_STRIDE
        },
        texture,
        tex_x,
        height,
        top: (screen.height - height) / 2,
        tint: if hit.hit_vertical {
            TINT_BRIGHT
        } else {
            TINT_DARK
        },
    }
}

/// The number of columns for which a wall ray is cast.
pub open spec fn column_count(screen_width: int) -> int {
    (screen_width + RAY_STRIDE - 1) / (RAY_STRIDE as int)
}

/// The slice of column `x`, if its ray hits a wall within `VIEW_DISTANCE`.
pub open spec fn column_slice(
    grid: &Grid,
    cell_size: int,
    px: int,
    py: int,
    ray: ColumnRay,
    x: int,
    screen: Screen,
    textures: WallTextures,
) -> Option<WallSlice> {
    match ray_result(grid, cell_size, px, py, ray.heading, VIEW_DISTANCE as int) {
        Some(hit) => Some(slice_of(hit, x, ray.cos_offset as int, cell_size, screen, textures)),
        None => None,
    }
}

/// The slices of the first `n` rays, from left to right: ray `i` belongs
/// to column `i * RAY_STRIDE`, and a ray that hits nothing gives no slice.
pub open spec fn wall_pass(
    grid: &Grid,
    cell_size: int,
    px: int,
    py: int,
    rays: Seq<ColumnRay>,
    screen: Screen,
    textures: WallTextures,
    n: nat,
) -> Seq<WallSlice>
    decreases n,
{
    if n == 0 {
        Seq::empty()
    } else {
        let rest = wall_pass(grid, cell_size, px, py, rays, screen, textures, (n - 1) as nat);
        match column_slice(
            grid,
            cell_size,
            px,
            py,
            rays[n - 1],
            (n - 1) * RAY_STRIDE,
            screen,
            textures,
        ) {
            Some(slice) => rest.push(slice),
            None => rest,
        }
    }
}

/// The wall pass: one ray for every `RAY_STRIDE`-th screen column, cast
/// from `(px, py)`, and a slice for each that hits a wall. The caller
/// supplies the rays, one for each such column from left to right: the
/// ray of column `x` points `column_offset(x, screen.width)` away from the
/// direction that the camera faces.
pub fn render(
    grid: &Grid,
    cell_size: i64,
    px: i64,
    py: i64,
    rays: &Vec<ColumnRay>,
    screen: Screen,
    textures: WallTextures,
) -> (slices: Vec<WallSlice>)
    requires
        grid.wf(),
        valid_cell_size(cell_size as int),
        in_world(px as int),
        in_world(py as int),
        screen.wf(),
        textures.wf(),
        rays.len() == column_count(screen.width as int),
        forall|i: int| 0 <= i < rays.len() ==> (#[trigger] rays[i]).wf(),
    ensures
        slices@ == wall_pass(
            grid,
            cell_size as int,
            px as int,
            py as int,
            rays@,
            screen,
            textures,
            rays.len() as nat,
        ),
{
    let mut slices: Vec<WallSlice> = Vec::new();
    let mut i: usize = 0;
    while i < rays.len()
        invariant
            grid.wf(),
            valid_cell_size(cell_size as int),
            in_world(px as int),
            in_world(py as int),
            screen.wf(),
            textures.wf(),
            rays.len() == column_count(screen.width as int),
            forall|k: int| 0 <= k < rays.len() ==> (#[trigger] rays[k]).wf(),
            i <= rays.len(),
            slices@ == wall_pass(
                grid,
                cell_size as int,
                px as int,
                py as int,
                rays@,
                screen,
                textures,
                i as nat,
            ),
        decreases rays.len() - i,
    {
        let ray = rays[i];
        let x: i64 = (i as i64) * RAY_STRIDE;
        match cast_ray(grid, cell_size, px, py, ray.heading, VIEW_DISTANCE) {
            Some(hit) => {
                slices.push(wall_slice(&hit, x, ray.cos_offset, cell_size, screen, textures));
            },
            None => {},
        }
        i += 1;
    }
    slices
}

} // verus!
