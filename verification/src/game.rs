//! The state of a level in play and what one frame does to it.

use crate::cast::Heading;
use crate::events::Input;
use crate::fixed::floor_div;
use crate::fixed::in_world;
use crate::fixed::is_length;
use crate::fixed::lemma_floor_div_order;
use crate::fixed::WORLD_LIMIT;
use crate::guard::Guard;
use crate::level::fits_world;
use crate::level::lemma_with_cell_rectangular;
use crate::level::valid_cell_size;
use crate::level::with_cell;
use crate::level::Cell;
use crate::level::Grid;
use crate::player::slide_target;
use crate::player::Player;
use vstd::prelude::*;

verus! {

/// The cell `(c, r)` comes before the cell `(col, row)` when the grid is
/// read row by row from the top, each row from the left.
pub open spec fn comes_before(c: int, r: int, col: int, row: int) -> bool {
    r < row || (r == row && c < col)
}

/// The cell where the player starts: the first walkable cell of the grid,
/// read row by row; the cell in column one and row one where no cell is
/// walkable.
pub open spec fn is_spawn_cell(grid: &Grid, col: int, row: int) -> bool {
    if exists|c: int, r: int| grid.contains(c, r) && !#[trigger] grid.at(c, r).blocking() {
        &&& grid.contains(col, row)
        &&& !grid.at(col, row).blocking()
        &&& forall|c: int, r: int|
            grid.contains(c, r) && comes_before(c, r, col, row) ==> #[trigger] grid.at(
                c,
                r,
            ).blocking()
    } else {
        col == 1 && row == 1
    }
}

/// The cell where the player starts.
pub open spec fn spawn_cell(grid: &Grid) -> (int, int) {
    choose|p: (int, int)| is_spawn_cell(grid, p.0, p.1)
}

/// A grid has one cell only where the player can start.
pub proof fn lemma_spawn_cell_unique(grid: &Grid, col: int, row: int)
    requires
        is_spawn_cell(grid, col, row),
    ensures
        spawn_cell(grid) == (col, row),
{
    let here = (col, row);
    assert(is_spawn_cell(grid, here.0, here.1));
    let p = spawn_cell(grid);
    assert(is_spawn_cell(grid, p.0, p.1));
    if exists|c: int, r: int| grid.contains(c, r) && !#[trigger] grid.at(c, r).blocking() {
        if comes_before(p.0, p.1, col, row) {
            assert(grid.at(p.0, p.1).blocking());
        }
        if comes_before(col, row, p.0, p.1) {
            assert(grid.at(col, row).blocking());
        }
    }
}

/// The middle of cell number `index` along an axis.
pub open spec fn cell_middle(index: int, cell_size: int) -> int {
    index * cell_size + cell_size / 2
}

/// The cell where the player starts.
pub fn find_spawn(grid: &Grid) -> (cell: (usize, usize))
    requires
        grid.wf(),
    ensures
        (cell.0 as int, cell.1 as int) == spawn_cell(grid),
        grid.contains(cell.0 as int, cell.1 as int) || (cell.0 == 1 && cell.1 == 1),
{
    let rows: usize = grid.rows();
    let cols: usize = grid.cols();
    let mut row: usize = 0;
    while row < rows
        invariant
            grid.wf(),
            rows == grid.height(),
            cols == grid.width(),
            row <= rows,
            forall|c: int, r: int|
                grid.contains(c, r) && r < row ==> #[trigger] grid.at(c, r).blocking(),
        decreases rows - row,
    {
        let mut col: usize = 0;
        while col < cols
            invariant
                grid.wf(),
                rows == grid.height(),
                cols == grid.width(),
                row < rows,
                col <= cols,
                forall|c: int, r: int|
                    grid.contains(c, r) && comes_before(c, r, col as int, row as int)
                        ==> #[trigger] grid.at(c, r).blocking(),
            decreases cols - col,
        {
            if !grid.get(col, row).is_blocking() {
                proof {
                    assert(grid.contains(col as int, row as int) && !grid.at(
                        col as int,
                        row as int,
                    ).blocking());
                    lemma_spawn_cell_unique(grid, col as int, row as int);
                }
                return (col, row);
            }
            col += 1;
        }
        row += 1;
    }
    proof {
        lemma_spawn_cell_unique(grid, 1, 1);
    }
    (1, 1)
}

/// The tile that the point `(x, y)` lies in, where the grid has one.
pub open spec fn tile_under(grid: &Grid, cell_size: int, x: int, y: int) -> Option<Cell> {
    grid.lookup(x / cell_size, y / cell_size)
}

/// The rows of the grid after what lies at the point `(x, y)` has been
/// picked up: a folder tile under the point has become floor.
pub open spec fn rows_after_collect(grid: &Grid, cell_size: int, x: int, y: int) -> Seq<Seq<Cell>> {
    if tile_under(grid, cell_size, x, y) == Some(Cell::Folder) {
        with_cell(grid@, x / cell_size, y / cell_size, Cell::Floor)
    } else {
        grid@
    }
}

/// The guard that a tile brings forth: one in the middle of every guard marker.
pub open spec fn marker_guard(cell: Cell, col: int, row: int, cell_size: int) -> Option<Guard> {
    match cell {
        Cell::Guard1 | Cell::Guard2 => Some(
            Guard::spec_new(
                cell_middle(col, cell_size) as i64,
                cell_middle(row, cell_size) as i64,
                cell,
            ),
        ),
        _ => None,
    }
}

/// The guards of the first `n` tiles of row `row`, from left to right.
pub open spec fn row_guards(grid: &Grid, cell_size: int, row: int, n: nat) -> Seq<Guard>
    decreases n,
{
    if n == 0 {
        Seq::empty()
    } else {
        let rest = row_guards(grid, cell_size, row, (n - 1) as nat);
        match marker_guard(grid.at(n - 1, row), n - 1, row, cell_size) {
            Some(guard) => rest.push(guard),
            None => rest,
        }
    }
}

/// The guards of the first `n` rows, row by row from the top.
pub open spec fn grid_guards(grid: &Grid, cell_size: int, n: nat) -> Seq<Guard>
    decreases n,
{
    if n == 0 {
        Seq::empty()
    } else {
        grid_guards(grid, cell_size, (n - 1) as nat) + row_guards(
            grid,
            cell_size,
            n - 1,
            grid.width(),
        )
    }
}

/// The guards that a level starts with: one for every guard marker of the
/// grid, of the marker's kind and in the middle of its tile.
pub fn spawn_guards(grid: &Grid, cell_size: i64) -> (guards: Vec<Guard>)
    requires
        grid.wf(),
        valid_cell_size(cell_size as int),
        fits_world(grid, cell_size as int),
    ensures
        guards@ == grid_guards(grid, cell_size as int, grid.height()),
        forall|i: int| 0 <= i < guards.len() ==> (#[trigger] guards[i]).wf(),
{
    let rows: usize = grid.rows();
    let cols: usize = grid.cols();
    let mut guards: Vec<Guard> = Vec::new();
    let mut row: usize = 0;
    while row < rows
        invariant
            grid.wf(),
            valid_cell_size(cell_size as int),
            fits_world(grid, cell_size as int),
            rows == grid.height(),
            cols == grid.width(),
            row <= rows,
            guards@ == grid_guards(grid, cell_size as int, row as nat),
            forall|i: int| 0 <= i < guards.len() ==> (#[trigger] guards[i]).wf(),
        decreases rows - row,
    {
        let ghost before = guards@;
        let mut col: usize = 0;
        while col < cols
            invariant
                grid.wf(),
                valid_cell_size(cell_size as int),
                fits_world(grid, cell_size as int),
                rows == grid.height(),
                cols == grid.width(),
                row < rows,
                col <= cols,
                before == grid_guards(grid, cell_size as int, row as nat),
                guards@ == before + row_guards(grid, cell_size as int, row as int, col as nat),
                forall|i: int| 0 <= i < guards.len() ==> (#[trigger] guards[i]).wf(),
            decreases cols - col,
        {
            let ghost so_far = row_guards(grid, cell_size as int, row as int, col as nat);
            let cell = grid.get(col, row);
            match cell {
                Cell::Guard1 | Cell::Guard2 => {
                    proof {
                        assert((col + 1) * cell_size <= cols * cell_size) by (nonlinear_arith)
                            requires
                                col + 1 <= cols,
                                cell_size > 0,
                        ;
                        assert((row + 1) * cell_size <= rows * cell_size) by (nonlinear_arith)
                            requires
                                row + 1 <= rows,
                                cell_size > 0,
                        ;
                        assert((col + 1) * cell_size == col * cell_size + cell_size && (row + 1)
                            * cell_size == row * cell_size + cell_size) by (nonlinear_arith);
                        assert(col * cell_size >= col && row * cell_size >= row)
                            by (nonlinear_arith)
                            requires
                                col >= 0,
                                row >= 0,
                                cell_size >= 1,
                        ;
                    }
                    let x: i64 = (col as i64) * cell_size + cell_size / 2;
                    let y: i64 = (row as i64) * cell_size + cell_size / 2;
                    let guard = Guard::new(x, y, cell);
                    guards.push(guard);
                    proof {
                        assert(guards@ == before + so_far.push(guard));
                    }
                },
                _ => {},
            }
            col += 1;
        }
        row += 1;
    }
    guards
}

/// A level in play: the grid with the size of its cells, the player, the
/// guards, and the number of folders collected.
pub struct World {
    pub grid: Grid,
    pub cell_size: i64,
    pub player: Player,
    pub guards: Vec<Guard>,
    pub folders_collected: usize,
}

/// What a frame brought.
#[derive(Debug, Clone, Copy, PartialEq, Eq, Structural)]
pub struct Tick {
    /// The player picked up a folder.
    pub collected: bool,
    /// The player stands on a goal tile.
    pub at_goal: bool,
}

impl World {
    /// The grid is rectangular and lies in the world with its cells, and
    /// the player and every guard are well formed.
    pub open spec fn wf(&self) -> bool {
        &&& self.grid.wf()
        &&& valid_cell_size(self.cell_size as int)
        &&& fits_world(&self.grid, self.cell_size as int)
        &&& self.player.wf()
        &&& forall|i: int| 0 <= i < self.guards.len() ==> (#[trigger] self.guards[i]).wf()
    }

    /// The player's centre lies in a folder tile.
    pub open spec fn on_folder(&self) -> bool {
        tile_under(&self.grid, self.cell_size as int, self.player.x as int, self.player.y as int)
            == Some(Cell::Folder)
    }

    /// The player's centre lies in a goal tile.
    pub open spec fn on_goal(&self) -> bool {
        tile_under(&self.grid, self.cell_size as int, self.player.x as int, self.player.y as int)
            == Some(Cell::Goal)
    }

    /// Whether a level with this grid and cell size can be set up: the
    /// cell size is valid, the grid lies in the world, and so does the
    /// middle of the cell where the player starts.
    pub open spec fn can_set_up(grid: &Grid, cell_size: int) -> bool {
        &&& valid_cell_size(cell_size)
        &&& fits_world(grid, cell_size)
        &&& in_world(cell_middle(spawn_cell(grid).0, cell_size))
        &&& in_world(cell_middle(spawn_cell(grid).1, cell_size))
    }

    /// Sets up a level: the player stands in the middle of the first
    /// walkable cell, a guard stands on every guard marker, and no folder
    /// is collected. `None` where the level does not lie in the world.
    pub fn new(grid: Grid, cell_size: i64) -> (world: Option<World>)
        requires
            grid.wf(),
        ensures
            world is Some <==> World::can_set_up(&grid, cell_size as int),
            world matches Some(w) ==> {
                &&& w.wf()
                &&& w.grid == grid
                &&& w.cell_size == cell_size
                &&& w.player == Player::spec_new(
                    cell_middle(spawn_cell(&grid).0, cell_size as int) as i64,
                    cell_middle(spawn_cell(&grid).1, cell_size as int) as i64,
                )
                &&& w.guards@ == grid_guards(&grid, cell_size as int, grid.height())
                &&& w.folders_collected == 0
            },
    {
        if cell_size <= 0 || cell_size > WORLD_LIMIT {
            return None;
        }
        let cols: u128 = grid.cols() as u128;
        let rows: u128 = grid.rows() as u128;
        assert(cols * cell_size <= 0x1_0000_0000_0000_0000 * 1_000_000_000_000 && rows * cell_size
            <= 0x1_0000_0000_0000_0000 * 1_000_000_000_000) by (nonlinear_arith)
            requires
                0 <= cols <= 0x1_0000_0000_0000_0000,
                0 <= rows <= 0x1_0000_0000_0000_0000,
                0 < cell_size <= 1_000_000_000_000,
        ;
        if cols * (cell_size as u128) > WORLD_LIMIT as u128 || rows * (cell_size as u128)
            > WORLD_LIMIT as u128 {
            return None;
        }
        let spawn = find_spawn(&grid);
        proof {
            assert(cols <= cols * cell_size && rows <= rows * cell_size) by (nonlinear_arith)
                requires
                    cols >= 0,
                    rows >= 0,
                    cell_size >= 1,
            ;
            assert(spawn.0 * cell_size <= 1_000_000_000_000 * 1_000_000_000_000 && spawn.1
                * cell_size <= 1_000_000_000_000 * 1_000_000_000_000 && spawn.0 * cell_size >= 0
                && spawn.1 * cell_size >= 0) by (nonlinear_arith)
                requires
                    0 <= spawn.0 <= 1_000_000_000_000,
                    0 <= spawn.1 <= 1_000_000_000_000,
                    0 < cell_size <= 1_000_000_000_000,
            ;
        }
        let x: i128 = (spawn.0 as i128) * (cell_size as i128) + (cell_size as i128) / 2;
        let y: i128 = (spawn.1 as i128) * (cell_size as i128) + (cell_size as i128) / 2;
        if x > WORLD_LIMIT as i128 || y > WORLD_LIMIT as i128 {
            return None;
        }
        let guards = spawn_guards(&grid, cell_size);
        Some(
            World {
                grid,
                cell_size,
                player: Player::new(x as i64, y as i64),
                guards,
                folders_collected: 0,
            },
        )
    }
}

impl World {
    /// Picks up the folder under the player's centre, if there is one:
    /// its tile becomes floor and the count of folders goes up by one.
    pub fn collect_folder(&mut self) -> (collected: bool)
        requires
            old(self).wf(),
            old(self).folders_collected < usize::MAX,
        ensures
            final(self).wf(),
            collected == old(self).on_folder(),
            final(self).grid@ == rows_after_collect(
                &old(self).grid,
                old(self).cell_size as int,
                old(self).player.x as int,
                old(self).player.y as int,
            ),
            final(self).folders_collected == old(self).folders_collected + if collected {
                1int
            } else {
                0int
            },
            final(self).player == old(self).player,
            final(self).guards == old(self).guards,
            final(self).cell_size == old(self).cell_size,
    {
        let gx: i64 = floor_div(self.player.x, self.cell_size);
        let gy: i64 = floor_div(self.player.y, self.cell_size);
        match self.grid.cell_at(gx, gy) {
            Some(Cell::Folder) => {
                proof {
                    lemma_with_cell_rectangular(
                        self.grid@,
                        gx as int,
                        gy as int,
                        Cell::Floor,
                    );
                }
                self.grid.put(gx, gy, Cell::Floor);
                self.folders_collected = self.folders_collected + 1;
                true
            },
            _ => false,
        }
    }

    /// Whether the player's centre lies in a goal tile.
    pub fn at_goal(&self) -> (reached: bool)
        requires
            self.wf(),
        ensures
            reached == self.on_goal(),
    {
        let gx: i64 = floor_div(self.player.x, self.cell_size);
        let gy: i64 = floor_div(self.player.y, self.cell_size);
        match self.grid.cell_at(gx, gy) {
            Some(Cell::Goal) => true,
            _ => false,
        }
    }

    /// Every guard has room in the world for one update of `dt` ticks.
    pub open spec fn guards_have_room(&self, dt: int) -> bool {
        forall|i: int| 0 <= i < self.guards.len() ==> (#[trigger] self.guards[i]).has_room(dt)
    }

    /// A frame of `dt` ticks can be played: the intent can be applied to
    /// the player, every guard has room, and the count of folders can grow.
    pub open spec fn can_tick(&self, input: &Input, dt: int, heading: Heading) -> bool {
        &&& input.can_apply(self.player, dt, heading)
        &&& self.guards_have_room(dt)
        &&& self.folders_collected < usize::MAX
    }

    /// Whether a frame of `dt` ticks can be played.
    pub fn ready_for(&self, input: &Input, dt: i64, heading: Heading) -> (ok: bool)
        requires
            self.wf(),
            heading.wf(),
        ensures
            ok == self.can_tick(input, dt as int, heading),
    {
        if !input.applies_to(&self.player, dt, heading) {
            return false;
        }
        if self.folders_collected == usize::MAX {
            return false;
        }
        let mut i: usize = 0;
        while i < self.guards.len()
            invariant
                self.wf(),
                is_length(dt as int),
                i <= self.guards.len(),
                forall|k: int| 0 <= k < i ==> (#[trigger] self.guards[k]).has_room(dt as int),
            decreases self.guards.len() - i,
        {
            if !self.guards[i].room_for(dt) {
                return false;
            }
            i += 1;
        }
        true
    }

    /// Updates every guard, in their order, for `dt` ticks.
    pub fn update_guards(&mut self, dt: i64)
        requires
            old(self).wf(),
            is_length(dt as int),
            old(self).guards_have_room(dt as int),
        ensures
            final(self).wf(),
            final(self).grid == old(self).grid,
            final(self).cell_size == old(self).cell_size,
            final(self).player == old(self).player,
            final(self).folders_collected == old(self).folders_collected,
            final(self).guards.len() == old(self).guards.len(),
            forall|i: int|
                0 <= i < old(self).guards.len() ==> {
                    let before = #[trigger] old(self).guards[i];
                    let after = final(self).guards[i];
                    &&& (after.x as int, after.y as int) == before.next_position(
                        &old(self).grid,
                        old(self).cell_size as int,
                        old(self).player.x as int,
                        old(self).player.y as int,
                        dt as int,
                    )
                    &&& after.kind == before.kind
                    &&& after.speed == before.speed
                    &&& after.radius == before.radius
                },
    {
        let ghost start = *self;
        let n: usize = self.guards.len();
        let mut i: usize = 0;
        while i < n
            invariant
                start.wf(),
                is_length(dt as int),
                start.guards_have_room(dt as int),
                self.grid == start.grid,
                self.cell_size == start.cell_size,
                self.player == start.player,
                self.folders_collected == start.folders_collected,
                self.guards.len() == n,
                n == start.guards.len(),
                i <= n,
                forall|k: int| i <= k < n ==> #[trigger] self.guards[k] == start.guards[k],
                forall|k: int| 0 <= k < i ==> (#[trigger] self.guards[k]).wf(),
                forall|k: int|
                    0 <= k < i ==> {
                        let before = #[trigger] start.guards[k];
                        let after = self.guards[k];
                        &&& (after.x as int, after.y as int) == before.next_position(
                            &start.grid,
                            start.cell_size as int,
                            start.player.x as int,
                            start.player.y as int,
                            dt as int,
                        )
                        &&& after.kind == before.kind
                        &&& after.speed == before.speed
                        &&& after.radius == before.radius
                    },
            decreases n - i,
        {
            let mut guard = self.guards[i];
            assert(guard == start.guards[i as int]);
            guard.update(self.player.x, self.player.y, dt, &self.grid, self.cell_size);
            self.guards.set(i, guard);
            i += 1;
        }
    }

    /// One frame of `dt` ticks: the player turns and moves as the intent
    /// asks, picks up the folder under it, and then every guard is updated.
    /// `heading` is the direction of the player's new facing, that is of
    /// the angle `player.dir + input.rotation(player.rot_speed, dt)`.
    pub fn tick(&mut self, input: &Input, dt: i64, heading: Heading) -> (tick: Tick)
        requires
            old(self).wf(),
            heading.wf(),
            old(self).can_tick(input, dt as int, heading),
        ensures
            final(self).wf(),
            final(self).cell_size == old(self).cell_size,
            final(self).player.dir == old(self).player.dir + input.rotation(
                old(self).player.rot_speed as int,
                dt as int,
            ),
            (final(self).player.x as int, final(self).player.y as int) == slide_target(
                &old(self).grid,
                old(self).cell_size as int,
                old(self).player.x as int,
                old(self).player.y as int,
                old(self).player.radius as int,
                input.displacement(heading, old(self).player.speed as int, dt as int).0,
                input.displacement(heading, old(self).player.speed as int, dt as int).1,
            ),
            final(self).player.radius == old(self).player.radius,
            final(self).player.speed == old(self).player.speed,
            final(self).player.rot_speed == old(self).player.rot_speed,
            tick.collected == (tile_under(
                &old(self).grid,
                old(self).cell_size as int,
                final(self).player.x as int,
                final(self).player.y as int,
            ) == Some(Cell::Folder)),
            final(self).grid@ == rows_after_collect(
                &old(self).grid,
                old(self).cell_size as int,
                final(self).player.x as int,
                final(self).player.y as int,
            ),
            final(self).folders_collected == old(self).folders_collected + if tick.collected {
                1int
            } else {
                0int
            },
            tick.at_goal == final(self).on_goal(),
            final(self).guards.len() == old(self).guards.len(),
            forall|i: int|
                0 <= i < old(self).guards.len() ==> {
                    let before = #[trigger] old(self).guards[i];
                    let after = final(self).guards[i];
                    &&& (after.x as int, after.y as int) == before.next_position(
                        &final(self).grid,
                        old(self).cell_size as int,
                        final(self).player.x as int,
                        final(self).player.y as int,
                        dt as int,
                    )
                    &&& after.kind == before.kind
                    &&& after.speed == before.speed
                    &&& after.radius == before.radius
                },
    {
        input.apply_to_player(&mut self.player, dt, heading, &self.grid, self.cell_size);
        let collected = self.collect_folder();
        self.update_guards(dt);
        let at_goal = self.at_goal();
        Tick { collected, at_goal }
    }
}

/// A folder is collected once: after what lies at a point has been picked
/// up, no folder lies there, and picking up again changes nothing.
pub proof fn lemma_folder_collected_once(
    before: &Grid,
    after: &Grid,
    cell_size: int,
    x: int,
    y: int,
)
    requires
        before.wf(),
        cell_size > 0,
        after@ == rows_after_collect(before, cell_size, x, y),
    ensures
        after.wf(),
        tile_under(after, cell_size, x, y) != Some(Cell::Folder),
        rows_after_collect(after, cell_size, x, y) == after@,
{
    lemma_with_cell_rectangular(before@, x / cell_size, y / cell_size, Cell::Floor);
}

} // verus!
