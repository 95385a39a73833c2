use gridcaster::cast::cast_ray;
use gridcaster::cast::Heading;
use gridcaster::guard::Guard;
use gridcaster::guard::GUARD1_SPEED;
use gridcaster::guard::GUARD2_SPEED;
use gridcaster::guard::GUARD_SPEED;
use gridcaster::level::parse_level;
use gridcaster::level::Cell;
use gridcaster::level::Grid;

const CELL: i64 = 64_000;
const FRAME: i64 = 16_000;

fn corridor() -> Grid {
    // three rows of floor between two walls, with one wall cell in the middle row
    parse_level("+++++++++\n+       +\n+   +   +\n+       +\n+++++++++")
}

fn open_room() -> Grid {
    parse_level("+++++++++\n+       +\n+       +\n+       +\n+++++++++")
}

#[test]
fn guard_speed_follows_its_kind() {
    assert_eq!(Guard::new(1, 2, Cell::Guard1).speed, 70_000);
    assert_eq!(Guard::new(1, 2, Cell::Guard2).speed, 90_000);
    assert_eq!(Guard::new(1, 2, Cell::Floor).speed, 60_000);
    assert_eq!((GUARD1_SPEED, GUARD2_SPEED, GUARD_SPEED), (70_000, 90_000, 60_000));
    let g = Guard::new(7, 9, Cell::Guard2);
    assert_eq!(g, Guard { x: 7, y: 9, kind: Cell::Guard2, speed: 90_000, radius: 12_000 });
}

#[test]
fn guard_behind_a_wall_stands_still() {
    let grid = corridor();
    // guard in cell (2, 2), player in cell (6, 2), the wall cell (4, 2) between them
    let mut guard = Guard::new(2 * CELL + CELL / 2, 2 * CELL + CELL / 2, Cell::Guard1);
    let (px, py) = (6 * CELL + CELL / 2, 2 * CELL + CELL / 2);
    let seen = cast_ray(&grid, CELL, guard.x, guard.y, Heading { x: 1000, y: 0 }, px - guard.x);
    assert!(seen.is_some());
    assert_eq!(seen.unwrap().map_x, 4);
    let before = guard;
    guard.update(px, py, FRAME, &grid, CELL);
    assert_eq!(guard, before);
    // and it stays so frame after frame
    for _ in 0..10 {
        guard.update(px, py, FRAME, &grid, CELL);
    }
    assert_eq!(guard, before);
}

#[test]
fn guard_that_sees_the_player_moves_toward_it() {
    let grid = open_room();
    let mut guard = Guard::new(160_000, 160_000, Cell::Guard1);
    guard.update(416_000, 160_000, FRAME, &grid, CELL);
    // 70_000 sub-units a second for 16_000 ticks
    assert_eq!((guard.x, guard.y), (161_120, 160_000));
    assert_eq!((guard.kind, guard.speed, guard.radius), (Cell::Guard1, 70_000, 12_000));
    let mut fast = Guard::new(160_000, 160_000, Cell::Guard2);
    fast.update(160_000, 96_000, FRAME, &grid, CELL);
    assert_eq!((fast.x, fast.y), (160_000, 158_560));
}

#[test]
fn guard_moves_along_the_diagonal() {
    let grid = open_room();
    let mut guard = Guard::new(160_000, 100_000, Cell::Guard1);
    // the player lies 30_000 to the right and 40_000 below: distance 50_000
    guard.update(190_000, 140_000, 1_000_000, &grid, CELL);
    assert_eq!((guard.x, guard.y), (160_000 + 42_000, 100_000 + 56_000));
}

#[test]
fn guard_next_to_the_player_stands_still() {
    let grid = open_room();
    let mut guard = Guard::new(160_000, 160_000, Cell::Guard1);
    guard.update(160_600, 160_700, FRAME, &grid, CELL);
    assert_eq!((guard.x, guard.y), (160_000, 160_000));
    guard.update(160_000, 160_000, FRAME, &grid, CELL);
    assert_eq!((guard.x, guard.y), (160_000, 160_000));
    // at exactly one world unit it moves
    guard.update(161_000, 160_000, FRAME, &grid, CELL);
    assert_eq!((guard.x, guard.y), (161_120, 160_000));
}

#[test]
fn guard_slides_where_the_full_step_is_blocked() {
    let grid = open_room();
    // just above the south wall (y = 256_000): the step's vertical part would overlap it
    let mut guard = Guard::new(160_000, 243_900, Cell::Guard1);
    guard.update(220_000, 250_000, 1_000_000, &grid, CELL);
    assert_eq!((guard.x, guard.y), (229_641, 243_900));
}

#[test]
fn stuck_guard_steps_aside_to_the_right_first() {
    let grid = open_room();
    // in the lower left corner, the player further into it
    let mut guard = Guard::new(76_100, 243_900, Cell::Guard1);
    guard.update(70_000, 250_000, 1_000_000, &grid, CELL);
    assert_eq!((guard.x, guard.y), (82_100, 243_900));
}

#[test]
fn stuck_guard_steps_aside_to_the_left_second() {
    let grid = open_room();
    // in the lower right corner
    let mut guard = Guard::new(499_900, 243_900, Cell::Guard1);
    guard.update(505_000, 250_000, 1_000_000, &grid, CELL);
    assert_eq!((guard.x, guard.y), (493_900, 243_900));
}

fn wide_guard(x: i64, y: i64) -> Guard {
    Guard { x, y, kind: Cell::Guard1, speed: 70_000, radius: 31_900 }
}

#[test]
fn stuck_guard_steps_down_third_and_up_last() {
    // a corridor one cell wide, in which a wide guard cannot step aside
    let grid = parse_level("+++\n+ +\n+ +\n+ +\n+++");
    let mut guard = wide_guard(96_000, 100_000);
    guard.update(100_000, 140_000, 3_000_000, &grid, CELL);
    assert_eq!((guard.x, guard.y), (96_000, 118_000));
    let mut low = wide_guard(96_000, 224_000);
    low.update(100_000, 250_000, 500_000, &grid, CELL);
    assert_eq!((low.x, low.y), (96_000, 221_000));
}

#[test]
fn guard_with_no_free_step_stays() {
    let grid = parse_level("+++\n+ +\n+++");
    let mut guard = wide_guard(96_000, 96_000);
    guard.update(100_000, 100_000, 500_000, &grid, CELL);
    assert_eq!((guard.x, guard.y), (96_000, 96_000));
}

#[test]
fn a_long_frame_lets_a_guard_jump_a_wall() {
    // the frame time is not limited: a step longer than a wall is thick ends beyond it
    let grid = parse_level("+++\n+ +\n+ +\n+ +\n+++");
    let mut guard = wide_guard(96_000, 224_000);
    guard.update(100_000, 250_000, 3_000_000, &grid, CELL);
    assert_eq!((guard.x, guard.y), (127_933, 431_565));
}

#[test]
fn guard_in_the_open_grid_without_walls_pursues() {
    let grid = parse_level("   \n   \n   ");
    let mut guard = Guard::new(32_000, 32_000, Cell::Floor);
    guard.update(32_000, 160_000, 500_000, &grid, CELL);
    assert_eq!((guard.x, guard.y), (32_000, 62_000));
}

#[test]
fn guard_needs_room_for_its_longest_step() {
    let slow = Guard { x: 0, y: 999_999_999_990, kind: Cell::Floor, speed: 1_000, radius: 12_000 };
    // a slow guard still needs room for the sideways step of 6_000 a second
    assert!(slow.room_for(1_000_000 / 600));
    assert!(!slow.room_for(2_000));
    let fast = Guard::new(-999_999_910_000, 0, Cell::Guard2);
    assert!(fast.room_for(1_000_000));
    assert!(!fast.room_for(1_000_012));
    assert!(fast.room_for(0));
}
