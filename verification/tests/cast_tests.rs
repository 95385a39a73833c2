use gridcaster::cast::cast_ray;
use gridcaster::cast::Heading;
use gridcaster::cast::RayHit;
use gridcaster::cast::RAY_STEP;
use gridcaster::level::parse_level;
use gridcaster::level::Grid;

const CELL: i64 = 64_000;

fn room() -> Grid {
    parse_level("+++++\n+   +\n+   +\n+   +\n+++++")
}

fn east() -> Heading {
    Heading { x: 1000, y: 0 }
}

#[test]
fn ray_east_from_room_centre_hits_border_wall() {
    let grid = room();
    let centre = 2 * CELL + CELL / 2;
    let hit = cast_ray(&grid, CELL, centre, centre, east(), 2_000_000).unwrap();
    assert_eq!(hit.map_x, 4);
    assert_eq!(hit.map_y, 2);
    let expected = 4 * CELL - centre;
    assert!((hit.distance - expected).abs() <= RAY_STEP);
    assert_eq!(
        hit,
        RayHit { distance: 96_000, x: 256_000, y: 160_000, map_x: 4, map_y: 2, hit_vertical: true }
    );
}

#[test]
fn ray_from_middle_of_first_cell_goes_three_and_a_half_cells() {
    let grid = parse_level("    +");
    let hit = cast_ray(&grid, CELL, CELL / 2, CELL / 2, east(), 2_000_000).unwrap();
    assert_eq!(hit.map_x, 4);
    assert_eq!(hit.map_y, 0);
    assert!((hit.distance - (4 * CELL - CELL / 2)).abs() <= RAY_STEP);
    assert_eq!(hit.distance, 224_000);
}

#[test]
fn rays_along_the_other_axes() {
    let grid = room();
    let centre = 160_000;
    let north = cast_ray(&grid, CELL, centre, centre, Heading { x: 0, y: -1000 }, 2_000_000);
    assert_eq!(
        north,
        Some(RayHit {
            distance: 100_000,
            x: 160_000,
            y: 60_000,
            map_x: 2,
            map_y: 0,
            hit_vertical: true
        })
    );
    let south = cast_ray(&grid, CELL, centre, centre, Heading { x: 0, y: 1000 }, 2_000_000);
    assert_eq!(
        south,
        Some(RayHit {
            distance: 96_000,
            x: 160_000,
            y: 256_000,
            map_x: 2,
            map_y: 4,
            hit_vertical: false
        })
    );
    let west = cast_ray(&grid, CELL, centre, centre, Heading { x: -1000, y: 0 }, 2_000_000);
    assert_eq!(
        west,
        Some(RayHit {
            distance: 100_000,
            x: 60_000,
            y: 160_000,
            map_x: 0,
            map_y: 2,
            hit_vertical: false
        })
    );
}

#[test]
fn diagonal_ray() {
    let grid = room();
    let hit = cast_ray(&grid, CELL, 160_000, 160_000, Heading { x: 707, y: 707 }, 2_000_000).unwrap();
    // each step moves 2828 along both axes; step 34 reaches 256_152
    assert_eq!(hit.distance, 34 * RAY_STEP);
    assert_eq!(hit.x, 160_000 + 34 * 2828);
    assert_eq!(hit.y, 160_000 + 34 * 2828);
    assert_eq!((hit.map_x, hit.map_y), (4, 4));
    assert!(!hit.hit_vertical);
}

#[test]
fn ray_shorter_than_the_clear_path_hits_nothing() {
    let grid = room();
    assert_eq!(cast_ray(&grid, CELL, 160_000, 160_000, east(), 92_000), None);
    assert_eq!(cast_ray(&grid, CELL, 160_000, 160_000, east(), 4_000), None);
    assert!(cast_ray(&grid, CELL, 160_000, 160_000, east(), 92_001).is_some());
    assert!(cast_ray(&grid, CELL, 160_000, 160_000, east(), 96_000).is_some());
}

#[test]
fn ray_of_no_length_hits_nothing() {
    let grid = parse_level("+");
    assert_eq!(cast_ray(&grid, CELL, 100, 100, east(), 0), None);
    assert_eq!(cast_ray(&grid, CELL, 100, 100, east(), -5), None);
    let hit = cast_ray(&grid, CELL, 100, 100, east(), 1).unwrap();
    assert_eq!(hit.distance, RAY_STEP);
    assert_eq!((hit.map_x, hit.map_y), (0, 0));
}

#[test]
fn ray_that_leaves_the_grid_hits_nothing() {
    let open = parse_level("   \n   \n   ");
    assert_eq!(cast_ray(&open, CELL, 96_000, 96_000, east(), 2_000_000), None);
    assert_eq!(cast_ray(&open, CELL, 96_000, 96_000, Heading { x: -1000, y: 0 }, 2_000_000), None);
    assert_eq!(cast_ray(&open, CELL, 96_000, 96_000, Heading { x: 0, y: -1000 }, 2_000_000), None);
    // a wall beyond a gap in the grid is not reached
    let empty = parse_level("");
    assert_eq!(cast_ray(&empty, CELL, 0, 0, east(), 2_000_000), None);
    // from outside the grid the first step already ends the ray
    let grid = room();
    assert_eq!(cast_ray(&grid, CELL, -100_000, 160_000, east(), 2_000_000), None);
}

#[test]
fn markers_are_transparent_and_unknown_blocks() {
    let marked = parse_level("GHfg +");
    let hit = cast_ray(&marked, CELL, 1_000, 32_000, east(), 2_000_000).unwrap();
    assert_eq!((hit.map_x, hit.map_y), (5, 0));
    let odd = parse_level("  x +");
    let hit = cast_ray(&odd, CELL, 1_000, 32_000, east(), 2_000_000).unwrap();
    assert_eq!((hit.map_x, hit.map_y), (2, 0));
    assert_eq!(hit.x, 129_000);
}

#[test]
fn heading_new_limits_components() {
    assert_eq!(Heading::new(500, -500), Heading { x: 500, y: -500 });
    assert_eq!(Heading::new(5000, -5000), Heading { x: 1000, y: -1000 });
}
