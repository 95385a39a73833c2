use gridcaster::cast::Heading;
use gridcaster::events::Input;
use gridcaster::game::find_spawn;
use gridcaster::game::spawn_guards;
use gridcaster::game::Tick;
use gridcaster::game::World;
use gridcaster::guard::Guard;
use gridcaster::level::parse_level;
use gridcaster::level::Cell;
use gridcaster::player::Player;

const CELL: i64 = 64_000;
const FRAME: i64 = 16_000;

fn east() -> Heading {
    Heading { x: 1000, y: 0 }
}

#[test]
fn player_starts_in_the_first_walkable_cell() {
    assert_eq!(find_spawn(&parse_level("+++\n+ +\n+++")), (1, 1));
    assert_eq!(find_spawn(&parse_level("++++\n++ +\n+  +\n++++")), (2, 1));
    assert_eq!(find_spawn(&parse_level("++++\n++++\n+  +\n++++")), (1, 2));
    assert_eq!(find_spawn(&parse_level(" +")), (0, 0));
    // markers, folders and goals are walkable
    assert_eq!(find_spawn(&parse_level("+++++\n+Gf +\n+++++")), (1, 1));
    assert_eq!(find_spawn(&parse_level("+g")), (1, 0));
}

#[test]
fn player_starts_in_cell_one_one_where_nothing_is_walkable() {
    assert_eq!(find_spawn(&parse_level("+++\n+++\n+++")), (1, 1));
    assert_eq!(find_spawn(&parse_level("")), (1, 1));
    assert_eq!(find_spawn(&parse_level("x")), (1, 1));
}

#[test]
fn new_world_puts_the_player_in_the_middle_of_its_cell() {
    let world = World::new(parse_level("++++\n++ +\n+  +\n++++"), CELL).unwrap();
    assert_eq!(world.player, Player::new(2 * CELL + CELL / 2, CELL + CELL / 2));
    assert_eq!(world.cell_size, CELL);
    assert_eq!(world.folders_collected, 0);
    assert!(world.guards.is_empty());
    assert_eq!(world.grid.rows(), 4);
    let bare = World::new(parse_level(""), CELL).unwrap();
    assert_eq!((bare.player.x, bare.player.y), (96_000, 96_000));
}

#[test]
fn new_world_has_a_guard_on_every_marker() {
    let world = World::new(parse_level("+++++\n+G H+\n+++++"), CELL).unwrap();
    assert_eq!(
        world.guards,
        vec![Guard::new(96_000, 96_000, Cell::Guard1), Guard::new(224_000, 96_000, Cell::Guard2)]
    );
    // the player starts on the first marker: it is the first walkable cell
    assert_eq!((world.player.x, world.player.y), (96_000, 96_000));
}

#[test]
fn world_that_does_not_fit_is_refused() {
    assert!(World::new(parse_level("+ +"), 0).is_none());
    assert!(World::new(parse_level("+ +"), -64).is_none());
    assert!(World::new(parse_level("+ +"), 1_000_000_000_001).is_none());
    // three cells of this size are wider than the world
    assert!(World::new(parse_level("+ +"), 400_000_000_000).is_none());
    assert!(World::new(parse_level("+ +"), 333_333_333_333).is_some());
    // the grid fits, but the middle of cell (1, 1) does not
    assert!(World::new(parse_level("+"), 700_000_000_000).is_none());
    assert!(World::new(parse_level("+"), 666_666_666_666).is_some());
}

#[test]
fn guards_start_on_their_markers() {
    let grid = parse_level("+++++++\n+f G H+\n+G f  +\n+++++++");
    let guards = spawn_guards(&grid, CELL);
    assert_eq!(
        guards,
        vec![
            Guard::new(224_000, 96_000, Cell::Guard1),
            Guard::new(352_000, 96_000, Cell::Guard2),
            Guard::new(96_000, 160_000, Cell::Guard1),
        ]
    );
    assert_eq!(guards[1].speed, 90_000);
    assert_eq!(spawn_guards(&parse_level("+ f +"), CELL), vec![]);
}

#[test]
fn folder_is_collected_once() {
    let mut world = World::new(parse_level("+++++\n+ f +\n+++++"), CELL).unwrap();
    assert_eq!((world.player.x, world.player.y), (96_000, 96_000));
    assert!(!world.collect_folder());
    assert_eq!(world.folders_collected, 0);
    world.player.x = 2 * CELL + 100;
    assert!(world.collect_folder());
    assert_eq!(world.folders_collected, 1);
    assert_eq!(world.grid.cell_at(2, 1), Some(Cell::Floor));
    assert_eq!(world.grid.cell_at(1, 1), Some(Cell::Floor));
    assert_eq!(world.grid.cell_at(0, 1), Some(Cell::Wall));
    for _ in 0..5 {
        assert!(!world.collect_folder());
    }
    assert_eq!(world.folders_collected, 1);
    assert_eq!(world.player, Player { x: 2 * CELL + 100, ..Player::new(96_000, 96_000) });
}

#[test]
fn nothing_is_collected_outside_the_grid() {
    let mut world = World::new(parse_level("f"), CELL).unwrap();
    world.player.x = -1;
    world.player.y = 10;
    assert!(!world.collect_folder());
    assert!(!world.at_goal());
    world.player.x = 0;
    assert!(world.collect_folder());
    assert_eq!(world.folders_collected, 1);
}

#[test]
fn goal_is_reached_under_the_players_centre() {
    let mut world = World::new(parse_level("+++++\n+  g+\n+++++"), CELL).unwrap();
    assert!(!world.at_goal());
    world.player.x = 3 * CELL - 1;
    assert!(!world.at_goal());
    world.player.x = 3 * CELL;
    assert!(world.at_goal());
}

#[test]
fn frame_moves_player_collects_and_updates_guards() {
    let grid = parse_level("+++++++++\n+ f     +\n+++++++++");
    let mut world = World::new(grid, CELL).unwrap();
    world.guards = vec![Guard::new(480_000, 96_000, Cell::Guard1)];
    let mut input = Input::new();
    input.move_forward = true;
    // one second ahead at 150_000 a second, from x = 96_000 into the folder's cell
    let tick = world.tick(&input, 200_000, east());
    assert_eq!((world.player.x, world.player.y), (126_000, 96_000));
    assert_eq!(tick, Tick { collected: false, at_goal: false });
    let tick = world.tick(&input, 200_000, east());
    assert_eq!((world.player.x, world.player.y), (156_000, 96_000));
    assert_eq!(tick, Tick { collected: true, at_goal: false });
    assert_eq!(world.folders_collected, 1);
    assert_eq!(world.grid.cell_at(2, 1), Some(Cell::Floor));
    let tick = world.tick(&input, 200_000, east());
    assert_eq!(tick, Tick { collected: false, at_goal: false });
    assert_eq!(world.folders_collected, 1);
    // the guard saw the player all the time and came 14_000 nearer in each frame
    assert_eq!((world.guards[0].x, world.guards[0].y), (480_000 - 3 * 14_000, 96_000));
}

#[test]
fn frame_reports_the_goal() {
    let grid = parse_level("+++++\n+ g +\n+++++");
    let mut world = World::new(grid, CELL).unwrap();
    let mut input = Input::new();
    input.move_forward = true;
    let tick = world.tick(&input, 200_000, east());
    assert_eq!(tick, Tick { collected: false, at_goal: false });
    let tick = world.tick(&input, 200_000, east());
    assert_eq!(tick, Tick { collected: false, at_goal: true });
    assert_eq!(world.grid.cell_at(2, 1), Some(Cell::Goal));
}

#[test]
fn idle_frame_changes_nothing() {
    let grid = parse_level("+++++\n+   +\n+++++");
    let mut world = World::new(grid, CELL).unwrap();
    let before = world.player;
    let tick = world.tick(&Input::new(), FRAME, east());
    assert_eq!(tick, Tick { collected: false, at_goal: false });
    assert_eq!(world.player, before);
    assert_eq!(world.folders_collected, 0);
}

#[test]
fn frame_that_would_leave_the_world_is_not_ready() {
    let grid = parse_level("+++++\n+   +\n+++++");
    let mut world = World::new(grid, CELL).unwrap();
    let idle = Input::new();
    assert!(world.ready_for(&idle, FRAME, east()));
    assert!(!world.ready_for(&idle, -1, east()));
    assert!(!world.ready_for(&idle, 1_000_000_000_001, east()));
    let mut drag = Input::new();
    drag.mouse_dx = 1_000_000_000_001;
    assert!(!world.ready_for(&drag, FRAME, east()));
    // a turn that takes the angle out of the world
    let mut turn = Input::new();
    turn.turn_left = true;
    world.player.dir = 1_000_000_000_000 - 39_999;
    assert!(!world.ready_for(&turn, FRAME, east()));
    world.player.dir = 1_000_000_000_000 - 40_000;
    assert!(world.ready_for(&turn, FRAME, east()));
    world.player.dir = 0;
    // a step that takes the player out of the world
    let mut ahead = Input::new();
    ahead.move_forward = true;
    world.player.x = 1_000_000_000_000 - 2_399;
    assert!(!world.ready_for(&ahead, FRAME, east()));
    world.player.x = 1_000_000_000_000 - 2_400;
    assert!(world.ready_for(&ahead, FRAME, east()));
    world.player.x = 96_000;
    // a guard at the edge of the world
    world.guards = vec![Guard::new(1_000_000_000_000 - 1_119, 0, Cell::Guard1)];
    assert!(!world.ready_for(&idle, FRAME, east()));
    world.guards = vec![Guard::new(1_000_000_000_000 - 1_120, 0, Cell::Guard1)];
    assert!(world.ready_for(&idle, FRAME, east()));
    world.folders_collected = usize::MAX;
    assert!(!world.ready_for(&idle, FRAME, east()));
}
