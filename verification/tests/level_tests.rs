use gridcaster::level::parse_level;
use gridcaster::level::Cell;
use gridcaster::level::Grid;

fn cell(grid: &Grid, cx: i64, cy: i64) -> Option<Cell> {
    grid.cell_at(cx, cy)
}

#[test]
fn three_line_source_gives_walled_room() {
    let grid = parse_level("+++\n+ +\n+++");
    assert_eq!(grid.rows(), 3);
    assert_eq!(grid.cols(), 3);
    for y in 0..3 {
        for x in 0..3 {
            let expected = if x == 1 && y == 1 { Cell::Floor } else { Cell::Wall };
            assert_eq!(cell(&grid, x, y), Some(expected));
        }
    }
}

#[test]
fn glyph_table() {
    assert_eq!(Cell::from_glyph(' '), Cell::Floor);
    assert_eq!(Cell::from_glyph('+'), Cell::Wall);
    assert_eq!(Cell::from_glyph('-'), Cell::Wall);
    assert_eq!(Cell::from_glyph('|'), Cell::Wall);
    assert_eq!(Cell::from_glyph('g'), Cell::Goal);
    assert_eq!(Cell::from_glyph('G'), Cell::Guard1);
    assert_eq!(Cell::from_glyph('H'), Cell::Guard2);
    assert_eq!(Cell::from_glyph('f'), Cell::Folder);
    assert_eq!(Cell::from_glyph('x'), Cell::Unknown);
    assert_eq!(Cell::from_glyph('\u{e9}'), Cell::Unknown);
}

#[test]
fn only_wall_and_unknown_block() {
    assert!(Cell::Wall.is_blocking());
    assert!(Cell::Unknown.is_blocking());
    assert!(!Cell::Floor.is_blocking());
    assert!(!Cell::Goal.is_blocking());
    assert!(!Cell::Guard1.is_blocking());
    assert!(!Cell::Guard2.is_blocking());
    assert!(!Cell::Folder.is_blocking());
}

#[test]
fn short_lines_are_padded_with_floor() {
    let grid = parse_level("+++++\n+f\n+");
    assert_eq!(grid.rows(), 3);
    assert_eq!(grid.cols(), 5);
    assert_eq!(cell(&grid, 1, 1), Some(Cell::Folder));
    assert_eq!(cell(&grid, 2, 1), Some(Cell::Floor));
    assert_eq!(cell(&grid, 4, 1), Some(Cell::Floor));
    assert_eq!(cell(&grid, 0, 2), Some(Cell::Wall));
    assert_eq!(cell(&grid, 4, 2), Some(Cell::Floor));
    assert_eq!(cell(&grid, 5, 2), None);
    assert_eq!(cell(&grid, 0, 3), None);
    assert_eq!(cell(&grid, -1, 0), None);
}

#[test]
fn line_ends_and_carriage_returns() {
    let grid = parse_level("+g+\r\n+ +\r\r\n\n+H+\n");
    assert_eq!(grid.rows(), 4);
    assert_eq!(grid.cols(), 3);
    assert_eq!(cell(&grid, 1, 0), Some(Cell::Goal));
    assert_eq!(cell(&grid, 1, 1), Some(Cell::Floor));
    assert_eq!(cell(&grid, 0, 2), Some(Cell::Floor));
    assert_eq!(cell(&grid, 2, 2), Some(Cell::Floor));
    assert_eq!(cell(&grid, 1, 3), Some(Cell::Guard2));
}

#[test]
fn empty_source_gives_empty_grid() {
    let grid = parse_level("");
    assert_eq!(grid.rows(), 0);
    assert_eq!(grid.cols(), 0);
    assert_eq!(cell(&grid, 0, 0), None);
    let blank = parse_level("\n");
    assert_eq!(blank.rows(), 1);
    assert_eq!(blank.cols(), 0);
}

#[test]
fn from_rows_pads_ragged_rows() {
    let grid = Grid::from_rows(vec![vec![Cell::Wall], vec![Cell::Wall, Cell::Goal, Cell::Wall], vec![]]);
    assert_eq!(grid.rows(), 3);
    assert_eq!(grid.cols(), 3);
    assert_eq!(cell(&grid, 0, 0), Some(Cell::Wall));
    assert_eq!(cell(&grid, 1, 0), Some(Cell::Floor));
    assert_eq!(cell(&grid, 1, 1), Some(Cell::Goal));
    assert_eq!(cell(&grid, 2, 2), Some(Cell::Floor));
}

#[test]
fn put_replaces_one_cell_only() {
    let mut grid = parse_level("+++\n+f+\n+++");
    grid.put(1, 1, Cell::Floor);
    assert_eq!(cell(&grid, 1, 1), Some(Cell::Floor));
    assert_eq!(cell(&grid, 0, 1), Some(Cell::Wall));
    assert_eq!(cell(&grid, 2, 1), Some(Cell::Wall));
    grid.put(7, 7, Cell::Goal);
    grid.put(-1, 0, Cell::Goal);
    assert_eq!(grid.rows(), 3);
    assert_eq!(grid.cols(), 3);
    assert_eq!(cell(&grid, 0, 0), Some(Cell::Wall));
}

#[test]
fn cells_by_index() {
    let grid = parse_level("+g\n x");
    assert_eq!(grid.get(0, 0), Cell::Wall);
    assert_eq!(grid.get(1, 0), Cell::Goal);
    assert_eq!(grid.get(0, 1), Cell::Floor);
    assert_eq!(grid.get(1, 1), Cell::Unknown);
    assert!(grid.is_blocked_at(0, 0));
    assert!(!grid.is_blocked_at(1, 0));
    assert!(grid.is_blocked_at(1, 1));
    assert!(!grid.is_blocked_at(2, 0));
    assert!(!grid.is_blocked_at(0, -1));
    assert!(!grid.is_blocked_at(i64::MAX, i64::MIN));
}
