//! The tile grid of a level and the text format it is read from.

use crate::fixed::WORLD_LIMIT;
use vstd::prelude::*;

verus! {

/// The kind of one tile.
#[derive(Debug, Clone, Copy, PartialEq, Eq, Structural)]
pub enum Cell {
    Floor,
    Wall,
    Goal,
    Guard1,
    Guard2,
    Folder,
    Unknown,
}

impl Cell {
    /// Exactly `Wall` and `Unknown` stop movement and rays.
    pub open spec fn blocking(self) -> bool {
        self == Cell::Wall || self == Cell::Unknown
    }

    pub fn is_blocking(self) -> (b: bool)
        ensures
            b == self.blocking(),
    {
        match self {
            Cell::Wall | Cell::Unknown => true,
            _ => false,
        }
    }

    /// The tile that a character of a level source stands for.
    pub open spec fn of_glyph(c: char) -> Cell {
        if c == ' ' {
            Cell::Floor
        } else if c == '+' || c == '-' || c == '|' {
            Cell::Wall
        } else if c == 'g' {
            Cell::Goal
        } else if c == 'G' {
            Cell::Guard1
        } else if c == 'H' {
            Cell::Guard2
        } else if c == 'f' {
            Cell::Folder
        } else {
            Cell::Unknown
        }
    }

    pub fn from_glyph(c: char) -> (cell: Cell)
        ensures
            cell == Cell::of_glyph(c),
    {
        match c {
            ' ' => Cell::Floor,
            '+' | '-' | '|' => Cell::Wall,
            'g' => Cell::Goal,
            'G' => Cell::Guard1,
            'H' => Cell::Guard2,
            'f' => Cell::Folder,
            _ => Cell::Unknown,
        }
    }
}

/// The number of characters from position `from` up to the next line feed
/// or the end of the source.
pub open spec fn line_len(s: Seq<char>, from: int) -> nat
    decreases s.len() - from,
{
    if 0 <= from < s.len() && s[from] != '\n' {
        1 + line_len(s, from + 1)
    } else {
        0
    }
}

/// A line without the carriage returns at its end.
pub open spec fn trim_cr(line: Seq<char>) -> Seq<char>
    decreases line.len(),
{
    if line.len() > 0 && line.last() == '\r' {
        trim_cr(line.drop_last())
    } else {
        line
    }
}

/// The tiles of one line of a level source.
pub open spec fn line_cells(line: Seq<char>) -> Seq<Cell> {
    trim_cr(line).map_values(|c: char| Cell::of_glyph(c))
}

/// The rows of tiles that the source holds from position `from` on: one
/// row for each line, where a line ends at a line feed or at the end of the
/// source, and a line feed at the very end opens no further line.
pub open spec fn rows_from(s: Seq<char>, from: int) -> Seq<Seq<Cell>>
    decreases s.len() - from,
{
    if 0 <= from < s.len() {
        let n = line_len(s, from);
        let rest = if from + n < s.len() {
            rows_from(s, from + n + 1)
        } else {
            Seq::empty()
        };
        seq![line_cells(s.subrange(from, from + n))] + rest
    } else {
        Seq::empty()
    }
}

/// The length of the longest row.
pub open spec fn max_len(rows: Seq<Seq<Cell>>) -> nat
    decreases rows.len(),
{
    if rows.len() == 0 {
        0
    } else {
        let rest = max_len(rows.drop_last());
        if rows.last().len() > rest {
            rows.last().len()
        } else {
            rest
        }
    }
}

/// A row filled up on the right with `Floor` to `width` tiles.
pub open spec fn pad_row(row: Seq<Cell>, width: nat) -> Seq<Cell> {
    if row.len() >= width {
        row
    } else {
        row + Seq::new((width - row.len()) as nat, |i: int| Cell::Floor)
    }
}

/// The rows, each filled up with `Floor` to the length of the longest.
pub open spec fn pad_rows(rows: Seq<Seq<Cell>>) -> Seq<Seq<Cell>> {
    rows.map_values(|row: Seq<Cell>| pad_row(row, max_len(rows)))
}

/// The grid that a level source describes.
pub open spec fn level_rows(source: Seq<char>) -> Seq<Seq<Cell>> {
    pad_rows(rows_from(source, 0))
}

/// All rows have one length.
pub open spec fn rectangular(rows: Seq<Seq<Cell>>) -> bool {
    forall|r: int| 0 <= r < rows.len() ==> (#[trigger] rows[r]).len() == rows[0].len()
}

/// The rows of a vector of rows.
pub open spec fn rows_view(rows: Seq<Vec<Cell>>) -> Seq<Seq<Cell>> {
    rows.map_values(|row: Vec<Cell>| row@)
}

/// No row is longer than the longest.
pub proof fn lemma_max_len_bounds(rows: Seq<Seq<Cell>>, r: int)
    requires
        0 <= r < rows.len(),
    ensures
        rows[r].len() <= max_len(rows),
    decreases rows.len(),
{
    if r < rows.len() - 1 {
        lemma_max_len_bounds(rows.drop_last(), r);
    }
}

/// Padding gives a rectangle as long as the input and as wide as its longest row.
pub proof fn lemma_pad_rows_rectangular(rows: Seq<Seq<Cell>>)
    ensures
        rectangular(pad_rows(rows)),
        pad_rows(rows).len() == rows.len(),
        forall|r: int|
            0 <= r < rows.len() ==> (#[trigger] pad_rows(rows)[r]).len() == max_len(rows),
{
    assert forall|r: int| 0 <= r < rows.len() implies (#[trigger] pad_rows(rows)[r]).len()
        == max_len(rows) by {
        lemma_max_len_bounds(rows, r);
    }
}

/// Padding keeps every tile of the input in its place and fills the rest with `Floor`.
pub proof fn lemma_pad_rows_cells(rows: Seq<Seq<Cell>>, r: int, c: int)
    requires
        0 <= r < rows.len(),
        0 <= c < max_len(rows),
    ensures
        pad_rows(rows)[r].len() == max_len(rows),
        pad_rows(rows)[r][c] == if c < rows[r].len() {
            rows[r][c]
        } else {
            Cell::Floor
        },
{
    lemma_max_len_bounds(rows, r);
}

/// The rows with the tile at column `cx` and row `cy` replaced by `cell`;
/// unchanged where there is no such tile.
pub open spec fn with_cell(rows: Seq<Seq<Cell>>, cx: int, cy: int, cell: Cell) -> Seq<Seq<Cell>> {
    if 0 <= cy < rows.len() && 0 <= cx < rows[cy].len() {
        rows.update(cy, rows[cy].update(cx, cell))
    } else {
        rows
    }
}

/// Replacing a tile keeps a rectangle rectangular.
pub proof fn lemma_with_cell_rectangular(rows: Seq<Seq<Cell>>, cx: int, cy: int, cell: Cell)
    requires
        rectangular(rows),
    ensures
        rectangular(with_cell(rows, cx, cy, cell)),
        with_cell(rows, cx, cy, cell).len() == rows.len(),
        forall|r: int| 0 <= r < rows.len() ==> (#[trigger] with_cell(rows, cx, cy, cell)[r]).len()
            == rows[r].len(),
{
    let after = with_cell(rows, cx, cy, cell);
    assert forall|r: int| 0 <= r < after.len() implies (#[trigger] after[r]).len()
        == after[0].len() by {
        assert(rows[r].len() == rows[0].len());
    }
}

/// A rectangular grid of tiles.
pub struct Grid {
    cells: Vec<Vec<Cell>>,
}

impl View for Grid {
    type V = Seq<Seq<Cell>>;

    closed spec fn view(&self) -> Seq<Seq<Cell>> {
        rows_view(self.cells@)
    }
}

impl Grid {
    /// The invariant of a grid: every row has the same length.
    pub open spec fn wf(&self) -> bool {
        rectangular(self@)
    }

    /// The number of rows.
    pub open spec fn height(&self) -> nat {
        self@.len()
    }

    /// The number of columns.
    pub open spec fn width(&self) -> nat {
        if self@.len() > 0 {
            self@[0].len()
        } else {
            0
        }
    }

    /// The cell with column `cx` and row `cy` lies in the grid.
    pub open spec fn contains(&self, cx: int, cy: int) -> bool {
        0 <= cy < self.height() && 0 <= cx < self.width()
    }

    /// The tile at column `cx` and row `cy`.
    pub open spec fn at(&self, cx: int, cy: int) -> Cell {
        self@[cy][cx]
    }

    /// The cell lies in the grid and stops movement and rays.
    pub open spec fn blocked_at(&self, cx: int, cy: int) -> bool {
        self.contains(cx, cy) && self.at(cx, cy).blocking()
    }

    /// The tile at a cell, where the grid has one.
    pub open spec fn lookup(&self, cx: int, cy: int) -> Option<Cell> {
        if self.contains(cx, cy) {
            Some(self.at(cx, cy))
        } else {
            None
        }
    }

    /// The grid of the given rows, each filled up on the right with `Floor`
    /// to the length of the longest.
    pub fn from_rows(rows: Vec<Vec<Cell>>) -> (grid: Grid)
        ensures
            grid.wf(),
            grid@ == pad_rows(rows_view(rows@)),
    {
        let ghost given = rows_view(rows@);
        let mut width: usize = 0;
        let mut i: usize = 0;
        while i < rows.len()
            invariant
                i <= rows.len(),
                given == rows_view(rows@),
                width == max_len(given.take(i as int)),
            decreases rows.len() - i,
        {
            proof {
                assert(given.take(i as int + 1).drop_last() == given.take(i as int));
            }
            if rows[i].len() > width {
                width = rows[i].len();
            }
            i += 1;
        }
        proof {
            assert(given.take(i as int) == given);
        }
        let mut cells = rows;
        let mut r: usize = 0;
        while r < cells.len()
            invariant
                r <= cells.len(),
                cells.len() == given.len(),
                width == max_len(given),
                forall|k: int|
                    0 <= k < r ==> (#[trigger] cells[k])@ == pad_row(given[k], width as nat),
                forall|k: int| r <= k < cells.len() ==> (#[trigger] cells[k])@ == given[k],
            decreases cells.len() - r,
        {
            let mut row: Vec<Cell> = Vec::new();
            let mut c: usize = 0;
            let n: usize = cells[r].len();
            while c < n
                invariant
                    c <= n,
                    r < cells.len(),
                    n == cells[r as int].len(),
                    row@ == cells[r as int]@.take(c as int),
                decreases n - c,
            {
                row.push(cells[r][c]);
                c += 1;
            }
            proof {
                assert(row@ == given[r as int]);
                lemma_max_len_bounds(given, r as int);
            }
            while row.len() < width
                invariant
                    row.len() <= width,
                    given[r as int].len() <= row.len(),
                    r < cells.len(),
                    row@ == given[r as int] + Seq::new(
                        (row.len() - given[r as int].len()) as nat,
                        |i: int| Cell::Floor,
                    ),
                decreases width - row.len(),
            {
                row.push(Cell::Floor);
            }
            proof {
                assert(row@ == pad_row(given[r as int], width as nat));
            }
            cells.set(r, row);
            r += 1;
        }
        let grid = Grid { cells };
        proof {
            lemma_pad_rows_rectangular(given);
            assert(grid@ == pad_rows(given));
        }
        grid
    }

    /// The number of rows.
    pub fn rows(&self) -> (n: usize)
        ensures
            n == self.height(),
    {
        self.cells.len()
    }

    /// The number of columns.
    pub fn cols(&self) -> (n: usize)
        ensures
            n == self.width(),
    {
        if self.cells.len() > 0 {
            self.cells[0].len()
        } else {
            0
        }
    }

    /// The tile at column `col` and row `row` of the grid.
    pub fn get(&self, col: usize, row: usize) -> (cell: Cell)
        requires
            self.wf(),
            self.contains(col as int, row as int),
        ensures
            cell == self.at(col as int, row as int),
    {
        proof {
            assert(self@.len() == self.cells@.len());
            assert(self@[row as int].len() == self.cells@[row as int]@.len());
            assert(self@[row as int].len() == self@[0].len());
        }
        self.cells[row][col]
    }

    /// The tile at column `cx` and row `cy`, or `None` outside the grid.
    pub fn cell_at(&self, cx: i64, cy: i64) -> (cell: Option<Cell>)
        requires
            self.wf(),
        ensures
            cell == self.lookup(cx as int, cy as int),
    {
        proof {
            assert(self@.len() == self.cells@.len());
            if self@.len() > 0 {
                assert(self@[0].len() == self.cells@[0]@.len());
            }
        }
        if cx < 0 || cy < 0 {
            return None;
        }
        if cy as u64 >= self.cells.len() as u64 {
            return None;
        }
        let row: usize = cy as usize;
        proof {
            assert(self@[row as int].len() == self.cells@[row as int]@.len());
            assert(self@[row as int].len() == self@[0].len());
        }
        if cx as u64 >= self.cells[row].len() as u64 {
            return None;
        }
        let col: usize = cx as usize;
        Some(self.cells[row][col])
    }

    /// Whether the cell lies in the grid and stops movement and rays.
    pub fn is_blocked_at(&self, cx: i64, cy: i64) -> (b: bool)
        requires
            self.wf(),
        ensures
            b == self.blocked_at(cx as int, cy as int),
    {
        match self.cell_at(cx, cy) {
            Some(cell) => cell.is_blocking(),
            None => false,
        }
    }

    /// Puts `cell` at column `cx` and row `cy`; outside the grid nothing changes.
    pub fn put(&mut self, cx: i64, cy: i64, cell: Cell)
        requires
            old(self).wf(),
        ensures
            final(self).wf(),
            final(self)@ == with_cell(old(self)@, cx as int, cy as int, cell),
    {
        if self.cell_at(cx, cy).is_none() {
            return ;
        }
        let col: usize = cx as usize;
        let row: usize = cy as usize;
        let ghost before = self@;
        let mut line: Vec<Cell> = Vec::new();
        let mut c: usize = 0;
        let n: usize = self.cells[row].len();
        while c < n
            invariant
                c <= n,
                row < self.cells.len(),
                n == self.cells[row as int].len(),
                self@ == before,
                col < n,
                line.len() == c,
                forall|k: int| 0 <= k < c ==> #[trigger] line[k] == if k == col {
                    cell
                } else {
                    before[row as int][k]
                },
            decreases n - c,
        {
            if c == col {
                line.push(cell);
            } else {
                line.push(self.cells[row][c]);
            }
            c += 1;
        }
        self.cells.set(row, line);
        proof {
            let after = with_cell(before, cx as int, cy as int, cell);
            assert(self@.len() == after.len());
            assert forall|r: int| 0 <= r < after.len() implies #[trigger] self@[r] == after[r] by {
                if r == row {
                    assert(self@[r] =~= after[r]);
                }
            }
            assert(self@ =~= after);
            lemma_with_cell_rectangular(before, cx as int, cy as int, cell);
        }
    }
}

/// A cell size that the world admits.
pub open spec fn valid_cell_size(cell_size: int) -> bool {
    0 < cell_size <= WORLD_LIMIT
}

/// The grid, with cells of the given size, lies within the world.
pub open spec fn fits_world(grid: &Grid, cell_size: int) -> bool {
    grid.width() * cell_size <= WORLD_LIMIT && grid.height() * cell_size <= WORLD_LIMIT
}

/// The characters of a string.
fn to_chars(s: &str) -> (v: Vec<char>)
    ensures
        v@ == s@,
{
    let mut v: Vec<char> = Vec::new();
    for c in it: s.chars()
        invariant
            it.seq() == s@,
            v@ == s@.take(it.index() as int),
    {
        v.push(c);
    }
    v
}

/// Reads a level: one line of the source for each row and one character
/// for each tile, short lines filled up on the right with `Floor`.
pub fn parse_level(source: &str) -> (grid: Grid)
    ensures
        grid.wf(),
        grid@ == level_rows(source@),
{
    let chars = to_chars(source);
    let ghost s = source@;
    let len: usize = chars.len();
    let mut rows: Vec<Vec<Cell>> = Vec::new();
    let mut from: usize = 0;
    while from < len
        invariant
            chars@ == s,
            len == s.len(),
            from <= len,
            rows_from(s, 0) == rows_view(rows@) + rows_from(s, from as int),
        decreases len - from,
    {
        let mut e: usize = from;
        while e < len && chars[e] != '\n'
            invariant
                chars@ == s,
                len == s.len(),
                from <= e <= len,
                line_len(s, from as int) == (e - from) + line_len(s, e as int),
            decreases len - e,
        {
            e += 1;
        }
        let ghost line = s.subrange(from as int, e as int);
        let mut end: usize = e;
        while end > from && chars[end - 1] == '\r'
            invariant
                chars@ == s,
                from <= end <= e <= len,
                len == s.len(),
                trim_cr(line) == trim_cr(s.subrange(from as int, end as int)),
            decreases end - from,
        {
            proof {
                let cur = s.subrange(from as int, end as int);
                assert(cur.last() == s[end - 1]);
                assert(cur.drop_last() == s.subrange(from as int, end - 1));
            }
            end -= 1;
        }
        proof {
            let cur = s.subrange(from as int, end as int);
            if cur.len() > 0 {
                assert(cur.last() == s[end - 1]);
            }
            assert(trim_cr(cur) == cur);
        }
        let mut row: Vec<Cell> = Vec::new();
        let mut k: usize = from;
        while k < end
            invariant
                chars@ == s,
                from <= k <= end <= len,
                len == s.len(),
                row.len() == k - from,
                forall|j: int|
                    0 <= j < row.len() ==> #[trigger] row[j] == Cell::of_glyph(s[from + j]),
            decreases end - k,
        {
            row.push(Cell::from_glyph(chars[k]));
            k += 1;
        }
        proof {
            assert(row@ =~= line_cells(line));
            let rest = if e < len {
                rows_from(s, e + 1)
            } else {
                Seq::empty()
            };
            assert(rows_from(s, from as int) == seq![line_cells(line)] + rest);
            assert(rows_view(rows@.push(row)) =~= rows_view(rows@) + seq![row@]);
            assert(rows_view(rows@) + (seq![row@] + rest) =~= (rows_view(rows@) + seq![row@])
                + rest);
        }
        rows.push(row);
        from = if e < len {
            e + 1
        } else {
            len
        };
    }
    proof {
        assert(rows_from(s, 0) =~= rows_view(rows@));
    }
    Grid::from_rows(rows)
}

} // verus!
