//! The tile grid: cell codes, walkability, and the mapping from world positions to tiles.
//!
//! The grid is centred on the world origin. Row 0 is the top row, so rows grow downwards
//! while the vertical world axis grows upwards.

use vstd::prelude::*;
use crate::geometry::{Point, Transform};

verus! {

/// Side of a tile in world units.
pub const TILE_SIZE: i32 = 24;

/// Largest number of rows, and of columns, that a grid map can have.
pub const MAX_DIM: usize = 0x4000;

/// Cell code of a passable tile.
pub const EMPTY_CELL: usize = 0;

/// Address of a tile. The coordinates are signed, so that tiles beyond the edges of a
/// map can be named and then rejected.
#[derive(Clone, Copy, Debug, PartialEq, Eq, Structural)]
pub struct Tile {
    pub row: i32,
    pub col: i32,
}

/// A rectangular grid of cell codes, stored row by row.
#[derive(Clone, Debug)]
pub struct GridMap {
    pub cells: Vec<Vec<usize>>,
}

impl View for GridMap {
    type V = Seq<Seq<usize>>;

    open spec fn view(&self) -> Seq<Seq<usize>> {
        Seq::new(self.cells@.len(), |r: int| self.cells@[r]@)
    }
}

/// Number of rows of a grid.
pub open spec fn rows(grid: Seq<Seq<usize>>) -> int {
    grid.len() as int
}

/// Number of columns of a grid: the length of its first row.
pub open spec fn cols(grid: Seq<Seq<usize>>) -> int {
    if grid.len() == 0 {
        0
    } else {
        grid[0].len() as int
    }
}

/// All rows have the same length, and neither dimension exceeds [`MAX_DIM`].
pub open spec fn rectangular(grid: Seq<Seq<usize>>) -> bool {
    &&& grid.len() <= MAX_DIM
    &&& cols(grid) <= MAX_DIM
    &&& forall|r: int| 0 <= r < grid.len() ==> (#[trigger] grid[r]).len() == cols(grid)
}

/// The tile lies on the grid.
pub open spec fn in_bounds(grid: Seq<Seq<usize>>, t: Tile) -> bool {
    0 <= t.row < rows(grid) && 0 <= t.col < cols(grid)
}

/// The tile lies on the grid and its cell code is 0.
pub open spec fn walkable(grid: Seq<Seq<usize>>, t: Tile) -> bool {
    in_bounds(grid, t) && grid[t.row as int][t.col as int] == EMPTY_CELL
}

/// The tile that contains the world position `p`, on a grid of the given dimensions:
/// floor division by the tile size from the left edge and from the top edge.
pub open spec fn tile_of(rows: int, cols: int, p: Point) -> (int, int) {
    ((rows * (TILE_SIZE / 2) - p.y) / (TILE_SIZE as int), (p.x + cols * (TILE_SIZE / 2)) / (
    TILE_SIZE as int))
}

fn floor_div_tile(v: i32) -> (q: i32)
    requires
        -0x4000_0000 <= v <= 0x4000_0000,
    ensures
        q == (v as int) / (TILE_SIZE as int),
{
    if v >= 0 {
        v / TILE_SIZE
    } else {
        -((-v + (TILE_SIZE - 1)) / TILE_SIZE)
    }
}

impl GridMap {
    pub open spec fn wf(&self) -> bool {
        rectangular(self@)
    }

    /// Wraps rows of cell codes, if they form a rectangle within the size limit.
    pub fn new(cells: Vec<Vec<usize>>) -> (m: Option<GridMap>)
        ensures
            m.is_some() == rectangular(Seq::new(cells@.len(), |r: int| cells@[r]@)),
            m matches Some(g) ==> g.cells == cells && g.wf(),
    {
        let ghost grid = Seq::new(cells@.len(), |r: int| cells@[r]@);
        let n: usize = cells.len();
        if n > MAX_DIM {
            return None;
        }
        if n == 0 {
            return Some(GridMap { cells });
        }
        let width: usize = cells[0].len();
        if width > MAX_DIM {
            return None;
        }
        let mut r: usize = 1;
        while r < n
            invariant
                1 <= r <= n,
                n == cells.len(),
                width == cells[0].len(),
                grid == Seq::new(cells@.len(), |r: int| cells@[r]@),
                forall|k: int| 0 <= k < r ==> (#[trigger] grid[k]).len() == width,
            decreases n - r,
        {
            if cells[r].len() != width {
                assert(grid[r as int].len() != cols(grid));
                return None;
            }
            r += 1;
        }
        Some(GridMap { cells })
    }

    /// Number of rows.
    pub fn row_count(&self) -> (n: usize)
        ensures
            n == rows(self@),
    {
        self.cells.len()
    }

    /// Number of columns.
    pub fn col_count(&self) -> (n: usize)
        ensures
            n == cols(self@),
    {
        if self.cells.len() == 0 {
            0
        } else {
            self.cells[0].len()
        }
    }
}

/// Whether the tile at (`row`, `col`) can be entered: it lies on the map and its cell code
/// is 0. Tiles beyond the edges of the map are not walkable.
pub fn tile_walkable(map: &GridMap, row: i32, col: i32) -> (b: bool)
    requires
        map.wf(),
    ensures
        b == walkable(map@, Tile { row, col }),
{
    if row < 0 || col < 0 {
        return false;
    }
    let r: usize = row as usize;
    let c: usize = col as usize;
    if r >= map.cells.len() {
        return false;
    }
    proof {
        assert(map@[r as int] == map.cells@[r as int]@);
    }
    if c >= map.cells[r].len() {
        return false;
    }
    map.cells[r][c] == EMPTY_CELL
}

/// The tile that contains the world position `pos`. The result lies beyond the edges of
/// the map if the position does.
pub fn world_to_tile(map: &GridMap, pos: Transform) -> (t: Tile)
    requires
        map.wf(),
        pos.in_world(),
    ensures
        (t.row as int, t.col as int) == tile_of(rows(map@), cols(map@), pos@),
{
    let half_height: i32 = (map.row_count() as i32) * (TILE_SIZE / 2);
    let half_width: i32 = (map.col_count() as i32) * (TILE_SIZE / 2);
    Tile { row: floor_div_tile(half_height - pos.y), col: floor_div_tile(pos.x + half_width) }
}

/// The position lies on the area that a grid of the given dimensions covers: the left and
/// the top edge belong to it, the right and the bottom edge do not.
pub open spec fn on_grid(rows: int, cols: int, p: Point) -> bool {
    &&& -cols * (TILE_SIZE / 2) <= p.x < cols * (TILE_SIZE / 2)
    &&& -rows * (TILE_SIZE / 2) < p.y <= rows * (TILE_SIZE / 2)
}

/// A position maps to a tile of the grid exactly when it lies on the area that the grid
/// covers.
pub proof fn lemma_tile_on_grid(rows: int, cols: int, p: Point)
    requires
        0 <= rows,
        0 <= cols,
    ensures
        on_grid(rows, cols, p) <==> (0 <= tile_of(rows, cols, p).0 < rows && 0 <= tile_of(
            rows,
            cols,
            p,
        ).1 < cols),
{
}

} // verus!
