use vstd::prelude::*;
use crate::glyph::cp437;
use crate::rect::Rect;
use rltk::to_cp437;

verus! {

/// What occupies one cell of the grid.
#[derive(PartialEq, Eq, Structural, Copy, Clone, Debug)]
pub enum TileType {
    Wall,
    Floor,
}

/// Why a query on a level could not be answered.
#[derive(PartialEq, Eq, Structural, Copy, Clone, Debug)]
pub enum MapError {
    /// The coordinates name no cell of the grid.
    OutOfBounds,
    /// The level has no room to take a position from.
    NoRooms,
}

/// Number of columns of the grid.
pub const MAP_WIDTH: i32 = 80;

/// Number of rows of the grid.
pub const MAP_HEIGHT: i32 = 50;

/// Number of cells of the grid.
pub const MAP_TILES: usize = 4000;

/// `(x, y)` names a cell of the grid.
pub open spec fn in_bounds(x: int, y: int) -> bool {
    0 <= x < 80 && 0 <= y < 50
}

/// Place of the cell `(x, y)` in the row-major sequence of tiles.
pub open spec fn index_of(x: int, y: int) -> int {
    y * 80 + x
}

/// Column and row of the cell stored at `idx`.
pub open spec fn coords_of(idx: int) -> (int, int) {
    (idx % 80, idx / 80)
}

/// `(x, y)` lies in the first or last column or in the first or last row.
pub open spec fn on_border(x: int, y: int) -> bool {
    x == 0 || x == 79 || y == 0 || y == 49
}

/// A sequence of tiles that holds exactly one tile for each cell of the grid.
pub open spec fn is_grid(tiles: Seq<TileType>) -> bool {
    tiles.len() == 4000
}

/// Whether `(x, y)` names a cell of the grid.
pub fn within_map(x: i32, y: i32) -> (inside: bool)
    ensures
        inside == in_bounds(x as int, y as int),
{
    0 <= x && x < MAP_WIDTH && 0 <= y && y < MAP_HEIGHT
}

/// Index of the cell `(x, y)` in a grid. The caller answers for the
/// coordinates: use [`checked_xy_idx`] where they are not known to be
/// inside the grid.
pub fn xy_idx(x: i32, y: i32) -> (idx: usize)
    requires
        in_bounds(x as int, y as int),
    ensures
        idx == index_of(x as int, y as int),
        idx < MAP_TILES,
        coords_of(idx as int) == (x as int, y as int),
{
    (y as usize * 80) + x as usize
}

/// Index of the cell `(x, y)`, or `OutOfBounds` where the grid has no such
/// cell. Coordinates outside the grid are rejected, never folded into
/// another row.
pub fn checked_xy_idx(x: i32, y: i32) -> (found: Result<usize, MapError>)
    ensures
        in_bounds(x as int, y as int) ==> found == Ok::<usize, MapError>(
            index_of(x as int, y as int) as usize,
        ),
        !in_bounds(x as int, y as int) ==> found == Err::<usize, MapError>(MapError::OutOfBounds),
{
    if within_map(x, y) {
        Ok(xy_idx(x, y))
    } else {
        Err(MapError::OutOfBounds)
    }
}

/// Column and row of the cell stored at `idx`: the inverse of [`xy_idx`].
pub fn idx_xy(idx: usize) -> (cell: (i32, i32))
    requires
        idx < MAP_TILES,
    ensures
        (cell.0 as int, cell.1 as int) == coords_of(idx as int),
        in_bounds(cell.0 as int, cell.1 as int),
        index_of(cell.0 as int, cell.1 as int) == idx,
{
    ((idx % 80) as i32, (idx / 80) as i32)
}

/// The tile stored at `idx`.
pub fn tile_at(map: &[TileType], idx: usize) -> (tile: TileType)
    requires
        idx < map@.len(),
    ensures
        tile == map@[idx as int],
{
    map[idx]
}

/// Two cells of the grid with the same index are the same cell.
pub proof fn index_of_is_injective(x1: int, y1: int, x2: int, y2: int)
    requires
        in_bounds(x1, y1),
        in_bounds(x2, y2),
        index_of(x1, y1) == index_of(x2, y2),
    ensures
        x1 == x2,
        y1 == y2,
{
}

/// Every cell of the grid has an index below the number of tiles, and
/// `coords_of` leads from that index back to the cell.
pub proof fn coords_of_inverts_index_of(x: int, y: int)
    requires
        in_bounds(x, y),
    ensures
        0 <= index_of(x, y) < 4000,
        coords_of(index_of(x, y)) == (x, y),
{
}

/// Every index below the number of tiles belongs to a cell of the grid, and
/// `index_of` leads from that cell back to the index.
pub proof fn index_of_inverts_coords_of(idx: int)
    requires
        0 <= idx < 4000,
    ensures
        in_bounds(coords_of(idx).0, coords_of(idx).1),
        index_of(coords_of(idx).0, coords_of(idx).1) == idx,
{
}

/// `v` lies between `a` and `b`, whichever of the two is smaller.
pub open spec fn between(a: int, b: int, v: int) -> bool {
    (a <= v <= b) || (b <= v <= a)
}

/// The tiles after `room` has been opened up: every cell that the room
/// carves is floor, every other cell is as before.
pub open spec fn carve_room(tiles: Seq<TileType>, room: Rect) -> Seq<TileType> {
    Seq::new(
        tiles.len(),
        |i: int|
            if room.carves(i % 80, i / 80) {
                TileType::Floor
            } else {
                tiles[i]
            },
    )
}

/// The tiles after a straight corridor has been dug along row `y` from
/// column `x1` to column `x2`, both ends included. Only the part of the
/// corridor that lies on the grid is dug.
pub open spec fn carve_row(tiles: Seq<TileType>, x1: int, x2: int, y: int) -> Seq<TileType> {
    Seq::new(
        tiles.len(),
        |i: int|
            if i / 80 == y && between(x1, x2, i % 80) {
                TileType::Floor
            } else {
                tiles[i]
            },
    )
}

/// The tiles after a straight corridor has been dug along column `x` from
/// row `y1` to row `y2`, both ends included. Only the part of the corridor
/// that lies on the grid is dug.
pub open spec fn carve_column(tiles: Seq<TileType>, y1: int, y2: int, x: int) -> Seq<TileType> {
    Seq::new(
        tiles.len(),
        |i: int|
            if i % 80 == x && between(y1, y2, i / 80) {
                TileType::Floor
            } else {
                tiles[i]
            },
    )
}

/// Every cell that `room` carves is a cell of the grid.
pub open spec fn room_on_grid(room: Rect) -> bool {
    room.well_formed() ==> -1 <= room.x1 && room.x2 < 80 && -1 <= room.y1 && room.y2 < 50
}

/// Opens up `room` on the map: every cell of the rectangle but those of its
/// top row and left column becomes floor.
pub fn apply_room_to_map(room: &Rect, map: &mut [TileType])
    requires
        is_grid(old(map)@),
        room_on_grid(*room),
    ensures
        final(map)@ == carve_room(old(map)@, *room),
{
    if room.x1 >= room.x2 || room.y1 >= room.y2 {
        assert(map@ =~= carve_room(old(map)@, *room));
        return ;
    }
    let mut y: i32 = room.y1 + 1;
    while y <= room.y2
        invariant
            room_on_grid(*room),
            room.well_formed(),
            room.y1 < y <= room.y2 + 1,
            map@.len() == 4000,
            old(map)@.len() == 4000,
            forall|i: int|
                0 <= i < 4000 ==> map@[i] == (if room.x1 < i % 80 <= room.x2 && room.y1 < i / 80
                    < y {
                    TileType::Floor
                } else {
                    old(map)@[i]
                }),
        decreases room.y2 + 1 - y,
    {
        let mut x: i32 = room.x1 + 1;
        while x <= room.x2
            invariant
                room_on_grid(*room),
                room.well_formed(),
                room.y1 < y <= room.y2,
                room.x1 < x <= room.x2 + 1,
                map@.len() == 4000,
                old(map)@.len() == 4000,
                forall|i: int|
                    0 <= i < 4000 ==> map@[i] == (if (room.x1 < i % 80 <= room.x2 && room.y1 < i
                        / 80 < y) || (room.x1 < i % 80 < x && i / 80 == y) {
                        TileType::Floor
                    } else {
                        old(map)@[i]
                    }),
            decreases room.x2 + 1 - x,
        {
            map[xy_idx(x, y)] = TileType::Floor;
            x += 1;
        }
        y += 1;
    }
    assert(map@ =~= carve_room(old(map)@, *room));
}

/// Digs a corridor along row `y` between the columns `x1` and `x2`, in
/// whichever order they come, both ends included. Cells of the corridor
/// that the grid does not have are skipped.
pub fn apply_horizontal_tunnel(map: &mut [TileType], x1: i32, x2: i32, y: i32)
    requires
        is_grid(old(map)@),
    ensures
        final(map)@ == carve_row(old(map)@, x1 as int, x2 as int, y as int),
{
    let first: i32 = if x1 <= x2 { x1 } else { x2 };
    let last: i32 = if x1 <= x2 { x2 } else { x1 };
    if y < 0 || y >= MAP_HEIGHT || last < 0 || first >= MAP_WIDTH {
        assert(map@ =~= carve_row(old(map)@, x1 as int, x2 as int, y as int));
        return ;
    }
    let start: i32 = if first > 0 { first } else { 0 };
    let stop: i32 = if last < MAP_WIDTH { last } else { MAP_WIDTH - 1 };
    let mut x: i32 = start;
    while x <= stop
        invariant
            0 <= y < 50,
            0 <= start <= x <= stop + 1 <= 80,
            start == first || (start == 0 && first < 0),
            stop == last || (stop == 79 && last > 79),
            map@.len() == 4000,
            old(map)@.len() == 4000,
            forall|i: int|
                0 <= i < 4000 ==> map@[i] == (if i / 80 == y && start <= i % 80 < x {
                    TileType::Floor
                } else {
                    old(map)@[i]
                }),
        decreases stop + 1 - x,
    {
        let idx = xy_idx(x, y);
        if idx < MAP_TILES {
            map[idx] = TileType::Floor;
        }
        x += 1;
    }
    assert(map@ =~= carve_row(old(map)@, x1 as int, x2 as int, y as int));
}

/// Digs a corridor along column `x` between the rows `y1` and `y2`, in
/// whichever order they come, both ends included. Cells of the corridor
/// that the grid does not have are skipped.
pub fn apply_vertical_tunnel(map: &mut [TileType], y1: i32, y2: i32, x: i32)
    requires
        is_grid(old(map)@),
    ensures
        final(map)@ == carve_column(old(map)@, y1 as int, y2 as int, x as int),
{
    let first: i32 = if y1 <= y2 { y1 } else { y2 };
    let last: i32 = if y1 <= y2 { y2 } else { y1 };
    if x < 0 || x >= MAP_WIDTH || last < 0 || first >= MAP_HEIGHT {
        assert(map@ =~= carve_column(old(map)@, y1 as int, y2 as int, x as int));
        return ;
    }
    let start: i32 = if first > 0 { first } else { 0 };
    let stop: i32 = if last < MAP_HEIGHT { last } else { MAP_HEIGHT - 1 };
    let mut y: i32 = start;
    while y <= stop
        invariant
            0 <= x < 80,
            0 <= start <= y <= stop + 1 <= 50,
            start == first || (start == 0 && first < 0),
            stop == last || (stop == 49 && last > 49),
            map@.len() == 4000,
            old(map)@.len() == 4000,
            forall|i: int|
                0 <= i < 4000 ==> map@[i] == (if i % 80 == x && start <= i / 80 < y {
                    TileType::Floor
                } else {
                    old(map)@[i]
                }),
        decreases stop + 1 - y,
    {
        let idx = xy_idx(x, y);
        if idx < MAP_TILES {
            map[idx] = TileType::Floor;
        }
        y += 1;
    }
    assert(map@ =~= carve_column(old(map)@, y1 as int, y2 as int, x as int));
}

/// One cell of a map as it is shown: where it stands, what it holds and the
/// code of the character that stands for it.
#[derive(PartialEq, Eq, Structural, Copy, Clone, Debug)]
pub struct MapCell {
    pub x: i32,
    pub y: i32,
    pub tile: TileType,
    pub glyph: u16,
}

/// How the tile at index `i` is shown: in column `i % 80` of row `i / 80`,
/// by `floor_glyph` if it is floor and by `wall_glyph` if it is wall.
pub open spec fn cell_at(tiles: Seq<TileType>, i: int, floor_glyph: u16, wall_glyph: u16) -> MapCell {
    MapCell {
        x: (i % 80) as i32,
        y: (i / 80) as i32,
        tile: tiles[i],
        glyph: match tiles[i] {
            TileType::Floor => floor_glyph,
            TileType::Wall => wall_glyph,
        },
    }
}

/// The cells of a map in the order of its tiles.
pub open spec fn cells_of(tiles: Seq<TileType>, floor_glyph: u16, wall_glyph: u16) -> Seq<MapCell> {
    Seq::new(tiles.len(), |i: int| cell_at(tiles, i, floor_glyph, wall_glyph))
}

/// Lays the map out for drawing with the given character codes: one cell
/// for each tile, in the order of the tiles, row after row of 80 cells. The
/// number of the last row must fit `i32`.
pub fn lay_out(map: &[TileType], floor_glyph: u16, wall_glyph: u16) -> (cells: Vec<MapCell>)
    requires
        map@.len() < 80 * 0x8000_0000,
    ensures
        cells@ == cells_of(map@, floor_glyph, wall_glyph),
{
    let mut cells: Vec<MapCell> = Vec::new();
    let mut x: i32 = 0;
    let mut y: i32 = 0;
    let mut i: usize = 0;
    while i < map.len()
        invariant
            map@.len() < 80 * 0x8000_0000,
            0 <= i <= map@.len(),
            x == i % 80,
            y == i / 80,
            cells@.len() == i,
            forall|k: int| 0 <= k < i ==> cells@[k] == cell_at(map@, k, floor_glyph, wall_glyph),
        decreases map@.len() - i,
    {
        let tile = map[i];
        let glyph = match tile {
            TileType::Floor => floor_glyph,
            TileType::Wall => wall_glyph,
        };
        cells.push(MapCell { x, y, tile, glyph });
        x += 1;
        if x > 79 {
            x = 0;
            y += 1;
        }
        i += 1;
    }
    assert(cells@ =~= cells_of(map@, floor_glyph, wall_glyph));
    cells
}

/// Lays the map out for drawing, floor shown as a dot and wall as a hash
/// sign: see [`lay_out`].
pub fn draw_map(map: &[TileType]) -> (cells: Vec<MapCell>)
    requires
        map@.len() < 80 * 0x8000_0000,
    ensures
        cells@ == cells_of(map@, cp437('.'), cp437('#')),
{
    lay_out(map, to_cp437('.'), to_cp437('#'))
}

} // verus!
