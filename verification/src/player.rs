use vstd::prelude::*;
use crate::map::{in_bounds, index_of, is_grid, xy_idx, MapError, TileType};
use crate::rect::Rect;

verus! {

/// Where something stands on the grid.
#[derive(PartialEq, Eq, Structural, Copy, Clone, Debug)]
pub struct Position {
    pub x: i32,
    pub y: i32,
}

/// `v` pulled into the range from 0 to `last`.
pub open spec fn clamp_axis(v: int, last: int) -> int {
    if v < 0 {
        0
    } else if v > last {
        last
    } else {
        v
    }
}

/// The cell of the grid that is nearest to `(x, y)`: each coordinate is
/// pulled into the grid by itself.
pub open spec fn clamped(x: int, y: int) -> (int, int) {
    (clamp_axis(x, 79), clamp_axis(y, 49))
}

/// Something may step on `(x, y)`: it is a cell of the grid and no wall.
/// What lies outside the grid is as solid as a wall.
pub open spec fn can_enter(tiles: Seq<TileType>, x: int, y: int) -> bool {
    in_bounds(x, y) && tiles[index_of(x, y)] != TileType::Wall
}

/// Where a step by `(dx, dy)` from `pos` ends. A step onto a cell that
/// cannot be entered is not taken at all; any other step is taken on both
/// axes and its end pulled into the grid.
pub open spec fn moved(pos: Position, dx: int, dy: int, tiles: Seq<TileType>) -> (int, int) {
    if can_enter(tiles, pos.x + dx, pos.y + dy) {
        clamped(pos.x + dx, pos.y + dy)
    } else {
        (pos.x as int, pos.y as int)
    }
}

/// The cell of the grid that is nearest to `(x, y)`.
pub fn clamp_to_map(x: i32, y: i32) -> (cell: (i32, i32))
    ensures
        (cell.0 as int, cell.1 as int) == clamped(x as int, y as int),
        in_bounds(cell.0 as int, cell.1 as int),
        in_bounds(x as int, y as int) ==> cell == (x, y),
{
    let cx: i32 = if x < 0 {
        0
    } else if x > 79 {
        79
    } else {
        x
    };
    let cy: i32 = if y < 0 {
        0
    } else if y > 49 {
        49
    } else {
        y
    };
    (cx, cy)
}

/// Moves `pos` by `(delta_x, delta_y)` if the map lets it. Where the
/// destination is a wall or lies outside the grid, `pos` stays as it is on
/// both axes. Only the destination is looked at, also for a diagonal step.
pub fn try_move(delta_x: i32, delta_y: i32, pos: &mut Position, map: &[TileType])
    requires
        is_grid(map@),
    ensures
        (final(pos).x as int, final(pos).y as int) == moved(
            *old(pos),
            delta_x as int,
            delta_y as int,
            map@,
        ),
        !in_bounds(old(pos).x + delta_x, old(pos).y + delta_y) ==> *final(pos) == *old(pos),
        in_bounds(old(pos).x + delta_x, old(pos).y + delta_y) && map@[index_of(
            old(pos).x + delta_x,
            old(pos).y + delta_y,
        )] == TileType::Wall ==> *final(pos) == *old(pos),
        in_bounds(old(pos).x + delta_x, old(pos).y + delta_y) && map@[index_of(
            old(pos).x + delta_x,
            old(pos).y + delta_y,
        )] == TileType::Floor ==> final(pos).x == old(pos).x + delta_x && final(pos).y == old(
            pos,
        ).y + delta_y,
{
    let to_x: i64 = pos.x as i64 + delta_x as i64;
    let to_y: i64 = pos.y as i64 + delta_y as i64;
    if 0 <= to_x && to_x < 80 && 0 <= to_y && to_y < 50 {
        let destination_idx = xy_idx(to_x as i32, to_y as i32);
        if map[destination_idx] != TileType::Wall {
            let (x, y) = clamp_to_map(to_x as i32, to_y as i32);
            pos.x = x;
            pos.y = y;
        }
    }
}

/// Where the player enters a level: the midpoint of its first room, or
/// `NoRooms` where the level has none.
pub fn spawn_point(rooms: &[Rect]) -> (spawn: Result<Position, MapError>)
    ensures
        rooms@.len() == 0 ==> spawn == Err::<Position, MapError>(MapError::NoRooms),
        rooms@.len() > 0 ==> spawn == Ok::<Position, MapError>(
            Position { x: rooms@[0].center().0, y: rooms@[0].center().1 },
        ),
{
    if rooms.len() == 0 {
        Err(MapError::NoRooms)
    } else {
        let (x, y) = rooms[0].center();
        Ok(Position { x, y })
    }
}

/// Pulling a cell into the grid a second time changes nothing.
pub proof fn clamping_is_idempotent(x: int, y: int)
    ensures
        clamped(clamped(x, y).0, clamped(x, y).1) == clamped(x, y),
        in_bounds(clamped(x, y).0, clamped(x, y).1),
        in_bounds(x, y) ==> clamped(x, y) == (x, y),
{
}

/// A step onto a wall is not taken.
pub proof fn step_onto_wall_stays(pos: Position, dx: int, dy: int, tiles: Seq<TileType>)
    requires
        is_grid(tiles),
        in_bounds(pos.x + dx, pos.y + dy),
        tiles[index_of(pos.x + dx, pos.y + dy)] == TileType::Wall,
    ensures
        moved(pos, dx, dy, tiles) == (pos.x as int, pos.y as int),
{
}

/// A step onto a floor cell of the grid ends on that very cell.
pub proof fn step_onto_floor_arrives(pos: Position, dx: int, dy: int, tiles: Seq<TileType>)
    requires
        is_grid(tiles),
        in_bounds(pos.x + dx, pos.y + dy),
        tiles[index_of(pos.x + dx, pos.y + dy)] == TileType::Floor,
    ensures
        moved(pos, dx, dy, tiles) == (pos.x + dx, pos.y + dy),
{
}

/// No step leads off the grid: from a cell of the grid, every step ends on
/// a cell of the grid.
pub proof fn steps_stay_on_grid(pos: Position, dx: int, dy: int, tiles: Seq<TileType>)
    requires
        in_bounds(pos.x as int, pos.y as int),
    ensures
        in_bounds(moved(pos, dx, dy, tiles).0, moved(pos, dx, dy, tiles).1),
{
}

} // verus!
