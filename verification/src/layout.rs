use vstd::prelude::*;
use crate::map::{
    between, carve_column, carve_room, carve_row, in_bounds, index_of, is_grid, on_border,
    TileType,
};
use crate::reach::{
    column_is_connected, connected, connected_is_symmetric, connected_is_transitive,
    connected_to_itself, is_floor, row_is_connected,
};
use crate::rect::Rect;

verus! {

/// The midpoint of `room` as a pair of unbounded integers.
pub open spec fn mid(room: Rect) -> (int, int) {
    (room.center().0 as int, room.center().1 as int)
}

/// A room of the size and in the place that the generator may give it: 6 to
/// 9 cells along each axis, and inside the grid with a margin of one cell at
/// the right and at the bottom.
pub open spec fn room_allowed(room: Rect) -> bool {
    &&& 6 <= room.x2 - room.x1 < 10
    &&& 6 <= room.y2 - room.y1 < 10
    &&& 0 <= room.x1
    &&& room.x2 <= 78
    &&& 0 <= room.y1
    &&& room.y2 <= 48
}

/// No two of the rooms overlap or touch.
pub open spec fn rooms_apart(rooms: Seq<Rect>) -> bool {
    forall|i: int, j: int|
        #![trigger rooms[i], rooms[j]]
        0 <= i < j < rooms.len() ==> !rooms[i].intersect(&rooms[j])
}

/// `room` overlaps or touches none of `rooms`.
pub open spec fn fits(rooms: Seq<Rect>, room: Rect) -> bool {
    forall|k: int| 0 <= k < rooms.len() ==> !room.intersect(&#[trigger] rooms[k])
}

/// The rooms that are kept when the candidates are tried in turn: a
/// candidate joins the rooms kept so far if it fits among them, and is
/// dropped for good if it does not.
pub open spec fn accepted(candidates: Seq<Rect>) -> Seq<Rect>
    decreases candidates.len(),
{
    if candidates.len() == 0 {
        Seq::empty()
    } else {
        let kept = accepted(candidates.drop_last());
        if fits(kept, candidates.last()) {
            kept.push(candidates.last())
        } else {
            kept
        }
    }
}

/// The candidates of one run of the generator: 30 rooms, each of them
/// allowed.
pub open spec fn drawn(candidates: Seq<Rect>) -> bool {
    &&& candidates.len() == 30
    &&& forall|k: int| 0 <= k < candidates.len() ==> room_allowed(#[trigger] candidates[k])
}

/// A list of rooms as the generator may return it: between 1 and 30 rooms,
/// each of them allowed, no two of them overlapping or touching.
pub open spec fn valid_layout(rooms: Seq<Rect>) -> bool {
    &&& 1 <= rooms.len() <= 30
    &&& forall|k: int| 0 <= k < rooms.len() ==> room_allowed(#[trigger] rooms[k])
    &&& rooms_apart(rooms)
}

/// `(x, y)` lies on the corridor of two straight legs that leads from `from`
/// to `to`. With `horizontal_first` the corridor leaves `from` along its row
/// and reaches `to` along the column of `to`; otherwise it leaves along the
/// column of `from` and arrives along the row of `to`.
pub open spec fn on_corridor(
    from: (int, int),
    to: (int, int),
    horizontal_first: bool,
    x: int,
    y: int,
) -> bool {
    if horizontal_first {
        (y == from.1 && between(from.0, to.0, x)) || (x == to.0 && between(from.1, to.1, y))
    } else {
        (x == from.0 && between(from.1, to.1, y)) || (y == to.1 && between(from.0, to.0, x))
    }
}

/// The tiles after the corridor from `from` to `to` has been dug, one leg
/// after the other.
pub open spec fn dig_corridor(
    tiles: Seq<TileType>,
    from: (int, int),
    to: (int, int),
    horizontal_first: bool,
) -> Seq<TileType> {
    if horizontal_first {
        carve_column(carve_row(tiles, from.0, to.0, from.1), from.1, to.1, to.0)
    } else {
        carve_row(carve_column(tiles, from.1, to.1, from.0), from.0, to.0, to.1)
    }
}

/// The tiles after `room` has joined the rooms that are already there: the
/// room is opened up and, unless it is the first, a corridor is dug from the
/// midpoint of the room before it to its own.
pub open spec fn place(
    tiles: Seq<TileType>,
    rooms: Seq<Rect>,
    room: Rect,
    horizontal_first: bool,
) -> Seq<TileType> {
    if rooms.len() == 0 {
        carve_room(tiles, room)
    } else {
        dig_corridor(carve_room(tiles, room), mid(rooms.last()), mid(room), horizontal_first)
    }
}

/// The room with number `k` carves the cell `(x, y)`.
pub open spec fn room_opens(rooms: Seq<Rect>, k: int, x: int, y: int) -> bool {
    0 <= k < rooms.len() && rooms[k].carves(x, y)
}

/// The corridor that leads to the room with number `k` from the room before
/// it passes through the cell `(x, y)`.
pub open spec fn corridor_opens(
    rooms: Seq<Rect>,
    turns: Seq<bool>,
    k: int,
    x: int,
    y: int,
) -> bool {
    0 < k < rooms.len() && on_corridor(mid(rooms[k - 1]), mid(rooms[k]), turns[k], x, y)
}

/// The cell `(x, y)` is opened by one of the rooms or by one of the
/// corridors between a room and the next.
pub open spec fn opened(rooms: Seq<Rect>, turns: Seq<bool>, x: int, y: int) -> bool {
    (exists|k: int| room_opens(rooms, k, x, y)) || (exists|k: int|
        corridor_opens(rooms, turns, k, x, y))
}

/// The grid of a level with the given rooms, in the order in which they were
/// placed; `turns[k]` tells whether the corridor to room `k` starts with its
/// horizontal leg. A cell is floor if a room or a corridor opens it, and
/// wall otherwise.
pub open spec fn level_tiles(rooms: Seq<Rect>, turns: Seq<bool>) -> Seq<TileType> {
    Seq::new(
        4000,
        |i: int|
            if opened(rooms, turns, i % 80, i / 80) {
                TileType::Floor
            } else {
                TileType::Wall
            },
    )
}

/// `tiles` is the grid of a level with the rooms `rooms`, whichever way its
/// corridors turn.
pub open spec fn is_level(rooms: Seq<Rect>, tiles: Seq<TileType>) -> bool {
    valid_layout(rooms) && exists|turns: Seq<bool>|
        turns.len() == rooms.len() && tiles == #[trigger] level_tiles(rooms, turns)
}

/// Every cell on the border of the grid is wall.
pub open spec fn border_is_wall(tiles: Seq<TileType>) -> bool {
    forall|x: int, y: int|
        in_bounds(x, y) && on_border(x, y) ==> tiles[#[trigger] index_of(x, y)] == TileType::Wall
}

/// From the midpoint of each room a walk over the floor leads to the
/// midpoint of every other room.
pub open spec fn rooms_are_joined(rooms: Seq<Rect>, tiles: Seq<TileType>) -> bool {
    forall|i: int, j: int|
        #![trigger rooms[i], rooms[j]]
        0 <= i < rooms.len() && 0 <= j < rooms.len() ==> connected(
            tiles,
            mid(rooms[i]),
            mid(rooms[j]),
        )
}

/// The rooms that are kept are apart from each other and no more than the
/// candidates; unless there was no candidate, the first candidate is the
/// first of them.
pub proof fn accepted_rooms_are_apart(candidates: Seq<Rect>)
    ensures
        rooms_apart(accepted(candidates)),
        accepted(candidates).len() <= candidates.len(),
        candidates.len() > 0 ==> accepted(candidates).len() > 0 && accepted(candidates)[0]
            == candidates[0],
    decreases candidates.len(),
{
    if candidates.len() > 0 {
        let before = candidates.drop_last();
        accepted_rooms_are_apart(before);
        let kept = accepted(before);
        let room = candidates.last();
        if fits(kept, room) {
            let more = kept.push(room);
            assert forall|i: int, j: int|
                #![trigger more[i], more[j]]
                0 <= i < j < more.len() implies !more[i].intersect(&more[j]) by {
                if j < kept.len() {
                    assert(!kept[i].intersect(&kept[j]));
                } else {
                    assert(!room.intersect(&kept[i]));
                }
            }
        }
        if before.len() > 0 {
            assert(before[0] == candidates[0]);
        }
    }
}

/// Of allowed candidates, every room that is kept is allowed.
pub proof fn accepted_rooms_are_allowed(candidates: Seq<Rect>)
    requires
        forall|k: int| 0 <= k < candidates.len() ==> room_allowed(#[trigger] candidates[k]),
    ensures
        forall|k: int|
            0 <= k < accepted(candidates).len() ==> room_allowed(#[trigger] accepted(candidates)[k]),
    decreases candidates.len(),
{
    if candidates.len() > 0 {
        let before = candidates.drop_last();
        assert forall|k: int| 0 <= k < before.len() implies room_allowed(#[trigger] before[k]) by {
            assert(before[k] == candidates[k]);
        }
        accepted_rooms_are_allowed(before);
        let kept = accepted(before);
        let room = candidates.last();
        assert(room_allowed(room));
        if fits(kept, room) {
            let more = kept.push(room);
            assert forall|k: int| 0 <= k < more.len() implies room_allowed(#[trigger] more[k]) by {
                if k < kept.len() {
                    assert(more[k] == kept[k]);
                }
            }
        }
    }
}

/// The rooms that are kept of a run's candidates make a valid layout.
pub proof fn accepted_rooms_make_a_layout(candidates: Seq<Rect>)
    requires
        drawn(candidates),
    ensures
        valid_layout(accepted(candidates)),
{
    accepted_rooms_are_apart(candidates);
    accepted_rooms_are_allowed(candidates);
}

/// A level without rooms is solid wall.
pub proof fn empty_level_is_wall()
    ensures
        level_tiles(Seq::empty(), Seq::empty()) == Seq::new(4000, |i: int| TileType::Wall),
{
    assert(level_tiles(Seq::empty(), Seq::empty()) =~= Seq::new(4000, |i: int| TileType::Wall));
}

/// Placing one more room on the grid of a level gives the grid of the level
/// with that room added.
pub proof fn place_extends_level(
    rooms: Seq<Rect>,
    turns: Seq<bool>,
    room: Rect,
    horizontal_first: bool,
)
    requires
        turns.len() == rooms.len(),
    ensures
        place(level_tiles(rooms, turns), rooms, room, horizontal_first) == level_tiles(
            rooms.push(room),
            turns.push(horizontal_first),
        ),
{
    let before = level_tiles(rooms, turns);
    let after = place(before, rooms, room, horizontal_first);
    let rooms2 = rooms.push(room);
    let turns2 = turns.push(horizontal_first);
    let n = rooms.len() as int;
    assert forall|i: int| 0 <= i < 4000 implies after[i] == level_tiles(rooms2, turns2)[i] by {
        let x = i % 80;
        let y = i / 80;
        let dug = n > 0 && on_corridor(mid(rooms.last()), mid(room), horizontal_first, x, y);
        assert(after[i] == TileType::Floor <==> (opened(rooms, turns, x, y) || room.carves(x, y)
            || dug));
        if opened(rooms, turns, x, y) {
            if exists|k: int| room_opens(rooms, k, x, y) {
                let k = choose|k: int| room_opens(rooms, k, x, y);
                assert(room_opens(rooms2, k, x, y));
            } else {
                let k = choose|k: int| corridor_opens(rooms, turns, k, x, y);
                assert(corridor_opens(rooms2, turns2, k, x, y));
            }
        }
        if room.carves(x, y) {
            assert(room_opens(rooms2, n, x, y));
        }
        if dug {
            assert(rooms2[n - 1] == rooms.last());
            assert(corridor_opens(rooms2, turns2, n, x, y));
        }
        if opened(rooms2, turns2, x, y) {
            if exists|k: int| room_opens(rooms2, k, x, y) {
                let k = choose|k: int| room_opens(rooms2, k, x, y);
                if k < n {
                    assert(room_opens(rooms, k, x, y));
                }
            } else {
                let k = choose|k: int| corridor_opens(rooms2, turns2, k, x, y);
                if k < n {
                    assert(corridor_opens(rooms, turns, k, x, y));
                } else {
                    assert(rooms2[n - 1] == rooms.last());
                }
            }
        }
    }
    assert(after =~= level_tiles(rooms2, turns2));
}

/// The midpoint of an allowed room is one of the cells that the room carves,
/// at least three cells away from the border of the grid.
pub proof fn mid_is_inside(room: Rect)
    requires
        room_allowed(room),
    ensures
        room.carves(mid(room).0, mid(room).1),
        3 <= mid(room).0 <= 75,
        3 <= mid(room).1 <= 45,
{
}

/// Every cell that a room of the level carves is floor.
pub proof fn rooms_are_floor(rooms: Seq<Rect>, turns: Seq<bool>, k: int, x: int, y: int)
    requires
        0 <= k < rooms.len(),
        in_bounds(x, y),
        rooms[k].carves(x, y),
    ensures
        is_floor(level_tiles(rooms, turns), x, y),
{
    let i = index_of(x, y);
    assert(i % 80 == x && i / 80 == y);
    assert(room_opens(rooms, k, x, y));
}

/// Every cell of the grid that a corridor of the level passes through is
/// floor.
pub proof fn corridors_are_floor(rooms: Seq<Rect>, turns: Seq<bool>, k: int, x: int, y: int)
    requires
        0 < k < rooms.len(),
        in_bounds(x, y),
        on_corridor(mid(rooms[k - 1]), mid(rooms[k]), turns[k], x, y),
    ensures
        is_floor(level_tiles(rooms, turns), x, y),
{
    let i = index_of(x, y);
    assert(i % 80 == x && i / 80 == y);
    assert(corridor_opens(rooms, turns, k, x, y));
}

/// Rooms and corridors keep off the border of the grid: where every room is
/// allowed, each cell of the first and last row and column is wall.
pub proof fn border_stays_wall(rooms: Seq<Rect>, turns: Seq<bool>, x: int, y: int)
    requires
        forall|k: int| 0 <= k < rooms.len() ==> room_allowed(#[trigger] rooms[k]),
        in_bounds(x, y),
        on_border(x, y),
    ensures
        level_tiles(rooms, turns)[index_of(x, y)] == TileType::Wall,
{
    let i = index_of(x, y);
    assert(i % 80 == x && i / 80 == y);
    if opened(rooms, turns, x, y) {
        if exists|k: int| room_opens(rooms, k, x, y) {
            let k = choose|k: int| room_opens(rooms, k, x, y);
            assert(room_allowed(rooms[k]));
            assert(false);
        } else {
            let k = choose|k: int| corridor_opens(rooms, turns, k, x, y);
            mid_is_inside(rooms[k]);
            mid_is_inside(rooms[k - 1]);
            assert(false);
        }
    }
}

/// Where every cell of the corridor from `from` to `to` is floor, the
/// corridor connects its two ends.
pub proof fn corridor_connects_ends(
    tiles: Seq<TileType>,
    from: (int, int),
    to: (int, int),
    horizontal_first: bool,
)
    requires
        forall|x: int, y: int|
            on_corridor(from, to, horizontal_first, x, y) ==> #[trigger] is_floor(tiles, x, y),
    ensures
        connected(tiles, from, to),
{
    if horizontal_first {
        assert forall|x: int| between(from.0, to.0, x) implies #[trigger] is_floor(
            tiles,
            x,
            from.1,
        ) by {
            assert(on_corridor(from, to, horizontal_first, x, from.1));
        }
        row_is_connected(tiles, from.1, from.0, to.0);
        assert forall|y: int| between(from.1, to.1, y) implies #[trigger] is_floor(
            tiles,
            to.0,
            y,
        ) by {
            assert(on_corridor(from, to, horizontal_first, to.0, y));
        }
        column_is_connected(tiles, to.0, from.1, to.1);
        connected_is_transitive(tiles, from, (to.0, from.1), to);
    } else {
        assert forall|y: int| between(from.1, to.1, y) implies #[trigger] is_floor(
            tiles,
            from.0,
            y,
        ) by {
            assert(on_corridor(from, to, horizontal_first, from.0, y));
        }
        column_is_connected(tiles, from.0, from.1, to.1);
        assert forall|x: int| between(from.0, to.0, x) implies #[trigger] is_floor(
            tiles,
            x,
            to.1,
        ) by {
            assert(on_corridor(from, to, horizontal_first, x, to.1));
        }
        row_is_connected(tiles, to.1, from.0, to.0);
        connected_is_transitive(tiles, from, (from.0, to.1), to);
    }
}

/// A corridor that is dug between two cells of the grid connects them,
/// whatever the grid held before and whichever leg comes first.
pub proof fn dug_corridor_connects_ends(
    tiles: Seq<TileType>,
    from: (int, int),
    to: (int, int),
    horizontal_first: bool,
)
    requires
        is_grid(tiles),
        in_bounds(from.0, from.1),
        in_bounds(to.0, to.1),
    ensures
        connected(dig_corridor(tiles, from, to, horizontal_first), from, to),
{
    let dug = dig_corridor(tiles, from, to, horizontal_first);
    assert forall|x: int, y: int|
        on_corridor(from, to, horizontal_first, x, y) implies #[trigger] is_floor(dug, x, y) by {
        let i = index_of(x, y);
        assert(i % 80 == x && i / 80 == y);
    }
    corridor_connects_ends(dug, from, to, horizontal_first);
}

/// The corridor to a room connects the midpoint of the room before it with
/// its own.
pub proof fn corridor_joins_rooms(rooms: Seq<Rect>, turns: Seq<bool>, k: int)
    requires
        0 < k < rooms.len(),
        room_allowed(rooms[k - 1]),
        room_allowed(rooms[k]),
    ensures
        connected(level_tiles(rooms, turns), mid(rooms[k - 1]), mid(rooms[k])),
{
    let tiles = level_tiles(rooms, turns);
    let from = mid(rooms[k - 1]);
    let to = mid(rooms[k]);
    mid_is_inside(rooms[k - 1]);
    mid_is_inside(rooms[k]);
    assert forall|x: int, y: int| on_corridor(from, to, turns[k], x, y) implies #[trigger] is_floor(
        tiles,
        x,
        y,
    ) by {
        corridors_are_floor(rooms, turns, k, x, y);
    }
    corridor_connects_ends(tiles, from, to, turns[k]);
}

/// Where every room is allowed, the midpoint of a room of a level is
/// connected over the floor to the midpoint of each later room.
proof fn later_rooms_are_connected(rooms: Seq<Rect>, turns: Seq<bool>, i: int, j: int)
    requires
        forall|k: int| 0 <= k < rooms.len() ==> room_allowed(#[trigger] rooms[k]),
        0 <= i <= j < rooms.len(),
    ensures
        connected(level_tiles(rooms, turns), mid(rooms[i]), mid(rooms[j])),
    decreases j - i,
{
    let tiles = level_tiles(rooms, turns);
    if i == j {
        assert(room_allowed(rooms[i]));
        mid_is_inside(rooms[i]);
        rooms_are_floor(rooms, turns, i, mid(rooms[i]).0, mid(rooms[i]).1);
        connected_to_itself(tiles, mid(rooms[i]));
    } else {
        later_rooms_are_connected(rooms, turns, i, j - 1);
        assert(room_allowed(rooms[j - 1]) && room_allowed(rooms[j]));
        corridor_joins_rooms(rooms, turns, j);
        connected_is_transitive(tiles, mid(rooms[i]), mid(rooms[j - 1]), mid(rooms[j]));
    }
}

/// Where every room is allowed, the midpoints of any two rooms of a level are
/// connected over the floor.
pub proof fn rooms_are_connected(rooms: Seq<Rect>, turns: Seq<bool>, i: int, j: int)
    requires
        forall|k: int| 0 <= k < rooms.len() ==> room_allowed(#[trigger] rooms[k]),
        0 <= i < rooms.len(),
        0 <= j < rooms.len(),
    ensures
        connected(level_tiles(rooms, turns), mid(rooms[i]), mid(rooms[j])),
{
    if i <= j {
        later_rooms_are_connected(rooms, turns, i, j);
    } else {
        later_rooms_are_connected(rooms, turns, j, i);
        connected_is_symmetric(level_tiles(rooms, turns), mid(rooms[j]), mid(rooms[i]));
    }
}

/// In a level, every cell on the border of the grid is wall.
pub proof fn level_border_is_wall(rooms: Seq<Rect>, tiles: Seq<TileType>)
    requires
        is_level(rooms, tiles),
    ensures
        border_is_wall(tiles),
{
    let turns = choose|turns: Seq<bool>|
        turns.len() == rooms.len() && tiles == #[trigger] level_tiles(rooms, turns);
    assert forall|x: int, y: int| in_bounds(x, y) && on_border(x, y) implies tiles[#[trigger] index_of(
        x,
        y,
    )] == TileType::Wall by {
        border_stays_wall(rooms, turns, x, y);
    }
}

/// In a level, a walk over the floor leads from the midpoint of any room to
/// the midpoint of any other.
pub proof fn level_is_connected(rooms: Seq<Rect>, tiles: Seq<TileType>)
    requires
        is_level(rooms, tiles),
    ensures
        rooms_are_joined(rooms, tiles),
{
    let turns = choose|turns: Seq<bool>|
        turns.len() == rooms.len() && tiles == #[trigger] level_tiles(rooms, turns);
    assert forall|i: int, j: int|
        #![trigger rooms[i], rooms[j]]
        0 <= i < rooms.len() && 0 <= j < rooms.len() implies connected(
        tiles,
        mid(rooms[i]),
        mid(rooms[j]),
    ) by {
        rooms_are_connected(rooms, turns, i, j);
    }
}

} // verus!
