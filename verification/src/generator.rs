use vstd::prelude::*;
use crate::dice::range;
use crate::layout::{
    accepted, accepted_rooms_make_a_layout, border_is_wall, drawn, empty_level_is_wall, fits, is_level,
    level_border_is_wall, level_is_connected, level_tiles, place, place_extends_level,
    room_allowed, rooms_apart, rooms_are_joined,
};
use crate::map::{
    apply_horizontal_tunnel, apply_room_to_map, apply_vertical_tunnel, in_bounds, index_of,
    is_grid, on_border, room_on_grid, xy_idx, TileType, MAP_HEIGHT, MAP_TILES, MAP_WIDTH,
};
use crate::rect::Rect;
use rltk::RandomNumberGenerator;

verus! {

/// How many rooms the generator tries to place.
pub const MAX_ROOMS: i32 = 30;

/// Smallest width and height of a room.
pub const MIN_SIZE: i32 = 6;

/// Bound that the width and the height of a room stay below.
pub const MAX_SIZE: i32 = 10;

/// Whether `room` keeps clear of every room in `rooms`: it neither overlaps
/// nor touches any of them.
pub fn room_fits(rooms: &[Rect], room: &Rect) -> (ok: bool)
    ensures
        ok == fits(rooms@, *room),
{
    let mut ok = true;
    let mut k: usize = 0;
    while k < rooms.len()
        invariant
            0 <= k <= rooms@.len(),
            ok == (forall|j: int| 0 <= j < k ==> !room.intersect(&#[trigger] rooms@[j])),
        decreases rooms@.len() - k,
    {
        if room.intersect(&rooms[k]) {
            ok = false;
        }
        k += 1;
    }
    ok
}

/// Adds `new_room` to a level under construction: opens the room up on the
/// map, joins its midpoint to that of the room placed last by a corridor of
/// two legs, the horizontal one first if `horizontal_first`, and appends the
/// room to the list. The first room gets no corridor.
pub fn place_room(
    rooms: &mut Vec<Rect>,
    map: &mut [TileType],
    new_room: Rect,
    horizontal_first: bool,
)
    requires
        is_grid(old(map)@),
        room_on_grid(new_room),
    ensures
        final(rooms)@ == old(rooms)@.push(new_room),
        final(map)@ == place(old(map)@, old(rooms)@, new_room, horizontal_first),
{
    apply_room_to_map(&new_room, map);
    if !rooms.is_empty() {
        let (new_x, new_y) = new_room.center();
        let (prev_x, prev_y) = rooms[rooms.len() - 1].center();
        if horizontal_first {
            apply_horizontal_tunnel(map, prev_x, new_x, prev_y);
            apply_vertical_tunnel(map, prev_y, new_y, new_x);
        } else {
            apply_vertical_tunnel(map, prev_y, new_y, prev_x);
            apply_horizontal_tunnel(map, prev_x, new_x, new_y);
        }
    }
    rooms.push(new_room);
}

/// Builds a level from the draws of `rng`. Thirty times a room of 6 to 9
/// cells a side is drawn at a place inside the border of the grid. A room
/// that overlaps or touches one placed before is dropped and not tried
/// again; any other is placed with [`place_room`], and which way its corridor
/// turns is drawn only then.
///
/// Whatever is drawn, the first room is placed, the rooms keep apart, the
/// border of the grid stays wall, and a walk over the floor leads from every
/// room to every other.
pub fn generate(rng: &mut RandomNumberGenerator) -> (level: (Vec<Rect>, Vec<TileType>))
    ensures
        exists|candidates: Seq<Rect>|
            drawn(candidates) && level.0@ == #[trigger] accepted(candidates),
        is_level(level.0@, level.1@),
        is_grid(level.1@),
        rooms_apart(level.0@),
        border_is_wall(level.1@),
        rooms_are_joined(level.0@, level.1@),
{
    let mut map = vec![TileType::Wall; MAP_TILES];
    let mut rooms: Vec<Rect> = Vec::new();
    let ghost mut candidates: Seq<Rect> = Seq::empty();
    let ghost mut turns: Seq<bool> = Seq::empty();
    proof {
        empty_level_is_wall();
    }
    let mut attempt: i32 = 0;
    while attempt < MAX_ROOMS
        invariant
            0 <= attempt <= MAX_ROOMS,
            candidates.len() == attempt,
            forall|k: int| 0 <= k < candidates.len() ==> room_allowed(#[trigger] candidates[k]),
            rooms@ == accepted(candidates),
            turns.len() == rooms@.len(),
            map@ == level_tiles(rooms@, turns),
        decreases MAX_ROOMS - attempt,
    {
        let w: i32 = range(rng, MIN_SIZE, MAX_SIZE);
        let h: i32 = range(rng, MIN_SIZE, MAX_SIZE);
        let x: i32 = rng.roll_dice(1, MAP_WIDTH - w - 1) - 1;
        let y: i32 = rng.roll_dice(1, MAP_HEIGHT - h - 1) - 1;
        let new_room = Rect::new(x, y, w, h);
        proof {
            assert(candidates.push(new_room).drop_last() =~= candidates);
            candidates = candidates.push(new_room);
        }
        if room_fits(&rooms, &new_room) {
            let horizontal_first = !rooms.is_empty() && range(rng, 0, 2) == 1;
            proof {
                place_extends_level(rooms@, turns, new_room, horizontal_first);
                turns = turns.push(horizontal_first);
            }
            place_room(&mut rooms, &mut map, new_room, horizontal_first);
        }
        attempt += 1;
    }
    proof {
        accepted_rooms_make_a_layout(candidates);
        level_border_is_wall(rooms@, map@);
        level_is_connected(rooms@, map@);
    }
    (rooms, map)
}

/// Builds a level with a generator that is seeded afresh, and returns its
/// rooms in the order in which they were placed together with its grid: see
/// [`generate`].
pub fn new_map_rooms_and_corridors() -> (level: (Vec<Rect>, Vec<TileType>))
    ensures
        exists|candidates: Seq<Rect>|
            drawn(candidates) && level.0@ == #[trigger] accepted(candidates),
        is_level(level.0@, level.1@),
        is_grid(level.1@),
        rooms_apart(level.0@),
        border_is_wall(level.1@),
        rooms_are_joined(level.0@, level.1@),
{
    let mut rng = RandomNumberGenerator::new();
    generate(&mut rng)
}

/// The draw with number `k` fell on the cell with index `i`.
pub open spec fn draw_hits(draws: Seq<(int, int)>, k: int, i: int) -> bool {
    0 <= k < draws.len() && index_of(draws[k].0, draws[k].1) == i
}

/// A floor with a wall around it and with a wall on each cell that one of
/// `draws` fell on, but for the cell `(40, 25)`, which stays free.
pub open spec fn scattered(draws: Seq<(int, int)>) -> Seq<TileType> {
    Seq::new(
        4000,
        |i: int|
            if on_border(i % 80, i / 80) || (i != index_of(40, 25) && exists|k: int|
                draw_hits(draws, k, i)) {
                TileType::Wall
            } else {
                TileType::Floor
            },
    )
}

/// The draws of one scattered map: 400 cells, each with a column from 1 to
/// 79 and a row from 1 to 49.
pub open spec fn rolled(draws: Seq<(int, int)>) -> bool {
    &&& draws.len() == 400
    &&& forall|k: int|
        0 <= k < draws.len() ==> 1 <= (#[trigger] draws[k]).0 <= 79 && 1 <= draws[k].1 <= 49
}

/// Puts a wall on the cell `(x, y)`, unless it is the cell `(40, 25)`.
pub fn scatter_wall(map: &mut [TileType], x: i32, y: i32)
    requires
        is_grid(old(map)@),
        in_bounds(x as int, y as int),
    ensures
        final(map)@ == (if x == 40 && y == 25 {
            old(map)@
        } else {
            old(map)@.update(index_of(x as int, y as int), TileType::Wall)
        }),
{
    let idx = xy_idx(x, y);
    if idx != xy_idx(40, 25) {
        map[idx] = TileType::Wall;
    }
}

/// Makes a map with a solid border and up to 400 walls at random places. The
/// cell `(40, 25)` is kept free.
pub fn new_map_test() -> (map: Vec<TileType>)
    ensures
        is_grid(map@),
        exists|draws: Seq<(int, int)>| rolled(draws) && map@ == #[trigger] scattered(draws),
        border_is_wall(map@),
        map@[index_of(40, 25)] == TileType::Floor,
{
    let mut map = vec![TileType::Floor; MAP_TILES];
    let mut x: i32 = 0;
    while x < MAP_WIDTH
        invariant
            0 <= x <= 80,
            map@.len() == 4000,
            forall|i: int|
                0 <= i < 4000 ==> map@[i] == (if (i / 80 == 0 || i / 80 == 49) && i % 80 < x {
                    TileType::Wall
                } else {
                    TileType::Floor
                }),
        decreases 80 - x,
    {
        map[xy_idx(x, 0)] = TileType::Wall;
        map[xy_idx(x, MAP_HEIGHT - 1)] = TileType::Wall;
        x += 1;
    }
    let mut y: i32 = 0;
    while y < MAP_HEIGHT
        invariant
            0 <= y <= 50,
            map@.len() == 4000,
            forall|i: int|
                0 <= i < 4000 ==> map@[i] == (if i / 80 == 0 || i / 80 == 49 || ((i % 80 == 0 || i
                    % 80 == 79) && i / 80 < y) {
                    TileType::Wall
                } else {
                    TileType::Floor
                }),
        decreases 50 - y,
    {
        map[xy_idx(0, y)] = TileType::Wall;
        map[xy_idx(MAP_WIDTH - 1, y)] = TileType::Wall;
        y += 1;
    }
    let mut rng = RandomNumberGenerator::new();
    let ghost mut draws: Seq<(int, int)> = Seq::empty();
    assert(map@ =~= scattered(draws));
    let mut i: i32 = 0;
    while i < 400
        invariant
            0 <= i <= 400,
            draws.len() == i,
            forall|k: int|
                0 <= k < draws.len() ==> 1 <= (#[trigger] draws[k]).0 <= 79 && 1 <= draws[k].1
                    <= 49,
            map@ == scattered(draws),
        decreases 400 - i,
    {
        let x: i32 = rng.roll_dice(1, 79);
        let y: i32 = rng.roll_dice(1, 49);
        proof {
            scatter_extends(draws, x as int, y as int);
            draws = draws.push((x as int, y as int));
        }
        scatter_wall(&mut map, x, y);
        i += 1;
    }
    proof {
        assert forall|x: int, y: int| in_bounds(x, y) && on_border(x, y) implies map@[#[trigger] index_of(
            x,
            y,
        )] == TileType::Wall by {
            let i = index_of(x, y);
            assert(i % 80 == x && i / 80 == y);
        }
    }
    map
}

/// One more wall on a scattered map gives the map scattered with one more
/// draw.
proof fn scatter_extends(draws: Seq<(int, int)>, x: int, y: int)
    requires
        in_bounds(x, y),
    ensures
        scattered(draws.push((x, y))) == (if x == 40 && y == 25 {
            scattered(draws)
        } else {
            scattered(draws).update(index_of(x, y), TileType::Wall)
        }),
{
    let more = draws.push((x, y));
    let n = draws.len() as int;
    let target = if x == 40 && y == 25 {
        scattered(draws)
    } else {
        scattered(draws).update(index_of(x, y), TileType::Wall)
    };
    assert forall|i: int| 0 <= i < 4000 implies scattered(more)[i] == target[i] by {
        if exists|k: int| draw_hits(draws, k, i) {
            let k = choose|k: int| draw_hits(draws, k, i);
            assert(draw_hits(more, k, i));
        }
        if i == index_of(x, y) {
            assert(draw_hits(more, n, i));
        }
        if exists|k: int| draw_hits(more, k, i) {
            let k = choose|k: int| draw_hits(more, k, i);
            if k < n {
                assert(draw_hits(draws, k, i));
            }
        }
    }
    assert(scattered(more) =~= target);
}

} // verus!
