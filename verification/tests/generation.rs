use dungeon::{generate, new_map_rooms_and_corridors, new_map_test, place_room, room_fits};
use dungeon::{scatter_wall, xy_idx, Rect, TileType, MAP_TILES, MAX_ROOMS, MAX_SIZE, MIN_SIZE};
use rltk::RandomNumberGenerator;

fn blank() -> Vec<TileType> {
    vec![TileType::Wall; MAP_TILES]
}

fn floors(map: &[TileType]) -> usize {
    map.iter().filter(|t| **t == TileType::Floor).count()
}

fn is_floor(map: &[TileType], x: i32, y: i32) -> bool {
    0 <= x && x < 80 && 0 <= y && y < 50 && map[xy_idx(x, y)] == TileType::Floor
}

/// Places the candidates in turn, dropping each that does not fit.
fn build(candidates: &[(Rect, bool)]) -> (Vec<Rect>, Vec<TileType>) {
    let mut rooms = Vec::new();
    let mut map = blank();
    for (room, horizontal_first) in candidates.iter() {
        if room_fits(&rooms, room) {
            place_room(&mut rooms, &mut map, *room, *horizontal_first);
        }
    }
    (rooms, map)
}

/// Marks every cell that can be reached from `(x, y)` over the floor, moving
/// across edges only.
fn flood(map: &[TileType], x: i32, y: i32) -> Vec<bool> {
    let mut reached = vec![false; MAP_TILES];
    let mut open = Vec::new();
    if is_floor(map, x, y) {
        reached[xy_idx(x, y)] = true;
        open.push((x, y));
    }
    while let Some((cx, cy)) = open.pop() {
        for (nx, ny) in [(cx - 1, cy), (cx + 1, cy), (cx, cy - 1), (cx, cy + 1)] {
            if is_floor(map, nx, ny) && !reached[xy_idx(nx, ny)] {
                reached[xy_idx(nx, ny)] = true;
                open.push((nx, ny));
            }
        }
    }
    reached
}

fn border_is_wall(map: &[TileType]) -> bool {
    (0..80).all(|x| !is_floor(map, x, 0) && !is_floor(map, x, 49))
        && (0..50).all(|y| !is_floor(map, 0, y) && !is_floor(map, 79, y))
}

fn on_leg(a: i32, b: i32, v: i32) -> bool {
    (a <= v && v <= b) || (b <= v && v <= a)
}

fn on_corridor(from: (i32, i32), to: (i32, i32), horizontal_first: bool, x: i32, y: i32) -> bool {
    if horizontal_first {
        (y == from.1 && on_leg(from.0, to.0, x)) || (x == to.0 && on_leg(from.1, to.1, y))
    } else {
        (x == from.0 && on_leg(from.1, to.1, y)) || (y == to.1 && on_leg(from.0, to.0, x))
    }
}

fn corridor_is_floor(map: &[TileType], from: (i32, i32), to: (i32, i32), first: bool) -> bool {
    (0..50).all(|y| (0..80).all(|x| !on_corridor(from, to, first, x, y) || is_floor(map, x, y)))
}

/// Checks everything that holds of a generated level, whatever was drawn.
fn check_level(rooms: &[Rect], map: &[TileType]) {
    assert_eq!(map.len(), MAP_TILES);
    assert!(1 <= rooms.len() && rooms.len() <= MAX_ROOMS as usize);
    for room in rooms.iter() {
        let w = room.x2 - room.x1;
        let h = room.y2 - room.y1;
        assert!(MIN_SIZE <= w && w < MAX_SIZE, "width {}", w);
        assert!(MIN_SIZE <= h && h < MAX_SIZE, "height {}", h);
        assert!(0 <= room.x1 && room.x2 <= 78);
        assert!(0 <= room.y1 && room.y2 <= 48);
        for y in room.y1 + 1..=room.y2 {
            for x in room.x1 + 1..=room.x2 {
                assert!(is_floor(map, x, y));
            }
        }
    }
    for i in 0..rooms.len() {
        for j in 0..rooms.len() {
            if i != j {
                assert!(!rooms[i].intersect(&rooms[j]), "rooms {} and {} meet", i, j);
            }
        }
    }
    assert!(border_is_wall(map));
    for k in 1..rooms.len() {
        let from = rooms[k - 1].center();
        let to = rooms[k].center();
        assert!(
            corridor_is_floor(map, from, to, true) || corridor_is_floor(map, from, to, false),
            "no corridor to room {}",
            k
        );
    }
    for y in 0..50 {
        for x in 0..80 {
            if is_floor(map, x, y) {
                let in_room = rooms.iter().any(|r| r.x1 < x && x <= r.x2 && r.y1 < y && y <= r.y2);
                let in_corridor = (1..rooms.len()).any(|k| {
                    let from = rooms[k - 1].center();
                    let to = rooms[k].center();
                    on_corridor(from, to, true, x, y) || on_corridor(from, to, false, x, y)
                });
                assert!(in_room || in_corridor, "stray floor at ({}, {})", x, y);
            }
        }
    }
    let (sx, sy) = rooms[0].center();
    let reached = flood(map, sx, sy);
    for room in rooms.iter() {
        let (cx, cy) = room.center();
        assert!(reached[xy_idx(cx, cy)]);
    }
    for idx in 0..MAP_TILES {
        assert_eq!(reached[idx], map[idx] == TileType::Floor);
    }
}

#[test]
fn room_fits_an_empty_level() {
    assert!(room_fits(&[], &Rect::new(5, 5, 6, 6)));
}

#[test]
fn room_fits_only_clear_of_every_room() {
    let rooms = [Rect::new(5, 5, 6, 6), Rect::new(30, 10, 8, 7)];
    assert!(room_fits(&rooms, &Rect::new(12, 5, 6, 6)));
    assert!(!room_fits(&rooms, &Rect::new(11, 5, 6, 6)));
    assert!(!room_fits(&rooms, &Rect::new(8, 8, 6, 6)));
    assert!(!room_fits(&rooms, &Rect::new(37, 17, 6, 6)));
    assert!(!room_fits(&rooms, &Rect::new(24, 4, 6, 6)));
    assert!(room_fits(&rooms, &Rect::new(39, 18, 6, 6)));
}

#[test]
fn first_room_gets_no_corridor() {
    let (rooms, map) = build(&[(Rect::new(5, 5, 6, 6), true)]);
    assert_eq!(rooms, vec![Rect::new(5, 5, 6, 6)]);
    assert_eq!(floors(&map), 36);
    assert!(is_floor(&map, 6, 6));
    assert!(is_floor(&map, 11, 11));
    assert!(!is_floor(&map, 5, 5));
    assert!(!is_floor(&map, 12, 11));
}

#[test]
fn corridor_with_the_horizontal_leg_first() {
    let (rooms, map) = build(&[(Rect::new(5, 5, 6, 6), false), (Rect::new(30, 20, 6, 6), true)]);
    assert_eq!(rooms.len(), 2);
    assert_eq!(rooms[0].center(), (8, 8));
    assert_eq!(rooms[1].center(), (33, 23));
    for x in 8..=33 {
        assert!(is_floor(&map, x, 8));
    }
    for y in 8..=23 {
        assert!(is_floor(&map, 33, y));
    }
    assert!(!is_floor(&map, 8, 12));
    assert!(!is_floor(&map, 8, 23));
    assert_eq!(floors(&map), 36 + 36 + 22 + 12);
}

#[test]
fn corridor_with_the_vertical_leg_first() {
    let (rooms, map) = build(&[(Rect::new(5, 5, 6, 6), true), (Rect::new(30, 20, 6, 6), false)]);
    assert_eq!(rooms.len(), 2);
    for y in 8..=23 {
        assert!(is_floor(&map, 8, y));
    }
    for x in 8..=33 {
        assert!(is_floor(&map, x, 23));
    }
    assert!(!is_floor(&map, 12, 8));
    assert!(!is_floor(&map, 33, 8));
    assert_eq!(floors(&map), 36 + 36 + 12 + 22);
}

#[test]
fn corridor_leads_back_to_an_earlier_column_and_row() {
    let (rooms, map) = build(&[(Rect::new(60, 30, 6, 6), true), (Rect::new(10, 5, 6, 6), true)]);
    assert_eq!(rooms.len(), 2);
    for x in 13..=63 {
        assert!(is_floor(&map, x, 33));
    }
    for y in 8..=33 {
        assert!(is_floor(&map, 13, y));
    }
    check_level(&rooms, &map);
}

#[test]
fn corridor_joins_the_room_placed_last_not_the_nearest() {
    let (rooms, map) = build(&[
        (Rect::new(5, 5, 6, 6), true),
        (Rect::new(60, 5, 6, 6), true),
        (Rect::new(5, 30, 6, 6), false),
    ]);
    assert_eq!(rooms.len(), 3);
    // from (63, 8) straight down, then along row 33 to (8, 33)
    for y in 8..=33 {
        assert!(is_floor(&map, 63, y));
    }
    for x in 8..=63 {
        assert!(is_floor(&map, x, 33));
    }
    // nothing leads down from the first room
    assert!(!is_floor(&map, 8, 20));
}

#[test]
fn fixed_sequence_gives_three_rooms() {
    let (rooms, map) = build(&[
        (Rect::new(5, 5, 6, 6), true),
        (Rect::new(30, 10, 8, 7), false),
        (Rect::new(8, 8, 6, 6), true),
        (Rect::new(37, 17, 6, 6), false),
        (Rect::new(60, 35, 9, 9), true),
    ]);
    assert_eq!(
        rooms,
        vec![Rect::new(5, 5, 6, 6), Rect::new(30, 10, 8, 7), Rect::new(60, 35, 9, 9)]
    );
    assert_eq!(map.len(), MAP_TILES);
    for x in 0..80 {
        assert_eq!(map[xy_idx(x, 0)], TileType::Wall);
        assert_eq!(map[xy_idx(x, 49)], TileType::Wall);
    }
    for y in 0..50 {
        assert_eq!(map[xy_idx(0, y)], TileType::Wall);
        assert_eq!(map[xy_idx(79, y)], TileType::Wall);
    }
    assert_eq!(floors(&map), 245);
    check_level(&rooms, &map);
}

#[test]
fn rejected_room_leaves_no_trace() {
    let accepted = [(Rect::new(5, 5, 6, 6), true), (Rect::new(30, 10, 8, 7), false)];
    let with_reject = [
        (Rect::new(5, 5, 6, 6), true),
        (Rect::new(11, 11, 9, 9), true),
        (Rect::new(30, 10, 8, 7), false),
    ];
    assert_eq!(build(&accepted), build(&with_reject));
}

#[test]
fn flood_from_first_room_reaches_second_room() {
    let (rooms, map) = build(&[(Rect::new(2, 2, 6, 6), true), (Rect::new(70, 40, 8, 8), false)]);
    let (sx, sy) = rooms[0].center();
    let (tx, ty) = rooms[1].center();
    let reached = flood(&map, sx, sy);
    assert!(reached[xy_idx(tx, ty)]);
    assert!(!reached[xy_idx(0, 0)]);
}

#[test]
fn seeded_levels_hold_every_promise() {
    for seed in 0..60 {
        let mut rng = RandomNumberGenerator::seeded(seed);
        let (rooms, map) = generate(&mut rng);
        check_level(&rooms, &map);
    }
}

#[test]
fn seeded_levels_keep_rooms_apart() {
    for seed in 100..130 {
        let mut rng = RandomNumberGenerator::seeded(seed);
        let (rooms, _) = generate(&mut rng);
        for i in 0..rooms.len() {
            for j in i + 1..rooms.len() {
                assert!(!rooms[i].intersect(&rooms[j]));
                assert!(!rooms[j].intersect(&rooms[i]));
            }
        }
    }
}

#[test]
fn seeded_levels_connect_first_and_second_room() {
    let mut levels_with_two = 0;
    for seed in 0..40 {
        let mut rng = RandomNumberGenerator::seeded(seed);
        let (rooms, map) = generate(&mut rng);
        if rooms.len() >= 2 {
            levels_with_two += 1;
            let (sx, sy) = rooms[0].center();
            let (tx, ty) = rooms[1].center();
            assert!(flood(&map, sx, sy)[xy_idx(tx, ty)]);
        }
    }
    assert!(levels_with_two > 0);
}

#[test]
fn same_seed_gives_the_same_level() {
    let mut first = RandomNumberGenerator::seeded(7);
    let mut second = RandomNumberGenerator::seeded(7);
    assert_eq!(generate(&mut first), generate(&mut second));
}

#[test]
fn seeded_levels_have_several_rooms_in_several_places() {
    let mut most = 0;
    let mut corners = Vec::new();
    for seed in 0..20 {
        let mut rng = RandomNumberGenerator::seeded(seed);
        let (rooms, _) = generate(&mut rng);
        most = most.max(rooms.len());
        for room in rooms.iter() {
            if !corners.contains(&(room.x1, room.y1)) {
                corners.push((room.x1, room.y1));
            }
        }
    }
    assert!(most >= 2);
    assert!(corners.len() >= 10);
    assert!(corners.iter().any(|c| c.0 > 40));
    assert!(corners.iter().any(|c| c.1 > 25));
}

#[test]
fn seeded_levels_draw_every_room_size() {
    let mut widths = [false; 4];
    let mut heights = [false; 4];
    for seed in 0..60 {
        let mut rng = RandomNumberGenerator::seeded(seed);
        let (rooms, _) = generate(&mut rng);
        for room in rooms.iter() {
            widths[(room.x2 - room.x1 - MIN_SIZE) as usize] = true;
            heights[(room.y2 - room.y1 - MIN_SIZE) as usize] = true;
        }
    }
    assert_eq!(widths, [true; 4]);
    assert_eq!(heights, [true; 4]);
}

#[test]
fn seeded_levels_turn_corridors_both_ways() {
    let mut horizontal_first = 0;
    let mut vertical_first = 0;
    for seed in 0..40 {
        let mut rng = RandomNumberGenerator::seeded(seed);
        let (rooms, map) = generate(&mut rng);
        for k in 1..rooms.len() {
            let from = rooms[k - 1].center();
            let to = rooms[k].center();
            let by_row = corridor_is_floor(&map, from, to, true);
            let by_column = corridor_is_floor(&map, from, to, false);
            if by_row && !by_column {
                horizontal_first += 1;
            }
            if by_column && !by_row {
                vertical_first += 1;
            }
        }
    }
    assert!(horizontal_first > 0);
    assert!(vertical_first > 0);
}

#[test]
fn fresh_level_holds_every_promise() {
    let (rooms, map) = new_map_rooms_and_corridors();
    check_level(&rooms, &map);
}

#[test]
fn scatter_wall_puts_one_wall() {
    let mut map = vec![TileType::Floor; MAP_TILES];
    scatter_wall(&mut map, 3, 2);
    assert_eq!(map[163], TileType::Wall);
    assert_eq!(floors(&map), MAP_TILES - 1);
    scatter_wall(&mut map, 3, 2);
    assert_eq!(floors(&map), MAP_TILES - 1);
}

#[test]
fn scatter_wall_spares_the_middle() {
    let mut map = vec![TileType::Floor; MAP_TILES];
    scatter_wall(&mut map, 40, 25);
    assert_eq!(map[xy_idx(40, 25)], TileType::Floor);
    assert_eq!(floors(&map), MAP_TILES);
}

#[test]
fn scattered_map_has_a_border_and_a_free_middle() {
    let map = new_map_test();
    assert_eq!(map.len(), MAP_TILES);
    assert!(border_is_wall(&map));
    assert_eq!(map[xy_idx(40, 25)], TileType::Floor);
    let inner_walls = (1..49)
        .map(|y| (1..79).filter(|x| map[xy_idx(*x, y)] == TileType::Wall).count())
        .sum::<usize>();
    assert!(inner_walls <= 400);
    assert!(inner_walls >= 100);
}
