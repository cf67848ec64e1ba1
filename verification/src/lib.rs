//! Levels for a tile-based dungeon crawler: rooms joined by corridors on a
//! grid of 80 by 50 cells, and movement that respects the walls.

pub mod dice;
pub mod generator;
pub mod glyph;
pub mod layout;
pub mod map;
pub mod player;
pub mod reach;
pub mod rect;

pub use crate::generator::{
    generate, new_map_rooms_and_corridors, new_map_test, place_room, room_fits, scatter_wall,
    MAX_ROOMS, MAX_SIZE, MIN_SIZE,
};
pub use crate::map::{
    apply_horizontal_tunnel, apply_room_to_map, apply_vertical_tunnel, checked_xy_idx, draw_map,
    idx_xy, lay_out, tile_at, within_map, xy_idx, MapCell, MapError, TileType, MAP_HEIGHT,
    MAP_TILES, MAP_WIDTH,
};
pub use crate::player::{clamp_to_map, spawn_point, try_move, Position};
pub use crate::rect::Rect;
