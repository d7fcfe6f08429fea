use chunked_tilemap::chunks::{get_chunk_at_position, get_chunk_center, is_point_in_rect, local_tile_index_to_global};
use chunked_tilemap::{IVec2, UVec2, WorldPos};

fn chunk_at(x: i64, y: i64) -> IVec2 {
    get_chunk_at_position(WorldPos::new(x, y), UVec2::new(10, 10), UVec2::new(32, 32))
}

#[test]
fn get_chunk_at_position_origin() {
    assert_eq!(chunk_at(0, 0), IVec2::new(0, 0));
}

#[test]
fn get_chunk_at_position_near_origin() {
    assert_eq!(chunk_at(10, 10), IVec2::new(0, 0));
}

#[test]
fn get_chunk_at_position_one_chunk_right() {
    assert_eq!(chunk_at(320, 0), IVec2::new(1, 0));
}

#[test]
fn get_chunk_at_position_one_chunk_left() {
    assert_eq!(chunk_at(-320, 0), IVec2::new(-1, 0));
}

#[test]
fn get_chunk_at_position_flips_y() {
    assert_eq!(chunk_at(0, 320), IVec2::new(0, -1));
    assert_eq!(chunk_at(0, -640), IVec2::new(0, 2));
}

#[test]
fn get_chunk_at_position_rounds_halves_away_from_zero() {
    assert_eq!(chunk_at(160, 0), IVec2::new(1, 0));
    assert_eq!(chunk_at(159, 0), IVec2::new(0, 0));
    assert_eq!(chunk_at(-160, 0), IVec2::new(-1, 0));
    assert_eq!(chunk_at(-159, 0), IVec2::new(0, 0));
    assert_eq!(chunk_at(0, 160), IVec2::new(0, -1));
    assert_eq!(chunk_at(0, -160), IVec2::new(0, 1));
}

#[test]
fn get_chunk_center_odd_and_even_sizes() {
    let t = UVec2::new(32, 32);
    assert_eq!(get_chunk_center(UVec2::new(1, 1), t, IVec2::new(0, 0)), WorldPos::new(0, 0));
    assert_eq!(get_chunk_center(UVec2::new(2, 2), t, IVec2::new(0, 0)), WorldPos::new(0, 0));
    assert_eq!(get_chunk_center(UVec2::new(3, 3), t, IVec2::new(0, 0)), WorldPos::new(-32, -32));
    assert_eq!(get_chunk_center(UVec2::new(4, 4), t, IVec2::new(0, 0)), WorldPos::new(-32, -32));
    assert_eq!(get_chunk_center(UVec2::new(5, 5), t, IVec2::new(0, 0)), WorldPos::new(-64, -64));
}

#[test]
fn get_chunk_center_flips_y() {
    let c = get_chunk_center(UVec2::new(5, 5), UVec2::new(32, 32), IVec2::new(1, 1));
    assert_eq!(c, WorldPos::new(96, -224));
    let c = get_chunk_center(UVec2::new(1, 1), UVec2::new(32, 32), IVec2::new(-1, 0));
    assert_eq!(c, WorldPos::new(-32, 0));
}

#[test]
fn chunk_center_round_trip() {
    for size in 1..7u32 {
        for tile in [1u32, 3, 32] {
            for x in -3..4 {
                for y in -3..4 {
                    let s = UVec2::new(size, size + 1);
                    let t = UVec2::new(tile, tile + 2);
                    let i = IVec2::new(x, y);
                    let c = get_chunk_center(s, t, i);
                    assert_eq!(get_chunk_at_position(c, s, t), i);
                }
            }
        }
    }
}

const CHUNK_SIZE: UVec2 = UVec2 { x: 5, y: 5 };

fn global(chunk: (i32, i32), tile: (i32, i32)) -> IVec2 {
    local_tile_index_to_global(IVec2::new(chunk.0, chunk.1), CHUNK_SIZE, IVec2::new(tile.0, tile.1))
}

#[test]
fn local_tile_index_to_global_first_tile() {
    assert_eq!(global((0, 0), (0, 0)), IVec2::new(-2, 2));
}

#[test]
fn local_tile_index_to_global_middle_tile() {
    assert_eq!(global((0, 0), (2, 2)), IVec2::new(0, 0));
}

#[test]
fn local_tile_index_to_global_last_tile() {
    assert_eq!(global((0, 0), (4, 4)), IVec2::new(2, -2));
}

#[test]
fn local_tile_index_to_global_next_chunk_first_tile() {
    assert_eq!(global((1, 0), (0, 0)), IVec2::new(3, 2));
}

#[test]
fn local_tile_index_to_global_next_chunk_middle_tile() {
    assert_eq!(global((1, 0), (2, 2)), IVec2::new(5, 0));
}

#[test]
fn local_tile_index_to_global_next_chunk_last_tile() {
    assert_eq!(global((1, 0), (4, 4)), IVec2::new(7, -2));
}

fn in_rect(rect: (i64, i64), size: (i64, i64), point: (i64, i64)) -> bool {
    is_point_in_rect(WorldPos::new(rect.0, rect.1), WorldPos::new(size.0, size.1), WorldPos::new(point.0, point.1))
}

#[test]
fn is_point_in_rect_on_right_edge() {
    assert!(in_rect((0, 0), (10, 10), (5, 0)));
}

#[test]
fn is_point_in_rect_left_outside() {
    assert!(!in_rect((0, 0), (10, 10), (-6, 5)));
}

#[test]
fn is_point_in_rect_on_left_edge() {
    assert!(in_rect((0, 0), (10, 10), (-5, 0)));
}

#[test]
fn is_point_in_rect_diagonal_outside() {
    assert!(!in_rect((0, 0), (10, 10), (7, 7)));
}

#[test]
fn is_point_in_rect_far_right() {
    assert!(!in_rect((0, 0), (10, 10), (50, 5)));
}

#[test]
fn is_point_in_rect_far_left() {
    assert!(!in_rect((0, 0), (10, 10), (-50, 5)));
}

#[test]
fn is_point_in_rect_far_up() {
    assert!(!in_rect((0, 0), (10, 10), (5, 50)));
}

#[test]
fn is_point_in_rect_shifted_inside() {
    assert!(in_rect((-1, -1), (10, 10), (3, 3)));
}

#[test]
fn is_point_in_rect_shifted_outside() {
    assert!(!in_rect((-1, -1), (10, 10), (5, 0)));
}

#[test]
fn is_point_in_rect_shifted_far_left() {
    assert!(!in_rect((-1, -1), (10, 10), (-50, 1)));
}

#[test]
fn is_point_in_rect_is_not_a_box_test() {
    // (4, 4) lies inside the 10 x 10 box around the origin, but the dot
    // product test refuses it.
    assert!(!in_rect((0, 0), (10, 10), (4, 4)));
}
