//! Coordinate transforms between world positions, chunk indices, chunk
//! anchors and tile indices.
//!
//! Chunk index Y grows as world Y decreases: both transforms between world
//! space and chunk space negate the Y axis.
use vstd::prelude::*;
use vstd::arithmetic::div_mod::lemma_fundamental_div_mod_converse;
use crate::vec2::{IVec2, UVec2, WorldPos, is_i32, is_i64};

verus! {

/// The integer nearest to `n / d` (for `d > 0`), with halves rounded away
/// from zero.
pub open spec fn round_div(n: int, d: int) -> int
    recommends
        d > 0,
{
    if n >= 0 {
        (2 * n + d) / (2 * d)
    } else {
        -((-2 * n + d) / (2 * d))
    }
}

/// The world extent of one chunk along X, in world units.
pub open spec fn extent_x(chunk_size: UVec2, tile_size: UVec2) -> int {
    chunk_size.x * tile_size.x
}

/// The world extent of one chunk along Y, in world units.
pub open spec fn extent_y(chunk_size: UVec2, tile_size: UVec2) -> int {
    chunk_size.y * tile_size.y
}

/// The chunk index of the chunk that holds `position`.
pub open spec fn chunk_index_of(position: (int, int), chunk_size: UVec2, tile_size: UVec2) -> (int, int) {
    (
        round_div(position.0, extent_x(chunk_size, tile_size)),
        round_div(-position.1, extent_y(chunk_size, tile_size)),
    )
}

/// The world position of the anchor tile of the chunk at `index`.
///
/// The anchor lies `(size - 1) / 2` tiles (rounded down) before the chunk's
/// grid point, so even and odd chunk sizes are offset differently.
pub open spec fn chunk_center_of(chunk_size: UVec2, tile_size: UVec2, index: (int, int)) -> (int, int) {
    (
        -(tile_size.x * ((chunk_size.x - 1) / 2)) + index.0 * extent_x(chunk_size, tile_size),
        -(tile_size.y * ((chunk_size.y - 1) / 2)) + (-index.1) * extent_y(chunk_size, tile_size),
    )
}

/// The global tile index of the tile at `local` inside the chunk at `chunk_index`.
pub open spec fn global_tile_of(chunk_index: (int, int), chunk_size: UVec2, local: (int, int)) -> (int, int) {
    (
        local.0 - chunk_size.x / 2 + chunk_index.0 * chunk_size.x,
        -local.1 + chunk_size.y / 2 + chunk_index.1 * chunk_size.y,
    )
}

/// Both components fit in an `i32`.
pub open spec fn fits_i32(v: (int, int)) -> bool {
    is_i32(v.0) && is_i32(v.1)
}

/// Both components fit in an `i64`.
pub open spec fn fits_i64(v: (int, int)) -> bool {
    is_i64(v.0) && is_i64(v.1)
}

/// A chunk's world extent fits in an `i32` on both axes, so that the anchor
/// of every chunk with an `i32` index fits in an `i64`.
pub open spec fn extent_fits(chunk_size: UVec2, tile_size: UVec2) -> bool {
    extent_x(chunk_size, tile_size) <= i32::MAX && extent_y(chunk_size, tile_size) <= i32::MAX
}

fn round_div_i128(n: i128, d: i128) -> (r: i128)
    requires
        d > 0,
        d <= u64::MAX,
        -0x1_0000_0000_0000_0000 <= n <= 0x1_0000_0000_0000_0000,
    ensures
        r == round_div(n as int, d as int),
{
    if n >= 0 {
        (2 * n + d) / (2 * d)
    } else {
        let m: i128 = 0 - n;
        -((2 * m + d) / (2 * d))
    }
}

/// The world extent of a chunk along one axis, in world units.
pub(crate) fn extent(chunk_tiles: u32, tile_units: u32) -> (r: i128)
    requires
        chunk_tiles >= 1,
        tile_units >= 1,
    ensures
        r == chunk_tiles * tile_units,
        1 <= r <= u64::MAX,
{
    proof {
        assert(1 <= chunk_tiles * tile_units <= u32::MAX * u32::MAX) by (nonlinear_arith)
            requires 1 <= chunk_tiles <= u32::MAX, 1 <= tile_units <= u32::MAX;
    }
    (chunk_tiles as u64 * tile_units as u64) as i128
}

/// How far the anchor tile of a chunk lies before its grid point along one
/// axis, in world units.
fn anchor_offset(chunk_tiles: u32, tile_units: u32) -> (r: i128)
    requires
        chunk_tiles >= 1,
    ensures
        r == tile_units * ((chunk_tiles - 1) / 2),
        0 <= r <= u64::MAX,
{
    let half: u32 = (chunk_tiles - 1) / 2;
    proof {
        assert(0 <= tile_units * half <= u32::MAX * u32::MAX) by (nonlinear_arith)
            requires 0 <= tile_units <= u32::MAX, 0 <= half <= u32::MAX;
    }
    (tile_units as u64 * half as u64) as i128
}

/// The chunk index of `position`, in integers wide enough for every position.
pub(crate) fn chunk_index_wide(position: WorldPos, chunk_size: UVec2, tile_size: UVec2) -> (r: (i128, i128))
    requires
        chunk_size.is_positive(),
        tile_size.is_positive(),
    ensures
        (r.0 as int, r.1 as int) == chunk_index_of(position@, chunk_size, tile_size),
{
    let ex = extent(chunk_size.x, tile_size.x);
    let ey = extent(chunk_size.y, tile_size.y);
    let cx = round_div_i128(position.x as i128, ex);
    let cy = round_div_i128(-(position.y as i128), ey);
    (cx, cy)
}

/// The index of the chunk that holds `position`: the position divided by the
/// chunk's world extent and rounded to the nearest integer (halves away from
/// zero), with the Y axis negated.
pub fn get_chunk_at_position(position: WorldPos, chunk_size: UVec2, tile_size: UVec2) -> (r: IVec2)
    requires
        chunk_size.is_positive(),
        tile_size.is_positive(),
        fits_i32(chunk_index_of(position@, chunk_size, tile_size)),
    ensures
        r@ == chunk_index_of(position@, chunk_size, tile_size),
{
    let (cx, cy) = chunk_index_wide(position, chunk_size, tile_size);
    IVec2 { x: cx as i32, y: cy as i32 }
}

/// Where a chunk's world extent fits in an `i32`, the anchor of every chunk
/// with an `i32` index fits in an `i64`.
pub proof fn lemma_center_fits(chunk_size: UVec2, tile_size: UVec2, index: (int, int))
    requires
        chunk_size.is_positive(),
        tile_size.is_positive(),
        extent_fits(chunk_size, tile_size),
        fits_i32(index),
    ensures
        fits_i64(chunk_center_of(chunk_size, tile_size, index)),
{
    let ex = extent_x(chunk_size, tile_size);
    let ey = extent_y(chunk_size, tile_size);
    lemma_anchor_offset_under_half(chunk_size.x as int, tile_size.x as int);
    lemma_anchor_offset_under_half(chunk_size.y as int, tile_size.y as int);
    assert(1 <= ex) by (nonlinear_arith)
        requires chunk_size.x >= 1, tile_size.x >= 1, ex == chunk_size.x * tile_size.x;
    assert(1 <= ey) by (nonlinear_arith)
        requires chunk_size.y >= 1, tile_size.y >= 1, ey == chunk_size.y * tile_size.y;
    assert(-0x8000_0000 * ex <= index.0 * ex <= 0x8000_0000 * ex) by (nonlinear_arith)
        requires -0x8000_0000 <= index.0 <= 0x8000_0000, 1 <= ex;
    assert(-0x8000_0000 * ey <= (-index.1) * ey <= 0x8000_0000 * ey) by (nonlinear_arith)
        requires -0x8000_0000 <= -index.1 <= 0x8000_0000, 1 <= ey;
}

/// The anchor position of the chunk at `relative_position`: the tile offset
/// `-tile_size * ((chunk_size - 1) / 2)` plus the index times the chunk's world
/// extent, with the index's Y negated.
pub fn get_chunk_center(chunk_size: UVec2, tile_size: UVec2, relative_position: IVec2) -> (r: WorldPos)
    requires
        chunk_size.is_positive(),
        tile_size.is_positive(),
        fits_i64(chunk_center_of(chunk_size, tile_size, relative_position@)),
    ensures
        r@ == chunk_center_of(chunk_size, tile_size, relative_position@),
{
    let ex = extent(chunk_size.x, tile_size.x);
    let ey = extent(chunk_size.y, tile_size.y);
    let ox = anchor_offset(chunk_size.x, tile_size.x);
    let oy = anchor_offset(chunk_size.y, tile_size.y);
    let ix: i128 = relative_position.x as i128;
    let iy: i128 = relative_position.y as i128;
    proof {
        lemma_index_times_extent(ix as int, ex as int);
        lemma_index_times_extent(-iy, ey as int);
    }
    let x = -ox + ix * ex;
    let y = -oy + (-iy) * ey;
    WorldPos { x: x as i64, y: y as i64 }
}

proof fn lemma_index_times_extent(i: int, e: int)
    requires
        -0x8000_0000 <= i <= 0x8000_0000,
        1 <= e <= u64::MAX,
    ensures
        -0x1_0000_0000_0000_0000_0000_0000 <= i * e <= 0x1_0000_0000_0000_0000_0000_0000,
{
    assert(-0x8000_0000 * e <= i * e <= 0x8000_0000 * e) by (nonlinear_arith)
        requires -0x8000_0000 <= i <= 0x8000_0000, 1 <= e;
}

/// The global tile index of the tile at `local_tile_index` inside the chunk at
/// `chunk_index`: the local X minus half the chunk width (rounded down) plus the
/// chunk's first column, and on Y the local index negated, plus half the chunk
/// height, plus the chunk's first row.
pub fn local_tile_index_to_global(chunk_index: IVec2, chunk_size: UVec2, local_tile_index: IVec2) -> (r: IVec2)
    requires
        fits_i32(global_tile_of(chunk_index@, chunk_size, local_tile_index@)),
    ensures
        r@ == global_tile_of(chunk_index@, chunk_size, local_tile_index@),
{
    let cx: i128 = chunk_index.x as i128;
    let cy: i128 = chunk_index.y as i128;
    let sx: i128 = chunk_size.x as i128;
    let sy: i128 = chunk_size.y as i128;
    proof {
        lemma_index_times_extent(cx as int, sx as int + 1);
        lemma_index_times_extent(cy as int, sy as int + 1);
        assert(cx * sx == cx * (sx + 1) - cx) by (nonlinear_arith);
        assert(cy * sy == cy * (sy + 1) - cy) by (nonlinear_arith);
    }
    let x = local_tile_index.x as i128 - sx / 2 + cx * sx;
    let y = -(local_tile_index.y as i128) + sy / 2 + cy * sy;
    IVec2 { x: x as i32, y: y as i32 }
}

/// Twice the corner `rect_pos + rect_size / 2`, which keeps the containment
/// test in whole numbers.
pub open spec fn doubled_corner(rect_pos: (int, int), rect_size: (int, int)) -> (int, int) {
    (2 * rect_pos.0 + rect_size.0, 2 * rect_pos.1 + rect_size.1)
}

pub open spec fn abs(v: int) -> int {
    if v < 0 { -v } else { v }
}

/// The containment test `c.c / 2 >= c.|point + rect_pos|`, where `c` is the
/// corner `rect_pos + rect_size / 2` and `.` the dot product, multiplied
/// through by eight.
///
/// This is not the same as two separate per-axis bounds: the test compares
/// dot products with the corner, so it accepts a diamond-like region.
pub open spec fn point_in_rect(rect_pos: (int, int), rect_size: (int, int), point: (int, int)) -> bool {
    let m = doubled_corner(rect_pos, rect_size);
    m.0 * m.0 + m.1 * m.1 >= 4 * (m.0 * abs(point.0 + rect_pos.0) + m.1 * abs(point.1 + rect_pos.1))
}

/// Both coordinates lie in the range of an `i32`.
pub open spec fn within_i32(p: WorldPos) -> bool {
    is_i32(p.x as int) && is_i32(p.y as int)
}

/// The containment test of `point_in_rect`.
pub fn is_point_in_rect(rect_pos: WorldPos, rect_size: WorldPos, point: WorldPos) -> (r: bool)
    requires
        within_i32(rect_pos),
        within_i32(rect_size),
        within_i32(point),
    ensures
        r == point_in_rect(rect_pos@, rect_size@, point@),
{
    let mx: i128 = 2 * rect_pos.x as i128 + rect_size.x as i128;
    let my: i128 = 2 * rect_pos.y as i128 + rect_size.y as i128;
    let sx: i128 = point.x as i128 + rect_pos.x as i128;
    let sy: i128 = point.y as i128 + rect_pos.y as i128;
    let ax: i128 = if sx < 0 { -sx } else { sx };
    let ay: i128 = if sy < 0 { -sy } else { sy };
    proof {
        lemma_small_product(mx as int, mx as int);
        lemma_small_product(my as int, my as int);
        lemma_small_product(mx as int, ax as int);
        lemma_small_product(my as int, ay as int);
    }
    mx * mx + my * my >= 4 * (mx * ax + my * ay)
}

proof fn lemma_small_product(a: int, b: int)
    requires
        -0x4_0000_0000 <= a <= 0x4_0000_0000,
        -0x4_0000_0000 <= b <= 0x4_0000_0000,
    ensures
        -0x10_0000_0000_0000_0000 <= a * b <= 0x10_0000_0000_0000_0000,
{
    assert(-0x10_0000_0000_0000_0000 <= a * b <= 0x10_0000_0000_0000_0000) by (nonlinear_arith)
        requires -0x4_0000_0000 <= a <= 0x4_0000_0000, -0x4_0000_0000 <= b <= 0x4_0000_0000;
}

/// Rounding `q * d + r` or `q * d - r` to the nearest multiple of `d` gives
/// back `q` when `r` is under half of `d`.
pub proof fn lemma_round_div_near(q: int, d: int, r: int)
    requires
        d > 0,
        0 <= r,
        2 * r < d,
    ensures
        round_div(q * d + r, d) == q,
        round_div(q * d - r, d) == q,
{
    let n1 = q * d + r;
    if n1 >= 0 {
        assert(2 * n1 + d == q * (2 * d) + (2 * r + d)) by (nonlinear_arith)
            requires n1 == q * d + r;
        lemma_fundamental_div_mod_converse(2 * n1 + d, 2 * d, q, 2 * r + d);
    } else {
        assert(-2 * n1 + d == (-q) * (2 * d) + (d - 2 * r)) by (nonlinear_arith)
            requires n1 == q * d + r;
        lemma_fundamental_div_mod_converse(-2 * n1 + d, 2 * d, -q, d - 2 * r);
    }
    let n2 = q * d - r;
    if n2 >= 0 {
        assert(2 * n2 + d == q * (2 * d) + (d - 2 * r)) by (nonlinear_arith)
            requires n2 == q * d - r;
        lemma_fundamental_div_mod_converse(2 * n2 + d, 2 * d, q, d - 2 * r);
    } else {
        assert(-2 * n2 + d == (-q) * (2 * d) + (2 * r + d)) by (nonlinear_arith)
            requires n2 == q * d - r;
        lemma_fundamental_div_mod_converse(-2 * n2 + d, 2 * d, -q, 2 * r + d);
    }
}

/// Round trip: for every chunk size of at least one tile, every positive tile
/// size and every chunk index, the chunk that holds a chunk's anchor position
/// is that chunk.
pub proof fn lemma_chunk_round_trip(chunk_size: UVec2, tile_size: UVec2, index: (int, int))
    requires
        chunk_size.is_positive(),
        tile_size.is_positive(),
    ensures
        chunk_index_of(chunk_center_of(chunk_size, tile_size, index), chunk_size, tile_size) == index,
{
    let ex = extent_x(chunk_size, tile_size);
    let ey = extent_y(chunk_size, tile_size);
    let ox = tile_size.x * ((chunk_size.x - 1) / 2);
    let oy = tile_size.y * ((chunk_size.y - 1) / 2);
    lemma_anchor_offset_under_half(chunk_size.x as int, tile_size.x as int);
    lemma_anchor_offset_under_half(chunk_size.y as int, tile_size.y as int);
    lemma_round_div_near(index.0, ex, ox);
    lemma_round_div_near(index.1, ey, oy);
    let c = chunk_center_of(chunk_size, tile_size, index);
    assert(c.0 == index.0 * ex - ox);
    assert(-c.1 == index.1 * ey + oy) by (nonlinear_arith)
        requires c.1 == -oy + (-index.1) * ey;
}

proof fn lemma_anchor_offset_under_half(s: int, t: int)
    requires
        s >= 1,
        t >= 1,
    ensures
        0 <= t * ((s - 1) / 2),
        2 * (t * ((s - 1) / 2)) < s * t,
{
    let h = (s - 1) / 2;
    assert(0 <= h && 2 * h <= s - 1);
    assert(0 <= t * h && 2 * (t * h) < s * t) by (nonlinear_arith)
        requires 0 <= h, 2 * h <= s - 1, t >= 1;
}

} // verus!
