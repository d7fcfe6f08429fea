use chunked_tilemap::despawn_outrange::despawn_outrange_chunks;
use chunked_tilemap::fill_chunk::{fill_chunk, FillChunkEvent};
use chunked_tilemap::spawn_around::{prepare_event, spawn_chunks_around_current};
use chunked_tilemap::spawn_chunk::{spawn_chunk, spawn_chunks_around, PrepareChunkEvent, SpawnChunkEvent};
use chunked_tilemap::{
    AppConfig, ChunkedTilemap, ChunkedTilemapPlugin, ConfigError, IVec2, UVec2, WorldPos,
};

const CHUNK_SIZE: u32 = 5;
const TILE_SIZE: u32 = 32;

fn tilemap(range: i32) -> ChunkedTilemap {
    ChunkedTilemap::new(
        UVec2::new(CHUNK_SIZE, CHUNK_SIZE),
        UVec2::new(TILE_SIZE, TILE_SIZE),
        range,
        WorldPos::new(0, 0),
    )
    .unwrap()
}

fn resident(t: &ChunkedTilemap) -> Vec<(i32, i32)> {
    let mut v: Vec<(i32, i32)> = t.chunks().iter().map(|c| (c.index.x, c.index.y)).collect();
    v.sort();
    v
}

fn square(cx: i32, cy: i32, r: i32) -> Vec<(i32, i32)> {
    let mut v = vec![];
    for x in cx - r..=cx + r {
        for y in cy - r..=cy + r {
            v.push((x, y));
        }
    }
    v.sort();
    v
}

#[test]
fn test_despawn_outrange_chunks_system() {
    let mut t = tilemap(1);
    let plugin = ChunkedTilemapPlugin;
    plugin.update(&mut t, 0);
    let c_chunks = t.chunks().len();
    println!("center {:#?}, c_chunks: {c_chunks}, chunk indexes: {:?}", t.center(), resident(&t));
    assert_eq!(c_chunks, 9);
}

#[test]
fn test_chunks_spawned_on_start() {
    let mut t = tilemap(1);
    let plugin = ChunkedTilemapPlugin;
    for _ in 0..9 {
        plugin.update(&mut t, 0);
    }
    let c_chunks = t.chunks().len();
    assert_eq!(c_chunks, 9);
}

#[test]
fn should_emit_events() {
    let mut t = tilemap(1);
    t.materialize(IVec2::new(-1, -1));
    t.materialize(IVec2::new(-100, -100));
    let events = spawn_chunks_around_current(&t, 0);
    assert_eq!(events.len(), 8);
}

#[test]
fn new_rejects_malformed_configuration() {
    let c = WorldPos::new(0, 0);
    let e = ChunkedTilemap::new(UVec2::new(0, 5), UVec2::new(32, 32), 1, c).err();
    assert_eq!(e, Some(ConfigError::EmptyChunkSize));
    let e = ChunkedTilemap::new(UVec2::new(5, 5), UVec2::new(32, 0), 1, c).err();
    assert_eq!(e, Some(ConfigError::EmptyTileSize));
    let e = ChunkedTilemap::new(UVec2::new(5, 5), UVec2::new(32, 32), -1, c).err();
    assert_eq!(e, Some(ConfigError::NegativeRange));
    let e = ChunkedTilemap::new(UVec2::new(1 << 16, 5), UVec2::new(1 << 16, 32), 1, c).err();
    assert_eq!(e, Some(ConfigError::ChunkTooLarge));
    let far = WorldPos::new(i64::MAX, 0);
    let e = ChunkedTilemap::new(UVec2::new(1, 1), UVec2::new(1, 1), 1, far).err();
    assert_eq!(e, Some(ConfigError::CenterOutOfBounds));
    // The chunk index i32::MAX is fine with radius 0, not with radius 1.
    let edge = WorldPos::new(i32::MAX as i64, 0);
    assert!(ChunkedTilemap::new(UVec2::new(1, 1), UVec2::new(1, 1), 0, edge).is_ok());
    let e = ChunkedTilemap::new(UVec2::new(1, 1), UVec2::new(1, 1), 1, edge).err();
    assert_eq!(e, Some(ConfigError::CenterOutOfBounds));
}

#[test]
fn new_tilemap_starts_empty_at_center_chunk() {
    let t = ChunkedTilemap::new(UVec2::new(10, 10), UVec2::new(32, 32), 2, WorldPos::new(320, 0)).unwrap();
    assert_eq!(t.current_chunk(), IVec2::new(1, 0));
    assert_eq!(t.chunk_count(), 0);
    assert_eq!(t.range(), 2);
    assert_eq!(t.chunk_size(), UVec2::new(10, 10));
    assert_eq!(t.tile_size(), UVec2::new(32, 32));
    assert_eq!(t.center(), WorldPos::new(320, 0));
}

#[test]
fn app_config_builds_square_layers() {
    let config = AppConfig { tile_size: 32, chunk_size: 5 };
    let t = config.tilemap(1, WorldPos::new(0, 0)).unwrap();
    assert_eq!(t.chunk_size(), UVec2::new(5, 5));
    assert_eq!(t.tile_size(), UVec2::new(32, 32));
    let bad = AppConfig { tile_size: 32, chunk_size: -5 };
    assert_eq!(bad.tilemap(1, WorldPos::new(0, 0)).err(), Some(ConfigError::EmptyChunkSize));
    let bad = AppConfig { tile_size: 0, chunk_size: 5 };
    assert_eq!(bad.tilemap(1, WorldPos::new(0, 0)).err(), Some(ConfigError::EmptyTileSize));
    let bad = AppConfig { tile_size: 32, chunk_size: 5 };
    assert_eq!(bad.tilemap(-2, WorldPos::new(0, 0)).err(), Some(ConfigError::NegativeRange));
}

#[test]
fn tracker_follows_center() {
    let mut t = tilemap(1);
    assert!(!t.update_current_chunk());
    t.set_center(WorldPos::new(160, -400)).unwrap();
    assert_eq!(t.current_chunk(), IVec2::new(0, 0));
    assert!(t.update_current_chunk());
    assert_eq!(t.current_chunk(), IVec2::new(1, 3));
    assert!(!t.update_current_chunk());
}

#[test]
fn set_center_refuses_unrepresentable_neighbourhood() {
    let mut t = ChunkedTilemap::new(UVec2::new(1, 1), UVec2::new(1, 1), 1, WorldPos::new(0, 0)).unwrap();
    // World Y is negated: y = i32::MIN + 2 lies in chunk row i32::MAX - 1.
    assert_eq!(t.set_center(WorldPos::new(0, i32::MIN as i64 + 2)), Ok(()));
    assert_eq!(t.set_center(WorldPos::new(0, i32::MIN as i64 + 1)), Err(ConfigError::CenterOutOfBounds));
    assert_eq!(t.set_center(WorldPos::new(0, i32::MIN as i64)), Err(ConfigError::CenterOutOfBounds));
    assert_eq!(t.center(), WorldPos::new(0, i32::MIN as i64 + 2));
}

#[test]
fn set_range_validates() {
    let mut t = tilemap(1);
    assert_eq!(t.set_range(-1), Err(ConfigError::NegativeRange));
    assert_eq!(t.set_range(3), Ok(()));
    assert_eq!(t.range(), 3);
    assert_eq!(t.set_range(i32::MAX), Ok(()));
    let edge = WorldPos::new(i32::MAX as i64 - 5, 0);
    let mut t = ChunkedTilemap::new(UVec2::new(1, 1), UVec2::new(1, 1), 1, edge).unwrap();
    assert_eq!(t.set_range(5), Ok(()));
    assert_eq!(t.set_range(6), Err(ConfigError::CenterOutOfBounds));
    assert_eq!(t.range(), 5);
}

#[test]
fn prepare_event_only_for_missing_chunks() {
    let mut t = tilemap(1);
    let i = IVec2::new(10, 12);
    assert_eq!(prepare_event(&t, i, 7), Some(SpawnChunkEvent { tilemap_entity: 7, chunk_index: i }));
    t.materialize(i);
    assert_eq!(prepare_event(&t, i, 7), None);
}

#[test]
fn spawn_requests_follow_enumeration_order() {
    let mut t = tilemap(1);
    t.materialize(IVec2::new(0, 1));
    let events = spawn_chunks_around_current(&t, 3);
    let got: Vec<(i32, i32)> = events.iter().map(|e| (e.chunk_index.x, e.chunk_index.y)).collect();
    assert_eq!(got, vec![(-1, 1), (1, 1), (-1, 0), (0, 0), (1, 0), (-1, -1), (0, -1), (1, -1)]);
    assert!(events.iter().all(|e| e.tilemap_entity == 3));
}

#[test]
fn materialize_registers_once() {
    let mut t = tilemap(1);
    assert_eq!(t.materialize(IVec2::new(2, -3)), Some(0));
    assert_eq!(t.materialize(IVec2::new(2, -3)), None);
    assert_eq!(t.materialize(IVec2::new(4, 4)), Some(1));
    assert_eq!(t.chunk_count(), 2);
    assert!(t.contains_chunk(IVec2::new(2, -3)));
    let c = &t.chunks()[0];
    assert_eq!(c.position, WorldPos::new(256, 416));
    assert!(c.tiles.is_empty());
}

#[test]
fn spawn_chunk_event_handling() {
    let mut tilemaps = vec![tilemap(1), tilemap(2)];
    let e = SpawnChunkEvent { tilemap_entity: 1, chunk_index: IVec2::new(3, 3) };
    assert_eq!(
        spawn_chunk(&mut tilemaps, &e),
        Some(PrepareChunkEvent { tilemap_entity: 1, chunk_index: IVec2::new(3, 3), chunk_entity: 0 })
    );
    // A duplicate request is ignored.
    assert_eq!(spawn_chunk(&mut tilemaps, &e), None);
    // A request for a missing tilemap is skipped.
    let missing = SpawnChunkEvent { tilemap_entity: 5, chunk_index: IVec2::new(3, 3) };
    assert_eq!(spawn_chunk(&mut tilemaps, &missing), None);
    assert_eq!(tilemaps[0].chunk_count(), 0);
    assert_eq!(tilemaps[1].chunk_count(), 1);
}

#[test]
fn spawn_stage_twice_requests_nothing_more() {
    for r in 0..4 {
        let mut t = tilemap(r);
        let first = spawn_chunks_around(&mut t, 0);
        let n = (2 * r + 1) as usize;
        assert_eq!(first.len(), n * n);
        assert_eq!(spawn_chunks_around_current(&t, 0).len(), 0);
        let second = spawn_chunks_around(&mut t, 0);
        assert!(second.is_empty());
        assert_eq!(t.chunk_count(), n * n);
    }
}

#[test]
fn spawn_stage_entities_are_consecutive() {
    let mut t = tilemap(1);
    let first = spawn_chunks_around(&mut t, 4);
    let ids: Vec<u64> = first.iter().map(|e| e.chunk_entity).collect();
    assert_eq!(ids, (0..9).collect::<Vec<u64>>());
    assert_eq!(first[0].chunk_index, IVec2::new(-1, 1));
    assert_eq!(first[8].chunk_index, IVec2::new(1, -1));
}

#[test]
fn despawn_keeps_diagonal_at_range() {
    let mut t = tilemap(2);
    for (x, y) in [(2, 2), (-2, 2), (2, -2), (-2, -2), (3, 0), (0, 3), (-3, 0), (0, -3), (1, 1)] {
        t.materialize(IVec2::new(x, y));
    }
    let released = despawn_outrange_chunks(&mut t, 9);
    let gone: Vec<(i32, i32)> = released.iter().map(|e| (e.chunk_index.x, e.chunk_index.y)).collect();
    assert_eq!(gone, vec![(3, 0), (0, 3), (-3, 0), (0, -3)]);
    let ids: Vec<u64> = released.iter().map(|e| e.chunk_entity).collect();
    assert_eq!(ids, vec![4, 5, 6, 7]);
    assert!(released.iter().all(|e| e.tilemap_entity == 9));
    assert_eq!(resident(&t), vec![(-2, -2), (-2, 2), (1, 1), (2, -2), (2, 2)]);
    assert!(!t.contains_chunk(IVec2::new(3, 0)));
}

#[test]
fn despawn_of_nothing_is_noop() {
    let mut t = tilemap(1);
    assert!(despawn_outrange_chunks(&mut t, 0).is_empty());
    assert_eq!(t.chunk_count(), 0);
}

#[test]
fn fill_applies_matching_grid_only() {
    let mut tilemaps = vec![tilemap(1)];
    let e = spawn_chunk(&mut tilemaps, &SpawnChunkEvent { tilemap_entity: 0, chunk_index: IVec2::new(0, 0) }).unwrap();
    let grid: Vec<Option<u32>> = (0..25).map(|i| if i % 2 == 0 { Some(i) } else { None }).collect();
    let wrong = FillChunkEvent { tilemap_entity: 0, chunk_index: e.chunk_index, chunk_entity: e.chunk_entity, tiles: vec![Some(1); 10] };
    assert!(!fill_chunk(&mut tilemaps, wrong));
    assert!(tilemaps[0].chunks()[0].tiles.is_empty());
    let unknown = FillChunkEvent { tilemap_entity: 0, chunk_index: e.chunk_index, chunk_entity: 99, tiles: grid.clone() };
    assert!(!fill_chunk(&mut tilemaps, unknown));
    let missing = FillChunkEvent { tilemap_entity: 3, chunk_index: e.chunk_index, chunk_entity: e.chunk_entity, tiles: grid.clone() };
    assert!(!fill_chunk(&mut tilemaps, missing));
    let good = FillChunkEvent { tilemap_entity: 0, chunk_index: e.chunk_index, chunk_entity: e.chunk_entity, tiles: grid.clone() };
    assert!(fill_chunk(&mut tilemaps, good));
    assert_eq!(tilemaps[0].chunks()[0].tiles, grid);
}

#[test]
fn cycle_reports_changes() {
    let mut t = tilemap(1);
    let plugin = ChunkedTilemapPlugin;
    let first = plugin.update(&mut t, 0);
    assert!(!first.changed);
    assert_eq!(first.prepared.len(), 9);
    assert!(first.released.is_empty());
    let again = plugin.update(&mut t, 0);
    assert!(again.prepared.is_empty() && again.released.is_empty());
    // One chunk to the right: a column leaves, a column enters.
    t.set_center(WorldPos::new(160, 0)).unwrap();
    let step = plugin.update(&mut t, 0);
    assert!(step.changed);
    assert_eq!(t.current_chunk(), IVec2::new(1, 0));
    let entered: Vec<(i32, i32)> = step.prepared.iter().map(|e| (e.chunk_index.x, e.chunk_index.y)).collect();
    assert_eq!(entered, vec![(2, 1), (2, 0), (2, -1)]);
    let mut left: Vec<(i32, i32)> = step.released.iter().map(|e| (e.chunk_index.x, e.chunk_index.y)).collect();
    left.sort();
    assert_eq!(left, vec![(-1, -1), (-1, 0), (-1, 1)]);
    assert_eq!(resident(&t), square(1, 0, 1));
}

#[test]
fn end_to_end_far_move_replaces_window() {
    let mut t = tilemap(1);
    let plugin = ChunkedTilemapPlugin;
    plugin.update(&mut t, 0);
    assert_eq!(t.chunk_count(), 9);
    assert_eq!(resident(&t), square(0, 0, 1));
    // Three chunks to the right: further than range + 1.
    t.set_center(WorldPos::new(3 * 160, 0)).unwrap();
    let cycle = plugin.update(&mut t, 0);
    assert_eq!(t.current_chunk(), IVec2::new(3, 0));
    assert_eq!(cycle.released.len(), 9);
    assert_eq!(cycle.prepared.len(), 9);
    assert_eq!(t.chunk_count(), 9);
    assert_eq!(resident(&t), square(3, 0, 1));
}

#[test]
fn update_all_runs_every_layer() {
    let mut tilemaps = vec![tilemap(0), tilemap(1), tilemap(2)];
    let plugin = ChunkedTilemapPlugin;
    let reports = plugin.update_all(&mut tilemaps);
    assert_eq!(reports.len(), 3);
    for (t, report) in reports.iter().enumerate() {
        let n = 2 * t + 1;
        assert_eq!(report.prepared.len(), n * n);
        assert!(report.prepared.iter().all(|e| e.tilemap_entity == t));
        assert_eq!(tilemaps[t].chunk_count(), n * n);
    }
    let again = plugin.update_all(&mut tilemaps);
    assert!(again.iter().all(|r| r.prepared.is_empty() && r.released.is_empty()));
}
