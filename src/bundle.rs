//! A chunked tilemap: its configuration, its current chunk, and the registry
//! of its resident chunks.
use vstd::prelude::*;
use crate::vec2::{IVec2, UVec2, WorldPos};
use crate::chunks::{
    abs, chunk_center_of, chunk_index_of, chunk_index_wide, extent, extent_fits, fits_i32,
    get_chunk_at_position, get_chunk_center, lemma_center_fits,
};
use crate::spawn_around::{chunks_around, generate_chunk_indexes, square_fits_i32, views};
use crate::seq_facts::{lemma_contains_push, lemma_filter_take_step, lemma_filter_take_zero};
use crate::chunk_set::{ChunkSet, chunk_set_contents};

verus! {

/// Why a tilemap configuration was refused.
#[derive(Clone, Copy, Debug, PartialEq, Eq, Structural)]
pub enum ConfigError {
    /// A chunk must hold at least one tile on each axis.
    EmptyChunkSize,
    /// A tile must be at least one world unit wide and high.
    EmptyTileSize,
    /// The radius of the resident neighbourhood cannot be negative.
    NegativeRange,
    /// A chunk's world extent must fit in an `i32` on each axis.
    ChunkTooLarge,
    /// The neighbourhood of the chunk under the center must have `i32` indices.
    CenterOutOfBounds,
}

/// One resident chunk of a tilemap.
#[derive(Debug)]
pub struct TilemapChunk {
    /// The chunk index, fixed when the chunk is spawned.
    pub index: IVec2,
    /// The chunk's identity, unique within its tilemap.
    pub entity: u64,
    /// The world position of the chunk's anchor tile.
    pub position: WorldPos,
    /// The tile slots, row by row, each holding a texture index or nothing;
    /// empty until the chunk is filled.
    pub tiles: Vec<Option<u32>>,
}

/// What a tilemap stands for: its configuration and its chunks.
pub struct TilemapModel {
    pub chunk_size: UVec2,
    pub tile_size: UVec2,
    pub range: int,
    pub center: (int, int),
    pub current_chunk: (int, int),
    /// The indices of the resident chunks.
    pub resident: Set<(int, int)>,
    /// The resident chunks, oldest first.
    pub children: Seq<TilemapChunk>,
    /// The identity that the next spawned chunk gets.
    pub next_entity: int,
}

/// The indices of a sequence of chunks.
pub open spec fn child_indices(children: Seq<TilemapChunk>) -> Seq<(int, int)> {
    children.map_values(|c: TilemapChunk| c.index@)
}

/// The chunk under `center`, and its neighbourhood of radius `range`, have
/// `i32` indices.
pub open spec fn center_ok(center: (int, int), chunk_size: UVec2, tile_size: UVec2, range: int) -> bool {
    &&& fits_i32(chunk_index_of(center, chunk_size, tile_size))
    &&& square_fits_i32(chunk_index_of(center, chunk_size, tile_size), range)
}

/// `index` is more than `range` chunks away from `current` on some axis.
pub open spec fn out_of_range(current: (int, int), range: int, index: (int, int)) -> bool {
    abs(index.0 - current.0) > range || abs(index.1 - current.1) > range
}

/// The number of tiles in a chunk.
pub open spec fn tile_count(chunk_size: UVec2) -> int {
    chunk_size.x * chunk_size.y
}

/// Why a configuration is refused, if it is.
pub open spec fn config_error(chunk_size: UVec2, tile_size: UVec2, range: int, center: (int, int)) -> Option<ConfigError> {
    if chunk_size.x == 0 || chunk_size.y == 0 {
        Some(ConfigError::EmptyChunkSize)
    } else if tile_size.x == 0 || tile_size.y == 0 {
        Some(ConfigError::EmptyTileSize)
    } else if range < 0 {
        Some(ConfigError::NegativeRange)
    } else if !extent_fits(chunk_size, tile_size) {
        Some(ConfigError::ChunkTooLarge)
    } else if !center_ok(center, chunk_size, tile_size, range) {
        Some(ConfigError::CenterOutOfBounds)
    } else {
        None
    }
}

impl TilemapModel {
    /// The configuration is valid, the current chunk's neighbourhood has
    /// `i32` indices, and the registry holds the index of each resident chunk
    /// and nothing else, each index once.
    pub open spec fn wf(self) -> bool {
        &&& config_error(self.chunk_size, self.tile_size, self.range, self.center).is_none()
        &&& fits_i32(self.current_chunk)
        &&& square_fits_i32(self.current_chunk, self.range)
        &&& self.range <= i32::MAX
        &&& self.resident == child_indices(self.children).to_set()
        &&& child_indices(self.children).no_duplicates()
        &&& 0 <= self.next_entity <= u64::MAX
        &&& forall|i: int| 0 <= i < self.children.len() ==> {
            &&& #[trigger] self.children[i].entity < self.next_entity
            &&& self.children[i].position@ == chunk_center_of(self.chunk_size, self.tile_size, self.children[i].index@)
            &&& (self.children[i].tiles@.len() == 0 || self.children[i].tiles@.len() == tile_count(self.chunk_size))
        }
        &&& forall|i: int, j: int| 0 <= i < self.children.len() && 0 <= j < self.children.len() && i != j
            ==> #[trigger] self.children[i].entity != #[trigger] self.children[j].entity
    }

    /// The same tilemap with another center.
    pub open spec fn with_center(self, center: (int, int)) -> TilemapModel {
        TilemapModel { center, ..self }
    }

    /// The same tilemap with another radius.
    pub open spec fn with_range(self, range: int) -> TilemapModel {
        TilemapModel { range, ..self }
    }

    /// The same tilemap with its current chunk recomputed from its center.
    pub open spec fn followed(self) -> TilemapModel {
        TilemapModel { current_chunk: chunk_index_of(self.center, self.chunk_size, self.tile_size), ..self }
    }
}

/// A streamed tilemap: the chunks within `range` of the chunk under `center`
/// are kept resident.
pub struct ChunkedTilemap {
    chunk_size: UVec2,
    tile_size: UVec2,
    range: i32,
    center: WorldPos,
    current_chunk: IVec2,
    chunks: ChunkSet,
    children: Vec<TilemapChunk>,
    next_entity: u64,
}

impl View for ChunkedTilemap {
    type V = TilemapModel;

    closed spec fn view(&self) -> TilemapModel {
        TilemapModel {
            chunk_size: self.chunk_size,
            tile_size: self.tile_size,
            range: self.range as int,
            center: self.center@,
            current_chunk: self.current_chunk@,
            resident: chunk_set_contents(self.chunks),
            children: self.children@,
            next_entity: self.next_entity as int,
        }
    }
}

impl ChunkedTilemap {
    /// A tilemap with no resident chunk, whose current chunk is the one under
    /// `center`; or the first problem of the configuration.
    pub fn new(chunk_size: UVec2, tile_size: UVec2, range: i32, center: WorldPos) -> (r: Result<ChunkedTilemap, ConfigError>)
        ensures
            match r {
                Ok(t) => {
                    &&& config_error(chunk_size, tile_size, range as int, center@).is_none()
                    &&& t@.wf()
                    &&& t@.chunk_size == chunk_size
                    &&& t@.tile_size == tile_size
                    &&& t@.range == range
                    &&& t@.center == center@
                    &&& t@.current_chunk == chunk_index_of(center@, chunk_size, tile_size)
                    &&& t@.resident == Set::<(int, int)>::empty()
                    &&& t@.children.len() == 0
                    &&& t@.next_entity == 0
                },
                Err(e) => config_error(chunk_size, tile_size, range as int, center@) == Some(e),
            },
    {
        if chunk_size.x == 0 || chunk_size.y == 0 {
            return Err(ConfigError::EmptyChunkSize);
        }
        if tile_size.x == 0 || tile_size.y == 0 {
            return Err(ConfigError::EmptyTileSize);
        }
        if range < 0 {
            return Err(ConfigError::NegativeRange);
        }
        if extent(chunk_size.x, tile_size.x) > i32::MAX as i128 || extent(chunk_size.y, tile_size.y) > i32::MAX as i128 {
            return Err(ConfigError::ChunkTooLarge);
        }
        if !center_in_bounds(center, chunk_size, tile_size, range) {
            return Err(ConfigError::CenterOutOfBounds);
        }
        let current_chunk = get_chunk_at_position(center, chunk_size, tile_size);
        let t = ChunkedTilemap {
            chunk_size,
            tile_size,
            range,
            center,
            current_chunk,
            chunks: ChunkSet::new(),
            children: Vec::new(),
            next_entity: 0,
        };
        proof {
            assert(child_indices(t.children@) =~= Seq::<(int, int)>::empty());
            assert(child_indices(t.children@).to_set() =~= Set::<(int, int)>::empty());
        }
        Ok(t)
    }
}

impl ChunkedTilemap {
    /// The number of tiles on each axis of a chunk.
    pub fn chunk_size(&self) -> (r: UVec2)
        ensures
            r == self@.chunk_size,
    {
        self.chunk_size
    }

    /// The size of a tile in world units.
    pub fn tile_size(&self) -> (r: UVec2)
        ensures
            r == self@.tile_size,
    {
        self.tile_size
    }

    /// The radius, in chunks, of the resident neighbourhood.
    pub fn range(&self) -> (r: i32)
        ensures
            r == self@.range,
    {
        self.range
    }

    /// The world position that decides the current chunk.
    pub fn center(&self) -> (r: WorldPos)
        ensures
            r@ == self@.center,
    {
        self.center
    }

    /// The chunk index last computed from the center.
    pub fn current_chunk(&self) -> (r: IVec2)
        ensures
            r@ == self@.current_chunk,
    {
        self.current_chunk
    }

    /// The resident chunks, oldest first.
    pub fn chunks(&self) -> (r: &Vec<TilemapChunk>)
        ensures
            r@ == self@.children,
    {
        &self.children
    }

    /// Whether the chunk at `index` is resident.
    pub fn contains_chunk(&self, index: IVec2) -> (r: bool)
        ensures
            r == self@.resident.contains(index@),
    {
        self.chunks.contains(index)
    }

    /// The number of resident chunks.
    pub fn chunk_count(&self) -> (r: usize)
        requires
            self@.wf(),
        ensures
            r == self@.resident.len(),
            r == self@.children.len(),
    {
        proof {
            lemma_resident_len(self@);
        }
        self.chunks.len()
    }

    /// Moves the center. The new center is refused, and nothing changes, where
    /// the neighbourhood of the chunk under it would leave the `i32` indices.
    pub fn set_center(&mut self, center: WorldPos) -> (r: Result<(), ConfigError>)
        requires
            old(self)@.wf(),
        ensures
            final(self)@.wf(),
            r is Ok <==> center_ok(center@, old(self)@.chunk_size, old(self)@.tile_size, old(self)@.range),
            r is Ok ==> final(self)@ == old(self)@.with_center(center@),
            r is Err ==> r == Err::<(), ConfigError>(ConfigError::CenterOutOfBounds) && final(self)@ == old(self)@,
    {
        if center_in_bounds(center, self.chunk_size, self.tile_size, self.range) {
            self.center = center;
            Ok(())
        } else {
            Err(ConfigError::CenterOutOfBounds)
        }
    }

    /// Changes the radius. A negative radius is refused, and so is one whose
    /// neighbourhood, around the current chunk or the chunk under the center,
    /// would leave the `i32` indices; nothing changes then.
    pub fn set_range(&mut self, range: i32) -> (r: Result<(), ConfigError>)
        requires
            old(self)@.wf(),
        ensures
            final(self)@.wf(),
            r == (if range < 0 {
                Err::<(), ConfigError>(ConfigError::NegativeRange)
            } else if !center_ok(old(self)@.center, old(self)@.chunk_size, old(self)@.tile_size, range as int)
                || !square_fits_i32(old(self)@.current_chunk, range as int) {
                Err(ConfigError::CenterOutOfBounds)
            } else {
                Ok(())
            }),
            r is Ok ==> final(self)@ == old(self)@.with_range(range as int),
            r is Err ==> final(self)@ == old(self)@,
    {
        if range < 0 {
            return Err(ConfigError::NegativeRange);
        }
        let r = range as i64;
        let cx = self.current_chunk.x as i64;
        let cy = self.current_chunk.y as i64;
        let around_current = cx - r >= i32::MIN as i64 && cx + r <= i32::MAX as i64 && cy - r >= i32::MIN as i64
            && cy + r <= i32::MAX as i64;
        if !around_current || !center_in_bounds(self.center, self.chunk_size, self.tile_size, range) {
            return Err(ConfigError::CenterOutOfBounds);
        }
        self.range = range;
        Ok(())
    }

    /// Recomputes the current chunk from the center, and tells whether it
    /// changed.
    pub fn update_current_chunk(&mut self) -> (changed: bool)
        requires
            old(self)@.wf(),
        ensures
            final(self)@.wf(),
            final(self)@ == old(self)@.followed(),
            changed == (old(self)@.current_chunk != final(self)@.current_chunk),
    {
        let actual = get_chunk_at_position(self.center, self.chunk_size, self.tile_size);
        if self.current_chunk != actual {
            self.current_chunk = actual;
            true
        } else {
            false
        }
    }
}

/// The indices of the neighbourhood of the current chunk that are not
/// resident, in enumeration order.
pub open spec fn missing_around(m: TilemapModel) -> Seq<(int, int)> {
    chunks_around(m.current_chunk, m.range).filter(|p: (int, int)| !m.resident.contains(p))
}

/// The chunks of `children` that stay resident around `current`.
pub open spec fn kept_chunks(children: Seq<TilemapChunk>, current: (int, int), range: int) -> Seq<TilemapChunk> {
    children.filter(|c: TilemapChunk| !out_of_range(current, range, c.index@))
}

/// The chunks of `children` that leave the neighbourhood of `current`.
pub open spec fn leaving_chunks(children: Seq<TilemapChunk>, current: (int, int), range: int) -> Seq<TilemapChunk> {
    children.filter(|c: TilemapChunk| out_of_range(current, range, c.index@))
}

/// `tiles` fills a chunk of `chunk_size` exactly.
pub open spec fn fills_grid(tiles: Seq<Option<u32>>, chunk_size: UVec2) -> bool {
    tiles.len() == tile_count(chunk_size)
}

impl ChunkedTilemap {
    /// The indices of the neighbourhood of the current chunk that are not
    /// resident: one materialize request each, in enumeration order.
    pub fn missing_chunks(&self) -> (r: Vec<IVec2>)
        requires
            self@.wf(),
        ensures
            views(r@) == missing_around(self@),
    {
        let all = generate_chunk_indexes(self.current_chunk, self.range);
        let ghost target = views(all@);
        let ghost pred = |p: (int, int)| !self@.resident.contains(p);
        let mut missing: Vec<IVec2> = Vec::new();
        let mut i: usize = 0;
        proof {
            lemma_filter_take_zero(target, pred);
            assert(views(missing@) =~= Seq::<(int, int)>::empty());
        }
        while i < all.len()
            invariant
                0 <= i <= all@.len(),
                target == views(all@),
                pred == (|p: (int, int)| !self@.resident.contains(p)),
                views(missing@) == target.take(i as int).filter(pred),
            decreases all@.len() - i,
        {
            let index = all[i];
            let ghost before = missing@;
            proof {
                lemma_filter_take_step(target, i as int, pred);
                assert(views(before.push(index)) =~= views(before).push(index@));
            }
            if !self.chunks.contains(index) {
                missing.push(index);
            }
            proof {
                assert(views(missing@) == target.take(i as int + 1).filter(pred));
            }
            i = i + 1;
        }
        proof {
            assert(target.take(all@.len() as int) =~= target);
        }
        missing
    }

    /// Creates the chunk at `index` and registers it, unless it is resident
    /// already or the identities are used up; returns the new chunk's identity.
    pub fn materialize(&mut self, index: IVec2) -> (r: Option<u64>)
        requires
            old(self)@.wf(),
        ensures
            final(self)@.wf(),
            r is None <==> (old(self)@.resident.contains(index@) || old(self)@.next_entity == u64::MAX),
            r is None ==> final(self)@ == old(self)@,
            r is Some ==> {
                let c = final(self)@.children.last();
                &&& r == Some(old(self)@.next_entity as u64)
                &&& final(self)@ == (TilemapModel {
                    resident: old(self)@.resident.insert(index@),
                    children: old(self)@.children.push(c),
                    next_entity: old(self)@.next_entity + 1,
                    ..old(self)@
                })
                &&& c.index == index
                &&& c.entity == old(self)@.next_entity
                &&& c.position@ == chunk_center_of(old(self)@.chunk_size, old(self)@.tile_size, index@)
                &&& c.tiles@.len() == 0
            },
    {
        if self.chunks.contains(index) || self.next_entity == u64::MAX {
            return None;
        }
        let entity = self.next_entity;
        proof {
            lemma_center_fits(self.chunk_size, self.tile_size, index@);
        }
        let position = get_chunk_center(self.chunk_size, self.tile_size, index);
        let ghost old_model = self@;
        self.chunks.insert(index);
        self.children.push(TilemapChunk { index, entity, position, tiles: Vec::new() });
        self.next_entity = entity + 1;
        proof {
            let olds = child_indices(old_model.children);
            assert(child_indices(self.children@) =~= olds.push(index@));
            Seq::lemma_to_set_insert_commutes(olds, index@);
            assert(olds + seq![index@] =~= olds.push(index@));
            assert(!olds.contains(index@));
            assert forall|i: int, j: int| 0 <= i < self.children@.len() && 0 <= j < self.children@.len() && i != j
                implies #[trigger] self.children@[i].entity != #[trigger] self.children@[j].entity by {
                if i < old_model.children.len() && j < old_model.children.len() {
                    assert(old_model.children[i] == self.children@[i]);
                    assert(old_model.children[j] == self.children@[j]);
                } else if i < old_model.children.len() {
                    assert(old_model.children[i] == self.children@[i]);
                } else {
                    assert(old_model.children[j] == self.children@[j]);
                }
            }
            assert forall|i: int| 0 <= i < self.children@.len() implies {
                &&& #[trigger] self.children@[i].entity < self@.next_entity
                &&& self.children@[i].position@ == chunk_center_of(self@.chunk_size, self@.tile_size, self.children@[i].index@)
                &&& (self.children@[i].tiles@.len() == 0 || self.children@[i].tiles@.len() == tile_count(self@.chunk_size))
            } by {
                if i < old_model.children.len() {
                    assert(old_model.children[i] == self.children@[i]);
                }
            }
        }
        Some(entity)
    }
}

/// A chunk of a well-formed tilemap meets the tilemap's per-chunk conditions.
pub open spec fn chunk_ok(m: TilemapModel, c: TilemapChunk) -> bool {
    &&& c.entity < m.next_entity
    &&& c.position@ == chunk_center_of(m.chunk_size, m.tile_size, c.index@)
    &&& (c.tiles@.len() == 0 || c.tiles@.len() == tile_count(m.chunk_size))
}

/// Whether the chunk at `index` is out of `range` of `current`.
fn is_out_of_range(current: IVec2, range: i32, index: IVec2) -> (r: bool)
    ensures
        r == out_of_range(current@, range as int, index@),
{
    let dx: i64 = index.x as i64 - current.x as i64;
    let dy: i64 = index.y as i64 - current.y as i64;
    let ax: i64 = if dx < 0 { -dx } else { dx };
    let ay: i64 = if dy < 0 { -dy } else { dy };
    ax > range as i64 || ay > range as i64
}

impl ChunkedTilemap {
    /// Unregisters and hands back every chunk that is more than `range` chunks
    /// from the current chunk on some axis, in the order they were spawned.
    pub fn release_outrange(&mut self) -> (released: Vec<TilemapChunk>)
        requires
            old(self)@.wf(),
        ensures
            final(self)@.wf(),
            final(self)@ == (TilemapModel {
                resident: old(self)@.resident.filter(
                    |p: (int, int)| !out_of_range(old(self)@.current_chunk, old(self)@.range, p),
                ),
                children: kept_chunks(old(self)@.children, old(self)@.current_chunk, old(self)@.range),
                ..old(self)@
            }),
            released@ == leaving_chunks(old(self)@.children, old(self)@.current_chunk, old(self)@.range),
    {
        let ghost m = self@;
        let ghost cur = m.current_chunk;
        let ghost rng = m.range;
        let ghost keep = |c: TilemapChunk| !out_of_range(cur, rng, c.index@);
        let ghost leave = |c: TilemapChunk| out_of_range(cur, rng, c.index@);
        let mut rest: Vec<TilemapChunk> = Vec::new();
        std::mem::swap(&mut self.children, &mut rest);
        let ghost all = rest@;
        let ghost idx = child_indices(all);
        let mut kept: Vec<TilemapChunk> = Vec::new();
        let mut released: Vec<TilemapChunk> = Vec::new();
        let ghost mut i: int = 0;
        proof {
            lemma_filter_take_zero(all, keep);
            lemma_filter_take_zero(all, leave);
            assert(m.resident.filter(|p: (int, int)| !(out_of_range(cur, rng, p) && child_indices(all.take(0)).contains(p)))
                =~= m.resident);
        }
        while rest.len() > 0
            invariant
                m.wf(),
                all == m.children,
                idx == child_indices(all),
                cur == m.current_chunk,
                rng == m.range,
                self.current_chunk@ == cur,
                self.range == rng,
                keep == (|c: TilemapChunk| !out_of_range(cur, rng, c.index@)),
                leave == (|c: TilemapChunk| out_of_range(cur, rng, c.index@)),
                self@ == (TilemapModel { resident: self@.resident, children: Seq::empty(), ..m }),
                0 <= i <= all.len(),
                rest@ == all.subrange(i, all.len() as int),
                kept@ == all.take(i).filter(keep),
                released@ == all.take(i).filter(leave),
                self@.resident == m.resident.filter(
                    |p: (int, int)| !(out_of_range(cur, rng, p) && child_indices(all.take(i)).contains(p)),
                ),
                forall|j: int| 0 <= j < kept@.len() ==> all.take(i).contains(#[trigger] kept@[j]),
                forall|j: int| 0 <= j < kept@.len() ==> !out_of_range(cur, rng, (#[trigger] kept@[j]).index@),
                forall|k: int| 0 <= k < i && !out_of_range(cur, rng, all[k].index@)
                    ==> child_indices(kept@).contains(#[trigger] idx[k]),
                forall|j1: int, j2: int| 0 <= j1 < kept@.len() && 0 <= j2 < kept@.len() && j1 != j2
                    ==> #[trigger] kept@[j1].entity != #[trigger] kept@[j2].entity,
                child_indices(kept@).no_duplicates(),
            decreases rest@.len(),
        {
            let c = rest.remove(0);
            let ghost before = kept@;
            let ghost ci = c.index@;
            proof {
                assert(c == all[i]);
                lemma_filter_take_step(all, i, keep);
                lemma_filter_take_step(all, i, leave);
                assert(all.take(i + 1) =~= all.take(i).push(c));
                assert(child_indices(all.take(i + 1)) =~= child_indices(all.take(i)).push(ci));
                lemma_contains_push(child_indices(all.take(i)), ci);
                assert(idx[i] == ci);
            }
            if is_out_of_range(self.current_chunk, self.range, c.index) {
                let ghost s0 = self@.resident;
                self.chunks.remove(c.index);
                released.push(c);
                proof {
                    assert(self@.resident =~= m.resident.filter(
                        |p: (int, int)| !(out_of_range(cur, rng, p) && child_indices(all.take(i + 1)).contains(p)),
                    ));
                }
            } else {
                proof {
                    // c's index differs from every kept index: those come from earlier chunks.
                    assert forall|j: int| 0 <= j < before.len() implies (#[trigger] before[j]).index@ != ci
                        && before[j].entity != c.entity by {
                        let x = before[j];
                        assert(all.take(i).contains(x));
                        let k = choose|k: int| 0 <= k < i && all.take(i)[k] == x;
                        assert(all[k] == x);
                        assert(idx[k] == x.index@);
                        assert(idx[k] != idx[i]);
                        assert(all[k].entity != all[i].entity);
                    }
                    assert(child_indices(before.push(c)) =~= child_indices(before).push(ci));
                    assert forall|p: (int, int)| child_indices(before).contains(p) implies child_indices(before.push(c)).contains(p) by {
                        let j = choose|j: int| 0 <= j < child_indices(before).len() && child_indices(before)[j] == p;
                        assert(child_indices(before.push(c))[j] == p);
                    }
                }
                kept.push(c);
                proof {
                    assert(self@.resident =~= m.resident.filter(
                        |p: (int, int)| !(out_of_range(cur, rng, p) && child_indices(all.take(i + 1)).contains(p)),
                    ));
                    assert(child_indices(kept@).contains(ci)) by {
                        assert(child_indices(kept@)[before.len() as int] == ci);
                    }
                    assert forall|j: int| 0 <= j < kept@.len() implies all.take(i + 1).contains(#[trigger] kept@[j]) by {
                        if j < before.len() {
                            assert(all.take(i).contains(before[j]));
                            let k = choose|k: int| 0 <= k < i && all.take(i)[k] == before[j];
                            assert(all.take(i + 1)[k] == before[j]);
                        } else {
                            assert(all.take(i + 1)[i] == c);
                        }
                    }
                }
            }
            proof {
                i = i + 1;
            }
        }
        proof {
            assert(all.take(i) =~= all);
            assert(child_indices(kept@).to_set() =~= self@.resident) by {
                assert forall|p: (int, int)| child_indices(kept@).contains(p) implies self@.resident.contains(p) by {
                    let j = choose|j: int| 0 <= j < child_indices(kept@).len() && child_indices(kept@)[j] == p;
                    let x = kept@[j];
                    assert(all.contains(x));
                    let k = choose|k: int| 0 <= k < all.len() && all[k] == x;
                    assert(idx[k] == p);
                    assert(m.resident.contains(p));
                }
                assert forall|p: (int, int)| self@.resident.contains(p) implies child_indices(kept@).contains(p) by {
                    assert(idx.contains(p));
                    let k = choose|k: int| 0 <= k < idx.len() && idx[k] == p;
                    assert(child_indices(kept@).contains(idx[k]));
                }
            }
            assert forall|j: int| 0 <= j < kept@.len() implies chunk_ok(m, #[trigger] kept@[j]) by {
                let x = kept@[j];
                assert(all.contains(x));
                let k = choose|k: int| 0 <= k < all.len() && all[k] == x;
                assert(chunk_ok(m, all[k]));
            }
        }
        self.children = kept;
        proof {
            assert(self@.resident =~= m.resident.filter(|p: (int, int)| !out_of_range(cur, rng, p)));
        }
        released
    }
}

impl ChunkedTilemap {
    /// Puts `tiles` into the slots of the resident chunk `chunk_entity`, where
    /// there is such a chunk and `tiles` has one slot per tile of a chunk;
    /// tells whether it did.
    pub fn fill(&mut self, chunk_entity: u64, tiles: Vec<Option<u32>>) -> (filled: bool)
        requires
            old(self)@.wf(),
        ensures
            final(self)@.wf(),
            filled == (fills_grid(tiles@, old(self)@.chunk_size) && exists|i: int|
                0 <= i < old(self)@.children.len() && (#[trigger] old(self)@.children[i]).entity == chunk_entity),
            final(self)@ == (TilemapModel { children: final(self)@.children, ..old(self)@ }),
            final(self)@.children.len() == old(self)@.children.len(),
            forall|i: int| 0 <= i < old(self)@.children.len() ==> {
                let o = #[trigger] old(self)@.children[i];
                let f = final(self)@.children[i];
                if filled && o.entity == chunk_entity {
                    f.index == o.index && f.entity == o.entity && f.position == o.position && f.tiles@ == tiles@
                } else {
                    f == o
                }
            },
    {
        let ghost m = self@;
        proof {
            assert(0 <= self.chunk_size.x * self.chunk_size.y <= u32::MAX * u32::MAX) by (nonlinear_arith)
                requires 0 <= self.chunk_size.x <= u32::MAX, 0 <= self.chunk_size.y <= u32::MAX;
        }
        let count: u64 = self.chunk_size.x as u64 * self.chunk_size.y as u64;
        let mut i: usize = 0;
        while i < self.children.len() && self.children[i].entity != chunk_entity
            invariant
                self@ == m,
                0 <= i <= m.children.len(),
                forall|k: int| 0 <= k < i ==> (#[trigger] m.children[k]).entity != chunk_entity,
            decreases m.children.len() - i,
        {
            i = i + 1;
        }
        if i == self.children.len() || tiles.len() as u64 != count {
            return false;
        }
        self.children[i].tiles = tiles;
        proof {
            assert forall|a: int, b: int| 0 <= a < self@.children.len() && 0 <= b < self@.children.len() && a != b
                implies #[trigger] self@.children[a].entity != #[trigger] self@.children[b].entity by {
                assert(m.children[a].entity != m.children[b].entity);
            }
            assert(child_indices(self@.children) =~= child_indices(m.children));
            assert forall|k: int| 0 <= k < m.children.len() && (#[trigger] m.children[k]).entity == chunk_entity
                implies k == i by {
                if k != i {
                    assert(m.children[k].entity != m.children[i as int].entity);
                }
            }
        }
        true
    }
}

/// A well-formed tilemap has as many resident indices as resident chunks.
pub proof fn lemma_resident_len(m: TilemapModel)
    requires
        m.wf(),
    ensures
        m.resident.finite(),
        m.resident.len() == m.children.len(),
{
    child_indices(m.children).unique_seq_to_set();
}

/// Whether `center_ok` holds, for a configuration whose sizes are positive.
fn center_in_bounds(center: WorldPos, chunk_size: UVec2, tile_size: UVec2, range: i32) -> (r: bool)
    requires
        chunk_size.is_positive(),
        tile_size.is_positive(),
        range >= 0,
    ensures
        r == center_ok(center@, chunk_size, tile_size, range as int),
{
    let (cx, cy) = chunk_index_wide(center, chunk_size, tile_size);
    let r = range as i128;
    cx >= i32::MIN as i128 + r && cx <= i32::MAX as i128 - r && cy >= i32::MIN as i128 + r
        && cy <= i32::MAX as i128 - r && cx >= i32::MIN as i128 && cx <= i32::MAX as i128
        && cy >= i32::MIN as i128 && cy <= i32::MAX as i128
}

} // verus!
