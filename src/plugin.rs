//! The streaming pipeline: one cycle runs, in this order, the current-chunk
//! tracker, the spawn stage and the despawn stage.
use vstd::prelude::*;
use crate::bundle::{ChunkedTilemap, TilemapModel, kept_chunks, leaving_chunks, missing_around, out_of_range};
use crate::chunks::abs;
use crate::despawn_outrange::{ReleaseChunkEvent, despawn_outrange_chunks};
use crate::spawn_around::{chunks_around, in_square, lemma_chunks_around_len, lemma_chunks_around_members};
use crate::spawn_chunk::{PrepareChunkEvent, lemma_missing_around, spawn_chunks_around};
use crate::seq_facts::{lemma_filter_all, lemma_filter_none};

verus! {

/// The fixed pipeline that streams the chunks of a tilemap.
pub struct ChunkedTilemapPlugin;

/// What one cycle did to a tilemap.
#[derive(Debug)]
pub struct CycleEvents {
    /// The current chunk changed.
    pub changed: bool,
    /// One notice per materialized chunk, in enumeration order.
    pub prepared: Vec<PrepareChunkEvent>,
    /// One notice per released chunk, oldest first.
    pub released: Vec<ReleaseChunkEvent>,
}

/// The indices within `range` chunks of `center` on both axes.
pub open spec fn square_set(center: (int, int), range: int) -> Set<(int, int)> {
    Set::new(|p: (int, int)| in_square(center, range, p))
}

/// The neighbourhood of a radius `range >= 0` holds `(2 * range + 1)^2`
/// indices.
pub proof fn lemma_square_set_len(center: (int, int), range: int)
    requires
        range >= 0,
    ensures
        square_set(center, range).finite(),
        square_set(center, range).len() == (2 * range + 1) * (2 * range + 1),
{
    let s = chunks_around(center, range);
    lemma_chunks_around_members(center, range);
    lemma_chunks_around_len(center, range);
    assert(s.to_set() =~= square_set(center, range));
    s.unique_seq_to_set();
}

/// For a radius of zero or more, leaving the neighbourhood is the same as not
/// lying in the square.
pub proof fn lemma_out_of_range_square(current: (int, int), range: int, p: (int, int))
    requires
        range >= 0,
    ensures
        out_of_range(current, range, p) <==> !in_square(current, range, p),
{
}

/// Despawn is a per-axis test: a chunk at offset `(range, range)` from the
/// current chunk, whatever the signs, stays; chunks at offset `(range + 1, 0)`
/// or `(0, range + 1)`, either sign, leave.
pub proof fn lemma_despawn_boundary(current: (int, int), range: int)
    requires
        range >= 0,
    ensures
        !out_of_range(current, range, (current.0 + range, current.1 + range)),
        !out_of_range(current, range, (current.0 - range, current.1 - range)),
        !out_of_range(current, range, (current.0 + range, current.1 - range)),
        !out_of_range(current, range, (current.0 - range, current.1 + range)),
        out_of_range(current, range, (current.0 + range + 1, current.1)),
        out_of_range(current, range, (current.0 - range - 1, current.1)),
        out_of_range(current, range, (current.0, current.1 + range + 1)),
        out_of_range(current, range, (current.0, current.1 - range - 1)),
{
}

/// No duplicate requests: on a tilemap with no resident chunk and radius
/// `r`, the spawn stage asks for `(2r + 1)^2` chunks; once those are
/// registered, running the stage again around the same current chunk asks
/// for none.
pub proof fn lemma_spawn_stage_no_duplicates(m: TilemapModel, after: TilemapModel)
    requires
        m.wf(),
        m.resident == Set::<(int, int)>::empty(),
        after.current_chunk == m.current_chunk,
        after.range == m.range,
        after.resident == m.resident.union(missing_around(m).to_set()),
    ensures
        missing_around(m).len() == (2 * m.range + 1) * (2 * m.range + 1),
        missing_around(after).len() == 0,
{
    let all = chunks_around(m.current_chunk, m.range);
    lemma_chunks_around_len(m.current_chunk, m.range);
    lemma_filter_all(all, |p: (int, int)| !m.resident.contains(p));
    assert forall|j: int| 0 <= j < all.len() implies !(|p: (int, int)| !after.resident.contains(p))(#[trigger] all[j]) by {
        assert(missing_around(m).contains(all[j])) by {
            assert(missing_around(m)[j] == all[j]);
        }
    }
    lemma_filter_none(all, |p: (int, int)| !after.resident.contains(p));
}

/// A far move empties the old window: when the resident chunks are exactly
/// the neighbourhood of the current chunk and the current chunk then moves by
/// more than `2 * range` on an axis, every resident chunk leaves, none stays,
/// and all `(2 * range + 1)^2` chunks of the new neighbourhood are missing.
pub proof fn lemma_far_move(m: TilemapModel, next: (int, int))
    requires
        m.wf(),
        m.resident == square_set(m.current_chunk, m.range),
        abs(next.0 - m.current_chunk.0) > 2 * m.range || abs(next.1 - m.current_chunk.1) > 2 * m.range,
    ensures
        leaving_chunks(m.children, next, m.range) == m.children,
        kept_chunks(m.children, next, m.range).len() == 0,
        missing_around(TilemapModel { current_chunk: next, ..m }).len() == (2 * m.range + 1) * (2 * m.range + 1),
{
    let leave = |c: crate::bundle::TilemapChunk| out_of_range(next, m.range, c.index@);
    let keep = |c: crate::bundle::TilemapChunk| !out_of_range(next, m.range, c.index@);
    assert forall|j: int| 0 <= j < m.children.len() implies leave(#[trigger] m.children[j]) by {
        let p = m.children[j].index@;
        assert(crate::bundle::child_indices(m.children)[j] == p);
        assert(m.resident.contains(p));
    }
    lemma_filter_all(m.children, leave);
    lemma_filter_none(m.children, keep);
    let m2 = TilemapModel { current_chunk: next, ..m };
    let all = chunks_around(next, m.range);
    lemma_chunks_around_len(next, m.range);
    lemma_chunks_around_members(next, m.range);
    assert forall|j: int| 0 <= j < all.len() implies (|p: (int, int)| !m2.resident.contains(p))(#[trigger] all[j]) by {
        assert(all.contains(all[j]));
    }
    lemma_filter_all(all, |p: (int, int)| !m2.resident.contains(p));
}

/// What one cycle makes of the tilemap `m`: `f` is the tilemap afterwards
/// and `r` the cycle's report for the tilemap at position `tilemap_entity`.
/// The current chunk follows the center; the resident chunks lie in its
/// neighbourhood, and fill it where the chunk identities suffice; one notice
/// goes out per materialized chunk, in enumeration order, and one per chunk
/// that left the neighbourhood, oldest first.
pub open spec fn cycle_done(m: TilemapModel, f: TilemapModel, r: CycleEvents, tilemap_entity: usize) -> bool {
    let m1 = m.followed();
    let req = missing_around(m1);
    let gone = leaving_chunks(m.children, m1.current_chunk, m.range);
    &&& f.chunk_size == m.chunk_size
    &&& f.tile_size == m.tile_size
    &&& f.range == m.range
    &&& f.center == m.center
    &&& f.current_chunk == m1.current_chunk
    &&& r.changed == (m.current_chunk != m1.current_chunk)
    &&& f.resident.subset_of(square_set(m1.current_chunk, m.range))
    &&& m.next_entity + (2 * m.range + 1) * (2 * m.range + 1) <= u64::MAX
        ==> f.resident == square_set(m1.current_chunk, m.range)
    &&& r.prepared@.len() <= req.len()
    &&& m.next_entity + req.len() <= u64::MAX ==> r.prepared@.len() == req.len()
    &&& forall|k: int| 0 <= k < r.prepared@.len() ==> {
        &&& (#[trigger] r.prepared@[k]).tilemap_entity == tilemap_entity
        &&& r.prepared@[k].chunk_index@ == req[k]
        &&& r.prepared@[k].chunk_entity == m.next_entity + k
    }
    &&& r.released@.len() == gone.len()
    &&& forall|k: int| 0 <= k < r.released@.len() ==> #[trigger] r.released@[k] == (ReleaseChunkEvent {
        tilemap_entity,
        chunk_index: gone[k].index,
        chunk_entity: gone[k].entity,
    })
}

impl ChunkedTilemapPlugin {
    /// Runs one cycle on `tilemap`: recomputes the current chunk, materializes
    /// the missing chunks of its neighbourhood, and releases the chunks out of
    /// range. With identities to spare, the resident chunks are then exactly
    /// the neighbourhood of the current chunk.
    pub fn update(&self, tilemap: &mut ChunkedTilemap, tilemap_entity: usize) -> (r: CycleEvents)
        requires
            old(tilemap)@.wf(),
        ensures
            final(tilemap)@.wf(),
            cycle_done(old(tilemap)@, final(tilemap)@, r, tilemap_entity),
    {
        let ghost m = tilemap@;
        let changed = tilemap.update_current_chunk();
        let ghost m1 = tilemap@;
        let prepared = spawn_chunks_around(tilemap, tilemap_entity);
        let ghost m2 = tilemap@;
        let released = despawn_outrange_chunks(tilemap, tilemap_entity);
        proof {
            let cur = m1.current_chunk;
            let rng = m1.range;
            let req = missing_around(m1);
            let n1 = m1.children.len() as int;
            let newc = m2.children.subrange(n1, m2.children.len() as int);
            lemma_missing_around(m1);
            lemma_chunks_around_members(cur, rng);
            // The chunks that the spawn stage added lie in the neighbourhood.
            assert forall|j: int| 0 <= j < newc.len() implies !out_of_range(cur, rng, (#[trigger] newc[j]).index@) by {
                assert(newc[j] == m2.children[n1 + j]);
                assert(prepared@[j].chunk_entity == m1.next_entity + j);
                assert(in_square(cur, rng, req[j]));
                lemma_out_of_range_square(cur, rng, req[j]);
            }
            assert(m2.children =~= m1.children + newc) by {
                assert forall|k: int| 0 <= k < n1 implies m2.children[k] == m1.children[k] by {
                    assert(m2.children.take(n1)[k] == m2.children[k]);
                }
            }
            let leave = |c: crate::bundle::TilemapChunk| out_of_range(cur, rng, c.index@);
            Seq::filter_distributes_over_add(m1.children, newc, leave);
            lemma_filter_none(newc, leave);
            assert(m1.children.filter(leave) + Seq::empty() =~= m1.children.filter(leave));
            // What stays resident is the part of the square that is resident.
            let sq = square_set(cur, rng);
            assert(tilemap@.resident.subset_of(sq)) by {
                assert forall|p: (int, int)| tilemap@.resident.contains(p) implies sq.contains(p) by {
                    lemma_out_of_range_square(cur, rng, p);
                }
            }
            if m.next_entity + (2 * m.range + 1) * (2 * m.range + 1) <= u64::MAX {
                lemma_chunks_around_len(cur, rng);
                chunks_around(cur, rng).lemma_filter_len(|p: (int, int)| !m1.resident.contains(p));
                assert(req.take(req.len() as int) =~= req);
                assert forall|p: (int, int)| sq.contains(p) implies tilemap@.resident.contains(p) by {
                    lemma_out_of_range_square(cur, rng, p);
                    let all = chunks_around(cur, rng);
                    assert(all.contains(p));
                    if !m1.resident.contains(p) {
                        let i = choose|i: int| 0 <= i < all.len() && all[i] == p;
                        all.lemma_filter_contains(|q: (int, int)| !m1.resident.contains(q), i);
                        assert(req.to_set().contains(p));
                    }
                }
                assert(tilemap@.resident =~= sq);
            }
        }
        CycleEvents { changed, prepared, released }
    }

    /// Runs one cycle on each tilemap of the list, in order; the report at
    /// position `t` is that of the tilemap at position `t`.
    pub fn update_all(&self, tilemaps: &mut Vec<ChunkedTilemap>) -> (r: Vec<CycleEvents>)
        requires
            forall|t: int| 0 <= t < old(tilemaps)@.len() ==> (#[trigger] old(tilemaps)@[t])@.wf(),
        ensures
            final(tilemaps)@.len() == old(tilemaps)@.len(),
            r@.len() == old(tilemaps)@.len(),
            forall|t: int| 0 <= t < final(tilemaps)@.len() ==> {
                &&& (#[trigger] final(tilemaps)@[t])@.wf()
                &&& cycle_done(old(tilemaps)@[t]@, final(tilemaps)@[t]@, r@[t], t as usize)
            },
    {
        let ghost before = tilemaps@;
        let mut reports: Vec<CycleEvents> = Vec::new();
        let mut t: usize = 0;
        while t < tilemaps.len()
            invariant
                tilemaps@.len() == before.len(),
                0 <= t <= before.len(),
                reports@.len() == t,
                forall|u: int| 0 <= u < before.len() ==> (#[trigger] before[u])@.wf(),
                forall|u: int| t <= u < before.len() ==> #[trigger] tilemaps@[u] == before[u],
                forall|u: int| 0 <= u < t ==> {
                    &&& (#[trigger] tilemaps@[u])@.wf()
                    &&& cycle_done(before[u]@, tilemaps@[u]@, reports@[u], u as usize)
                },
            decreases before.len() - t,
        {
            let report = self.update(&mut tilemaps[t], t);
            reports.push(report);
            t = t + 1;
        }
        reports
    }
}

} // verus!
