//! Materialize requests and their handling: a requested chunk is created and
//! registered at once, so that no index is requested twice while its content
//! is still pending.
use vstd::prelude::*;
use crate::vec2::IVec2;
use crate::bundle::{ChunkedTilemap, TilemapModel, missing_around};
use crate::spawn_around::{chunks_around, effective_range, in_square, lemma_chunks_around_members, spawn_chunks_around_current};
use crate::seq_facts::{lemma_contains_push, lemma_filter_no_duplicates};

verus! {

/// A request to materialize the chunk at `chunk_index` of the tilemap at
/// position `tilemap_entity` of the caller's list of tilemaps.
#[derive(Clone, Copy, Debug, PartialEq, Eq, Structural)]
pub struct SpawnChunkEvent {
    pub tilemap_entity: usize,
    pub chunk_index: IVec2,
}

/// The notice that a chunk was materialized, for the collaborator that fills
/// its tiles.
#[derive(Clone, Copy, Debug, PartialEq, Eq, Structural)]
pub struct PrepareChunkEvent {
    pub tilemap_entity: usize,
    pub chunk_index: IVec2,
    pub chunk_entity: u64,
}

/// Handles one materialize request: a request for a missing tilemap, or for
/// a chunk that is resident already, changes nothing.
pub fn spawn_chunk(tilemaps: &mut Vec<ChunkedTilemap>, event: &SpawnChunkEvent) -> (r: Option<PrepareChunkEvent>)
    requires
        forall|t: int| 0 <= t < old(tilemaps)@.len() ==> (#[trigger] old(tilemaps)@[t])@.wf(),
    ensures
        final(tilemaps)@.len() == old(tilemaps)@.len(),
        forall|t: int| 0 <= t < final(tilemaps)@.len() ==> (#[trigger] final(tilemaps)@[t])@.wf(),
        forall|t: int| 0 <= t < final(tilemaps)@.len() && t != event.tilemap_entity
            ==> #[trigger] final(tilemaps)@[t] == old(tilemaps)@[t],
        event.tilemap_entity >= old(tilemaps)@.len() ==> r is None && final(tilemaps)@ == old(tilemaps)@,
        event.tilemap_entity < old(tilemaps)@.len() ==> {
            let before = old(tilemaps)@[event.tilemap_entity as int]@;
            let after = final(tilemaps)@[event.tilemap_entity as int]@;
            &&& r is None <==> (before.resident.contains(event.chunk_index@) || before.next_entity == u64::MAX)
            &&& r is None ==> after == before
            &&& r is Some ==> {
                &&& r == Some(PrepareChunkEvent {
                    tilemap_entity: event.tilemap_entity,
                    chunk_index: event.chunk_index,
                    chunk_entity: before.next_entity as u64,
                })
                &&& after.resident == before.resident.insert(event.chunk_index@)
                &&& after.next_entity == before.next_entity + 1
                &&& after.children.drop_last() == before.children
                &&& after.children.last().index == event.chunk_index
                &&& after.children.last().entity == before.next_entity
                &&& after.current_chunk == before.current_chunk
                &&& after.range == before.range
            }
        },
{
    let t = event.tilemap_entity;
    if t >= tilemaps.len() {
        return None;
    }
    match tilemaps[t].materialize(event.chunk_index) {
        Some(chunk_entity) => Some(PrepareChunkEvent { tilemap_entity: t, chunk_index: event.chunk_index, chunk_entity }),
        None => None,
    }
}

/// The requests of `missing_around` are distinct, not resident, and within
/// the neighbourhood of the current chunk.
pub proof fn lemma_missing_around(m: TilemapModel)
    ensures
        missing_around(m).no_duplicates(),
        forall|k: int| 0 <= k < missing_around(m).len() ==> {
            &&& !m.resident.contains(#[trigger] missing_around(m)[k])
            &&& in_square(m.current_chunk, effective_range(m.range), missing_around(m)[k])
        },
{
    let pred = |p: (int, int)| !m.resident.contains(p);
    let all = chunks_around(m.current_chunk, m.range);
    lemma_chunks_around_members(m.current_chunk, m.range);
    lemma_filter_no_duplicates(all, pred);
    assert forall|k: int| 0 <= k < missing_around(m).len() implies {
        &&& !m.resident.contains(#[trigger] missing_around(m)[k])
        &&& in_square(m.current_chunk, effective_range(m.range), missing_around(m)[k])
    } by {
        let x = missing_around(m)[k];
        assert(all.filter(pred).contains(x));
        all.lemma_filter_contains_rev(pred, x);
        all.lemma_filter_pred(pred, k);
    }
}

/// The spawn stage for one tilemap: decides which indices of the current
/// chunk's neighbourhood are missing and materializes each at once, in
/// enumeration order, so that running the stage again asks for nothing.
/// Only when the chunk identities run out does it stop short.
pub fn spawn_chunks_around(tilemap: &mut ChunkedTilemap, tilemap_entity: usize) -> (r: Vec<PrepareChunkEvent>)
    requires
        old(tilemap)@.wf(),
    ensures
        final(tilemap)@.wf(),
        ({
            let m = old(tilemap)@;
            let req = missing_around(m);
            let f = final(tilemap)@;
            &&& f == (TilemapModel { resident: f.resident, children: f.children, next_entity: f.next_entity, ..m })
            &&& r@.len() <= req.len()
            &&& m.next_entity + req.len() <= u64::MAX ==> r@.len() == req.len()
            &&& f.next_entity == m.next_entity + r@.len()
            &&& f.resident == m.resident.union(req.take(r@.len() as int).to_set())
            &&& f.children.len() == m.children.len() + r@.len()
            &&& f.children.take(m.children.len() as int) == m.children
            &&& forall|k: int| 0 <= k < r@.len() ==> {
                &&& #[trigger] r@[k] == PrepareChunkEvent {
                    tilemap_entity,
                    chunk_index: f.children[m.children.len() + k].index,
                    chunk_entity: (m.next_entity + k) as u64,
                }
                &&& f.children[m.children.len() + k].index@ == req[k]
                &&& f.children[m.children.len() + k].entity == m.next_entity + k
            }
        }),
{
    let ghost m = tilemap@;
    let ghost req = missing_around(m);
    let requests = spawn_chunks_around_current(tilemap, tilemap_entity);
    proof {
        lemma_missing_around(m);
        assert(req.take(0).to_set() =~= Set::<(int, int)>::empty());
        assert(m.resident.union(Set::<(int, int)>::empty()) =~= m.resident);
        assert(tilemap@.children.take(m.children.len() as int) =~= m.children);
    }
    let mut prepared: Vec<PrepareChunkEvent> = Vec::new();
    let mut i: usize = 0;
    while i < requests.len()
        invariant
            m.wf(),
            req == missing_around(m),
            requests@.len() == req.len(),
            forall|k: int| 0 <= k < requests@.len() ==> (#[trigger] requests@[k]).chunk_index@ == req[k],
            req.no_duplicates(),
            forall|k: int| 0 <= k < req.len() ==> !m.resident.contains(#[trigger] req[k]),
            0 <= i <= requests@.len(),
            prepared@.len() <= i,
            prepared@.len() < i ==> tilemap@.next_entity == u64::MAX,
            tilemap@.wf(),
            tilemap@ == (TilemapModel {
                resident: tilemap@.resident,
                children: tilemap@.children,
                next_entity: tilemap@.next_entity,
                ..m
            }),
            tilemap@.next_entity == m.next_entity + prepared@.len(),
            tilemap@.resident == m.resident.union(req.take(prepared@.len() as int).to_set()),
            tilemap@.children.len() == m.children.len() + prepared@.len(),
            tilemap@.children.take(m.children.len() as int) == m.children,
            forall|k: int| 0 <= k < prepared@.len() ==> {
                &&& #[trigger] prepared@[k] == PrepareChunkEvent {
                    tilemap_entity,
                    chunk_index: tilemap@.children[m.children.len() + k].index,
                    chunk_entity: (m.next_entity + k) as u64,
                }
                &&& tilemap@.children[m.children.len() + k].index@ == req[k]
                &&& tilemap@.children[m.children.len() + k].entity == m.next_entity + k
            },
        decreases requests@.len() - i,
    {
        let index = requests[i].chunk_index;
        let ghost before = tilemap@;
        let ghost p = prepared@.len() as int;
        proof {
            if p == i {
                assert(!req.take(p).contains(req[p])) by {
                    if req.take(p).contains(req[p]) {
                        let j = choose|j: int| 0 <= j < p && req.take(p)[j] == req[p];
                        assert(req[j] == req[p]);
                    }
                }
                assert(!before.resident.contains(index@));
            }
        }
        match tilemap.materialize(index) {
            Some(chunk_entity) => {
                proof {
                    assert(p == i);
                    assert(req.take(p + 1) =~= req.take(p).push(req[p]));
                    lemma_contains_push(req.take(p), req[p]);
                    assert(tilemap@.resident =~= m.resident.union(req.take(p + 1).to_set()));
                    assert(tilemap@.children.take(m.children.len() as int) =~= m.children) by {
                        assert(before.children.take(m.children.len() as int) == m.children);
                        assert forall|k: int| 0 <= k < m.children.len() implies
                            tilemap@.children[k] == before.children[k] by {}
                    }
                }
                prepared.push(PrepareChunkEvent { tilemap_entity, chunk_index: index, chunk_entity });
                proof {
                    assert forall|k: int| 0 <= k < prepared@.len() implies {
                        &&& #[trigger] prepared@[k] == PrepareChunkEvent {
                            tilemap_entity,
                            chunk_index: tilemap@.children[m.children.len() + k].index,
                            chunk_entity: (m.next_entity + k) as u64,
                        }
                        &&& tilemap@.children[m.children.len() + k].index@ == req[k]
                        &&& tilemap@.children[m.children.len() + k].entity == m.next_entity + k
                    } by {
                        if k < p {
                            assert(tilemap@.children[m.children.len() + k] == before.children[m.children.len() + k]);
                        }
                    }
                }
            },
            None => {},
        }
        i = i + 1;
    }
    prepared
}

} // verus!
