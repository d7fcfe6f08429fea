//! The despawn decision: chunks that leave the neighbourhood of the current
//! chunk are unregistered and released.
use vstd::prelude::*;
use crate::vec2::IVec2;
use crate::bundle::{ChunkedTilemap, TilemapModel, kept_chunks, leaving_chunks, out_of_range};

verus! {

/// The notice that a chunk left the neighbourhood and was released.
#[derive(Clone, Copy, Debug, PartialEq, Eq, Structural)]
pub struct ReleaseChunkEvent {
    pub tilemap_entity: usize,
    pub chunk_index: IVec2,
    pub chunk_entity: u64,
}

/// The tilemap once its chunks out of range are released.
pub open spec fn despawned(m: TilemapModel) -> TilemapModel {
    TilemapModel {
        resident: m.resident.filter(|p: (int, int)| !out_of_range(m.current_chunk, m.range, p)),
        children: kept_chunks(m.children, m.current_chunk, m.range),
        ..m
    }
}

/// Releases every resident chunk that is more than `range` chunks from the
/// current chunk on either axis (a per-axis test: a chunk at offset
/// `(range, range)` stays), with one notice per released chunk, oldest first.
pub fn despawn_outrange_chunks(tilemap: &mut ChunkedTilemap, tilemap_entity: usize) -> (r: Vec<ReleaseChunkEvent>)
    requires
        old(tilemap)@.wf(),
    ensures
        final(tilemap)@.wf(),
        final(tilemap)@ == despawned(old(tilemap)@),
        r@.len() == leaving_chunks(old(tilemap)@.children, old(tilemap)@.current_chunk, old(tilemap)@.range).len(),
        forall|k: int| 0 <= k < r@.len() ==> {
            let c = leaving_chunks(old(tilemap)@.children, old(tilemap)@.current_chunk, old(tilemap)@.range)[k];
            #[trigger] r@[k] == (ReleaseChunkEvent { tilemap_entity, chunk_index: c.index, chunk_entity: c.entity })
        },
{
    let released = tilemap.release_outrange();
    let mut events: Vec<ReleaseChunkEvent> = Vec::new();
    let mut i: usize = 0;
    while i < released.len()
        invariant
            0 <= i <= released@.len(),
            events@.len() == i,
            forall|k: int| 0 <= k < i ==> #[trigger] events@[k] == (ReleaseChunkEvent {
                tilemap_entity,
                chunk_index: released@[k].index,
                chunk_entity: released@[k].entity,
            }),
        decreases released@.len() - i,
    {
        events.push(ReleaseChunkEvent { tilemap_entity, chunk_index: released[i].index, chunk_entity: released[i].entity });
        i = i + 1;
    }
    events
}

} // verus!
