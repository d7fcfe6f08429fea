//! Fill-contents requests: the tiles that a content collaborator made for a
//! materialized chunk.
use vstd::prelude::*;
use crate::vec2::IVec2;
use crate::bundle::{ChunkedTilemap, fills_grid};

verus! {

/// The contents of the chunk `chunk_entity`, at `chunk_index`, of the tilemap
/// at position `tilemap_entity`: one slot per tile, row by row.
#[derive(Debug)]
pub struct FillChunkEvent {
    pub tilemap_entity: usize,
    pub chunk_index: IVec2,
    pub chunk_entity: u64,
    pub tiles: Vec<Option<u32>>,
}

/// Applies a fill request; one for a missing tilemap, a chunk that is no
/// longer resident, or a grid of the wrong size, changes nothing. Tells
/// whether the tiles were applied.
pub fn fill_chunk(tilemaps: &mut Vec<ChunkedTilemap>, event: FillChunkEvent) -> (filled: bool)
    requires
        forall|t: int| 0 <= t < old(tilemaps)@.len() ==> (#[trigger] old(tilemaps)@[t])@.wf(),
    ensures
        final(tilemaps)@.len() == old(tilemaps)@.len(),
        forall|t: int| 0 <= t < final(tilemaps)@.len() ==> (#[trigger] final(tilemaps)@[t])@.wf(),
        forall|t: int| 0 <= t < final(tilemaps)@.len() && t != event.tilemap_entity
            ==> #[trigger] final(tilemaps)@[t] == old(tilemaps)@[t],
        event.tilemap_entity >= old(tilemaps)@.len() ==> !filled && final(tilemaps)@ == old(tilemaps)@,
        event.tilemap_entity < old(tilemaps)@.len() ==> {
            let before = old(tilemaps)@[event.tilemap_entity as int]@;
            let after = final(tilemaps)@[event.tilemap_entity as int]@;
            &&& filled == (fills_grid(event.tiles@, before.chunk_size) && exists|i: int|
                0 <= i < before.children.len() && (#[trigger] before.children[i]).entity == event.chunk_entity)
            &&& after.resident == before.resident
            &&& after.children.len() == before.children.len()
            &&& forall|i: int| 0 <= i < before.children.len() ==> {
                let o = #[trigger] before.children[i];
                let f = after.children[i];
                if filled && o.entity == event.chunk_entity {
                    f.index == o.index && f.entity == o.entity && f.tiles@ == event.tiles@
                } else {
                    f == o
                }
            }
        },
{
    let t = event.tilemap_entity;
    if t >= tilemaps.len() {
        return false;
    }
    tilemaps[t].fill(event.chunk_entity, event.tiles)
}

} // verus!
