//! The square neighbourhood of chunk indices around a center chunk.
use vstd::prelude::*;
use vstd::arithmetic::div_mod::lemma_fundamental_div_mod_converse;
use crate::seq_facts::{lemma_filter_take_step, lemma_filter_take_zero};
use crate::vec2::{IVec2, is_i32};
use crate::bundle::{ChunkedTilemap, missing_around};
use crate::spawn_chunk::SpawnChunkEvent;

verus! {

/// The radius actually used for a requested one: a negative radius counts as
/// zero.
pub open spec fn effective_range(range: int) -> int {
    if range < 0 { 0 } else { range }
}

/// The number of chunks on one side of the square of radius `r`.
pub open spec fn side(r: int) -> int {
    2 * r + 1
}

/// The `k`-th index of the square of radius `r` around `center`: rows run from
/// `center.y + r` down to `center.y - r`, and within a row columns run from
/// `center.x - r` up to `center.x + r`.
pub open spec fn around_at(center: (int, int), r: int, k: int) -> (int, int) {
    (center.0 - r + k % side(r), center.1 + r - k / side(r))
}

/// The indices of the square neighbourhood of radius `range` around `center`,
/// in row-major order with descending Y.
pub open spec fn chunks_around(center: (int, int), range: int) -> Seq<(int, int)> {
    let r = effective_range(range);
    Seq::new((side(r) * side(r)) as nat, |k: int| around_at(center, r, k))
}

/// `index` lies within `range` chunks of `center` on both axes.
pub open spec fn in_square(center: (int, int), range: int, index: (int, int)) -> bool {
    &&& center.0 - range <= index.0 <= center.0 + range
    &&& center.1 - range <= index.1 <= center.1 + range
}

/// The whole square of radius `range` around `center` has `i32` coordinates.
pub open spec fn square_fits_i32(center: (int, int), range: int) -> bool {
    let r = effective_range(range);
    is_i32(center.0 - r) && is_i32(center.0 + r) && is_i32(center.1 - r) && is_i32(center.1 + r)
}

/// The integer pairs that a sequence of vectors stands for.
pub open spec fn views(s: Seq<IVec2>) -> Seq<(int, int)> {
    s.map_values(|v: IVec2| v@)
}

/// The indices of the square neighbourhood of radius `range` (a negative
/// radius counts as zero) around `current_chunk_index`: rows from the top
/// (largest Y) down, each row from left to right.
pub fn generate_chunk_indexes(current_chunk_index: IVec2, range: i32) -> (r: Vec<IVec2>)
    requires
        square_fits_i32(current_chunk_index@, range as int),
    ensures
        views(r@) == chunks_around(current_chunk_index@, range as int),
{
    let ghost center = current_chunk_index@;
    let rr: i64 = if range < 0 { 0 } else { range as i64 };
    let n: i64 = 2 * rr + 1;
    let ghost target = chunks_around(center, range as int);
    let mut indexes: Vec<IVec2> = Vec::new();
    let mut row: i64 = 0;
    while row < n
        invariant
            rr == effective_range(range as int),
            n == side(rr as int),
            0 <= row <= n,
            square_fits_i32(center, range as int),
            center == current_chunk_index@,
            target == chunks_around(center, range as int),
            indexes@.len() == row * n,
            forall|k: int| 0 <= k < indexes@.len() ==> indexes@[k]@ == target[k],
        decreases n - row,
    {
        let y: i64 = current_chunk_index.y as i64 + rr - row;
        let mut col: i64 = 0;
        while col < n
            invariant
                rr == effective_range(range as int),
                n == side(rr as int),
                0 <= row < n,
                0 <= col <= n,
                y == center.1 + rr - row,
                square_fits_i32(center, range as int),
                center == current_chunk_index@,
                target == chunks_around(center, range as int),
                indexes@.len() == row * n + col,
                forall|k: int| 0 <= k < indexes@.len() ==> indexes@[k]@ == target[k],
            decreases n - col,
        {
            let x: i64 = current_chunk_index.x as i64 - rr + col;
            proof {
                let k = row * n + col;
                lemma_fundamental_div_mod_converse(k, n as int, row as int, col as int);
                assert(row * n + col < n * n) by (nonlinear_arith)
                    requires 0 <= row < n, 0 <= col < n;
                assert(target[k] == (x as int, y as int));
            }
            indexes.push(IVec2 { x: x as i32, y: y as i32 });
            col = col + 1;
        }
        row = row + 1;
        proof {
            assert((row - 1) * n + n == row * n) by (nonlinear_arith);
        }
    }
    proof {
        assert(views(indexes@) =~= target);
    }
    indexes
}

/// A materialize request for `chunk_index`, unless that chunk is resident in
/// `tilemap` already.
pub fn prepare_event(tilemap: &ChunkedTilemap, chunk_index: IVec2, tilemap_entity: usize) -> (r: Option<SpawnChunkEvent>)
    ensures
        r == (if tilemap@.resident.contains(chunk_index@) {
            None
        } else {
            Some(SpawnChunkEvent { tilemap_entity, chunk_index })
        }),
{
    if !tilemap.contains_chunk(chunk_index) {
        Some(SpawnChunkEvent { tilemap_entity, chunk_index })
    } else {
        None
    }
}

/// The spawn decision for one tilemap: one materialize request for each index
/// of the neighbourhood of the current chunk that is not resident, in
/// enumeration order.
pub fn spawn_chunks_around_current(tilemap: &ChunkedTilemap, tilemap_entity: usize) -> (r: Vec<SpawnChunkEvent>)
    requires
        tilemap@.wf(),
    ensures
        r@.len() == missing_around(tilemap@).len(),
        forall|k: int| 0 <= k < r@.len() ==> (#[trigger] r@[k]).tilemap_entity == tilemap_entity
            && r@[k].chunk_index@ == missing_around(tilemap@)[k],
{
    let all = generate_chunk_indexes(tilemap.current_chunk(), tilemap.range());
    let mut events: Vec<SpawnChunkEvent> = Vec::new();
    let mut i: usize = 0;
    let ghost pred = |p: (int, int)| !tilemap@.resident.contains(p);
    proof {
        lemma_filter_take_zero(views(all@), pred);
    }
    while i < all.len()
        invariant
            0 <= i <= all@.len(),
            views(all@) == chunks_around(tilemap@.current_chunk, tilemap@.range),
            pred == (|p: (int, int)| !tilemap@.resident.contains(p)),
            events@.len() == views(all@).take(i as int).filter(pred).len(),
            forall|k: int| 0 <= k < events@.len() ==> (#[trigger] events@[k]).tilemap_entity == tilemap_entity
                && events@[k].chunk_index@ == views(all@).take(i as int).filter(pred)[k],
        decreases all@.len() - i,
    {
        proof {
            lemma_filter_take_step(views(all@), i as int, pred);
        }
        if let Some(event) = prepare_event(tilemap, all[i], tilemap_entity) {
            events.push(event);
        }
        i = i + 1;
    }
    proof {
        assert(views(all@).take(all@.len() as int) =~= views(all@));
    }
    events
}

/// Cardinality: for every radius `r >= 0` the neighbourhood holds exactly
/// `(2r + 1)^2` indices.
pub proof fn lemma_chunks_around_len(center: (int, int), range: int)
    requires
        range >= 0,
    ensures
        chunks_around(center, range).len() == (2 * range + 1) * (2 * range + 1),
{
}

/// The neighbourhood holds exactly the indices within the radius on both axes,
/// each once.
pub proof fn lemma_chunks_around_members(center: (int, int), range: int)
    ensures
        chunks_around(center, range).no_duplicates(),
        forall|p: (int, int)| chunks_around(center, range).contains(p)
            <==> in_square(center, effective_range(range), p),
{
    let r = effective_range(range);
    let s = chunks_around(center, range);
    let n = side(r);
    assert forall|i: int, j: int| 0 <= i < s.len() && 0 <= j < s.len() && i != j implies s[i] != s[j] by {
        lemma_square_slot(n, i);
        lemma_square_slot(n, j);
        if s[i] == s[j] {
            assert(i % n == j % n && i / n == j / n);
            vstd::arithmetic::div_mod::lemma_fundamental_div_mod(i, n);
            vstd::arithmetic::div_mod::lemma_fundamental_div_mod(j, n);
        }
    }
    assert forall|p: (int, int)| s.contains(p) <==> in_square(center, r, p) by {
        if s.contains(p) {
            let k = choose|k: int| 0 <= k < s.len() && s[k] == p;
            lemma_square_slot(n, k);
        }
        if in_square(center, r, p) {
            let row = center.1 + r - p.1;
            let col = p.0 - (center.0 - r);
            let k = row * n + col;
            assert(0 <= k < n * n) by (nonlinear_arith)
                requires 0 <= row < n, 0 <= col < n, k == row * n + col;
            lemma_fundamental_div_mod_converse(k, n, row, col);
            assert(s[k] == p);
        }
    }
}

proof fn lemma_square_slot(n: int, k: int)
    requires
        n >= 1,
        0 <= k < n * n,
    ensures
        0 <= k % n < n,
        0 <= k / n < n,
{
    vstd::arithmetic::div_mod::lemma_fundamental_div_mod(k, n);
    assert(0 <= k % n < n) by {
        vstd::arithmetic::div_mod::lemma_mod_pos_bound(k, n);
    }
    assert(0 <= k / n < n) by (nonlinear_arith)
        requires 0 <= k < n * n, k == n * (k / n) + k % n, 0 <= k % n < n, n >= 1;
}

} // verus!
