//! The set of resident chunk indices of one tilemap, held in the hash set of
//! `bevy_utils`.
use vstd::prelude::*;
use bevy_utils::HashSet;
use crate::vec2::IVec2;

verus! {

/// A set of chunk indices.
#[verifier::external_body]
pub struct ChunkSet {
    inner: HashSet<(i32, i32)>,
}

/// The chunk indices that a `ChunkSet` holds.
pub uninterp spec fn chunk_set_contents(s: ChunkSet) -> Set<(int, int)>;

impl ChunkSet {
    /// Relies on `Default` for `bevy_utils::HashSet` (hashbrown's `HashSet`):
    /// a new set is empty.
    #[verifier::external_body]
    pub(crate) fn new() -> (r: ChunkSet)
        ensures
            chunk_set_contents(r) == Set::<(int, int)>::empty(),
    {
        ChunkSet { inner: HashSet::default() }
    }

    /// Relies on hashbrown's `HashSet::contains`: whether the index is in the set.
    #[verifier::external_body]
    pub(crate) fn contains(&self, index: IVec2) -> (r: bool)
        ensures
            r == chunk_set_contents(*self).contains(index@),
    {
        self.inner.contains(&(index.x, index.y))
    }

    /// Relies on hashbrown's `HashSet::insert`: the index is added, and the
    /// result says whether it was absent before.
    #[verifier::external_body]
    pub(crate) fn insert(&mut self, index: IVec2) -> (r: bool)
        ensures
            chunk_set_contents(*final(self)) == chunk_set_contents(*old(self)).insert(index@),
            r == !chunk_set_contents(*old(self)).contains(index@),
    {
        self.inner.insert((index.x, index.y))
    }

    /// Relies on hashbrown's `HashSet::remove`: the index is taken out, and the
    /// result says whether it was present before.
    #[verifier::external_body]
    pub(crate) fn remove(&mut self, index: IVec2) -> (r: bool)
        ensures
            chunk_set_contents(*final(self)) == chunk_set_contents(*old(self)).remove(index@),
            r == chunk_set_contents(*old(self)).contains(index@),
    {
        self.inner.remove(&(index.x, index.y))
    }

    /// Relies on hashbrown's `HashSet::len`: the number of indices in the set.
    #[verifier::external_body]
    pub(crate) fn len(&self) -> (r: usize)
        ensures
            r == chunk_set_contents(*self).len(),
    {
        self.inner.len()
    }
}

} // verus!
