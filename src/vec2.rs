use vstd::prelude::*;

verus! {

/// A 2D vector of signed 32-bit integers: a chunk index or a tile index.
#[derive(Clone, Copy, Debug, PartialEq, Eq, Hash, Structural)]
pub struct IVec2 {
    pub x: i32,
    pub y: i32,
}

/// A 2D extent of unsigned 32-bit integers: a chunk size in tiles, or a tile
/// size in world units.
#[derive(Clone, Copy, Debug, PartialEq, Eq, Hash, Structural)]
pub struct UVec2 {
    pub x: u32,
    pub y: u32,
}

/// A position in the world, in whole world units. World Y grows upward.
#[derive(Clone, Copy, Debug, PartialEq, Eq, Hash, Structural)]
pub struct WorldPos {
    pub x: i64,
    pub y: i64,
}

impl View for IVec2 {
    type V = (int, int);

    open spec fn view(&self) -> (int, int) {
        (self.x as int, self.y as int)
    }
}

impl View for UVec2 {
    type V = (int, int);

    open spec fn view(&self) -> (int, int) {
        (self.x as int, self.y as int)
    }
}

impl View for WorldPos {
    type V = (int, int);

    open spec fn view(&self) -> (int, int) {
        (self.x as int, self.y as int)
    }
}

pub open spec fn is_i32(v: int) -> bool {
    i32::MIN <= v <= i32::MAX
}

pub open spec fn is_i64(v: int) -> bool {
    i64::MIN <= v <= i64::MAX
}

impl IVec2 {
    pub fn new(x: i32, y: i32) -> (r: IVec2)
        ensures
            r.x == x,
            r.y == y,
    {
        IVec2 { x, y }
    }
}

impl UVec2 {
    pub fn new(x: u32, y: u32) -> (r: UVec2)
        ensures
            r.x == x,
            r.y == y,
    {
        UVec2 { x, y }
    }

    /// Both components are at least one.
    pub open spec fn is_positive(self) -> bool {
        self.x >= 1 && self.y >= 1
    }
}

impl WorldPos {
    pub fn new(x: i64, y: i64) -> (r: WorldPos)
        ensures
            r.x == x,
            r.y == y,
    {
        WorldPos { x, y }
    }
}

} // verus!
