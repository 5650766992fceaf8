pub mod storage;

use crate::map::TilemapSize;
use vstd::prelude::*;

verus! {

/// A cell coordinate in the logical grid, used as a lookup key.
/// Equality is by value; a position is immutable once created.
#[derive(Clone, Copy, Debug, PartialEq, Eq, Structural, Hash)]
pub struct TilePos {
    pub x: u32,
    pub y: u32,
}

impl TilePos {
    /// Whether this position lies inside a grid of the given size.
    pub open spec fn in_bounds(self, size: TilemapSize) -> bool {
        self.x < size.x && self.y < size.y
    }

    /// Row-major linearization of this position: `y * width + x`.
    pub open spec fn index_spec(self, size: TilemapSize) -> nat {
        self.y as nat * size.x as nat + self.x as nat
    }
}

/// An opaque handle to an externally owned tile entity. The storage only
/// keeps such handles and never manages the entity's lifecycle.
#[derive(Clone, Copy, Debug, PartialEq, Eq, Structural, Hash)]
pub struct TileEntity {
    pub id: u64,
}

} // verus!
