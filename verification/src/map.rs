use vstd::prelude::*;

verus! {

/// Width and height of the logical grid, fixed for a storage's lifetime.
#[derive(Clone, Copy, Debug, PartialEq, Eq, Structural, Hash)]
pub struct TilemapSize {
    pub x: u32,
    pub y: u32,
}

impl TilemapSize {
    /// Number of cells in the grid: width times height.
    pub open spec fn count_spec(self) -> nat {
        self.x as nat * self.y as nat
    }

    /// Number of cells in the grid, as a machine integer.
    pub fn count(&self) -> (r: usize)
        requires
            self.count_spec() <= usize::MAX,
        ensures
            r == self.count_spec(),
    {
        (self.x as usize) * (self.y as usize)
    }
}

} // verus!
