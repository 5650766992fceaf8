use crate::helpers;
use crate::map::TilemapSize;
use crate::tiles::TileEntity;
use crate::tiles::TilePos;
use std::collections::HashMap;
use vstd::prelude::*;

verus! {

/// Which backing representation a storage was created with. The mode is
/// chosen at construction and fixed for the storage's lifetime.
#[derive(Clone, Debug)]
pub enum TileStorageMode {
    DenseVec,
    SparseHashMap,
}

impl Default for TileStorageMode {
    fn default() -> (r: Self)
        ensures
            r is DenseVec,
    {
        TileStorageMode::DenseVec
    }
}

/// Our assumption of the ratio of populated vs empty tiles in sparse
/// storages; only a capacity heuristic, never affecting correctness.
pub const SPARSE_TO_DENSE_RATIO: usize = 4;

/// The mode-dependent backing data. Dense keeps one slot per grid cell,
/// indexed by the row-major position index. Sparse keeps three co-indexed
/// structures: a mapping from position index to an internal slot, the slots
/// themselves, and a back-mapping from internal slot to position.
///
/// The representation is public so that the specification functions over it
/// stay transparent; mutate a storage only through its methods, which keep
/// the sparse structures consistent.
#[derive(Clone, Debug)]
pub enum TileStorageData {
    Dense { tiles: Vec<Option<TileEntity>> },
    Sparse {
        position_to_index: HashMap<u64, usize>,
        tiles: Vec<Option<TileEntity>>,
        index_to_position: Vec<TilePos>,
    },
}

/// Used to store tile entities for fast look up.
/// Tile entities are stored in a grid of fixed size, in one of two backing
/// representations chosen at construction time.
#[derive(Clone, Debug)]
pub struct TileStorage {
    pub data: TileStorageData,
    pub size: TilemapSize,
}

impl TileStorage {
    /// The mode this storage was created with.
    pub open spec fn mode_spec(self) -> TileStorageMode {
        match self.data {
            TileStorageData::Dense { .. } => TileStorageMode::DenseVec,
            TileStorageData::Sparse { .. } => TileStorageMode::SparseHashMap,
        }
    }

    /// The sparse mapping from row-major position index to internal slot;
    /// empty in dense mode.
    pub open spec fn mapping(self) -> Map<u64, usize> {
        match self.data {
            TileStorageData::Dense { .. } => Map::empty(),
            TileStorageData::Sparse { position_to_index, .. } => position_to_index@,
        }
    }

    /// The sparse back-mapping from internal slot to position; empty in
    /// dense mode.
    pub open spec fn back_seq(self) -> Seq<TilePos> {
        match self.data {
            TileStorageData::Dense { .. } => Seq::empty(),
            TileStorageData::Sparse { index_to_position, .. } => index_to_position@,
        }
    }

    /// The sequence of slots that `iter` walks: every cell in dense mode,
    /// only the occupied cells in sparse mode.
    pub open spec fn iter_seq(self) -> Seq<Option<TileEntity>> {
        match self.data {
            TileStorageData::Dense { tiles } => tiles@,
            TileStorageData::Sparse { tiles, .. } => tiles@,
        }
    }

    /// Consistency of the three sparse structures: equal lengths, the
    /// mapping is a bijection onto the slot range, the back-mapping inverts
    /// it, and no occupied slot holds an absent reference.
    pub open spec fn sparse_consistent(self) -> bool {
        sparse_ok(self.size, self.mapping(), self.iter_seq(), self.back_seq())
    }

    /// Well-formedness: dense mode has one slot per cell; sparse mode keeps
    /// its three structures consistent.
    pub open spec fn wf(self) -> bool {
        &&& self.mode_spec() is DenseVec ==> self.iter_seq().len() == self.size.count_spec()
        &&& self.mode_spec() is SparseHashMap ==> self.sparse_consistent()
    }

    /// The value stored at a position: a direct slot read in dense mode, a
    /// mapping lookup in sparse mode, where an absent key means empty.
    pub open spec fn spec_get(self, p: TilePos) -> Option<TileEntity> {
        if self.mode_spec() is DenseVec {
            self.iter_seq()[p.index_spec(self.size) as int]
        } else {
            sparse_get(self.size, self.mapping(), self.iter_seq(), p)
        }
    }

    /// How many cells of the storage hold a present value.
    pub open spec fn occupied(self) -> nat {
        count_some(self.iter_seq())
    }
}

/// Consistency of a sparse triple for a grid of the given size: the mapping
/// `m` (row-major position index to slot), the slots `t`, and the
/// back-mapping `b` (slot to position) have equal lengths, `b` inverts `m`,
/// and every slot holds a present value.
pub open spec fn sparse_ok(
    size: TilemapSize,
    m: Map<u64, usize>,
    t: Seq<Option<TileEntity>>,
    b: Seq<TilePos>,
) -> bool {
    &&& m.len() == t.len()
    &&& b.len() == t.len()
    &&& forall|i: int|
        0 <= i < b.len() ==> {
            let p = #[trigger] b[i];
            &&& p.in_bounds(size)
            &&& m.contains_key(p.index_spec(size) as u64)
            &&& m[p.index_spec(size) as u64] == i
            &&& t[i] is Some
        }
    &&& forall|k: u64|
        #[trigger] m.contains_key(k) ==> {
            &&& m[k] < t.len()
            &&& b[m[k] as int].index_spec(size) == k
        }
}

/// The value a sparse triple holds at position `p`: a mapping lookup, where
/// an absent key means empty.
pub open spec fn sparse_get(
    size: TilemapSize,
    m: Map<u64, usize>,
    t: Seq<Option<TileEntity>>,
    p: TilePos,
) -> Option<TileEntity> {
    let k = p.index_spec(size) as u64;
    if m.contains_key(k) {
        t[m[k] as int]
    } else {
        None
    }
}

/// Number of present values among a sequence of slots.
pub open spec fn count_some(s: Seq<Option<TileEntity>>) -> nat
    decreases s.len(),
{
    if s.len() == 0 {
        0
    } else {
        count_some(s.drop_last()) + (if s.last() is Some {
            1nat
        } else {
            0nat
        })
    }
}

/// Overwriting one slot changes the count of present values by the
/// difference between the new and the old slot.
proof fn lemma_count_some_update(s: Seq<Option<TileEntity>>, i: int, v: Option<TileEntity>)
    requires
        0 <= i < s.len(),
    ensures
        count_some(s.update(i, v)) + (if s[i] is Some {
            1nat
        } else {
            0nat
        }) == count_some(s) + (if v is Some {
            1nat
        } else {
            0nat
        }),
    decreases s.len(),
{
    let u = s.update(i, v);
    if i == s.len() - 1 {
        assert(u.drop_last() =~= s.drop_last());
    } else {
        assert(u.drop_last() =~= s.drop_last().update(i, v));
        lemma_count_some_update(s.drop_last(), i, v);
    }
}

/// In a sequence whose slots are all present, the count of present values
/// is the length.
proof fn lemma_count_some_all_present(s: Seq<Option<TileEntity>>)
    requires
        forall|i: int| 0 <= i < s.len() ==> s[i] is Some,
    ensures
        count_some(s) == s.len(),
    decreases s.len(),
{
    if s.len() > 0 {
        lemma_count_some_all_present(s.drop_last());
    }
}

impl View for TileStorage {
    type V = Map<TilePos, Option<TileEntity>>;

    /// A storage is viewed as the map from every in-bounds position to the
    /// value of its cell.
    open spec fn view(&self) -> Self::V {
        Map::new(|p: TilePos| p.in_bounds(self.size), |p: TilePos| self.spec_get(p))
    }
}

/// The view of a storage of the given size in which every cell is empty.
pub open spec fn empty_grid(size: TilemapSize) -> Map<TilePos, Option<TileEntity>> {
    Map::new(|p: TilePos| p.in_bounds(size), |p: TilePos| None)
}

impl TileStorage {
    /// Creates a new tile storage that is empty.
    pub fn empty(size: TilemapSize, mode: TileStorageMode) -> (r: Self)
        requires
            size.count_spec() <= usize::MAX,
        ensures
            r.wf(),
            r.size == size,
            r.mode_spec() == mode,
            r@ == empty_grid(size),
            r.iter_seq().len() == (if mode is DenseVec {
                size.count_spec()
            } else {
                0nat
            }),
    {
        let r = match mode {
            TileStorageMode::DenseVec => {
                let count = size.count();
                let mut tiles: Vec<Option<TileEntity>> = Vec::with_capacity(count);
                let mut i: usize = 0;
                while i < count
                    invariant
                        i <= count,
                        tiles@.len() == i,
                        forall|j: int| 0 <= j < i ==> tiles@[j] is None,
                    decreases count - i,
                {
                    tiles.push(None);
                    i += 1;
                }
                Self { data: TileStorageData::Dense { tiles }, size }
            },
            TileStorageMode::SparseHashMap => {
                let cap = size.count() / SPARSE_TO_DENSE_RATIO;
                Self {
                    data: TileStorageData::Sparse {
                        position_to_index: HashMap::with_capacity(cap),
                        tiles: Vec::with_capacity(cap),
                        index_to_position: Vec::with_capacity(cap),
                    },
                    size,
                }
            },
        };
        proof {
            assert forall|p: TilePos| p.in_bounds(size) implies r.spec_get(p)
                == None::<TileEntity> by {
                if r.mode_spec() is DenseVec {
                    helpers::lemma_index_in_range(p, size);
                }
            }
            assert(r@ =~= empty_grid(size));
        }
        r
    }

    /// Gets the tile entity stored at the given position.
    pub fn get(&self, tile_pos: &TilePos) -> (r: Option<TileEntity>)
        requires
            self.wf(),
            tile_pos.in_bounds(self.size),
        ensures
            r == self@[*tile_pos],
    {
        match &self.data {
            TileStorageData::Dense { tiles } => {
                // One slot per cell, so the verifier sees that the cell
                // count fits in a machine word.
                let _n: usize = tiles.len();
                let i = helpers::pos_2d_to_index(tile_pos, &self.size);
                tiles[i]
            },
            TileStorageData::Sparse { position_to_index, tiles, .. } => {
                let k = pos_key(tile_pos, &self.size);
                match position_to_index.get(&k) {
                    None => None,
                    Some(index) => tiles[*index],
                }
            },
        }
    }
}

/// Two in-bounds positions with the same 64-bit mapping key are the same
/// position.
proof fn lemma_key_injective(p: TilePos, q: TilePos, size: TilemapSize)
    requires
        p.in_bounds(size),
        q.in_bounds(size),
        p.index_spec(size) as u64 == q.index_spec(size) as u64,
    ensures
        p == q,
{
    crate::helpers::lemma_index_fits_u64(p, size);
    crate::helpers::lemma_index_fits_u64(q, size);
    crate::helpers::lemma_index_injective(p, q, size);
}

impl TileStorage {
    /// Sets the tile entity for the given position: an unconditional
    /// overwrite in dense mode. In sparse mode a present value is inserted
    /// or overwritten in place, and an empty value removes the position,
    /// since absence is modeled by the key's absence from the mapping.
    pub fn set(&mut self, tile_pos: &TilePos, tile_entity: Option<TileEntity>)
        requires
            old(self).wf(),
            tile_pos.in_bounds(old(self).size),
        ensures
            final(self).wf(),
            final(self).size == old(self).size,
            final(self).mode_spec() == old(self).mode_spec(),
            final(self)@ == old(self)@.insert(*tile_pos, tile_entity),
            final(self).occupied() + (if old(self)@[*tile_pos] is Some {
                1nat
            } else {
                0nat
            }) == old(self).occupied() + (if tile_entity is Some {
                1nat
            } else {
                0nat
            }),
    {
        let sparse = match &self.data {
            TileStorageData::Sparse { .. } => true,
            TileStorageData::Dense { .. } => false,
        };
        if sparse && tile_entity.is_none() {
            // We do not write an empty slot: the position leaves the mapping.
            self.remove(tile_pos);
        } else {
            match &mut self.data {
                TileStorageData::Dense { tiles } => {
                    // One slot per cell, so the verifier sees that the cell
                    // count fits in a machine word.
                    let _n: usize = tiles.len();
                    let i = helpers::pos_2d_to_index(tile_pos, &self.size);
                    tiles[i] = tile_entity;
                },
                TileStorageData::Sparse { position_to_index, tiles, index_to_position } => {
                    sparse_set_present(
                        position_to_index,
                        tiles,
                        index_to_position,
                        &self.size,
                        tile_pos,
                        tile_entity,
                    );
                },
            }
            proof {
                self.lemma_update_view(*old(self), *tile_pos, tile_entity);
            }
        }
    }

    /// Removes the tile entity at the given position. In dense mode this is
    /// equivalent to setting the slot empty; in sparse mode the position's
    /// mapping entry is deleted, and removing an absent position is a
    /// silent no-op.
    pub fn remove(&mut self, tile_pos: &TilePos)
        requires
            old(self).wf(),
            tile_pos.in_bounds(old(self).size),
        ensures
            final(self).wf(),
            final(self).size == old(self).size,
            final(self).mode_spec() == old(self).mode_spec(),
            final(self)@ == old(self)@.insert(*tile_pos, None),
            final(self).occupied() + (if old(self)@[*tile_pos] is Some {
                1nat
            } else {
                0nat
            }) == old(self).occupied(),
    {
        match &mut self.data {
            TileStorageData::Dense { tiles } => {
                // One slot per cell, so the verifier sees that the cell
                // count fits in a machine word.
                let _n: usize = tiles.len();
                let i = helpers::pos_2d_to_index(tile_pos, &self.size);
                tiles[i] = None;
            },
            TileStorageData::Sparse { position_to_index, tiles, index_to_position } => {
                sparse_remove(position_to_index, tiles, index_to_position, &self.size, tile_pos);
            },
        }
        proof {
            self.lemma_update_view(*old(self), *tile_pos, None);
        }
    }

    /// Returns the slots of the grid as a fresh vector: every cell in
    /// linear index order in dense mode, only the occupied cells in sparse
    /// mode, in an unspecified order with no positional correspondence
    /// implied. Each call yields a fresh pass from the start.
    pub fn iter(&self) -> (r: Vec<Option<TileEntity>>)
        requires
            self.wf(),
        ensures
            r@ == self.iter_seq(),
            self.mode_spec() is DenseVec ==> r@.len() == self.size.count_spec(),
            self.mode_spec() is SparseHashMap ==> r@.len() == self.occupied(),
            self.mode_spec() is DenseVec ==> forall|p: TilePos|
                p.in_bounds(self.size) ==> r@[p.index_spec(self.size) as int] == self@[p],
            self.mode_spec() is SparseHashMap ==> forall|i: int|
                0 <= i < r@.len() ==> r@[i] is Some,
            self.mode_spec() is SparseHashMap ==> forall|i: int|
                0 <= i < r@.len() ==> exists|p: TilePos|
                    p.in_bounds(self.size) && self@[p] == #[trigger] r@[i],
            forall|p: TilePos|
                p.in_bounds(self.size) && self@[p] is Some ==> exists|i: int|
                    0 <= i < r@.len() && r@[i] == self@[p],
    {
        let tiles = match &self.data {
            TileStorageData::Dense { tiles } => tiles,
            TileStorageData::Sparse { tiles, .. } => tiles,
        };
        let mut r: Vec<Option<TileEntity>> = Vec::new();
        let mut i: usize = 0;
        while i < tiles.len()
            invariant
                i <= tiles@.len(),
                r@.len() == i,
                forall|j: int| 0 <= j < i ==> r@[j] == tiles@[j],
            decreases tiles@.len() - i,
        {
            r.push(tiles[i]);
            i += 1;
        }
        proof {
            assert(r@ =~= self.iter_seq());
            if self.mode_spec() is DenseVec {
                assert forall|p: TilePos| p.in_bounds(self.size) implies r@[p.index_spec(self.size)
                    as int] == self@[p] by {
                    helpers::lemma_index_in_range(p, self.size);
                }
                assert forall|p: TilePos| p.in_bounds(self.size) && self@[p] is Some implies exists|
                    j: int,
                |
                    0 <= j < r@.len() && r@[j] == self@[p] by {
                    helpers::lemma_index_in_range(p, self.size);
                    let j = p.index_spec(self.size) as int;
                    assert(0 <= j < r@.len() && r@[j] == self@[p]);
                }
            } else {
                assert forall|j: int| 0 <= j < r@.len() implies r@[j] is Some by {
                    assert(self.back_seq()[j].in_bounds(self.size));
                }
                assert forall|j: int| 0 <= j < r@.len() implies exists|p: TilePos|
                    p.in_bounds(self.size) && self@[p] == #[trigger] r@[j] by {
                    let p = self.back_seq()[j];
                    assert(p.in_bounds(self.size) && self@[p] == r@[j]);
                }
                assert forall|p: TilePos| p.in_bounds(self.size) && self@[p] is Some implies exists|
                    j: int,
                |
                    0 <= j < r@.len() && r@[j] == self@[p] by {
                    let k = p.index_spec(self.size) as u64;
                    assert(self.mapping().contains_key(k));
                    let j = self.mapping()[k] as int;
                    assert(0 <= j < r@.len() && r@[j] == self@[p]);
                }
                lemma_count_some_all_present(self.iter_seq());
            }
        }
        r
    }

    /// The position whose cell the iteration slot `i` belongs to: the
    /// position with linear index `i` in dense mode, the back-mapping entry
    /// in sparse mode.
    pub open spec fn slot_pos(self, i: int) -> TilePos {
        if self.mode_spec() is DenseVec {
            TilePos {
                x: (i % (self.size.x as int)) as u32,
                y: (i / (self.size.x as int)) as u32,
            }
        } else {
            self.back_seq()[i]
        }
    }

    /// Overwrites the slot at iteration index `i`: the verifiable
    /// counterpart of handing out mutable references to the slots that
    /// `iter` walks. A dense slot may take any value; a sparse slot holds
    /// only present values, since absence is modeled by absence from the
    /// mapping.
    pub fn iter_mut(&mut self, i: usize, tile_entity: Option<TileEntity>)
        requires
            old(self).wf(),
            i < old(self).iter_seq().len(),
            old(self).mode_spec() is SparseHashMap ==> tile_entity is Some,
        ensures
            final(self).wf(),
            final(self).size == old(self).size,
            final(self).mode_spec() == old(self).mode_spec(),
            final(self).iter_seq() == old(self).iter_seq().update(i as int, tile_entity),
            old(self).slot_pos(i as int).in_bounds(old(self).size),
            final(self)@ == old(self)@.insert(old(self).slot_pos(i as int), tile_entity),
            final(self).occupied() + (if old(self)@[old(self).slot_pos(i as int)] is Some {
                1nat
            } else {
                0nat
            }) == old(self).occupied() + (if tile_entity is Some {
                1nat
            } else {
                0nat
            }),
    {
        match &mut self.data {
            TileStorageData::Dense { tiles } => {
                tiles[i] = tile_entity;
            },
            TileStorageData::Sparse { tiles, .. } => {
                tiles[i] = tile_entity;
            },
        }
        proof {
            let p = old(self).slot_pos(i as int);
            if self.mode_spec() is DenseVec {
                helpers::lemma_index_decompose(i as int, self.size);
                self.lemma_update_view(*old(self), p, tile_entity);
            } else {
                let m0 = old(self).mapping();
                let t0 = old(self).iter_seq();
                let b0 = old(self).back_seq();
                let kp = p.index_spec(old(self).size) as u64;
                assert(m0.contains_key(kp) && m0[kp] == i);
                assert forall|j: int| 0 <= j < self.back_seq().len() implies {
                    let q = #[trigger] self.back_seq()[j];
                    &&& q.in_bounds(self.size)
                    &&& self.mapping().contains_key(q.index_spec(self.size) as u64)
                    &&& self.mapping()[q.index_spec(self.size) as u64] == j
                    &&& self.iter_seq()[j] is Some
                } by {
                    assert(b0[j].in_bounds(old(self).size));
                }
                assert forall|q: TilePos| q.in_bounds(self.size) && q != p implies sparse_get(
                    self.size,
                    self.mapping(),
                    self.iter_seq(),
                    q,
                ) == sparse_get(old(self).size, m0, t0, q) by {
                    let kq = q.index_spec(self.size) as u64;
                    if kq == kp {
                        lemma_key_injective(q, p, self.size);
                    }
                    if m0.contains_key(kq) {
                        let j = m0[kq] as int;
                        assert(b0[j].index_spec(old(self).size) == kq);
                        assert(b0[i as int].index_spec(old(self).size) == kp);
                    }
                }
                self.lemma_update_view(*old(self), p, tile_entity);
            }
        }
    }

    /// After a dense slot write or a sparse helper call that changed the
    /// cell at `p` to `v` and nothing else, the new view is the old view
    /// with `p` pointing at `v`, and the occupancy count moved by the
    /// difference between `v` and the old cell.
    proof fn lemma_update_view(self, prev: Self, p: TilePos, v: Option<TileEntity>)
        requires
            prev.wf(),
            p.in_bounds(prev.size),
            self.size == prev.size,
            self.mode_spec() == prev.mode_spec(),
            self.mode_spec() is DenseVec ==> self.iter_seq() == prev.iter_seq().update(
                p.index_spec(prev.size) as int,
                v,
            ),
            self.mode_spec() is SparseHashMap ==> {
                &&& sparse_ok(self.size, self.mapping(), self.iter_seq(), self.back_seq())
                &&& sparse_get(self.size, self.mapping(), self.iter_seq(), p) == v
                &&& forall|q: TilePos|
                    q.in_bounds(self.size) && q != p ==> sparse_get(
                        self.size,
                        self.mapping(),
                        self.iter_seq(),
                        q,
                    ) == sparse_get(prev.size, prev.mapping(), prev.iter_seq(), q)
                &&& self.iter_seq().len() + (if prev.mapping().contains_key(
                    p.index_spec(prev.size) as u64,
                ) {
                    1nat
                } else {
                    0nat
                }) == prev.iter_seq().len() + (if v is Some {
                    1nat
                } else {
                    0nat
                })
            },
        ensures
            self.wf(),
            self@ == prev@.insert(p, v),
            self.occupied() + (if prev@[p] is Some {
                1nat
            } else {
                0nat
            }) == prev.occupied() + (if v is Some {
                1nat
            } else {
                0nat
            }),
    {
        if self.mode_spec() is DenseVec {
            helpers::lemma_index_in_range(p, prev.size);
            lemma_count_some_update(prev.iter_seq(), p.index_spec(prev.size) as int, v);
            assert forall|q: TilePos| q.in_bounds(self.size) implies self.spec_get(q) == prev@.insert(
                p,
                v,
            )[q] by {
                helpers::lemma_index_in_range(q, self.size);
                if q.index_spec(self.size) == p.index_spec(self.size) {
                    helpers::lemma_index_injective(q, p, self.size);
                }
            }
            assert(self@ =~= prev@.insert(p, v));
        } else {
            assert forall|j: int| 0 <= j < prev.iter_seq().len() implies prev.iter_seq()[j]
                is Some by {
                assert(prev.back_seq()[j].in_bounds(prev.size));
            }
            lemma_count_some_all_present(prev.iter_seq());
            assert forall|j: int| 0 <= j < self.iter_seq().len() implies self.iter_seq()[j]
                is Some by {
                assert(self.back_seq()[j].in_bounds(self.size));
            }
            lemma_count_some_all_present(self.iter_seq());
            assert forall|q: TilePos| q.in_bounds(self.size) implies self.spec_get(q) == prev@.insert(
                p,
                v,
            )[q] by {
                if q != p {
                    assert(sparse_get(self.size, self.mapping(), self.iter_seq(), q) == sparse_get(
                        prev.size,
                        prev.mapping(),
                        prev.iter_seq(),
                        q,
                    ));
                }
            }
            assert(self@ =~= prev@.insert(p, v));
        }
    }
}

impl Default for TileStorage {
    /// An empty dense storage of size zero, matching the default mode.
    fn default() -> (r: Self)
        ensures
            r.wf(),
            r.size == (TilemapSize { x: 0, y: 0 }),
            r.mode_spec() is DenseVec,
            r.occupied() == 0,
    {
        TileStorage {
            data: TileStorageData::Dense { tiles: Vec::new() },
            size: TilemapSize { x: 0, y: 0 },
        }
    }
}

/// One operation on the grid: setting a cell to a value, or removing it.
#[derive(Clone, Copy, Debug)]
pub enum GridOp {
    SetTile(TilePos, Option<TileEntity>),
    RemoveTile(TilePos),
}

impl GridOp {
    /// The position the operation touches.
    pub open spec fn pos(self) -> TilePos {
        match self {
            GridOp::SetTile(p, _) => p,
            GridOp::RemoveTile(p) => p,
        }
    }

    /// What the operation does to a grid view, independent of the storage
    /// mode: the touched cell takes the written value, or becomes empty.
    pub open spec fn apply_spec(self, v: Map<TilePos, Option<TileEntity>>) -> Map<
        TilePos,
        Option<TileEntity>,
    > {
        match self {
            GridOp::SetTile(p, e) => v.insert(p, e),
            GridOp::RemoveTile(p) => v.insert(p, None),
        }
    }
}

/// The grid view after a sequence of operations has been applied in order.
pub open spec fn apply_ops(
    v: Map<TilePos, Option<TileEntity>>,
    ops: Seq<GridOp>,
) -> Map<TilePos, Option<TileEntity>>
    decreases ops.len(),
{
    if ops.len() == 0 {
        v
    } else {
        apply_ops(ops[0].apply_spec(v), ops.drop_first())
    }
}

impl TileStorage {
    /// Performs one operation on the storage; the view changes exactly as
    /// `GridOp::apply_spec` says, whatever the storage mode.
    pub fn apply(&mut self, op: &GridOp)
        requires
            old(self).wf(),
            op.pos().in_bounds(old(self).size),
        ensures
            final(self).wf(),
            final(self).size == old(self).size,
            final(self).mode_spec() == old(self).mode_spec(),
            final(self)@ == op.apply_spec(old(self)@),
    {
        match op {
            GridOp::SetTile(p, e) => self.set(p, *e),
            GridOp::RemoveTile(p) => self.remove(p),
        }
    }
}

/// Law: writing a cell and reading it back yields the written value,
/// present or empty. `set` pins the new view to `insert` in either mode,
/// and `get` returns exactly the view's cell, so the read is the write.
pub proof fn lemma_set_then_get(
    v: Map<TilePos, Option<TileEntity>>,
    p: TilePos,
    e: Option<TileEntity>,
)
    ensures
        v.insert(p, e)[p] == e,
{
}

/// Law: removing a cell twice in a row is the same as removing it once,
/// and the cell reads back empty after either. `remove` pins the new view
/// to `insert` of an empty cell, and inserting the same empty cell again
/// changes nothing.
pub proof fn lemma_remove_idempotent(v: Map<TilePos, Option<TileEntity>>, p: TilePos)
    ensures
        v.insert(p, None).insert(p, None) == v.insert(p, None),
        v.insert(p, None)[p] is None,
{
    assert(v.insert(p, None).insert(p, None) =~= v.insert(p, None));
}

/// Law: cross-mode equivalence. The contracts of `set` and `remove` change
/// the view by `GridOp::apply_spec` alone, never consulting the mode, so
/// a dense and a sparse storage of the same size whose cells agree still
/// agree on every cell after any common sequence of operations, at every
/// intermediate step.
pub proof fn lemma_cross_mode_equivalence(
    a: Map<TilePos, Option<TileEntity>>,
    b: Map<TilePos, Option<TileEntity>>,
    ops: Seq<GridOp>,
)
    requires
        a == b,
    ensures
        forall|n: int|
            0 <= n <= ops.len() ==> apply_ops(a, ops.take(n)) == apply_ops(b, ops.take(n)),
{
}

/// Law: the sparse consistency invariant. A well-formed sparse storage has
/// a mapping, a slot sequence, and a back-mapping of equal sizes, and the
/// back-mapping inverts the mapping: the entry for every mapped key names a
/// position that linearizes back to that key. `empty` establishes `wf` and
/// every mutator's contract preserves it, so this holds after any sequence
/// of operations.
pub proof fn lemma_sparse_consistency(s: TileStorage)
    requires
        s.wf(),
        s.mode_spec() is SparseHashMap,
    ensures
        s.mapping().len() == s.iter_seq().len(),
        s.back_seq().len() == s.iter_seq().len(),
        forall|k: u64|
            #[trigger] s.mapping().contains_key(k) ==> s.mapping()[k] < s.iter_seq().len()
                && s.back_seq()[s.mapping()[k] as int].index_spec(s.size) == k,
{
}

/// Sparse-mode insertion of a present value: overwrite the slot in place if
/// the position is already mapped, otherwise append a new slot and map the
/// position to it.
fn sparse_set_present(
    position_to_index: &mut HashMap<u64, usize>,
    tiles: &mut Vec<Option<TileEntity>>,
    index_to_position: &mut Vec<TilePos>,
    size: &TilemapSize,
    tile_pos: &TilePos,
    tile_entity: Option<TileEntity>,
)
    requires
        sparse_ok(*size, old(position_to_index)@, old(tiles)@, old(index_to_position)@),
        tile_pos.in_bounds(*size),
        tile_entity is Some,
    ensures
        sparse_ok(*size, final(position_to_index)@, final(tiles)@, final(index_to_position)@),
        sparse_get(*size, final(position_to_index)@, final(tiles)@, *tile_pos) == tile_entity,
        forall|q: TilePos|
            q.in_bounds(*size) && q != *tile_pos ==> sparse_get(
                *size,
                final(position_to_index)@,
                final(tiles)@,
                q,
            ) == sparse_get(*size, old(position_to_index)@, old(tiles)@, q),
        final(tiles)@.len() == old(tiles)@.len() + (if old(position_to_index)@.contains_key(
            tile_pos.index_spec(*size) as u64,
        ) {
            0nat
        } else {
            1nat
        }),
{
    let ghost m0 = old(position_to_index)@;
    let ghost t0 = old(tiles)@;
    let ghost b0 = old(index_to_position)@;
    let k = pos_key(tile_pos, size);
    let existing: Option<usize> = match position_to_index.get(&k) {
        None => None,
        Some(r) => Some(*r),
    };
    match existing {
        Some(existing_index) => {
            tiles[existing_index] = tile_entity;
            proof {
                let j = m0[k] as int;
                assert forall|q: TilePos| q.in_bounds(*size) && q != *tile_pos implies sparse_get(
                    *size,
                    position_to_index@,
                    tiles@,
                    q,
                ) == sparse_get(*size, m0, t0, q) by {
                    let kq = q.index_spec(*size) as u64;
                    if kq == k {
                        lemma_key_injective(q, *tile_pos, *size);
                    }
                    if m0.contains_key(kq) && kq != k {
                        assert(b0[m0[kq] as int].index_spec(*size) == kq);
                        assert(b0[j].index_spec(*size) == k);
                    }
                }
            }
        },
        None => {
            tiles.push(tile_entity);
            index_to_position.push(*tile_pos);
            let n = tiles.len();
            position_to_index.insert(k, n - 1);
            proof {
                let n0 = t0.len() as int;
                assert(position_to_index@.dom() =~= m0.dom().insert(k));
                assert(position_to_index@.len() == m0.len() + 1);
                assert forall|i: int| 0 <= i < index_to_position@.len() implies {
                    let p = #[trigger] index_to_position@[i];
                    &&& p.in_bounds(*size)
                    &&& position_to_index@.contains_key(p.index_spec(*size) as u64)
                    &&& position_to_index@[p.index_spec(*size) as u64] == i
                    &&& tiles@[i] is Some
                } by {
                    if i < n0 {
                        assert(b0[i].in_bounds(*size));
                        assert(m0.contains_key(b0[i].index_spec(*size) as u64));
                    }
                }
                assert forall|q: TilePos| q.in_bounds(*size) && q != *tile_pos implies sparse_get(
                    *size,
                    position_to_index@,
                    tiles@,
                    q,
                ) == sparse_get(*size, m0, t0, q) by {
                    let kq = q.index_spec(*size) as u64;
                    if kq == k {
                        lemma_key_injective(q, *tile_pos, *size);
                    }
                }
            }
        },
    }
}

/// Sparse-mode removal: delete the position's mapping entry and, if one
/// existed, swap-remove its slot in both sequences and re-point the mapping
/// entry of the slot that moved in; the last remaining slot is cleared
/// without a swap, avoiding a degenerate swap with itself.
fn sparse_remove(
    position_to_index: &mut HashMap<u64, usize>,
    tiles: &mut Vec<Option<TileEntity>>,
    index_to_position: &mut Vec<TilePos>,
    size: &TilemapSize,
    tile_pos: &TilePos,
)
    requires
        sparse_ok(*size, old(position_to_index)@, old(tiles)@, old(index_to_position)@),
        tile_pos.in_bounds(*size),
    ensures
        sparse_ok(*size, final(position_to_index)@, final(tiles)@, final(index_to_position)@),
        !final(position_to_index)@.contains_key(tile_pos.index_spec(*size) as u64),
        forall|q: TilePos|
            q.in_bounds(*size) && q != *tile_pos ==> sparse_get(
                *size,
                final(position_to_index)@,
                final(tiles)@,
                q,
            ) == sparse_get(*size, old(position_to_index)@, old(tiles)@, q),
        final(tiles)@.len() + (if old(position_to_index)@.contains_key(
            tile_pos.index_spec(*size) as u64,
        ) {
            1nat
        } else {
            0nat
        }) == old(tiles)@.len(),
{
    let ghost m0 = old(position_to_index)@;
    let ghost t0 = old(tiles)@;
    let ghost b0 = old(index_to_position)@;
    let k = pos_key(tile_pos, size);
    let removed = position_to_index.remove(&k);
    if let Some(removed_index) = removed {
        proof {
            assert(m0.contains_key(k) && m0[k] == removed_index);
            assert(position_to_index@.dom() =~= m0.dom().remove(k));
        }
        if tiles.len() > 1 {
            tiles.swap_remove(removed_index);
            index_to_position.swap_remove(removed_index);
            if removed_index < tiles.len() {
                proof {
                    assert(index_to_position@[removed_index as int] == b0[t0.len() - 1]);
                }
                let replacement_tile_pos = index_to_position[removed_index];
                let rk = pos_key(&replacement_tile_pos, size);
                position_to_index.insert(rk, removed_index);
            }
            proof {
                let mf = position_to_index@;
                let tf = tiles@;
                let bf = index_to_position@;
                let m1 = m0.remove(k);
                let n = t0.len() as int;
                let i = removed_index as int;
                assert(b0[i].index_spec(*size) == k);
                assert(m1.len() == m0.len() - 1);
                if i < n - 1 {
                    let pm = b0[n - 1];
                    let rk = pm.index_spec(*size) as u64;
                    assert(m0.contains_key(rk) && m0[rk] == n - 1);
                    assert(rk != k);
                    assert(mf == m1.insert(rk, removed_index));
                    assert(mf.dom() =~= m1.dom().insert(rk));
                    assert(m1.contains_key(rk));
                    assert(mf.len() == m1.len());
                    assert(bf[i] == pm);
                    assert(tf[i] == t0[n - 1]);
                    assert forall|j: int| 0 <= j < bf.len() implies {
                        let p = #[trigger] bf[j];
                        &&& p.in_bounds(*size)
                        &&& mf.contains_key(p.index_spec(*size) as u64)
                        &&& mf[p.index_spec(*size) as u64] == j
                        &&& tf[j] is Some
                    } by {
                        if j == i {
                            assert(bf[j] == pm);
                        } else {
                            assert(bf[j] == b0[j]);
                            let kj = b0[j].index_spec(*size) as u64;
                            assert(m0.contains_key(kj) && m0[kj] == j);
                            assert(kj != k);
                            assert(kj != rk);
                            assert(tf[j] == t0[j]);
                        }
                    }
                    assert forall|kk: u64| #[trigger] mf.contains_key(kk) implies {
                        &&& mf[kk] < tf.len()
                        &&& bf[mf[kk] as int].index_spec(*size) == kk
                    } by {
                        if kk == rk {
                            assert(bf[i] == pm);
                        } else {
                            assert(kk != k) by {
                                if kk == k {
                                    assert(!m1.contains_key(k));
                                }
                            }
                            let j = m0[kk] as int;
                            assert(m0.contains_key(kk));
                            assert(b0[j].index_spec(*size) == kk);
                            assert(j != i) by {
                                if j == i {
                                    assert(b0[i].index_spec(*size) == kk);
                                }
                            }
                            assert(j != n - 1) by {
                                if j == n - 1 {
                                    assert(b0[n - 1].index_spec(*size) == kk);
                                }
                            }
                            assert(bf[j] == b0[j]);
                        }
                    }
                    assert forall|q: TilePos|
                        q.in_bounds(*size) && q != *tile_pos implies sparse_get(*size, mf, tf, q)
                        == sparse_get(*size, m0, t0, q) by {
                        let kq = q.index_spec(*size) as u64;
                        if kq == k {
                            lemma_key_injective(q, *tile_pos, *size);
                        }
                        assert(kq != k);
                        if m0.contains_key(kq) {
                            let j = m0[kq] as int;
                            assert(b0[j].index_spec(*size) == kq);
                            if j == n - 1 {
                                assert(kq == rk);
                                assert(mf[kq] == i);
                                assert(tf[i] == t0[n - 1]);
                            } else {
                                assert(j != i) by {
                                    if j == i {
                                        assert(b0[i].index_spec(*size) == kq);
                                    }
                                }
                                assert(kq != rk) by {
                                    if kq == rk {
                                        assert(m0[rk] == n - 1);
                                    }
                                }
                                assert(mf.contains_key(kq) && mf[kq] == j);
                                assert(tf[j] == t0[j]);
                            }
                        } else {
                            assert(kq != rk);
                            assert(!mf.contains_key(kq));
                        }
                    }
                    assert(!mf.contains_key(k));
                } else {
                    assert(mf == m1);
                    assert forall|j: int| 0 <= j < bf.len() implies {
                        let p = #[trigger] bf[j];
                        &&& p.in_bounds(*size)
                        &&& mf.contains_key(p.index_spec(*size) as u64)
                        &&& mf[p.index_spec(*size) as u64] == j
                        &&& tf[j] is Some
                    } by {
                        assert(bf[j] == b0[j]);
                        let kj = b0[j].index_spec(*size) as u64;
                        assert(m0.contains_key(kj) && m0[kj] == j);
                        assert(kj != k);
                        assert(tf[j] == t0[j]);
                    }
                    assert forall|kk: u64| #[trigger] mf.contains_key(kk) implies {
                        &&& mf[kk] < tf.len()
                        &&& bf[mf[kk] as int].index_spec(*size) == kk
                    } by {
                        assert(m0.contains_key(kk) && kk != k);
                        let j = m0[kk] as int;
                        assert(b0[j].index_spec(*size) == kk);
                        assert(j != i) by {
                            if j == i {
                                assert(b0[i].index_spec(*size) == kk);
                            }
                        }
                        assert(bf[j] == b0[j]);
                        assert(tf[j] == t0[j]);
                    }
                    assert forall|q: TilePos|
                        q.in_bounds(*size) && q != *tile_pos implies sparse_get(*size, mf, tf, q)
                        == sparse_get(*size, m0, t0, q) by {
                        let kq = q.index_spec(*size) as u64;
                        if kq == k {
                            lemma_key_injective(q, *tile_pos, *size);
                        }
                        assert(kq != k);
                        if m0.contains_key(kq) {
                            let j = m0[kq] as int;
                            assert(b0[j].index_spec(*size) == kq);
                            assert(j != i) by {
                                if j == i {
                                    assert(b0[i].index_spec(*size) == kq);
                                }
                            }
                            assert(mf.contains_key(kq) && mf[kq] == j);
                            assert(tf[j] == t0[j]);
                        } else {
                            assert(!mf.contains_key(kq));
                        }
                    }
                }
            }
        } else {
            tiles.clear();
            index_to_position.clear();
            proof {
                let mf = position_to_index@;
                assert(m0[k] < t0.len());
                assert(t0.len() == 1);
                assert(removed_index == 0);
                assert forall|kk: u64| #[trigger] mf.contains_key(kk) implies false by {
                    assert(m0.contains_key(kk) && kk != k);
                    assert(m0[kk] < t0.len());
                    assert(b0[m0[kk] as int].index_spec(*size) == kk);
                    assert(b0[0].index_spec(*size) == k);
                }
                assert(mf =~= Map::<u64, usize>::empty());
                assert forall|q: TilePos|
                    q.in_bounds(*size) && q != *tile_pos implies sparse_get(
                    *size,
                    position_to_index@,
                    tiles@,
                    q,
                ) == sparse_get(*size, m0, t0, q) by {
                    let kq = q.index_spec(*size) as u64;
                    if m0.contains_key(kq) {
                        assert(b0[m0[kq] as int].index_spec(*size) == kq);
                        assert(b0[0].index_spec(*size) == k);
                        lemma_key_injective(q, *tile_pos, *size);
                    }
                }
            }
        }
    } else {
        proof {
            assert(position_to_index@ =~= m0);
        }
    }
}

/// The row-major position index as a 64-bit key for the sparse mapping.
/// The product of two 32-bit dimensions plus a 32-bit coordinate always
/// fits in 64 bits.
fn pos_key(tile_pos: &TilePos, size: &TilemapSize) -> (k: u64)
    requires
        tile_pos.in_bounds(*size),
    ensures
        k == tile_pos.index_spec(*size),
{
    proof {
        helpers::lemma_index_fits_u64(*tile_pos, *size);
    }
    (tile_pos.y as u64) * (size.x as u64) + (tile_pos.x as u64)
}

} // verus!
