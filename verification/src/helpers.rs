use crate::map::TilemapSize;
use crate::tiles::TilePos;
use vstd::prelude::*;

verus! {

/// The row-major index of an in-bounds position is below the cell count.
pub proof fn lemma_index_in_range(p: TilePos, size: TilemapSize)
    requires
        p.in_bounds(size),
    ensures
        p.index_spec(size) < size.count_spec(),
{
    assert((p.y as nat) * (size.x as nat) + (p.x as nat) < (size.x as nat) * (size.y as nat))
        by (nonlinear_arith)
        requires
            p.x < size.x,
            p.y < size.y,
    ;
}

/// Row-major linearization is injective on in-bounds positions.
pub proof fn lemma_index_injective(p: TilePos, q: TilePos, size: TilemapSize)
    requires
        p.in_bounds(size),
        q.in_bounds(size),
        p.index_spec(size) == q.index_spec(size),
    ensures
        p == q,
{
    assert(p.x == q.x && p.y == q.y) by (nonlinear_arith)
        requires
            p.x < size.x,
            q.x < size.x,
            (p.y as nat) * (size.x as nat) + (p.x as nat) == (q.y as nat) * (size.x as nat) + (
            q.x as nat),
    ;
}

/// The row-major index of an in-bounds position fits in 64 bits: the
/// product of two 32-bit dimensions plus a 32-bit coordinate.
pub proof fn lemma_index_fits_u64(p: TilePos, size: TilemapSize)
    requires
        p.in_bounds(size),
    ensures
        p.index_spec(size) <= u64::MAX,
{
    assert((p.y as nat) * (size.x as nat) + (p.x as nat) <= u64::MAX) by (nonlinear_arith)
        requires
            p.x <= u32::MAX,
            p.y <= u32::MAX,
            size.x <= u32::MAX,
    ;
}

/// Decomposing a linear index into row-major coordinates inverts the
/// linearization: it names the position a dense slot belongs to.
pub proof fn lemma_index_decompose(i: int, size: TilemapSize)
    requires
        0 <= i < size.count_spec(),
    ensures
        ({
            let p = TilePos {
                x: (i % (size.x as int)) as u32,
                y: (i / (size.x as int)) as u32,
            };
            p.in_bounds(size) && p.index_spec(size) == i
        }),
{
    let w = size.x as int;
    let h = size.y as int;
    assert(w > 0 && h > 0) by (nonlinear_arith)
        requires
            0 <= i < w * h,
            w >= 0,
            h >= 0,
    ;
    vstd::arithmetic::div_mod::lemma_fundamental_div_mod(i, w);
    vstd::arithmetic::div_mod::lemma_mod_bound(i, w);
    vstd::arithmetic::div_mod::lemma_div_pos_is_pos(i, w);
    let q = i / w;
    let r = i % w;
    assert(q < h) by (nonlinear_arith)
        requires
            w > 0,
            h > 0,
            0 <= q,
            i == w * q + r,
            0 <= r < w,
            i < w * h,
    ;
    let p = TilePos { x: r as u32, y: q as u32 };
    assert(p.x == r && p.y == q);
    assert(p.index_spec(size) == q * w + r) by (nonlinear_arith)
        requires
            p.x == r,
            p.y == q,
            w == size.x as int,
            0 <= r,
            0 <= q,
            p.index_spec(size) == (p.y as nat) * (size.x as nat) + (p.x as nat),
    ;
    assert(q * w == w * q) by (nonlinear_arith);
    assert(p.in_bounds(size));
    assert(p.index_spec(size) == i);
}

/// Maps a 2-D position to its row-major index in a dense grid of the
/// given size.
pub fn pos_2d_to_index(tile_pos: &TilePos, size: &TilemapSize) -> (r: usize)
    requires
        tile_pos.in_bounds(*size),
        size.count_spec() <= usize::MAX,
    ensures
        r == tile_pos.index_spec(*size),
        r < size.count_spec(),
{
    proof {
        lemma_index_in_range(*tile_pos, *size);
    }
    (tile_pos.y as usize) * (size.x as usize) + (tile_pos.x as usize)
}

} // verus!
