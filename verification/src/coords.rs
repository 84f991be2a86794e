//! Integer coordinates of tiles and chunks, and Euclidean division on them.
use vstd::prelude::*;

verus! {

/// Euclidean quotient and remainder of `a` by `b`, as `i32::div_euclid` and `i32::rem_euclid`
/// compute them: `a == b * q + r` with `0 <= r < |b|`.
pub fn div_rem_euclid(a: i32, b: i32) -> (res: (i32, i32))
    requires
        b != 0,
        !(a == i32::MIN && b == -1),
    ensures
        res.0 == a as int / b as int,
        res.1 == a as int % b as int,
{
    let am: u64 = if a < 0 { (-(a as i64)) as u64 } else { a as u64 };
    let bm: u64 = if b < 0 { (-(b as i64)) as u64 } else { b as u64 };
    let qm: u64 = am / bm;
    let rm: u64 = am % bm;
    proof {
        assert(am == bm * qm + rm && 0 <= rm < bm) by (nonlinear_arith)
            requires
                bm > 0,
                qm == am / bm,
                rm == am % bm,
        ;
        assert(qm <= am) by (nonlinear_arith)
            requires
                bm >= 1,
                am == bm * qm + rm,
                rm >= 0,
                qm >= 0,
        ;
        assert(bm >= 2 ==> 2 * qm <= am) by (nonlinear_arith)
            requires
                am == bm * qm + rm,
                rm >= 0,
                qm >= 0,
        ;
    }
    let q: i64;
    let r: i64;
    if a >= 0 {
        if b > 0 {
            q = qm as i64;
        } else {
            q = -(qm as i64);
        }
        r = rm as i64;
    } else if rm == 0 {
        if b > 0 {
            q = -(qm as i64);
        } else {
            q = qm as i64;
        }
        r = 0;
    } else {
        if b > 0 {
            q = -(qm as i64) - 1;
        } else {
            q = qm as i64 + 1;
        }
        r = bm as i64 - rm as i64;
    }
    proof {
        assert(a == b * q + r && 0 <= r && (r < b || r < -b)) by (nonlinear_arith)
            requires
                am == (if a < 0 { -a } else { a as int }),
                bm == (if b < 0 { -b } else { b as int }),
                b != 0,
                am == bm * qm + rm,
                0 <= rm < bm,
                a >= 0 ==> r == rm && q == (if b > 0 { qm as int } else { -qm }),
                a < 0 && rm == 0 ==> r == 0 && q == (if b > 0 { -qm } else { qm as int }),
                a < 0 && rm != 0 ==> r == bm - rm && q == (if b > 0 { -qm - 1 } else { qm + 1 }),
        ;
        assert(q == a as int / b as int && r == a as int % b as int) by (nonlinear_arith)
            requires
                b != 0,
                a == b * q + r,
                0 <= r,
                r < b || r < -b,
        ;
    }
    assert(i32::MIN <= q <= i32::MAX);
    (q as i32, r as i32)
}

/// Position of a chunk on the chunk grid.
#[derive(Clone, Copy, Debug, Hash, PartialEq, Eq, Structural)]
pub struct ChunkCoord {
    pub x: i32,
    pub y: i32,
}

/// Position of a tile on the world's tile grid.
#[derive(Clone, Copy, Debug, Hash, PartialEq, Eq, Structural)]
pub struct TileCoord {
    pub x: i32,
    pub y: i32,
}

/// The value `d as i32` takes for a `u32` dimension: `d` itself, or `d - 2^32` above `i32::MAX`.
pub open spec fn signed_dim(d: u32) -> int {
    if d <= i32::MAX {
        d as int
    } else {
        d - 0x1_0000_0000
    }
}

/// A chunk dimension as the signed number it is divided by.
pub fn dim_as_i32(d: u32) -> (r: i32)
    ensures
        r == signed_dim(d),
{
    let r = d as i32;
    assert(d <= 0x7fff_ffff ==> r as int == d as int) by (bit_vector)
        requires
            r == d as i32,
    ;
    assert(d > 0x7fff_ffff ==> r as int == d as int - 0x1_0000_0000) by (bit_vector)
        requires
            r == d as i32,
    ;
    r
}

/// Key of a chunk in a map keyed by `i64`: every `i64` is the key of exactly one chunk.
pub open spec fn chunk_key(c: ChunkCoord) -> i64 {
    (c.x * 0x1_0000_0000 + (c.y + 0x8000_0000)) as i64
}

/// The chunk whose key is `k`.
pub open spec fn key_chunk(k: i64) -> ChunkCoord {
    ChunkCoord { x: (k / 0x1_0000_0000) as i32, y: (k % 0x1_0000_0000 - 0x8000_0000) as i32 }
}

/// A chunk's key gives the chunk back.
pub proof fn lemma_key_chunk_inverse(c: ChunkCoord)
    ensures
        key_chunk(chunk_key(c)) == c,
{
}

/// Every key is some chunk's key.
pub proof fn lemma_chunk_key_inverse(k: i64)
    ensures
        chunk_key(key_chunk(k)) == k,
{
}

/// Distinct chunks have distinct keys.
pub proof fn lemma_chunk_key_injective(a: ChunkCoord, b: ChunkCoord)
    ensures
        chunk_key(a) == chunk_key(b) ==> a == b,
{
    lemma_key_chunk_inverse(a);
    lemma_key_chunk_inverse(b);
}

/// The chunk whose key is `k`.
pub fn chunk_of_key(k: i64) -> (c: ChunkCoord)
    ensures
        c == key_chunk(k),
{
    let u: u64 = (k as i128 + 0x8000_0000_0000_0000i128) as u64;
    let hi: u64 = u / 0x1_0000_0000;
    let lo: u64 = u % 0x1_0000_0000;
    ChunkCoord { x: (hi as i64 - 0x8000_0000) as i32, y: (lo as i64 - 0x8000_0000) as i32 }
}

impl ChunkCoord {
    /// The world tile at this chunk's origin (its lowest corner) for chunks of `dims` tiles,
    /// each dimension taken as `i32`.
    pub fn origin_tile(&self, dims_x: u32, dims_y: u32) -> (t: TileCoord)
        requires
            i32::MIN <= self.x * signed_dim(dims_x) <= i32::MAX,
            i32::MIN <= self.y * signed_dim(dims_y) <= i32::MAX,
        ensures
            t.x == self.x * signed_dim(dims_x),
            t.y == self.y * signed_dim(dims_y),
    {
        let dx = dim_as_i32(dims_x) as i64;
        let dy = dim_as_i32(dims_y) as i64;
        proof {
            assert(-0x4000_0000_0000_0000 <= self.x * dx <= 0x4000_0000_0000_0000) by (nonlinear_arith)
                requires
                    -0x8000_0000 <= self.x <= 0x8000_0000,
                    -0x8000_0000 <= dx <= 0x8000_0000,
            ;
            assert(-0x4000_0000_0000_0000 <= self.y * dy <= 0x4000_0000_0000_0000) by (nonlinear_arith)
                requires
                    -0x8000_0000 <= self.y <= 0x8000_0000,
                    -0x8000_0000 <= dy <= 0x8000_0000,
            ;
        }
        TileCoord { x: (self.x as i64 * dx) as i32, y: (self.y as i64 * dy) as i32 }
    }

    /// The world tile at place `(lx, ly)` of this chunk: its origin moved by the place.
    pub fn world_tile(&self, dims_x: u32, dims_y: u32, lx: u32, ly: u32) -> (t: TileCoord)
        requires
            i32::MIN <= self.x * signed_dim(dims_x) + lx <= i32::MAX,
            i32::MIN <= self.y * signed_dim(dims_y) + ly <= i32::MAX,
            i32::MIN <= self.x * signed_dim(dims_x) <= i32::MAX,
            i32::MIN <= self.y * signed_dim(dims_y) <= i32::MAX,
            lx <= i32::MAX,
            ly <= i32::MAX,
        ensures
            t.x == self.x * signed_dim(dims_x) + lx,
            t.y == self.y * signed_dim(dims_y) + ly,
    {
        let o = self.origin_tile(dims_x, dims_y);
        TileCoord { x: o.x + lx as i32, y: o.y + ly as i32 }
    }

    /// This chunk's key.
    pub fn key(&self) -> (k: i64)
        ensures
            k == chunk_key(*self),
    {
        (self.x as i64) * 0x1_0000_0000 + (self.y as i64 + 0x8000_0000)
    }
}

} // verus!
