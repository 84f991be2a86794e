//! Index buffer of a chunk's terrain mesh: two triangles per tile quad.
use vstd::prelude::*;

verus! {

/// Vertex offsets, within a quad, of its two triangles.
pub open spec fn quad_corner(j: int) -> int {
    if j == 0 || j == 3 {
        0
    } else if j == 1 {
        1
    } else if j == 2 || j == 4 {
        2
    } else {
        3
    }
}

/// Triangle indices for `quads` quads of four vertices each, laid out one after the other:
/// quad `t` uses vertices `4t .. 4t + 3` (counted in `u32`, wrapping) as triangles
/// `(0, 1, 2)` and `(0, 2, 3)`.
pub fn quad_indices(quads: usize) -> (r: Vec<u32>)
    requires
        6 * quads <= usize::MAX,
    ensures
        r@.len() == 6 * quads,
        forall|t: int, j: int|
            0 <= t < quads && 0 <= j < 6 ==> #[trigger] r@[6 * t + j] == (4 * t) % 0x1_0000_0000 + quad_corner(j),
{
    let mut out: Vec<u32> = Vec::new();
    let mut t: usize = 0;
    while t < quads
        invariant
            6 * quads <= usize::MAX,
            t <= quads,
            out@.len() == 6 * t,
            forall|tt: int, j: int|
                0 <= tt < t && 0 <= j < 6 ==> #[trigger] out@[6 * tt + j] == (4 * tt) % 0x1_0000_0000 + quad_corner(j),
        decreases quads - t,
    {
        let base: u32 = ((4 * (t as u64)) % 0x1_0000_0000) as u32;
        proof {
            assert((4 * t) % 0x1_0000_0000 <= 0xffff_fffc) by (nonlinear_arith);
        }
        let ghost before = out@;
        out.push(base);
        out.push(base + 1);
        out.push(base + 2);
        out.push(base);
        out.push(base + 2);
        out.push(base + 3);
        proof {
            assert forall|tt: int, j: int|
                0 <= tt < t + 1 && 0 <= j < 6 implies #[trigger] out@[6 * tt + j] == (4 * tt) % 0x1_0000_0000 + quad_corner(j) by {
                if tt < t {
                    assert(6 * tt + j < 6 * t);
                    assert(out@[6 * tt + j] == before[6 * tt + j]);
                }
            }
        }
        t = t + 1;
    }
    out
}

} // verus!
