//! Image buffer filling: repeats one four-byte pixel over a
//! width-by-height buffer, four bytes per pixel.

use vstd::prelude::*;

verus! {

/// Byte of channel `c` (0 to 3) of a four-byte pixel.
pub open spec fn channel(px: (u8, u8, u8, u8), c: int) -> u8 {
    if c == 0 {
        px.0
    } else if c == 1 {
        px.1
    } else if c == 2 {
        px.2
    } else {
        px.3
    }
}

/// Fills an image buffer of `width * height` pixels with one four-byte
/// pixel repeated: byte `k` of the result is channel `k % 4` of the
/// pixel.
pub fn pixel_buffer(width: usize, height: usize, px: (u8, u8, u8, u8)) -> (r: Vec<u8>)
    requires
        width * height * 4 <= usize::MAX,
    ensures
        r@.len() == width * height * 4,
        forall|k: int| 0 <= k < r@.len() ==> r@[k] == channel(px, k % 4),
{
    let total: usize = width * height;
    let mut r: Vec<u8> = Vec::new();
    let mut p: usize = 0;
    while p < total
        invariant
            0 <= p <= total,
            total == width * height,
            width * height * 4 <= usize::MAX,
            r@.len() == p * 4,
            forall|k: int| 0 <= k < r@.len() ==> r@[k] == channel(px, k % 4),
        decreases total - p,
    {
        proof {
            vstd::arithmetic::div_mod::lemma_mod_multiples_vanish(p as int, 0, 4);
            vstd::arithmetic::div_mod::lemma_mod_multiples_vanish(p as int, 1, 4);
            vstd::arithmetic::div_mod::lemma_mod_multiples_vanish(p as int, 2, 4);
            vstd::arithmetic::div_mod::lemma_mod_multiples_vanish(p as int, 3, 4);
        }
        r.push(px.0);
        r.push(px.1);
        r.push(px.2);
        r.push(px.3);
        p = p + 1;
    }
    r
}

} // verus!
