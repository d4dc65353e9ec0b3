use vstd::prelude::*;

verus! {

/// A side of `dim` pixels decoded at scale `num / den`, rounded up.
pub open spec fn scaled(dim: int, num: int, den: int) -> int {
    (dim * num + den - 1) / den
}

/// Both sides at scale `num / den` still reach `target`.
pub open spec fn scale_reaches(w: int, h: int, num: int, den: int, target: int) -> bool {
    scaled(w, num, den) >= target && scaled(h, num, den) >= target
}

/// The smallest of the DCT scales 1/8, 1/4 and 1/2 at which both sides still
/// reach `target`, else full size.
pub open spec fn dct_scale(w: int, h: int, target: int) -> (int, int) {
    if scale_reaches(w, h, 1, 8, target) {
        (1, 8)
    } else if scale_reaches(w, h, 1, 4, target) {
        (1, 4)
    } else if scale_reaches(w, h, 1, 2, target) {
        (1, 2)
    } else {
        (1, 1)
    }
}

/// Picks the reduced-resolution JPEG decode scale for a thumbnail of side
/// `thumb_size`, as a fraction `(numerator, denominator)`.
pub fn pick_dct_scale(width: usize, height: usize, thumb_size: u32) -> (r: (usize, usize))
    requires
        width <= 0xffff_ffff,
        height <= 0xffff_ffff,
    ensures
        (r.0 as int, r.1 as int) == dct_scale(width as int, height as int, thumb_size as int),
{
    let t = thumb_size as usize;
    let dens: [usize; 3] = [8, 4, 2];
    let mut k: usize = 0;
    while k < 3
        invariant
            0 <= k <= 3,
            dens@ == seq![8usize, 4, 2],
            width <= 0xffff_ffff,
            height <= 0xffff_ffff,
            t == thumb_size,
            forall|j: int| 0 <= j < k ==> !scale_reaches(width as int, height as int, 1, #[trigger] dens@[j] as int, t as int),
        decreases 3 - k,
    {
        let d = dens[k];
        assert(d == 8 || d == 4 || d == 2);
        let d64 = d as u64;
        if (width as u64 + d64 - 1) / d64 >= t as u64 && (height as u64 + d64 - 1) / d64 >= t as u64 {
            assert(scale_reaches(width as int, height as int, 1, d as int, t as int));
            return (1, d);
        }
        k = k + 1;
    }
    (1, 1)
}

} // verus!
