//! Black level subtraction for raw sensor data.
//!
//! Subtracts the per-channel black level (pedestal) from raw CFA data.
//! Black levels are stored per 2x2 Bayer position in `RawImage::black_levels`.

use crate::image::RawImage;
use vstd::prelude::*;

verus! {

/// Index into `black_levels` of the sample at row-major position `i` in rows of `width`.
pub open spec fn black_level_index(i: int, width: int) -> int {
    ((i / width) % 2) * 2 + (i % width) % 2
}

/// `a - b`, clamped at zero.
pub open spec fn saturating_sub_u16(a: u16, b: u16) -> u16 {
    if a >= b { (a - b) as u16 } else { 0 }
}

/// Subtract per-channel black levels from raw CFA data in place.
///
/// Each sample's black level is determined by its position in the 2x2 Bayer
/// pattern: `black_levels[(y % 2) * 2 + (x % 2)]`; the subtraction saturates at zero.
///
/// This is a no-op if all black levels are zero.
pub fn apply_black_level(raw: &mut RawImage)
    requires
        old(raw).size.width > 0 || old(raw).data@.len() == 0 || old(raw).black_levels@ == seq![
            0u16,
            0,
            0,
            0,
        ],
    ensures
        final(raw).size == old(raw).size,
        final(raw).active_area == old(raw).active_area,
        final(raw).bit_depth == old(raw).bit_depth,
        final(raw).cfa_pattern == old(raw).cfa_pattern,
        final(raw).black_levels == old(raw).black_levels,
        final(raw).data@.len() == old(raw).data@.len(),
        forall|i: int|
            0 <= i < old(raw).data@.len() ==> #[trigger] final(raw).data@[i] == saturating_sub_u16(
                old(raw).data@[i],
                old(raw).black_levels[black_level_index(i, old(raw).size.width as int)],
            ),
        old(raw).black_levels@ == seq![0u16, 0, 0, 0] ==> final(raw).data@ == old(raw).data@,
        forall|i: int| 0 <= i < old(raw).data@.len() ==> #[trigger] final(raw).data@[i] <= old(raw).data@[i],
{
    let bl = raw.black_levels;
    if bl[0] == 0 && bl[1] == 0 && bl[2] == 0 && bl[3] == 0 {
        return;
    }
    let width = raw.size.width as usize;
    let n = raw.data.len();
    let mut i: usize = 0;
    while i < n
        invariant
            n == raw.data@.len(),
            n == old(raw).data@.len(),
            i <= n,
            width == old(raw).size.width,
            width > 0 || n == 0,
            bl == old(raw).black_levels,
            raw.size == old(raw).size,
            raw.active_area == old(raw).active_area,
            raw.bit_depth == old(raw).bit_depth,
            raw.cfa_pattern == old(raw).cfa_pattern,
            raw.black_levels == old(raw).black_levels,
            forall|j: int|
                0 <= j < i ==> #[trigger] raw.data@[j] == saturating_sub_u16(
                    old(raw).data@[j],
                    bl[black_level_index(j, width as int)],
                ),
            forall|j: int| i <= j < n ==> #[trigger] raw.data@[j] == old(raw).data@[j],
        decreases n - i,
    {
        let x = i % width;
        let y = i / width;
        let bl_idx = (y % 2) * 2 + (x % 2);
        let v = raw.data[i];
        raw.data[i] = v.saturating_sub(bl[bl_idx]);
        i += 1;
    }
}

} // verus!
