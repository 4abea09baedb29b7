//! The intensity scaler: maps a sample in `[0, max_value]` to an 8-bit
//! channel value.

use vstd::prelude::*;

verus! {

/// The scaled channel value for sample `v` under maximum intensity `max`:
/// `v * 255 / max` rounded to the nearest integer, halves rounding up.
/// A sample above `max` would scale past 255 and is clamped there, so the
/// result is always an 8-bit channel value.
pub open spec fn spec_scale(v: nat, max: nat) -> u8 {
    let q = (510 * v + max) / (2 * max);
    if q > 255 {
        255
    } else {
        q as u8
    }
}

/// Scales sample `v` to an 8-bit channel value, exactly as [`spec_scale`]
/// describes.
pub fn scale_sample(v: u32, max: u32) -> (r: u8)
    requires
        1 <= max,
    ensures
        r == spec_scale(v as nat, max as nat),
{
    let num: u64 = 510u64 * (v as u64) + (max as u64);
    let den: u64 = 2u64 * (max as u64);
    let q: u64 = num / den;
    if q > 255 {
        255
    } else {
        q as u8
    }
}

} // verus!
