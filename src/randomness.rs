use vstd::prelude::*;

verus! {

/// A raw random word mapped into `[lo, hi]`, the bounds taken in either order.
pub open spec fn draw_in_range(min: u32, max: u32, raw: u32) -> int {
    let lo = if min <= max { min } else { max };
    let hi = if min <= max { max } else { min };
    raw as int % (hi - lo + 1) + lo
}

/// Maps the random word `raw` into the inclusive range between `min` and
/// `max`, whichever of the two is larger.
pub fn generate_randomness(min: u32, max: u32, raw: u32) -> (r: u32)
    ensures
        r == draw_in_range(min, max, raw),
        (if min <= max { min } else { max }) <= r <= (if min <= max { max } else { min }),
{
    let lo = if min <= max {
        min
    } else {
        max
    };
    let hi = if min <= max {
        max
    } else {
        min
    };
    // the window holds both bounds
    let window: u64 = (hi - lo) as u64 + 1;
    let r = (raw as u64) % window + lo as u64;
    r as u32
}

} // verus!
