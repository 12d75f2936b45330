use vstd::prelude::*;

verus! {

/// Fixed-point one: a fraction `f` in `[0, 1]` is held as `f * UNIT`.
pub const UNIT: u64 = 1_000_000;

/// The value `x` limited to the range `[lo, hi]`.
pub open spec fn clamp_int(x: int, lo: int, hi: int) -> int {
    if x < lo {
        lo
    } else if x > hi {
        hi
    } else {
        x
    }
}

} // verus!
