//! Small numeric helpers.

use vstd::prelude::*;

verus! {

/// Linearly map `value` from the range `[from_min, from_max]` into the range
/// `[to_min, to_max]`, rounding the scaled offset down.
pub fn map_range(value: u64, from_min: u64, from_max: u64, to_min: u64, to_max: u64) -> (r: u64)
    requires
        from_min < from_max,
        from_min <= value,
        to_min <= to_max,
        (value - from_min) * (to_max - to_min) <= u64::MAX,
        to_min + (value - from_min) * (to_max - to_min) / (from_max - from_min) <= u64::MAX,
    ensures
        r == to_min + (value - from_min) * (to_max - to_min) / (from_max - from_min),
{
    to_min + (value - from_min) * (to_max - to_min) / (from_max - from_min)
}

} // verus!
