//! Cost normalization for converted dictionary entries.
//!
//! Input costs are compressed into a narrow band near the low-priority end of
//! the target system's cost space, so converted entries do not compete with
//! hand-tuned native entries.

use vstd::prelude::*;

verus! {

/// Base cost assigned to entries whose source cost is zero.
pub const DEFAULT_COST: i32 = 6000;

/// Source costs below this minimum are pinned to the low-frequency constant.
pub const MIN_COST: i32 = 0;

/// Costs above this maximum are clamped to it.
pub const MAX_COST: i32 = 10000;

/// Divisor compressing the source cost range into the output band.
pub const COST_ADJUSTMENT: i32 = 10;

/// Cost assigned to entries whose source cost is below the minimum.
pub const LOW_FREQUENCY_COST: i32 = 8000;

/// What `adjust_cost` returns for a given source cost.
pub open spec fn spec_adjust_cost(cost: int) -> int {
    if cost < MIN_COST {
        LOW_FREQUENCY_COST as int
    } else if cost > MAX_COST {
        MAX_COST as int
    } else {
        DEFAULT_COST + cost / COST_ADJUSTMENT as int
    }
}

/// Normalizes a source cost into the compressed output cost band.
pub fn adjust_cost(cost: i32) -> (r: i32)
    ensures
        r == spec_adjust_cost(cost as int),
{
    if cost < MIN_COST {
        LOW_FREQUENCY_COST
    } else if cost > MAX_COST {
        MAX_COST
    } else {
        DEFAULT_COST + cost / COST_ADJUSTMENT
    }
}

} // verus!
