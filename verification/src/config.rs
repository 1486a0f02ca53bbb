//! Scheduling constants.
use vstd::prelude::*;

verus! {

/// The numerator of every task's pass: a task with priority `p` advances its
/// stride by `BIG_STRIDE / p` each time it is scheduled.
pub const BIG_STRIDE: usize = 65536;

/// The priority a task starts with.
pub const PRIORITY: usize = 16;

} // verus!
