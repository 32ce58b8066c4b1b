//! Shared constants for resource limits.

use vstd::prelude::*;

verus! {

/// Maximum number of layers allowed in a timesheet
pub const MAX_LAYERS: usize = 1000;

/// Maximum number of frames allowed in a timesheet
pub const MAX_FRAMES: usize = 100_000;

} // verus!
