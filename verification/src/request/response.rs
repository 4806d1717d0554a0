//! Standard portal `Response` codes.

use vstd::prelude::*;

verus! {

/// User confirmed the action.
pub const SUCCESS: u32 = 0;

/// User cancelled (clicked Cancel, closed the dialog).
pub const CANCELLED: u32 = 1;

/// Backend-side failure.
pub const OTHER: u32 = 2;

} // verus!
