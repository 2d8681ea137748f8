//! What each pipeline stage of the out-of-order core hands to the next cycle.
pub mod narrow;
pub mod wide;

use vstd::prelude::*;

verus! {

/// The outcome of the commit stage: whether `halt` retired, and how many
/// other instructions retired before it.
#[derive(Debug, Copy, Clone, Default)]
pub struct Commit {
    pub should_halt: bool,
    pub retired: u64,
}

} // verus!
