//! The write buffer, as far as the core configures it.

use vstd::prelude::*;

verus! {

/// The sizes and delays of the write buffer.
#[derive(Clone, Copy, Debug)]
pub struct Params {
    /// How many items a block of a tree holds at most.
    pub tree_block_size: usize,
    /// Seconds before the write buffer is started again after a failure.
    pub task_restart_sec: usize,
}

} // verus!
