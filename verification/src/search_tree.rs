//! An immutable tree, as far as the core configures and starts one.

use vstd::prelude::*;
use crate::mem_cache::MemCache;
use crate::storage::BlockRef;

pub mod task;

verus! {

/// The sizes and delays of a tree.
#[derive(Clone, Copy, Debug)]
pub struct Params {
    /// Seconds before the tree is started again after a failure.
    pub task_restart_sec: usize,
    /// How many items a block of the tree holds at most.
    pub tree_block_size: usize,
    /// How many blocks the tree deletes at a time.
    pub remove_tasks_limit: usize,
    /// How many items a range scan may hold ready for its reader.
    pub iter_send_buffer: usize,
    /// Values of up to this many bytes are stored inside the leaves.
    pub values_inline_size_limit: usize,
}

impl Default for Params {
    fn default() -> (params: Params)
        ensures
            params.task_restart_sec == 1,
            params.tree_block_size == 32,
            params.remove_tasks_limit == 64,
            params.iter_send_buffer == 4,
            params.values_inline_size_limit == 128,
    {
        Params {
            task_restart_sec: 1,
            tree_block_size: 32,
            remove_tasks_limit: 64,
            iter_send_buffer: 4,
            values_inline_size_limit: 128,
        }
    }
}

/// What a tree starts from.
#[derive(Debug)]
pub enum Mode {
    /// A snapshot of the write buffer, which the tree serves from memory
    /// while it writes its blocks.
    CacheBootstrap { cache: MemCache },
    /// The root block of a tree that is in the store already.
    Regular { root_block: BlockRef },
}

} // verus!
