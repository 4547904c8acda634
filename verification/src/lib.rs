//! The coordinating core of a versioned key-value store laid out as a
//! log-structured merge tree: the manager's state machine, the version-aware
//! stream merger, the size-bucketed compaction queue and the request trackers,
//! each with a machine-checked contract.

pub mod kv;
pub mod butcher;
pub mod search_tree;
pub mod mem_cache;
pub mod storage;

pub mod merger;
pub mod refset;
pub mod bin_merger;
pub mod range;
pub mod manager;

use vstd::prelude::*;

verus! {

/// The tunable sizes and delays of the store.
#[derive(Clone, Copy, Debug)]
pub struct Params {
    /// How many items a block of a tree holds at most.
    pub tree_block_size: usize,
    /// Seconds before the write buffer is started again after a failure.
    pub butcher_task_restart_sec: usize,
    /// Seconds before the manager is started again after a failure.
    pub manager_task_restart_sec: usize,
    /// Seconds before a tree is started again after a failure.
    pub search_tree_task_restart_sec: usize,
    /// How many blocks one tree deletes at a time.
    pub search_tree_remove_tasks_limit: usize,
    /// How many items a range scan may hold ready for its reader.
    pub search_tree_iter_send_buffer: usize,
    /// Values of up to this many bytes are stored inside the leaves, longer
    /// ones in blocks of their own.
    pub search_tree_values_inline_size_limit: usize,
}

impl Default for Params {
    fn default() -> (params: Params)
        ensures
            params.tree_block_size == 32,
            params.butcher_task_restart_sec == 1,
            params.manager_task_restart_sec == 1,
            params.search_tree_task_restart_sec == 1,
            params.search_tree_remove_tasks_limit == 64,
            params.search_tree_iter_send_buffer == 4,
            params.search_tree_values_inline_size_limit == 128,
    {
        Params {
            tree_block_size: 32,
            butcher_task_restart_sec: 1,
            manager_task_restart_sec: 1,
            search_tree_task_restart_sec: 1,
            search_tree_remove_tasks_limit: 64,
            search_tree_iter_send_buffer: 4,
            search_tree_values_inline_size_limit: 128,
        }
    }
}

impl Params {
    /// The part of the parameters that the write buffer runs on.
    pub fn butcher_params(&self) -> (params: butcher::Params)
        ensures
            params.tree_block_size == self.tree_block_size,
            params.task_restart_sec == self.butcher_task_restart_sec,
    {
        butcher::Params {
            tree_block_size: self.tree_block_size,
            task_restart_sec: self.butcher_task_restart_sec,
        }
    }

    /// The part of the parameters that the manager runs on.
    pub fn manager_params(&self) -> (params: manager::Params)
        ensures
            params.task_restart_sec == self.manager_task_restart_sec,
            params.search_tree_params.task_restart_sec == self.search_tree_task_restart_sec,
            params.search_tree_params.tree_block_size == self.tree_block_size,
            params.search_tree_params.remove_tasks_limit == self.search_tree_remove_tasks_limit,
            params.search_tree_params.iter_send_buffer == self.search_tree_iter_send_buffer,
            params.search_tree_params.values_inline_size_limit
                == self.search_tree_values_inline_size_limit,
    {
        manager::Params {
            task_restart_sec: self.manager_task_restart_sec,
            search_tree_params: self.search_tree_params(),
        }
    }

    /// The part of the parameters that the trees run on.
    pub fn search_tree_params(&self) -> (params: search_tree::Params)
        ensures
            params.task_restart_sec == self.search_tree_task_restart_sec,
            params.tree_block_size == self.tree_block_size,
            params.remove_tasks_limit == self.search_tree_remove_tasks_limit,
            params.iter_send_buffer == self.search_tree_iter_send_buffer,
            params.values_inline_size_limit == self.search_tree_values_inline_size_limit,
    {
        search_tree::Params {
            task_restart_sec: self.search_tree_task_restart_sec,
            tree_block_size: self.tree_block_size,
            remove_tasks_limit: self.search_tree_remove_tasks_limit,
            iter_send_buffer: self.search_tree_iter_send_buffer,
            values_inline_size_limit: self.search_tree_values_inline_size_limit,
        }
    }
}

/// The answer to an insertion: the version that the value was written under.
#[derive(Clone, Copy, PartialEq, Eq, Structural, PartialOrd, Ord, Hash, Debug)]
pub struct Inserted {
    pub version: u64,
}

/// The answer to a removal: the version that the tombstone was written under.
#[derive(Clone, Copy, PartialEq, Eq, Structural, PartialOrd, Ord, Hash, Debug)]
pub struct Removed {
    pub version: u64,
}

/// The answer to a flush.
#[derive(Clone, Copy, PartialEq, Eq, Structural, PartialOrd, Ord, Hash, Debug)]
pub struct Flushed;

/// How many cells the store holds, live ones and tombstones apart.
#[derive(Clone, Copy, PartialEq, Eq, Structural, Hash, Debug)]
pub struct Info {
    pub alive_cells_count: usize,
    pub tombstones_count: usize,
}

impl Default for Info {
    fn default() -> (info: Info)
        ensures
            info == (Info { alive_cells_count: 0, tombstones_count: 0 }),
    {
        Info { alive_cells_count: 0, tombstones_count: 0 }
    }
}

impl Info {
    /// Whether the counts of `rhs` can be added to these.
    pub open spec fn fits(self, rhs: Info) -> bool {
        &&& self.alive_cells_count + rhs.alive_cells_count <= usize::MAX
        &&& self.tombstones_count + rhs.tombstones_count <= usize::MAX
    }

    /// Tells whether the counts of `rhs` can be added to these.
    pub fn can_add(&self, rhs: &Info) -> (fits: bool)
        ensures
            fits == self.fits(*rhs),
    {
        rhs.alive_cells_count <= usize::MAX - self.alive_cells_count && rhs.tombstones_count
            <= usize::MAX - self.tombstones_count
    }

    /// Adds the counts of `rhs` to these.
    pub fn add_assign(&mut self, rhs: Info)
        requires
            old(self).fits(rhs),
        ensures
            final(self).alive_cells_count == old(self).alive_cells_count + rhs.alive_cells_count,
            final(self).tombstones_count == old(self).tombstones_count + rhs.tombstones_count,
    {
        self.alive_cells_count += rhs.alive_cells_count;
        self.tombstones_count += rhs.tombstones_count;
    }

    /// Sets both counts to zero.
    pub fn reset(&mut self)
        ensures
            *final(self) == (Info { alive_cells_count: 0, tombstones_count: 0 }),
    {
        self.alive_cells_count = 0;
        self.tombstones_count = 0;
    }
}

/// What a range scan delivers, one at a time.
#[derive(Debug)]
pub enum KeyValueStreamItem {
    KeyValue(kv::KeyValuePair<kv::Value>),
    /// The scan is complete.
    NoMore,
}

} // verus!

