//! The work that the manager hands out, and what comes back from it.
//!
//! A task names the trees, requests and channels it concerns by reference or
//! by number, and owns the data it works on. It never refers to the manager's
//! state.

use vstd::prelude::*;
use crate::Info;
use crate::kv::{Key, KeyValuePair, Value, ValueCell};
use crate::merger::KeyValuesIter;
use crate::range::SearchRangeBounds;
use crate::refset::Ref;
use crate::storage::{BlockRef, ValueBlockRef};

verus! {

/// The number under which the driver keeps a client's one-shot reply channel.
#[derive(Clone, Copy, PartialEq, Eq, Structural, Debug)]
pub struct ReplyTx {
    pub id: u64,
}

/// The number under which the driver keeps the sending end of a range scan.
#[derive(Clone, Copy, PartialEq, Eq, Structural, Debug)]
pub struct KeyValuesTx {
    pub id: u64,
}

/// A task, with what it works on.
#[derive(Debug)]
pub enum TaskArgs {
    InfoButcher { request_ref: Ref },
    InfoSearchTree { request_ref: Ref, search_tree_ref: Ref },
    InsertButcher { key: Key, value: Value, reply_tx: ReplyTx },
    RemoveButcher { key: Key, reply_tx: ReplyTx },
    LookupButcher { request_ref: Ref, key: Key },
    LookupSearchTree { request_ref: Ref, key: Key, search_tree_ref: Ref },
    LookupRangeButcher { range: SearchRangeBounds, key_values_tx: KeyValuesTx },
    LookupRangeSearchTree { request_ref: Ref, range: SearchRangeBounds, search_tree_ref: Ref },
    MergeLookupRange {
        range: SearchRangeBounds,
        key_values_tx: KeyValuesTx,
        butcher_iter_items: Vec<KeyValuePair<Value>>,
        merger_iters: Vec<KeyValuesIter>,
    },
    RetrieveValue { key: Key, found_fold: Option<ValueCell<ValueBlockRef>>, reply_tx: ReplyTx },
    MergeSearchTrees { search_tree_a_ref: Ref, search_tree_b_ref: Ref, tree_block_size: usize },
    DemolishSearchTree { search_tree_ref: Ref },
    FlushButcher { request_ref: Ref },
    FlushSearchTree { request_ref: Ref, search_tree_ref: Ref },
}

/// How the merge for a range scan ended.
#[derive(Debug)]
pub enum MergeLookupRangeDone {
    /// The scan was delivered in full.
    MergeSuccess,
    /// What the scan had chosen for a key was replaced meanwhile. The scan has
    /// to be taken up again for `modified_range`, which starts where it stopped.
    DeprecatedResults { modified_range: SearchRangeBounds, key_values_tx: KeyValuesTx },
}

/// How the retrieval of a value ended.
#[derive(Debug)]
pub enum RetrieveValueDone {
    /// The client has its answer.
    RetrieveSuccess,
    /// The block of the value was gone. The lookup has to be made again.
    DeprecatedResults { key: Key, reply_tx: ReplyTx },
}

/// What a task brought back.
#[derive(Debug)]
pub enum TaskDone {
    InfoButcher { request_ref: Ref, info: Info },
    InfoSearchTree { request_ref: Ref, info: Info },
    InsertButcher,
    RemoveButcher,
    LookupButcher { request_ref: Ref, found: Option<ValueCell<ValueBlockRef>> },
    LookupSearchTree { request_ref: Ref, found: Option<ValueCell<ValueBlockRef>> },
    LookupRangeButcher {
        range: SearchRangeBounds,
        key_values_tx: KeyValuesTx,
        iter_items: Vec<KeyValuePair<Value>>,
    },
    /// `items_source` is the number under which the driver keeps the stream
    /// that the tree answers the scan with.
    LookupRangeSearchTree { request_ref: Ref, items_source: usize },
    MergeLookupRange(MergeLookupRangeDone),
    RetrieveValue(RetrieveValueDone),
    MergeSearchTrees {
        search_tree_a_ref: Ref,
        search_tree_b_ref: Ref,
        root_block: BlockRef,
        items_count: usize,
    },
    DemolishSearchTree,
    FlushButcher { request_ref: Ref },
    FlushSearchTree { request_ref: Ref },
}

/// Why a task failed. Any of these ends the manager.
#[derive(Clone, Copy, PartialEq, Eq, Structural, Debug)]
pub enum Error {
    /// The write buffer is gone.
    ButcherGone,
    /// A tree is gone.
    SearchTreeGone,
    /// The block store failed.
    Wheels,
    /// A stream of a range scan ended without notice.
    BackendIterPeerLost,
    /// A block did not decode.
    Storage(crate::storage::Error),
    /// The worker pool is gone.
    ThreadPoolGone,
}

/// The kind of a task, which its result shares.
#[derive(Clone, Copy, PartialEq, Eq, Structural, Debug)]
pub enum TaskKind {
    InfoButcher,
    InfoSearchTree,
    InsertButcher,
    RemoveButcher,
    LookupButcher,
    LookupSearchTree,
    LookupRangeButcher,
    LookupRangeSearchTree,
    MergeLookupRange,
    RetrieveValue,
    MergeSearchTrees,
    DemolishSearchTree,
    FlushButcher,
    FlushSearchTree,
}

impl TaskKind {
    /// Whether tasks of this kind run apart from the others, because they
    /// may take long: merging two trees, and merging the streams of a range
    /// scan.
    pub open spec fn spec_is_background(&self) -> bool {
        *self == TaskKind::MergeLookupRange || *self == TaskKind::MergeSearchTrees
    }

    #[verifier::when_used_as_spec(spec_is_background)]
    pub fn is_background(&self) -> (background: bool)
        ensures
            background == self.spec_is_background(),
    {
        match self {
            TaskKind::MergeLookupRange => true,
            TaskKind::MergeSearchTrees => true,
            _ => false,
        }
    }

    /// Whether the result of a task of this kind is an answer that a request
    /// in one of the manager's tables waits for.
    pub open spec fn spec_answers_request(&self) -> bool {
        match self {
            TaskKind::InfoButcher => true,
            TaskKind::InfoSearchTree => true,
            TaskKind::LookupButcher => true,
            TaskKind::LookupSearchTree => true,
            TaskKind::LookupRangeSearchTree => true,
            TaskKind::FlushButcher => true,
            TaskKind::FlushSearchTree => true,
            _ => false,
        }
    }

    #[verifier::when_used_as_spec(spec_answers_request)]
    pub fn answers_request(&self) -> (answers: bool)
        ensures
            answers == self.spec_answers_request(),
    {
        match self {
            TaskKind::InfoButcher => true,
            TaskKind::InfoSearchTree => true,
            TaskKind::LookupButcher => true,
            TaskKind::LookupSearchTree => true,
            TaskKind::LookupRangeSearchTree => true,
            TaskKind::FlushButcher => true,
            TaskKind::FlushSearchTree => true,
            _ => false,
        }
    }
}

impl TaskArgs {
    pub open spec fn spec_kind(&self) -> TaskKind {
        match self {
            TaskArgs::InfoButcher { .. } => TaskKind::InfoButcher,
            TaskArgs::InfoSearchTree { .. } => TaskKind::InfoSearchTree,
            TaskArgs::InsertButcher { .. } => TaskKind::InsertButcher,
            TaskArgs::RemoveButcher { .. } => TaskKind::RemoveButcher,
            TaskArgs::LookupButcher { .. } => TaskKind::LookupButcher,
            TaskArgs::LookupSearchTree { .. } => TaskKind::LookupSearchTree,
            TaskArgs::LookupRangeButcher { .. } => TaskKind::LookupRangeButcher,
            TaskArgs::LookupRangeSearchTree { .. } => TaskKind::LookupRangeSearchTree,
            TaskArgs::MergeLookupRange { .. } => TaskKind::MergeLookupRange,
            TaskArgs::RetrieveValue { .. } => TaskKind::RetrieveValue,
            TaskArgs::MergeSearchTrees { .. } => TaskKind::MergeSearchTrees,
            TaskArgs::DemolishSearchTree { .. } => TaskKind::DemolishSearchTree,
            TaskArgs::FlushButcher { .. } => TaskKind::FlushButcher,
            TaskArgs::FlushSearchTree { .. } => TaskKind::FlushSearchTree,
        }
    }

    #[verifier::when_used_as_spec(spec_kind)]
    pub fn kind(&self) -> (kind: TaskKind)
        ensures
            kind == self.spec_kind(),
    {
        match self {
            TaskArgs::InfoButcher { .. } => TaskKind::InfoButcher,
            TaskArgs::InfoSearchTree { .. } => TaskKind::InfoSearchTree,
            TaskArgs::InsertButcher { .. } => TaskKind::InsertButcher,
            TaskArgs::RemoveButcher { .. } => TaskKind::RemoveButcher,
            TaskArgs::LookupButcher { .. } => TaskKind::LookupButcher,
            TaskArgs::LookupSearchTree { .. } => TaskKind::LookupSearchTree,
            TaskArgs::LookupRangeButcher { .. } => TaskKind::LookupRangeButcher,
            TaskArgs::LookupRangeSearchTree { .. } => TaskKind::LookupRangeSearchTree,
            TaskArgs::MergeLookupRange { .. } => TaskKind::MergeLookupRange,
            TaskArgs::RetrieveValue { .. } => TaskKind::RetrieveValue,
            TaskArgs::MergeSearchTrees { .. } => TaskKind::MergeSearchTrees,
            TaskArgs::DemolishSearchTree { .. } => TaskKind::DemolishSearchTree,
            TaskArgs::FlushButcher { .. } => TaskKind::FlushButcher,
            TaskArgs::FlushSearchTree { .. } => TaskKind::FlushSearchTree,
        }
    }

    /// Whether the task runs apart from the others.
    pub open spec fn spec_is_background(&self) -> bool {
        self.spec_kind().spec_is_background()
    }

    #[verifier::when_used_as_spec(spec_is_background)]
    pub fn is_background(&self) -> (background: bool)
        ensures
            background == self.spec_is_background(),
    {
        match self {
            TaskArgs::MergeLookupRange { .. } => true,
            TaskArgs::MergeSearchTrees { .. } => true,
            _ => false,
        }
    }
}

impl TaskDone {
    pub open spec fn spec_kind(&self) -> TaskKind {
        match self {
            TaskDone::InfoButcher { .. } => TaskKind::InfoButcher,
            TaskDone::InfoSearchTree { .. } => TaskKind::InfoSearchTree,
            TaskDone::InsertButcher => TaskKind::InsertButcher,
            TaskDone::RemoveButcher => TaskKind::RemoveButcher,
            TaskDone::LookupButcher { .. } => TaskKind::LookupButcher,
            TaskDone::LookupSearchTree { .. } => TaskKind::LookupSearchTree,
            TaskDone::LookupRangeButcher { .. } => TaskKind::LookupRangeButcher,
            TaskDone::LookupRangeSearchTree { .. } => TaskKind::LookupRangeSearchTree,
            TaskDone::MergeLookupRange(_) => TaskKind::MergeLookupRange,
            TaskDone::RetrieveValue(_) => TaskKind::RetrieveValue,
            TaskDone::MergeSearchTrees { .. } => TaskKind::MergeSearchTrees,
            TaskDone::DemolishSearchTree => TaskKind::DemolishSearchTree,
            TaskDone::FlushButcher { .. } => TaskKind::FlushButcher,
            TaskDone::FlushSearchTree { .. } => TaskKind::FlushSearchTree,
        }
    }

    #[verifier::when_used_as_spec(spec_kind)]
    pub fn kind(&self) -> (kind: TaskKind)
        ensures
            kind == self.spec_kind(),
    {
        match self {
            TaskDone::InfoButcher { .. } => TaskKind::InfoButcher,
            TaskDone::InfoSearchTree { .. } => TaskKind::InfoSearchTree,
            TaskDone::InsertButcher => TaskKind::InsertButcher,
            TaskDone::RemoveButcher => TaskKind::RemoveButcher,
            TaskDone::LookupButcher { .. } => TaskKind::LookupButcher,
            TaskDone::LookupSearchTree { .. } => TaskKind::LookupSearchTree,
            TaskDone::LookupRangeButcher { .. } => TaskKind::LookupRangeButcher,
            TaskDone::LookupRangeSearchTree { .. } => TaskKind::LookupRangeSearchTree,
            TaskDone::MergeLookupRange(_) => TaskKind::MergeLookupRange,
            TaskDone::RetrieveValue(_) => TaskKind::RetrieveValue,
            TaskDone::MergeSearchTrees { .. } => TaskKind::MergeSearchTrees,
            TaskDone::DemolishSearchTree => TaskKind::DemolishSearchTree,
            TaskDone::FlushButcher { .. } => TaskKind::FlushButcher,
            TaskDone::FlushSearchTree { .. } => TaskKind::FlushSearchTree,
        }
    }
}

} // verus!
