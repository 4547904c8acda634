//! The work that a tree hands out, and what comes back from it.

use core::cmp::Ordering;
use vstd::prelude::*;
use crate::kv::{Key, KeyOrder, Value, ValueCell, key_order, lemma_key_order_equal};
use crate::mem_cache::MemCache;
use crate::storage::BlockRef;

pub mod iter_cache;

verus! {

/// The number under which the driver keeps the channel that a lookup in a
/// tree is answered on.
#[derive(Clone, Copy, PartialEq, Eq, Structural, Debug)]
pub struct LookupReplyTx {
    pub id: u64,
}

/// The number under which the driver keeps the sending end of a stream of
/// items.
#[derive(Clone, Copy, PartialEq, Eq, Structural, Debug)]
pub struct SearchTreeIterItemsTx {
    pub id: u64,
}

/// The number under which the driver keeps the sending end of a stream of
/// block references.
#[derive(Clone, Copy, PartialEq, Eq, Structural, Debug)]
pub struct SearchTreeIterBlockRefsTx {
    pub id: u64,
}

/// The number under which the driver keeps the channel that a request for a
/// stream is answered on.
#[derive(Clone, Copy, PartialEq, Eq, Structural, Debug)]
pub struct IterReplyTx {
    pub id: u64,
}

/// A lookup in a tree, and where the search through one block left it.
#[derive(Debug)]
pub struct SearchOutcome {
    pub request: LookupRequest,
    pub outcome: Outcome,
}

/// Where the search through one block leaves a lookup.
#[derive(Debug)]
pub enum Outcome {
    Found { value_cell: ValueCell<Value> },
    NotFound,
    /// The key, if it is there, is below the block `block_ref`.
    Jump { block_ref: BlockRef },
}

/// A lookup in a tree.
#[derive(Debug)]
pub struct LookupRequest {
    pub key: Key,
    pub reply_tx: LookupReplyTx,
}

/// Two lookups are equal if they are for the same key.
impl PartialEq for LookupRequest {
    fn eq(&self, other: &LookupRequest) -> (equal: bool) {
        proof {
            lemma_key_order_equal(self.key@, other.key@);
        }
        match self.key.compare(&other.key) {
            KeyOrder::Equal => true,
            _ => false,
        }
    }
}

impl vstd::std_specs::cmp::PartialEqSpecImpl for LookupRequest {
    open spec fn obeys_eq_spec() -> bool {
        true
    }

    open spec fn eq_spec(&self, other: &LookupRequest) -> bool {
        self.key@ == other.key@
    }
}

/// Lookups are ordered against the order of their keys, so that a queue
/// that hands out its greatest member first hands out the lowest key first.
impl PartialOrd for LookupRequest {
    fn partial_cmp(&self, other: &LookupRequest) -> (order: Option<Ordering>) {
        match other.key.compare(&self.key) {
            KeyOrder::Less => Some(Ordering::Less),
            KeyOrder::Equal => Some(Ordering::Equal),
            KeyOrder::Greater => Some(Ordering::Greater),
        }
    }
}

impl vstd::std_specs::cmp::PartialOrdSpecImpl for LookupRequest {
    open spec fn obeys_partial_cmp_spec() -> bool {
        true
    }

    open spec fn partial_cmp_spec(&self, other: &LookupRequest) -> Option<Ordering> {
        match key_order(other.key@, self.key@) {
            KeyOrder::Less => Some(Ordering::Less),
            KeyOrder::Equal => Some(Ordering::Equal),
            KeyOrder::Greater => Some(Ordering::Greater),
        }
    }
}

/// The sending ends of the streams that a tree is serving.
#[derive(Debug)]
pub struct SearchTreeIterSinks {
    pub items_txs: Vec<SearchTreeIterItemsTx>,
    pub block_refs_txs: Vec<SearchTreeIterBlockRefsTx>,
}

impl Default for SearchTreeIterSinks {
    fn default() -> (sinks: SearchTreeIterSinks)
        ensures
            sinks.items_txs@.len() == 0,
            sinks.block_refs_txs@.len() == 0,
    {
        SearchTreeIterSinks { items_txs: Vec::new(), block_refs_txs: Vec::new() }
    }
}

impl SearchTreeIterSinks {
    /// Lets go of all sending ends.
    pub fn clear(&mut self)
        ensures
            final(self).items_txs@.len() == 0,
            final(self).block_refs_txs@.len() == 0,
    {
        self.items_txs.clear();
        self.block_refs_txs.clear();
    }
}

/// A request for a stream over the part of a tree below `block_ref`.
#[derive(Clone, Copy, PartialEq, Eq, Structural, Debug)]
pub struct IterRequest {
    pub block_ref: BlockRef,
    pub kind: IterRequestKind,
}

/// What a stream is to carry, and where the request for it is answered.
#[derive(Clone, Copy, PartialEq, Eq, Structural, Debug)]
pub enum IterRequestKind {
    Items { reply_tx: IterReplyTx },
    BlockRefs { reply_tx: IterReplyTx },
}

/// Why a lookup in a tree failed. There is no way for it to fail, and so there
/// is no value of this type.
#[derive(Debug)]
pub struct SearchTreeLookupError {
    never: core::convert::Infallible,
}

/// The kind of a task of a tree, which its result and its failure share.
#[derive(Clone, Copy, PartialEq, Eq, Structural, Debug)]
pub enum TaskKind {
    Bootstrap,
    LoadBlock,
    SearchBlock,
    IterCache,
    IterBlock,
}

/// A task of a tree, with what it works on.
#[derive(Debug)]
pub enum TaskArgs {
    /// Write the blocks of a tree from a snapshot of the write buffer.
    Bootstrap { cache: MemCache },
    /// Read a block from the store.
    LoadBlock { block_ref: BlockRef },
    /// Search a block for the keys of some lookups.
    SearchBlock { block_ref: BlockRef, requests: Vec<LookupRequest> },
    /// Stream a range of a snapshot of the write buffer.
    IterCache(iter_cache::Args),
    /// Stream the part of the tree below a block.
    IterBlock { block_ref: BlockRef, kind: IterRequestKind },
}

/// What a task of a tree brought back.
#[derive(Debug)]
pub enum TaskDone {
    Bootstrap { root_block: BlockRef },
    LoadBlock { block_ref: BlockRef },
    SearchBlock { block_ref: BlockRef, outcomes: Vec<SearchOutcome> },
    IterCache(iter_cache::Done),
    IterBlock { block_ref: BlockRef },
}

/// Which task of a tree failed.
#[derive(Clone, Copy, PartialEq, Eq, Structural, Debug)]
pub enum Error {
    Bootstrap,
    LoadBlock,
    SearchBlock,
    IterCache(iter_cache::Error),
    IterBlock,
}

impl TaskArgs {
    pub open spec fn spec_kind(&self) -> TaskKind {
        match self {
            TaskArgs::Bootstrap { .. } => TaskKind::Bootstrap,
            TaskArgs::LoadBlock { .. } => TaskKind::LoadBlock,
            TaskArgs::SearchBlock { .. } => TaskKind::SearchBlock,
            TaskArgs::IterCache(_) => TaskKind::IterCache,
            TaskArgs::IterBlock { .. } => TaskKind::IterBlock,
        }
    }

    #[verifier::when_used_as_spec(spec_kind)]
    pub fn kind(&self) -> (kind: TaskKind)
        ensures
            kind == self.spec_kind(),
    {
        match self {
            TaskArgs::Bootstrap { .. } => TaskKind::Bootstrap,
            TaskArgs::LoadBlock { .. } => TaskKind::LoadBlock,
            TaskArgs::SearchBlock { .. } => TaskKind::SearchBlock,
            TaskArgs::IterCache(_) => TaskKind::IterCache,
            TaskArgs::IterBlock { .. } => TaskKind::IterBlock,
        }
    }
}

impl TaskDone {
    pub open spec fn spec_kind(&self) -> TaskKind {
        match self {
            TaskDone::Bootstrap { .. } => TaskKind::Bootstrap,
            TaskDone::LoadBlock { .. } => TaskKind::LoadBlock,
            TaskDone::SearchBlock { .. } => TaskKind::SearchBlock,
            TaskDone::IterCache(_) => TaskKind::IterCache,
            TaskDone::IterBlock { .. } => TaskKind::IterBlock,
        }
    }

    #[verifier::when_used_as_spec(spec_kind)]
    pub fn kind(&self) -> (kind: TaskKind)
        ensures
            kind == self.spec_kind(),
    {
        match self {
            TaskDone::Bootstrap { .. } => TaskKind::Bootstrap,
            TaskDone::LoadBlock { .. } => TaskKind::LoadBlock,
            TaskDone::SearchBlock { .. } => TaskKind::SearchBlock,
            TaskDone::IterCache(_) => TaskKind::IterCache,
            TaskDone::IterBlock { .. } => TaskKind::IterBlock,
        }
    }
}

impl Error {
    pub open spec fn spec_kind(&self) -> TaskKind {
        match self {
            Error::Bootstrap => TaskKind::Bootstrap,
            Error::LoadBlock => TaskKind::LoadBlock,
            Error::SearchBlock => TaskKind::SearchBlock,
            Error::IterCache(_) => TaskKind::IterCache,
            Error::IterBlock => TaskKind::IterBlock,
        }
    }

    #[verifier::when_used_as_spec(spec_kind)]
    pub fn kind(&self) -> (kind: TaskKind)
        ensures
            kind == self.spec_kind(),
    {
        match self {
            Error::Bootstrap => TaskKind::Bootstrap,
            Error::LoadBlock => TaskKind::LoadBlock,
            Error::SearchBlock => TaskKind::SearchBlock,
            Error::IterCache(_) => TaskKind::IterCache,
            Error::IterBlock => TaskKind::IterBlock,
        }
    }
}

} // verus!
