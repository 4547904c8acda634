//! Turning the best answer to a lookup into what the client gets: a value
//! that a tree keeps in a block of its own has to be fetched first.

use vstd::prelude::*;
use crate::kv::{Cell, Key, Value, ValueCell};
use crate::manager::task::{ReplyTx, RetrieveValueDone};
use crate::storage::{BlockRef, ValueBlockRef};

verus! {

/// What has to happen with the best answer to a lookup.
#[derive(Debug)]
pub enum Resolve {
    /// Answer the client with this.
    Reply(Option<ValueCell<Value>>),
    /// Fetch the block, then go on with `fetched`.
    Fetch { block_ref: BlockRef, version: u64 },
}

/// What has to happen after the block of a value was asked for.
#[derive(Debug)]
pub enum Fetched {
    /// Answer the client with this, and hand `done` to the manager.
    Reply { found: Option<ValueCell<Value>>, done: RetrieveValueDone },
    /// Do not answer the client: hand `done` to the manager, so that the
    /// lookup is made again.
    Retry { done: RetrieveValueDone },
}

/// Says what to do with the best answer to a lookup: nothing found and
/// tombstones are answered as they are, an inline value is answered with its
/// version, and a value in a block of its own has to be fetched.
pub fn resolve(found_fold: Option<ValueCell<ValueBlockRef>>) -> (resolve: Resolve)
    ensures
        match found_fold {
            None => resolve == Resolve::Reply(None),
            Some(value_cell) => match value_cell.cell {
                Cell::Tombstone => resolve == Resolve::Reply(
                    Some(ValueCell { version: value_cell.version, cell: Cell::Tombstone }),
                ),
                Cell::Value(ValueBlockRef::Inline(value)) => resolve == Resolve::Reply(
                    Some(ValueCell { version: value_cell.version, cell: Cell::Value(value) }),
                ),
                Cell::Value(ValueBlockRef::External(block_ref)) => resolve == (Resolve::Fetch {
                    block_ref,
                    version: value_cell.version,
                }),
            },
        },
{
    match found_fold {
        None => Resolve::Reply(None),
        Some(value_cell) => {
            let version = value_cell.version;
            match value_cell.cell {
                Cell::Tombstone => Resolve::Reply(Some(ValueCell { version, cell: Cell::Tombstone })),
                Cell::Value(ValueBlockRef::Inline(value)) => Resolve::Reply(
                    Some(ValueCell { version, cell: Cell::Value(value) }),
                ),
                Cell::Value(ValueBlockRef::External(block_ref)) => Resolve::Fetch { block_ref, version },
            }
        },
    }
}

/// Says what to do once the block of a value was asked for. If the block was
/// there, its bytes are the value. If it was gone, the tree that pointed to it
/// has been compacted away meanwhile, and the lookup has to be made again.
pub fn fetched(key: Key, reply_tx: ReplyTx, version: u64, block: Option<Value>) -> (fetched: Fetched)
    ensures
        match block {
            Some(value) => fetched == (Fetched::Reply {
                found: Some(ValueCell { version, cell: Cell::Value(value) }),
                done: RetrieveValueDone::RetrieveSuccess,
            }),
            None => fetched == (Fetched::Retry {
                done: RetrieveValueDone::DeprecatedResults { key, reply_tx },
            }),
        },
{
    match block {
        Some(value) => Fetched::Reply {
            found: Some(ValueCell { version, cell: Cell::Value(value) }),
            done: RetrieveValueDone::RetrieveSuccess,
        },
        None => Fetched::Retry { done: RetrieveValueDone::DeprecatedResults { key, reply_tx } },
    }
}

} // verus!
