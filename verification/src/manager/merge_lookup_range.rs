//! Forwarding the merged pairs of a range scan to the client: a value that a
//! tree keeps in a block of its own has to be fetched first, and if the block
//! is gone the scan has to be taken up again from that key. So it has if a
//! pair that lost turns out to be of a higher version than the pair that was
//! chosen.

use vstd::prelude::*;
use crate::KeyValueStreamItem;
use crate::kv::{Cell, Key, KeyValue, KeyValuePair, Value, ValueCell};
use crate::manager::task::{KeyValuesTx, MergeLookupRangeDone};
use crate::merger::KeyValueRef;
use crate::range::{RangeBound, SearchRangeBounds};
use crate::search_tree::task::iter_cache::inline_pair;
use crate::storage::{BlockRef, ValueBlockRef};

verus! {

/// What has to happen with a merged pair.
#[derive(Debug)]
pub enum Forward {
    /// Send this to the client.
    Send(KeyValueStreamItem),
    /// Fetch the block, then go on with `fetched`.
    Fetch { key: Key, block_ref: BlockRef, version: u64 },
}

/// What has to happen after the block of a value was asked for.
#[derive(Debug)]
pub enum Fetched {
    /// Send this to the client.
    Send(KeyValueStreamItem),
    /// Send nothing more: end the merge with `done`, so that the scan is taken
    /// up again.
    Retry { done: MergeLookupRangeDone },
}

/// One of `deprecated` is of a higher version than `version`.
pub open spec fn spec_superseded(version: u64, deprecated: Seq<KeyValuePair<ValueBlockRef>>) -> bool {
    exists|i: int| 0 <= i < deprecated.len() && (#[trigger] deprecated[i]).value_cell.version > version
}

/// Tells whether one of the pairs that lost against `chosen` is of a higher
/// version than `chosen`: what was chosen is stale then, and the scan has to
/// be taken up again. The merger itself never lets a pair of a higher version
/// lose.
pub fn superseded(
    chosen: &KeyValuePair<ValueBlockRef>,
    deprecated: &Vec<KeyValuePair<ValueBlockRef>>,
) -> (stale: bool)
    ensures
        stale == spec_superseded(chosen.value_cell.version, deprecated@),
{
    let mut index: usize = 0;
    while index < deprecated.len()
        invariant
            index <= deprecated@.len(),
            forall|i: int|
                0 <= i < index ==> (#[trigger] deprecated@[i]).value_cell.version
                    <= chosen.value_cell.version,
        decreases deprecated@.len() - index,
    {
        if deprecated[index].value_cell.version > chosen.value_cell.version {
            return true;
        }
        index += 1;
    }
    false
}

/// How a merge ends whose scan has to be taken up again: with the rest of
/// the range, from `key` on.
pub fn retry_from(range: SearchRangeBounds, key_values_tx: KeyValuesTx, key: Key) -> (done:
    MergeLookupRangeDone)
    ensures
        done == (MergeLookupRangeDone::DeprecatedResults {
            modified_range: SearchRangeBounds {
                range_from: RangeBound::Included(key),
                range_to: range.range_to,
            },
            key_values_tx,
        }),
{
    MergeLookupRangeDone::DeprecatedResults { modified_range: range.restart_from(key), key_values_tx }
}

/// Says what to do with a merged pair: a tombstone and an inline value go to
/// the client as they are, a value in a block of its own has to be fetched.
pub fn forward(item: KeyValuePair<ValueBlockRef>) -> (forward: Forward)
    ensures
        match item.value_cell.cell {
            Cell::Tombstone => forward == Forward::Send(
                KeyValueStreamItem::KeyValue(
                    KeyValuePair {
                        key: item.key,
                        value_cell: ValueCell { version: item.value_cell.version, cell: Cell::Tombstone },
                    },
                ),
            ),
            Cell::Value(ValueBlockRef::Inline(value)) => forward == Forward::Send(
                KeyValueStreamItem::KeyValue(
                    KeyValuePair {
                        key: item.key,
                        value_cell: ValueCell {
                            version: item.value_cell.version,
                            cell: Cell::Value(value),
                        },
                    },
                ),
            ),
            Cell::Value(ValueBlockRef::External(block_ref)) => forward == (Forward::Fetch {
                key: item.key,
                block_ref,
                version: item.value_cell.version,
            }),
        },
{
    let KeyValuePair { key, value_cell } = item;
    let version = value_cell.version;
    match value_cell.cell {
        Cell::Tombstone => Forward::Send(
            KeyValueStreamItem::KeyValue(
                KeyValuePair { key, value_cell: ValueCell { version, cell: Cell::Tombstone } },
            ),
        ),
        Cell::Value(ValueBlockRef::Inline(value)) => Forward::Send(
            KeyValueStreamItem::KeyValue(
                KeyValuePair { key, value_cell: ValueCell { version, cell: Cell::Value(value) } },
            ),
        ),
        Cell::Value(ValueBlockRef::External(block_ref)) => Forward::Fetch { key, block_ref, version },
    }
}

/// Says what to do once the block of a value was asked for. If the block was
/// there, its bytes are the value. If it was gone, the tree that pointed to it
/// has been compacted away meanwhile: the scan is taken up again for the rest
/// of the range, from `key` on.
pub fn fetched(
    range: SearchRangeBounds,
    key_values_tx: KeyValuesTx,
    key: Key,
    version: u64,
    block: Option<Value>,
) -> (fetched: Fetched)
    ensures
        match block {
            Some(value) => fetched == Fetched::Send(
                KeyValueStreamItem::KeyValue(
                    KeyValuePair { key, value_cell: ValueCell { version, cell: Cell::Value(value) } },
                ),
            ),
            None => fetched == (Fetched::Retry {
                done: MergeLookupRangeDone::DeprecatedResults {
                    modified_range: SearchRangeBounds {
                        range_from: RangeBound::Included(key),
                        range_to: range.range_to,
                    },
                    key_values_tx,
                },
            }),
        },
{
    match block {
        Some(value) => Fetched::Send(
            KeyValueStreamItem::KeyValue(
                KeyValuePair { key, value_cell: ValueCell { version, cell: Cell::Value(value) } },
            ),
        ),
        None => Fetched::Retry { done: retry_from(range, key_values_tx, key) },
    }
}

/// The stream that the write buffer's part of a range scan makes: each pair
/// as a tree would hold it, in their order, and the end of the stream. Merged
/// as the last of the streams, it wins against a tree at equal versions.
pub fn butcher_stream(butcher_iter_items: Vec<KeyValuePair<Value>>) -> (stream: Vec<KeyValueRef>)
    ensures
        stream@.len() == butcher_iter_items@.len() + 1,
        stream@.last() == KeyValueRef::NoMore,
        forall|i: int|
            0 <= i < butcher_iter_items@.len() ==> match #[trigger] stream@[i] {
                KeyValueRef::Item { key, value_cell } => (KeyValue { key: key@, value_cell: value_cell@ })
                    == inline_pair(butcher_iter_items@[i]@),
                _ => false,
            },
{
    let mut items = butcher_iter_items;
    let ghost all = items@;
    let mut turned: Vec<KeyValuePair<Value>> = Vec::new();
    while items.len() > 0
        invariant
            items@.len() + turned@.len() == all.len(),
            items@ == all.subrange(0, items@.len() as int),
            forall|i: int| 0 <= i < turned@.len() ==> #[trigger] turned@[i] == all[all.len() - 1 - i],
        decreases items@.len(),
    {
        match items.pop() {
            Some(item) => {
                turned.push(item);
            },
            None => {},
        }
    }
    let mut stream: Vec<KeyValueRef> = Vec::new();
    while turned.len() > 0
        invariant
            turned@.len() + stream@.len() == all.len(),
            forall|i: int| 0 <= i < turned@.len() ==> #[trigger] turned@[i] == all[all.len() - 1 - i],
            forall|i: int|
                0 <= i < stream@.len() ==> match #[trigger] stream@[i] {
                    KeyValueRef::Item { key, value_cell } => (KeyValue {
                        key: key@,
                        value_cell: value_cell@,
                    }) == inline_pair(all[i]@),
                    _ => false,
                },
        decreases turned@.len(),
    {
        match turned.pop() {
            Some(KeyValuePair { key, value_cell }) => {
                let cell = match value_cell.cell {
                    Cell::Value(value) => Cell::Value(ValueBlockRef::Inline(value)),
                    Cell::Tombstone => Cell::Tombstone,
                };
                stream.push(
                    KeyValueRef::Item {
                        key,
                        value_cell: ValueCell { version: value_cell.version, cell },
                    },
                );
            },
            None => {},
        }
    }
    stream.push(KeyValueRef::NoMore);
    stream
}

} // verus!
