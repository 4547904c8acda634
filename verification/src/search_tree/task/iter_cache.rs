//! Streaming a range of a snapshot of the write buffer, for a tree that
//! still serves from memory.

use vstd::prelude::*;
use crate::kv::{Cell, KeyValue, KeyValuePair, Value, ValueCell};
use crate::mem_cache::MemCache;
use crate::merger::KeyValueRef;
use crate::range::{RangeView, SearchRangeBounds};
use crate::search_tree::task::SearchTreeIterItemsTx;
use crate::storage::{ValueBlockRef, ValueRef};

verus! {

/// What a stream is asked for, and where it goes.
#[derive(Debug)]
pub struct IterRequestData {
    pub range: SearchRangeBounds,
    pub iter_items_tx: SearchTreeIterItemsTx,
}

/// The snapshot to stream from, and what is asked of it.
#[derive(Debug)]
pub struct Args {
    pub cache: MemCache,
    pub iter_request_data: IterRequestData,
}

/// The stream has been delivered.
#[derive(Clone, Copy, PartialEq, Eq, Structural, Debug)]
pub struct Done;

/// Why the stream could not be made.
#[derive(Clone, Copy, PartialEq, Eq, Structural, Debug)]
pub enum Error {
    ThreadPoolGone,
}

/// The snapshot to collect from, and the range to collect.
#[derive(Debug)]
pub struct JobArgs {
    pub cache: MemCache,
    pub range: SearchRangeBounds,
}

/// The collected pairs, in key order.
#[derive(Debug)]
pub struct JobDone {
    pub items: Vec<KeyValuePair<ValueBlockRef>>,
}

/// A pair of the write buffer as a tree would hold it: a value is inline.
pub open spec fn inline_pair(item: KeyValue<Seq<u8>>) -> KeyValue<ValueRef> {
    KeyValue {
        key: item.key,
        value_cell: ValueCell {
            version: item.value_cell.version,
            cell: match item.value_cell.cell {
                Cell::Value(value) => Cell::Value(ValueRef::Inline(value)),
                Cell::Tombstone => Cell::Tombstone,
            },
        },
    }
}

/// Those of the first `n` pairs of `items` whose keys lie in `range`, in
/// their order, each as a tree would hold it.
pub open spec fn in_range(items: Seq<KeyValue<Seq<u8>>>, range: RangeView, n: int) -> Seq<
    KeyValue<ValueRef>,
>
    decreases n,
{
    if n <= 0 {
        Seq::empty()
    } else if n <= items.len() && range.contains(items[n - 1].key) {
        in_range(items, range, n - 1).push(inline_pair(items[n - 1]))
    } else {
        in_range(items, range, n - 1)
    }
}

/// What `in_range` gives is complete and in order: it holds every pair with
/// a key in the range, nothing else, and pairs stand as they stood.
pub proof fn lemma_in_range(items: Seq<KeyValue<Seq<u8>>>, range: RangeView, n: int)
    requires
        0 <= n <= items.len(),
    ensures
        in_range(items, range, n).len() <= n,
        forall|j: int|
            0 <= j < in_range(items, range, n).len() ==> exists|i: int|
                0 <= i < n && range.contains(items[i].key) && #[trigger] in_range(items, range, n)[j]
                    == inline_pair(items[i]),
        forall|i: int|
            0 <= i < n && range.contains((#[trigger] items[i]).key) ==> in_range(
                items,
                range,
                n,
            ).contains(inline_pair(items[i])),
        crate::mem_cache::strictly_sorted(items) ==> crate::mem_cache::strictly_sorted(
            in_range(items, range, n),
        ),
    decreases n,
{
    if n > 0 {
        lemma_in_range(items, range, n - 1);
        let rest = in_range(items, range, n - 1);
        let all = in_range(items, range, n);
        if range.contains(items[n - 1].key) {
            assert(all == rest.push(inline_pair(items[n - 1])));
            assert forall|i: int| 0 <= i < n && range.contains((#[trigger] items[i]).key) implies all.contains(
                inline_pair(items[i]),
            ) by {
                if i < n - 1 {
                    let j = choose|j: int| 0 <= j < rest.len() && rest[j] == inline_pair(items[i]);
                    assert(all[j] == inline_pair(items[i]));
                } else {
                    assert(all[all.len() - 1] == inline_pair(items[i]));
                }
            }
            if crate::mem_cache::strictly_sorted(items) {
                assert forall|a: int, b: int| 0 <= a < b < all.len() implies crate::kv::key_lt(
                    (#[trigger] all[a]).key,
                    (#[trigger] all[b]).key,
                ) by {
                    if b == all.len() - 1 {
                        let i = choose|i: int|
                            0 <= i < n - 1 && range.contains(items[i].key) && rest[a] == inline_pair(
                                items[i],
                            );
                        assert(crate::kv::key_lt(items[i].key, items[n - 1].key));
                    } else {
                        assert(crate::kv::key_lt(rest[a].key, rest[b].key));
                    }
                }
            }
        } else {
            assert forall|i: int| 0 <= i < n && range.contains((#[trigger] items[i]).key) implies all.contains(
                inline_pair(items[i]),
            ) by {
                let j = choose|j: int| 0 <= j < rest.len() && rest[j] == inline_pair(items[i]);
                assert(all[j] == inline_pair(items[i]));
            }
        }
    }
}

/// A copy of a pair of the write buffer, as a tree would hold it.
fn inline_copy(item: &KeyValuePair<Value>) -> (copy: KeyValuePair<ValueBlockRef>)
    ensures
        copy@ == inline_pair(item@),
{
    let cell = match &item.value_cell.cell {
        Cell::Value(value) => Cell::Value(ValueBlockRef::Inline(value.clone())),
        Cell::Tombstone => Cell::Tombstone,
    };
    KeyValuePair {
        key: item.key.clone(),
        value_cell: ValueCell { version: item.value_cell.version, cell },
    }
}

/// Collects the pairs of the snapshot whose keys lie in the range, in key
/// order.
pub fn job(args: JobArgs) -> (output: Result<JobDone, Error>)
    ensures
        output matches Ok(done) && crate::merger::item_views(done.items@) == in_range(
            args.cache@,
            args.range@,
            args.cache@.len() as int,
        ),
{
    let JobArgs { cache, range } = args;
    let mut items: Vec<KeyValuePair<ValueBlockRef>> = Vec::new();
    let mut index: usize = 0;
    while index < cache.len()
        invariant
            index <= cache@.len(),
            crate::merger::item_views(items@) == in_range(cache@, range@, index as int),
        decreases cache@.len() - index,
    {
        let item = cache.get(index);
        if range.contains(&item.key) {
            let ghost so_far = crate::merger::item_views(items@);
            items.push(inline_copy(item));
            assert(crate::merger::item_views(items@) =~= so_far.push(inline_pair(item@)));
        }
        index += 1;
    }
    Ok(JobDone { items })
}

/// The stream that the collected pairs make: one item each, in their order.
/// The end of the stream is not part of it.
pub fn key_value_refs(items: Vec<KeyValuePair<ValueBlockRef>>) -> (refs: Vec<KeyValueRef>)
    ensures
        refs@.len() == items@.len(),
        forall|i: int|
            0 <= i < items@.len() ==> #[trigger] refs@[i] == (KeyValueRef::Item {
                key: items@[i].key,
                value_cell: items@[i].value_cell,
            }),
{
    let mut items = items;
    let ghost all = items@;
    let mut reversed: Vec<KeyValueRef> = Vec::new();
    while items.len() > 0
        invariant
            items@.len() <= all.len(),
            items@ == all.subrange(0, items@.len() as int),
            reversed@.len() == all.len() - items@.len(),
            forall|i: int|
                0 <= i < reversed@.len() ==> #[trigger] reversed@[i] == (KeyValueRef::Item {
                    key: all[all.len() - 1 - i].key,
                    value_cell: all[all.len() - 1 - i].value_cell,
                }),
        decreases items@.len(),
    {
        match items.pop() {
            Some(item) => {
                reversed.push(KeyValueRef::Item { key: item.key, value_cell: item.value_cell });
            },
            None => {},
        }
    }
    let mut refs: Vec<KeyValueRef> = Vec::new();
    while reversed.len() > 0
        invariant
            reversed@.len() + refs@.len() == all.len(),
            forall|i: int|
                0 <= i < reversed@.len() ==> #[trigger] reversed@[i] == (KeyValueRef::Item {
                    key: all[all.len() - 1 - i].key,
                    value_cell: all[all.len() - 1 - i].value_cell,
                }),
            forall|i: int|
                0 <= i < refs@.len() ==> #[trigger] refs@[i] == (KeyValueRef::Item {
                    key: all[i].key,
                    value_cell: all[i].value_cell,
                }),
        decreases reversed@.len(),
    {
        match reversed.pop() {
            Some(item) => {
                refs.push(item);
            },
            None => {},
        }
    }
    refs
}

} // verus!
