use ero_blockwheel_kv::kv::{Cell, Key, KeyValuePair, Value, ValueCell};
use ero_blockwheel_kv::mem_cache::MemCache;
use ero_blockwheel_kv::merger::KeyValueRef;
use ero_blockwheel_kv::range::{RangeBound, SearchRangeBounds};
use ero_blockwheel_kv::search_tree::task::iter_cache::{job, key_value_refs, JobArgs};
use ero_blockwheel_kv::search_tree::task::{
    Error, SearchTreeIterBlockRefsTx, SearchTreeIterItemsTx, SearchTreeIterSinks, TaskArgs, TaskDone,
    TaskKind,
};
use ero_blockwheel_kv::storage::{BlockRef, ValueBlockRef};

fn key(text: &str) -> Key {
    Key::new(text.as_bytes().to_vec())
}

fn pair(text: &str, version: u64, cell: Cell<Value>) -> KeyValuePair<Value> {
    KeyValuePair { key: key(text), value_cell: ValueCell { version, cell } }
}

fn cache() -> MemCache {
    let mut cache = MemCache::new();
    assert!(cache.push(pair("a", 1, Cell::Value(Value { value_bytes: vec![1] }))).is_none());
    assert!(cache.push(pair("b", 2, Cell::Tombstone)).is_none());
    assert!(cache.push(pair("c", 3, Cell::Value(Value { value_bytes: vec![3] }))).is_none());
    assert!(cache.push(pair("d", 4, Cell::Value(Value { value_bytes: vec![4] }))).is_none());
    cache
}

#[test]
fn cache_keeps_strict_key_order() {
    let mut cache = cache();
    assert_eq!(cache.len(), 4);
    let refused = cache.push(pair("d", 9, Cell::Tombstone));
    assert!(matches!(refused, Some(KeyValuePair { value_cell: ValueCell { version: 9, .. }, .. })));
    assert!(cache.push(pair("b", 9, Cell::Tombstone)).is_some());
    assert_eq!(cache.len(), 4);
    assert_eq!(cache.get(2).key.key_bytes, b"c");
}

#[test]
fn job_collects_the_range_in_order() {
    let range = SearchRangeBounds::new(RangeBound::Included(key("b")), RangeBound::Excluded(key("d")));
    let done = job(JobArgs { cache: cache(), range }).unwrap();
    assert_eq!(done.items.len(), 2);
    assert_eq!(done.items[0].key.key_bytes, b"b");
    assert_eq!(done.items[0].value_cell.version, 2);
    assert!(matches!(done.items[0].value_cell.cell, Cell::Tombstone));
    assert_eq!(done.items[1].key.key_bytes, b"c");
    match &done.items[1].value_cell.cell {
        Cell::Value(ValueBlockRef::Inline(value)) => assert_eq!(value.value_bytes, vec![3]),
        _ => panic!("a value of the write buffer is inline"),
    }
}

#[test]
fn job_on_an_empty_range() {
    let range = SearchRangeBounds::new(RangeBound::Excluded(key("d")), RangeBound::Unbounded);
    assert!(job(JobArgs { cache: cache(), range }).unwrap().items.is_empty());
}

#[test]
fn stream_items_keep_the_order() {
    let range = SearchRangeBounds::new(RangeBound::Unbounded, RangeBound::Unbounded);
    let done = job(JobArgs { cache: cache(), range }).unwrap();
    let refs = key_value_refs(done.items);
    let keys: Vec<Vec<u8>> = refs
        .iter()
        .map(|item| match item {
            KeyValueRef::Item { key, .. } => key.key_bytes.clone(),
            _ => panic!("only items are due"),
        })
        .collect();
    assert_eq!(keys, vec![b"a".to_vec(), b"b".to_vec(), b"c".to_vec(), b"d".to_vec()]);
}

#[test]
fn sinks_clear() {
    let mut sinks = SearchTreeIterSinks::default();
    sinks.items_txs.push(SearchTreeIterItemsTx { id: 1 });
    sinks.block_refs_txs.push(SearchTreeIterBlockRefsTx { id: 2 });
    sinks.block_refs_txs.push(SearchTreeIterBlockRefsTx { id: 3 });
    sinks.clear();
    assert!(sinks.items_txs.is_empty());
    assert!(sinks.block_refs_txs.is_empty());
}

#[test]
fn task_results_share_the_kind_of_the_task() {
    let args = TaskArgs::LoadBlock { block_ref: BlockRef { block_id: 1 } };
    let done = TaskDone::LoadBlock { block_ref: BlockRef { block_id: 1 } };
    assert_eq!(args.kind(), TaskKind::LoadBlock);
    assert_eq!(done.kind(), args.kind());
    assert_eq!(Error::LoadBlock.kind(), args.kind());
    assert_eq!(TaskArgs::Bootstrap { cache: MemCache::new() }.kind(), TaskKind::Bootstrap);
    assert_eq!(Error::Bootstrap.kind(), TaskKind::Bootstrap);
}
