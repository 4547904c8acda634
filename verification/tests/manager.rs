use ero_blockwheel_kv::kv::{Cell, Key, KeyValuePair, Value, ValueCell};
use ero_blockwheel_kv::manager::merge_lookup_range::{
    self, butcher_stream, forward, retry_from, superseded, Forward,
};
use ero_blockwheel_kv::manager::retrieve_value::{fetched, resolve, Fetched, Resolve};
use ero_blockwheel_kv::merger::KeyValueRef;
use ero_blockwheel_kv::KeyValueStreamItem;
use ero_blockwheel_kv::manager::task::{
    Error as TaskError, KeyValuesTx, MergeLookupRangeDone, ReplyTx, RetrieveValueDone, TaskArgs,
    TaskDone, TaskKind,
};
use ero_blockwheel_kv::manager::{
    replace_fold_found, Action, ButcherFlush, Error, Event, IterBlocksItem, LoadStep, Manager, Params,
    Poll, Request, Transition,
};
use ero_blockwheel_kv::mem_cache::MemCache;
use ero_blockwheel_kv::range::{RangeBound, SearchRangeBounds};
use ero_blockwheel_kv::refset::Ref;
use ero_blockwheel_kv::search_tree::Mode;
use ero_blockwheel_kv::storage::{BlockHeader, BlockRef, NodeType, ValueBlockRef};
use ero_blockwheel_kv::Info;

fn key(text: &str) -> Key {
    Key::new(text.as_bytes().to_vec())
}

fn inline(version: u64, byte: u8) -> Option<ValueCell<ValueBlockRef>> {
    Some(ValueCell {
        version,
        cell: Cell::Value(ValueBlockRef::Inline(Value { value_bytes: vec![byte] })),
    })
}

fn cache_of(count: usize) -> MemCache {
    let mut cache = MemCache::new();
    for index in 0..count {
        let refused = cache.push(KeyValuePair {
            key: Key::new(vec![(index / 256) as u8, (index % 256) as u8]),
            value_cell: ValueCell {
                version: index as u64,
                cell: Cell::Value(Value { value_bytes: vec![1] }),
            },
        });
        assert!(refused.is_none());
    }
    cache
}

fn step(manager: &mut Manager, event: Event) -> Vec<Action> {
    assert!(manager.has_room());
    assert!(manager.expects(&event));
    match manager.handle(event) {
        Transition::Proceed(actions) => actions,
        _ => panic!("the manager should go on"),
    }
}

fn flush_cache(manager: &mut Manager, count: usize) -> (Ref, Vec<Action>) {
    let mut actions = step(manager, Event::FlushCache(Some(ButcherFlush { cache: cache_of(count) })));
    match actions.remove(0) {
        Action::SpawnSearchTree { search_tree_ref, mode: Mode::CacheBootstrap { cache } } => {
            assert_eq!(cache.len(), count);
            (search_tree_ref, actions)
        },
        _ => panic!("a tree should be started first"),
    }
}

#[test]
fn poll_in_steady_state() {
    let mut manager = Manager::new(Params::default());
    assert_eq!(
        manager.poll(),
        Poll::Select { requests: true, flush_cache: true, tasks: false, bg_tasks: true }
    );
    let actions = step(
        &mut manager,
        Event::Request(Some(Request::Insert {
            key: key("a"),
            value: Value { value_bytes: vec![1] },
            reply_tx: ReplyTx { id: 1 },
        })),
    );
    assert_eq!(actions.len(), 1);
    assert!(matches!(
        &actions[0],
        Action::Task(TaskArgs::InsertButcher { key, value, reply_tx: ReplyTx { id: 1 } })
            if key.key_bytes == b"a" && value.value_bytes == vec![1]
    ));
    assert_eq!(
        manager.poll(),
        Poll::Select { requests: true, flush_cache: true, tasks: true, bg_tasks: true }
    );
    assert!(step(&mut manager, Event::Task(Ok(TaskDone::InsertButcher))).is_empty());
    assert_eq!(manager.tasks_out(), (0, 0));
}

#[test]
fn remove_goes_to_the_write_buffer_alone() {
    let mut manager = Manager::new(Params::default());
    flush_cache(&mut manager, 3);
    let actions = step(
        &mut manager,
        Event::Request(Some(Request::Remove { key: key("a"), reply_tx: ReplyTx { id: 2 } })),
    );
    assert_eq!(actions.len(), 1);
    assert!(matches!(
        &actions[0],
        Action::Task(TaskArgs::RemoveButcher { key, reply_tx: ReplyTx { id: 2 } }) if key.key_bytes == b"a"
    ));
    assert!(step(&mut manager, Event::Task(Ok(TaskDone::RemoveButcher))).is_empty());
}

#[test]
fn lookup_without_trees_asks_the_write_buffer_and_retrieves() {
    let mut manager = Manager::new(Params::default());
    let actions = step(
        &mut manager,
        Event::Request(Some(Request::Lookup { key: key("a"), reply_tx: ReplyTx { id: 7 } })),
    );
    assert_eq!(actions.len(), 1);
    let request_ref = match &actions[0] {
        Action::Task(TaskArgs::LookupButcher { request_ref, key }) => {
            assert_eq!(key.key_bytes, b"a");
            *request_ref
        },
        _ => panic!("the write buffer should be asked"),
    };
    let actions =
        step(&mut manager, Event::Task(Ok(TaskDone::LookupButcher { request_ref, found: inline(1, 1) })));
    assert_eq!(actions.len(), 1);
    match &actions[0] {
        Action::Task(TaskArgs::RetrieveValue { key, found_fold, reply_tx }) => {
            assert_eq!(key.key_bytes, b"a");
            assert_eq!(reply_tx.id, 7);
            assert_eq!(found_fold.as_ref().map(|cell| cell.version), Some(1));
        },
        _ => panic!("the value should be retrieved"),
    }
    assert!(step(
        &mut manager,
        Event::Task(Ok(TaskDone::RetrieveValue(RetrieveValueDone::RetrieveSuccess)))
    )
    .is_empty());
    assert_eq!(manager.tasks_out(), (0, 0));
}

#[test]
fn lookup_of_missing_key_retrieves_nothing() {
    let mut manager = Manager::new(Params::default());
    let actions = step(
        &mut manager,
        Event::Request(Some(Request::Lookup { key: key("b"), reply_tx: ReplyTx { id: 8 } })),
    );
    let request_ref = match &actions[0] {
        Action::Task(TaskArgs::LookupButcher { request_ref, .. }) => *request_ref,
        _ => panic!("the write buffer should be asked"),
    };
    let actions =
        step(&mut manager, Event::Task(Ok(TaskDone::LookupButcher { request_ref, found: None })));
    assert!(matches!(
        &actions[0],
        Action::Task(TaskArgs::RetrieveValue { found_fold: None, reply_tx: ReplyTx { id: 8 }, .. })
    ));
}

#[test]
fn lookup_folds_the_highest_version() {
    let mut manager = Manager::new(Params::default());
    let (tree_a, _) = flush_cache(&mut manager, 5);
    let (tree_b, _) = flush_cache(&mut manager, 100);
    assert_eq!(manager.search_trees_count(), 2);
    let actions = step(
        &mut manager,
        Event::Request(Some(Request::Lookup { key: key("a"), reply_tx: ReplyTx { id: 1 } })),
    );
    assert_eq!(actions.len(), 3);
    let request_ref = match &actions[0] {
        Action::Task(TaskArgs::LookupButcher { request_ref, .. }) => *request_ref,
        _ => panic!("the write buffer should be asked first"),
    };
    let mut asked = Vec::new();
    for action in &actions[1..] {
        match action {
            Action::Task(TaskArgs::LookupSearchTree { request_ref: r, key, search_tree_ref }) => {
                assert_eq!(*r, request_ref);
                assert_eq!(key.key_bytes, b"a");
                asked.push(*search_tree_ref);
            },
            _ => panic!("each tree should be asked"),
        }
    }
    assert_eq!(asked, vec![tree_a, tree_b]);
    assert_eq!(manager.tasks_out().0, 3);
    assert!(step(
        &mut manager,
        Event::Task(Ok(TaskDone::LookupSearchTree { request_ref, found: inline(3, 3) }))
    )
    .is_empty());
    assert!(step(
        &mut manager,
        Event::Task(Ok(TaskDone::LookupButcher { request_ref, found: inline(4, 4) }))
    )
    .is_empty());
    let actions =
        step(&mut manager, Event::Task(Ok(TaskDone::LookupSearchTree { request_ref, found: inline(2, 2) })));
    assert_eq!(actions.len(), 1);
    match &actions[0] {
        Action::Task(TaskArgs::RetrieveValue { found_fold, .. }) => {
            assert_eq!(found_fold.as_ref().map(|cell| cell.version), Some(4));
        },
        _ => panic!("the value should be retrieved"),
    }
}

#[test]
fn fold_replaces_only_for_a_strictly_higher_version() {
    assert!(!replace_fold_found(&None, &None));
    assert!(!replace_fold_found(&inline(1, 1), &None));
    assert!(replace_fold_found(&None, &inline(1, 1)));
    assert!(replace_fold_found(&inline(1, 1), &inline(2, 2)));
    assert!(!replace_fold_found(&inline(2, 2), &inline(2, 3)));
    assert!(!replace_fold_found(&inline(3, 3), &inline(2, 2)));
}

#[test]
fn flush_under_a_lookup_invalidates_the_write_buffers_answer() {
    let mut manager = Manager::new(Params::default());
    let actions = step(
        &mut manager,
        Event::Request(Some(Request::Lookup { key: key("a"), reply_tx: ReplyTx { id: 1 } })),
    );
    let request_ref = match &actions[0] {
        Action::Task(TaskArgs::LookupButcher { request_ref, .. }) => *request_ref,
        _ => panic!("the write buffer should be asked"),
    };
    let (tree, actions) = flush_cache(&mut manager, 1);
    assert_eq!(actions.len(), 1);
    match &actions[0] {
        Action::Task(TaskArgs::LookupSearchTree { request_ref: r, key, search_tree_ref }) => {
            assert_eq!(*r, request_ref);
            assert_eq!(key.key_bytes, b"a");
            assert_eq!(*search_tree_ref, tree);
        },
        _ => panic!("the new tree should be asked"),
    }
    assert_eq!(manager.tasks_out().0, 2);
    // the write buffer answers from after the flush: nothing there
    assert!(step(&mut manager, Event::Task(Ok(TaskDone::LookupButcher { request_ref, found: None })))
        .is_empty());
    let actions = step(
        &mut manager,
        Event::Task(Ok(TaskDone::LookupSearchTree { request_ref, found: inline(1, 0xff) })),
    );
    match &actions[0] {
        Action::Task(TaskArgs::RetrieveValue { found_fold, .. }) => match found_fold {
            Some(ValueCell { version: 1, cell: Cell::Value(ValueBlockRef::Inline(value)) }) => {
                assert_eq!(value.value_bytes, vec![0xff])
            },
            _ => panic!("the flushed value should have been found"),
        },
        _ => panic!("the value should be retrieved"),
    }
}

#[test]
fn invalidated_answer_of_the_write_buffer_is_discarded() {
    let mut manager = Manager::new(Params::default());
    let actions = step(
        &mut manager,
        Event::Request(Some(Request::Lookup { key: key("a"), reply_tx: ReplyTx { id: 1 } })),
    );
    let request_ref = match &actions[0] {
        Action::Task(TaskArgs::LookupButcher { request_ref, .. }) => *request_ref,
        _ => panic!("the write buffer should be asked"),
    };
    flush_cache(&mut manager, 1);
    assert!(step(
        &mut manager,
        Event::Task(Ok(TaskDone::LookupButcher { request_ref, found: inline(9, 9) }))
    )
    .is_empty());
    let actions =
        step(&mut manager, Event::Task(Ok(TaskDone::LookupSearchTree { request_ref, found: inline(5, 5) })));
    match &actions[0] {
        Action::Task(TaskArgs::RetrieveValue { found_fold, .. }) => {
            assert_eq!(found_fold.as_ref().map(|cell| cell.version), Some(5));
        },
        _ => panic!("the value should be retrieved"),
    }
}

#[test]
fn answered_lookup_is_not_invalidated() {
    let mut manager = Manager::new(Params::default());
    let (_, _) = flush_cache(&mut manager, 1);
    let actions = step(
        &mut manager,
        Event::Request(Some(Request::Lookup { key: key("a"), reply_tx: ReplyTx { id: 1 } })),
    );
    let request_ref = match &actions[0] {
        Action::Task(TaskArgs::LookupButcher { request_ref, .. }) => *request_ref,
        _ => panic!("the write buffer should be asked"),
    };
    assert!(step(
        &mut manager,
        Event::Task(Ok(TaskDone::LookupButcher { request_ref, found: inline(9, 9) }))
    )
    .is_empty());
    let (_, actions) = flush_cache(&mut manager, 1000);
    assert!(actions.is_empty());
    let actions =
        step(&mut manager, Event::Task(Ok(TaskDone::LookupSearchTree { request_ref, found: None })));
    match &actions[0] {
        Action::Task(TaskArgs::RetrieveValue { found_fold, .. }) => {
            assert_eq!(found_fold.as_ref().map(|cell| cell.version), Some(9));
        },
        _ => panic!("the value should be retrieved"),
    }
}

#[test]
fn deprecated_retrieval_starts_the_lookup_again() {
    let mut manager = Manager::new(Params::default());
    let (tree, _) = flush_cache(&mut manager, 1);
    let actions = step(
        &mut manager,
        Event::Request(Some(Request::Insert {
            key: key("x"),
            value: Value { value_bytes: vec![] },
            reply_tx: ReplyTx { id: 0 },
        })),
    );
    assert_eq!(actions.len(), 1);
    let actions = step(
        &mut manager,
        Event::Task(Ok(TaskDone::RetrieveValue(RetrieveValueDone::DeprecatedResults {
            key: key("a"),
            reply_tx: ReplyTx { id: 5 },
        }))),
    );
    assert_eq!(actions.len(), 2);
    assert!(matches!(&actions[0], Action::Task(TaskArgs::LookupButcher { key, .. }) if key.key_bytes == b"a"));
    assert!(matches!(
        &actions[1],
        Action::Task(TaskArgs::LookupSearchTree { search_tree_ref, .. }) if *search_tree_ref == tree
    ));
}

#[test]
fn info_sums_the_answers() {
    let mut manager = Manager::new(Params::default());
    let (tree, _) = flush_cache(&mut manager, 4);
    let actions = step(&mut manager, Event::Request(Some(Request::Info { reply_tx: ReplyTx { id: 3 } })));
    assert_eq!(actions.len(), 2);
    let request_ref = match &actions[0] {
        Action::Task(TaskArgs::InfoButcher { request_ref }) => *request_ref,
        _ => panic!("the write buffer should be asked first"),
    };
    assert!(matches!(
        &actions[1],
        Action::Task(TaskArgs::InfoSearchTree { request_ref: r, search_tree_ref })
            if *r == request_ref && *search_tree_ref == tree
    ));
    assert!(step(
        &mut manager,
        Event::Task(Ok(TaskDone::InfoSearchTree {
            request_ref,
            info: Info { alive_cells_count: 3, tombstones_count: 1 },
        }))
    )
    .is_empty());
    let actions = step(
        &mut manager,
        Event::Task(Ok(TaskDone::InfoButcher {
            request_ref,
            info: Info { alive_cells_count: 2, tombstones_count: 5 },
        })),
    );
    assert_eq!(actions.len(), 1);
    assert!(matches!(
        &actions[0],
        Action::ReplyInfo {
            reply_tx: ReplyTx { id: 3 },
            info: Info { alive_cells_count: 5, tombstones_count: 6 },
        }
    ));
    assert_eq!(manager.tasks_out(), (0, 0));
}

#[test]
fn flush_all_waits_for_every_task() {
    let mut manager = Manager::new(Params::default());
    let (tree, _) = flush_cache(&mut manager, 4);
    let actions = step(
        &mut manager,
        Event::Request(Some(Request::Insert {
            key: key("a"),
            value: Value { value_bytes: vec![1] },
            reply_tx: ReplyTx { id: 1 },
        })),
    );
    assert_eq!(actions.len(), 1);
    let actions =
        step(&mut manager, Event::Request(Some(Request::FlushAll { reply_tx: ReplyTx { id: 9 } })));
    assert_eq!(actions.len(), 1);
    let request_ref = match &actions[0] {
        Action::Task(TaskArgs::FlushButcher { request_ref }) => *request_ref,
        _ => panic!("the write buffer should be flushed first"),
    };
    assert_eq!(
        manager.poll(),
        Poll::Select { requests: false, flush_cache: true, tasks: true, bg_tasks: false }
    );
    // requests are not taken during a flush
    assert!(!manager.expects(&Event::Request(Some(Request::Info { reply_tx: ReplyTx { id: 0 } }))));
    let actions = step(&mut manager, Event::Task(Ok(TaskDone::FlushButcher { request_ref })));
    assert_eq!(actions.len(), 1);
    assert!(matches!(
        &actions[0],
        Action::Task(TaskArgs::FlushSearchTree { request_ref: r, search_tree_ref })
            if *r == request_ref && *search_tree_ref == tree
    ));
    assert!(step(&mut manager, Event::Task(Ok(TaskDone::FlushSearchTree { request_ref }))).is_empty());
    // the insert is still out
    assert_eq!(
        manager.poll(),
        Poll::Select { requests: false, flush_cache: true, tasks: true, bg_tasks: false }
    );
    assert!(step(&mut manager, Event::Task(Ok(TaskDone::InsertButcher))).is_empty());
    assert_eq!(manager.poll(), Poll::Flushed { done_reply_tx: ReplyTx { id: 9 } });
    assert_eq!(
        manager.poll(),
        Poll::Select { requests: true, flush_cache: true, tasks: false, bg_tasks: true }
    );
}

#[test]
fn flush_all_without_trees() {
    let mut manager = Manager::new(Params::default());
    let actions =
        step(&mut manager, Event::Request(Some(Request::FlushAll { reply_tx: ReplyTx { id: 9 } })));
    let request_ref = match &actions[0] {
        Action::Task(TaskArgs::FlushButcher { request_ref }) => *request_ref,
        _ => panic!("the write buffer should be flushed first"),
    };
    assert!(step(&mut manager, Event::Task(Ok(TaskDone::FlushButcher { request_ref }))).is_empty());
    assert_eq!(manager.poll(), Poll::Flushed { done_reply_tx: ReplyTx { id: 9 } });
    // the flush has left the table
    assert!(!manager.expects(&Event::Task(Ok(TaskDone::FlushButcher { request_ref }))));
}

#[test]
fn flush_waits_for_a_running_compaction() {
    let mut manager = Manager::new(Params::default());
    let (tree_a, actions) = flush_cache(&mut manager, 10);
    assert!(actions.is_empty());
    let (tree_b, actions) = flush_cache(&mut manager, 12);
    assert_eq!(actions.len(), 1);
    match &actions[0] {
        Action::BgTask(TaskArgs::MergeSearchTrees {
            search_tree_a_ref,
            search_tree_b_ref,
            tree_block_size,
        }) => {
            assert_eq!((*search_tree_a_ref, *search_tree_b_ref), (tree_a, tree_b));
            assert_eq!(*tree_block_size, 32);
        },
        _ => panic!("a compaction should start"),
    }
    assert_eq!(manager.tasks_out(), (0, 1));
    let actions =
        step(&mut manager, Event::Request(Some(Request::FlushAll { reply_tx: ReplyTx { id: 9 } })));
    let request_ref = match &actions[0] {
        Action::Task(TaskArgs::FlushButcher { request_ref }) => *request_ref,
        _ => panic!("the write buffer should be flushed first"),
    };
    let actions = step(&mut manager, Event::Task(Ok(TaskDone::FlushButcher { request_ref })));
    assert_eq!(actions.len(), 2);
    for _ in 0..2 {
        assert!(step(&mut manager, Event::Task(Ok(TaskDone::FlushSearchTree { request_ref }))).is_empty());
    }
    assert_eq!(
        manager.poll(),
        Poll::Select { requests: false, flush_cache: true, tasks: false, bg_tasks: true }
    );
    let actions = step(
        &mut manager,
        Event::BgTask(Ok(TaskDone::MergeSearchTrees {
            search_tree_a_ref: tree_a,
            search_tree_b_ref: tree_b,
            root_block: BlockRef { block_id: 77 },
            items_count: 22,
        })),
    );
    assert_eq!(actions.len(), 3);
    assert!(matches!(
        &actions[0],
        Action::Task(TaskArgs::DemolishSearchTree { search_tree_ref }) if *search_tree_ref == tree_a
    ));
    assert!(matches!(
        &actions[1],
        Action::Task(TaskArgs::DemolishSearchTree { search_tree_ref }) if *search_tree_ref == tree_b
    ));
    assert!(matches!(
        &actions[2],
        Action::SpawnSearchTree { mode: Mode::Regular { root_block: BlockRef { block_id: 77 } }, .. }
    ));
    assert_eq!(manager.search_trees_count(), 1);
    assert!(step(&mut manager, Event::Task(Ok(TaskDone::DemolishSearchTree))).is_empty());
    assert_eq!(
        manager.poll(),
        Poll::Select { requests: false, flush_cache: true, tasks: true, bg_tasks: false }
    );
    assert!(step(&mut manager, Event::Task(Ok(TaskDone::DemolishSearchTree))).is_empty());
    assert_eq!(manager.poll(), Poll::Flushed { done_reply_tx: ReplyTx { id: 9 } });
}

#[test]
fn trees_of_different_size_are_not_compacted() {
    let mut manager = Manager::new(Params::default());
    let (_, actions) = flush_cache(&mut manager, 10);
    assert!(actions.is_empty());
    let (_, actions) = flush_cache(&mut manager, 100);
    assert!(actions.is_empty());
    assert_eq!(manager.tasks_out(), (0, 0));
}

#[test]
fn four_flushes_compact_down() {
    let mut manager = Manager::new(Params::default());
    let mut trees = Vec::new();
    let mut merges = Vec::new();
    for _ in 0..4 {
        let (tree, actions) = flush_cache(&mut manager, 50);
        trees.push(tree);
        for action in actions {
            match action {
                Action::BgTask(TaskArgs::MergeSearchTrees { search_tree_a_ref, search_tree_b_ref, .. }) => {
                    merges.push((search_tree_a_ref, search_tree_b_ref, 100))
                },
                _ => panic!("only compactions are due"),
            }
        }
    }
    assert_eq!(merges.len(), 2);
    let mut block_id = 0;
    while let Some((a, b, items_count)) = merges.pop() {
        block_id += 1;
        let actions = step(
            &mut manager,
            Event::BgTask(Ok(TaskDone::MergeSearchTrees {
                search_tree_a_ref: a,
                search_tree_b_ref: b,
                root_block: BlockRef { block_id },
                items_count,
            })),
        );
        for action in actions {
            match action {
                Action::BgTask(TaskArgs::MergeSearchTrees { search_tree_a_ref, search_tree_b_ref, .. }) => {
                    merges.push((search_tree_a_ref, search_tree_b_ref, 200))
                },
                Action::Task(TaskArgs::DemolishSearchTree { .. }) => {
                    assert!(step(&mut manager, Event::Task(Ok(TaskDone::DemolishSearchTree))).is_empty());
                },
                Action::SpawnSearchTree { .. } => {},
                _ => panic!("nothing else is due"),
            }
        }
    }
    assert_eq!(block_id, 3);
    assert_eq!(manager.search_trees_count(), 1);
    assert_eq!(manager.tasks_out(), (0, 0));
}

#[test]
fn merge_of_unknown_trees_is_not_expected() {
    let mut manager = Manager::new(Params::default());
    let (tree_a, _) = flush_cache(&mut manager, 10);
    let (tree_b, _) = flush_cache(&mut manager, 1000);
    assert!(!manager.expects(&Event::BgTask(Ok(TaskDone::MergeSearchTrees {
        search_tree_a_ref: tree_a,
        search_tree_b_ref: tree_b,
        root_block: BlockRef { block_id: 1 },
        items_count: 1010,
    }))));
    assert!(!manager.expects(&Event::Task(Ok(TaskDone::InsertButcher))));
    assert!(!manager.expects(&Event::Task(Err(TaskError::ButcherGone))));
}

#[test]
fn range_scan_without_trees_merges_at_once() {
    let mut manager = Manager::new(Params::default());
    let range = SearchRangeBounds::new(RangeBound::Included(key("a")), RangeBound::Included(key("c")));
    let actions = step(
        &mut manager,
        Event::Request(Some(Request::LookupRange { range, reply_tx: ReplyTx { id: 4 } })),
    );
    assert_eq!(actions.len(), 2);
    assert!(matches!(
        &actions[0],
        Action::ReplyLookupRange {
            reply_tx: ReplyTx { id: 4 },
            key_values_tx: KeyValuesTx { id: 4 },
            buffer: 4,
        }
    ));
    let range = match actions.into_iter().nth(1) {
        Some(Action::Task(TaskArgs::LookupRangeButcher { range, key_values_tx })) => {
            assert_eq!(key_values_tx.id, 4);
            range
        },
        _ => panic!("the write buffer should be asked"),
    };
    let actions = step(
        &mut manager,
        Event::Task(Ok(TaskDone::LookupRangeButcher {
            range,
            key_values_tx: KeyValuesTx { id: 4 },
            iter_items: vec![],
        })),
    );
    assert_eq!(actions.len(), 1);
    match &actions[0] {
        Action::BgTask(task @ TaskArgs::MergeLookupRange { merger_iters, key_values_tx, .. }) => {
            assert!(merger_iters.is_empty());
            assert_eq!(key_values_tx.id, 4);
            assert_eq!(task.kind(), TaskKind::MergeLookupRange);
            assert!(task.is_background());
        },
        _ => panic!("the merge should start"),
    }
    assert_eq!(manager.tasks_out(), (0, 1));
    assert!(step(
        &mut manager,
        Event::BgTask(Ok(TaskDone::MergeLookupRange(MergeLookupRangeDone::MergeSuccess)))
    )
    .is_empty());
    assert_eq!(manager.tasks_out(), (0, 0));
}

#[test]
fn range_scan_collects_a_stream_from_each_tree() {
    let mut manager = Manager::new(Params::default());
    let (tree_a, _) = flush_cache(&mut manager, 2);
    let (tree_b, _) = flush_cache(&mut manager, 200);
    let range = SearchRangeBounds::new(RangeBound::Unbounded, RangeBound::Excluded(key("c")));
    let actions = step(
        &mut manager,
        Event::Request(Some(Request::LookupRange { range, reply_tx: ReplyTx { id: 6 } })),
    );
    let range = match actions.into_iter().nth(1) {
        Some(Action::Task(TaskArgs::LookupRangeButcher { range, .. })) => range,
        _ => panic!("the write buffer should be asked"),
    };
    let actions = step(
        &mut manager,
        Event::Task(Ok(TaskDone::LookupRangeButcher {
            range,
            key_values_tx: KeyValuesTx { id: 6 },
            iter_items: vec![KeyValuePair {
                key: key("b"),
                value_cell: ValueCell { version: 2, cell: Cell::Value(Value { value_bytes: vec![2] }) },
            }],
        })),
    );
    assert_eq!(actions.len(), 2);
    let mut request_ref = None;
    let mut asked = Vec::new();
    for action in &actions {
        match action {
            Action::Task(TaskArgs::LookupRangeSearchTree { request_ref: r, range, search_tree_ref }) => {
                assert!(range.contains(&key("b")));
                assert!(!range.contains(&key("c")));
                request_ref = Some(*r);
                asked.push(*search_tree_ref);
            },
            _ => panic!("each tree should be asked for its stream"),
        }
    }
    assert_eq!(asked, vec![tree_a, tree_b]);
    let request_ref = request_ref.unwrap();
    assert!(step(
        &mut manager,
        Event::Task(Ok(TaskDone::LookupRangeSearchTree { request_ref, items_source: 11 }))
    )
    .is_empty());
    let actions = step(
        &mut manager,
        Event::Task(Ok(TaskDone::LookupRangeSearchTree { request_ref, items_source: 12 })),
    );
    assert_eq!(actions.len(), 1);
    match &actions[0] {
        Action::BgTask(TaskArgs::MergeLookupRange {
            butcher_iter_items,
            merger_iters,
            key_values_tx,
            ..
        }) => {
            assert_eq!(butcher_iter_items.len(), 1);
            assert_eq!(merger_iters.len(), 2);
            assert_eq!(key_values_tx.id, 6);
        },
        _ => panic!("the merge should start"),
    }
}

#[test]
fn deprecated_range_scan_is_taken_up_again() {
    let mut manager = Manager::new(Params::default());
    let range = SearchRangeBounds::new(RangeBound::Unbounded, RangeBound::Unbounded);
    let actions = step(
        &mut manager,
        Event::Request(Some(Request::LookupRange { range, reply_tx: ReplyTx { id: 6 } })),
    );
    let range = match actions.into_iter().nth(1) {
        Some(Action::Task(TaskArgs::LookupRangeButcher { range, .. })) => range,
        _ => panic!("the write buffer should be asked"),
    };
    step(
        &mut manager,
        Event::Task(Ok(TaskDone::LookupRangeButcher {
            range,
            key_values_tx: KeyValuesTx { id: 6 },
            iter_items: vec![],
        })),
    );
    let modified_range = SearchRangeBounds::new(RangeBound::Included(key("m")), RangeBound::Unbounded);
    let actions = step(
        &mut manager,
        Event::BgTask(Ok(TaskDone::MergeLookupRange(MergeLookupRangeDone::DeprecatedResults {
            modified_range,
            key_values_tx: KeyValuesTx { id: 6 },
        }))),
    );
    assert_eq!(actions.len(), 1);
    match &actions[0] {
        Action::Task(TaskArgs::LookupRangeButcher { range, key_values_tx }) => {
            assert_eq!(key_values_tx.id, 6);
            assert!(range.contains(&key("m")));
            assert!(!range.contains(&key("a")));
        },
        _ => panic!("the write buffer should be asked again"),
    }
}

#[test]
fn closed_channels_end_the_manager() {
    let mut manager = Manager::new(Params::default());
    assert!(matches!(manager.handle(Event::Request(None)), Transition::Terminate));
    assert!(matches!(manager.handle(Event::FlushCache(None)), Transition::Terminate));
}

#[test]
fn failed_task_is_fatal() {
    let mut manager = Manager::new(Params::default());
    step(
        &mut manager,
        Event::Request(Some(Request::Insert {
            key: key("a"),
            value: Value { value_bytes: vec![1] },
            reply_tx: ReplyTx { id: 1 },
        })),
    );
    let event = Event::Task(Err(TaskError::ButcherGone));
    assert!(manager.expects(&event));
    assert!(matches!(
        manager.handle(event),
        Transition::Fatal(Error::Task(TaskError::ButcherGone))
    ));
}

#[test]
fn load_picks_out_the_roots() {
    let mut manager = Manager::new(Params::default());
    let root = |block_id: u64, tree_entries_count: usize| {
        Some(IterBlocksItem::Block {
            block_ref: BlockRef { block_id },
            decoded: Ok(BlockHeader { node_type: NodeType::Root { tree_entries_count } }),
        })
    };
    let first = match manager.load(root(1, 40)) {
        Ok(LoadStep::Spawn { search_tree_ref, mode: Mode::Regular { root_block } }) => {
            assert_eq!(root_block.block_id, 1);
            search_tree_ref
        },
        _ => panic!("a root should become a tree"),
    };
    assert!(matches!(
        manager.load(Some(IterBlocksItem::Block {
            block_ref: BlockRef { block_id: 2 },
            decoded: Ok(BlockHeader { node_type: NodeType::Leaf }),
        })),
        Ok(LoadStep::Skipped)
    ));
    assert!(matches!(
        manager.load(Some(IterBlocksItem::Block {
            block_ref: BlockRef { block_id: 3 },
            decoded: Err(ero_blockwheel_kv::storage::Error::InvalidBlockMagic {
                expected: 0xfeed,
                provided: 0xdead,
            }),
        })),
        Ok(LoadStep::Skipped)
    ));
    let second = match manager.load(root(4, 50)) {
        Ok(LoadStep::Spawn { search_tree_ref, .. }) => search_tree_ref,
        _ => panic!("a root should become a tree"),
    };
    assert!(matches!(manager.load(root(5, 5000)), Ok(LoadStep::Spawn { .. })));
    assert!(matches!(manager.load(Some(IterBlocksItem::NoMoreBlocks)), Ok(LoadStep::Done)));
    assert_eq!(manager.search_trees_count(), 3);
    let actions = manager.start();
    assert_eq!(actions.len(), 1);
    assert!(matches!(
        &actions[0],
        Action::BgTask(TaskArgs::MergeSearchTrees { search_tree_a_ref, search_tree_b_ref, .. })
            if *search_tree_a_ref == first && *search_tree_b_ref == second
    ));
    assert_eq!(manager.tasks_out(), (0, 1));
}

#[test]
fn load_fails_on_a_broken_block_and_a_broken_list() {
    let mut manager = Manager::new(Params::default());
    assert!(matches!(
        manager.load(Some(IterBlocksItem::Block {
            block_ref: BlockRef { block_id: 3 },
            decoded: Err(ero_blockwheel_kv::storage::Error::Malformed),
        })),
        Err(Error::DeserializeBlock {
            block_ref: BlockRef { block_id: 3 },
            error: ero_blockwheel_kv::storage::Error::Malformed,
        })
    ));
    assert!(matches!(manager.load(None), Err(Error::WheelsIterBlocksRxDropped)));
    assert_eq!(manager.search_trees_count(), 0);
}

#[test]
fn resolve_answers_what_needs_no_fetch() {
    assert!(matches!(resolve(None), Resolve::Reply(None)));
    match resolve(inline(3, 7)) {
        Resolve::Reply(Some(ValueCell { version: 3, cell: Cell::Value(value) })) => {
            assert_eq!(value.value_bytes, vec![7])
        },
        _ => panic!("an inline value is answered"),
    }
    assert!(matches!(
        resolve(Some(ValueCell { version: 4, cell: Cell::Tombstone })),
        Resolve::Reply(Some(ValueCell { version: 4, cell: Cell::Tombstone }))
    ));
    assert!(matches!(
        resolve(Some(ValueCell {
            version: 5,
            cell: Cell::Value(ValueBlockRef::External(BlockRef { block_id: 9 })),
        })),
        Resolve::Fetch { block_ref: BlockRef { block_id: 9 }, version: 5 }
    ));
}

#[test]
fn fetched_block_is_the_value_and_a_missing_one_a_retry() {
    match fetched(key("a"), ReplyTx { id: 1 }, 5, Some(Value { value_bytes: vec![1, 2] })) {
        Fetched::Reply {
            found: Some(ValueCell { version: 5, cell: Cell::Value(value) }),
            done: RetrieveValueDone::RetrieveSuccess,
        } => assert_eq!(value.value_bytes, vec![1, 2]),
        _ => panic!("the block is the value"),
    }
    match fetched(key("a"), ReplyTx { id: 1 }, 5, None) {
        Fetched::Retry { done: RetrieveValueDone::DeprecatedResults { key, reply_tx } } => {
            assert_eq!(key.key_bytes, b"a");
            assert_eq!(reply_tx.id, 1);
        },
        _ => panic!("a missing block is a retry"),
    }
}

// One lookup against a manager with one tree, from the request to what the
// client is answered, given what the write buffer and the tree hold.
fn lookup_through(
    butcher_found: Option<ValueCell<ValueBlockRef>>,
    tree_found: Option<ValueCell<ValueBlockRef>>,
) -> Option<ValueCell<Value>> {
    let mut manager = Manager::new(Params::default());
    flush_cache(&mut manager, 2);
    let actions = step(
        &mut manager,
        Event::Request(Some(Request::Lookup { key: key("a"), reply_tx: ReplyTx { id: 1 } })),
    );
    let request_ref = match &actions[0] {
        Action::Task(TaskArgs::LookupButcher { request_ref, .. }) => *request_ref,
        _ => panic!("the write buffer should be asked"),
    };
    assert!(step(
        &mut manager,
        Event::Task(Ok(TaskDone::LookupButcher { request_ref, found: butcher_found }))
    )
    .is_empty());
    let mut actions =
        step(&mut manager, Event::Task(Ok(TaskDone::LookupSearchTree { request_ref, found: tree_found })));
    match actions.pop() {
        Some(Action::Task(TaskArgs::RetrieveValue { found_fold, .. })) => match resolve(found_fold) {
            Resolve::Reply(found) => found,
            Resolve::Fetch { .. } => panic!("nothing is to be fetched"),
        },
        _ => panic!("the value should be retrieved"),
    }
}

#[test]
fn overwritten_value_is_found_at_its_latest_version() {
    // both writes were flushed, the tree holds the second
    match lookup_through(None, inline(2, 0x02)) {
        Some(ValueCell { version: 2, cell: Cell::Value(value) }) => assert_eq!(value.value_bytes, vec![0x02]),
        _ => panic!("the second write should be found"),
    }
    // the second write is still in the write buffer, the first in the tree
    match lookup_through(inline(2, 0x02), inline(1, 0x01)) {
        Some(ValueCell { version: 2, cell: Cell::Value(value) }) => assert_eq!(value.value_bytes, vec![0x02]),
        _ => panic!("the second write should be found"),
    }
}

#[test]
fn removed_key_is_found_as_a_tombstone() {
    let tombstone = Some(ValueCell { version: 2, cell: Cell::Tombstone });
    assert!(matches!(
        lookup_through(None, tombstone),
        Some(ValueCell { version: 2, cell: Cell::Tombstone })
    ));
    let tombstone = Some(ValueCell { version: 2, cell: Cell::Tombstone });
    assert!(matches!(
        lookup_through(tombstone, inline(1, 0x01)),
        Some(ValueCell { version: 2, cell: Cell::Tombstone })
    ));
}

#[test]
fn key_that_was_never_written_is_not_found() {
    assert!(lookup_through(None, None).is_none());
}

#[test]
fn results_come_on_the_side_that_the_task_went_out_on() {
    let mut manager = Manager::new(Params::default());
    step(
        &mut manager,
        Event::Request(Some(Request::Insert {
            key: key("a"),
            value: Value { value_bytes: vec![1] },
            reply_tx: ReplyTx { id: 1 },
        })),
    );
    // an ordinary result is not expected among those that ran apart
    assert!(!manager.expects(&Event::BgTask(Ok(TaskDone::InsertButcher))));
    // nor a merge among the ordinary ones
    assert!(!manager.expects(&Event::Task(Ok(TaskDone::MergeLookupRange(
        MergeLookupRangeDone::MergeSuccess
    )))));
    assert!(manager.expects(&Event::Task(Ok(TaskDone::InsertButcher))));
    step(&mut manager, Event::Task(Ok(TaskDone::InsertButcher)));
    // every task is back: one more result is one too many
    assert!(!manager.expects(&Event::Task(Ok(TaskDone::InsertButcher))));
}

#[test]
fn answer_that_no_request_waits_for_is_not_expected() {
    let mut manager = Manager::new(Params::default());
    let actions = step(
        &mut manager,
        Event::Request(Some(Request::Lookup { key: key("a"), reply_tx: ReplyTx { id: 1 } })),
    );
    let request_ref = match &actions[0] {
        Action::Task(TaskArgs::LookupButcher { request_ref, .. }) => *request_ref,
        _ => panic!("the write buffer should be asked"),
    };
    // the one task that is out answers the lookup: no other result can come
    assert!(!manager.expects(&Event::Task(Ok(TaskDone::InsertButcher))));
    assert!(!manager.expects(&Event::Task(Ok(TaskDone::DemolishSearchTree))));
    assert!(manager.expects(&Event::Task(Ok(TaskDone::LookupButcher { request_ref, found: None }))));
    // the write buffer answers once
    step(&mut manager, Event::Task(Ok(TaskDone::LookupButcher { request_ref, found: None })));
    assert!(!manager.expects(&Event::Task(Ok(TaskDone::LookupButcher { request_ref, found: None }))));
}

#[test]
fn merged_pair_goes_to_the_client_or_is_fetched() {
    let pair = |cell| KeyValuePair { key: key("k"), value_cell: ValueCell { version: 3, cell } };
    match forward(pair(Cell::Value(ValueBlockRef::Inline(Value { value_bytes: vec![7] })))) {
        Forward::Send(KeyValueStreamItem::KeyValue(KeyValuePair {
            key,
            value_cell: ValueCell { version: 3, cell: Cell::Value(value) },
        })) => {
            assert_eq!(key.key_bytes, b"k");
            assert_eq!(value.value_bytes, vec![7]);
        },
        _ => panic!("an inline value goes to the client"),
    }
    assert!(matches!(
        forward(pair(Cell::Tombstone)),
        Forward::Send(KeyValueStreamItem::KeyValue(KeyValuePair {
            value_cell: ValueCell { version: 3, cell: Cell::Tombstone },
            ..
        }))
    ));
    match forward(pair(Cell::Value(ValueBlockRef::External(BlockRef { block_id: 5 })))) {
        Forward::Fetch { key, block_ref, version } => {
            assert_eq!(key.key_bytes, b"k");
            assert_eq!(block_ref.block_id, 5);
            assert_eq!(version, 3);
        },
        _ => panic!("a value in a block of its own is fetched"),
    }
}

#[test]
fn missing_block_takes_the_scan_up_again_from_its_key() {
    let range = || SearchRangeBounds::new(RangeBound::Included(key("a")), RangeBound::Excluded(key("x")));
    match merge_lookup_range::fetched(
        range(),
        KeyValuesTx { id: 2 },
        key("m"),
        4,
        Some(Value { value_bytes: vec![9] }),
    ) {
        merge_lookup_range::Fetched::Send(KeyValueStreamItem::KeyValue(KeyValuePair {
            key,
            value_cell: ValueCell { version: 4, cell: Cell::Value(value) },
        })) => {
            assert_eq!(key.key_bytes, b"m");
            assert_eq!(value.value_bytes, vec![9]);
        },
        _ => panic!("the block is the value"),
    }
    match merge_lookup_range::fetched(range(), KeyValuesTx { id: 2 }, key("m"), 4, None) {
        merge_lookup_range::Fetched::Retry {
            done: MergeLookupRangeDone::DeprecatedResults { modified_range, key_values_tx },
        } => {
            assert_eq!(key_values_tx.id, 2);
            assert!(!modified_range.contains(&key("b")));
            assert!(modified_range.contains(&key("m")));
            assert!(modified_range.contains(&key("w")));
            assert!(!modified_range.contains(&key("x")));
        },
        _ => panic!("a missing block is a retry"),
    }
}

#[test]
fn write_buffer_items_make_a_stream_with_an_end() {
    let stream = butcher_stream(vec![
        KeyValuePair {
            key: key("a"),
            value_cell: ValueCell { version: 1, cell: Cell::Value(Value { value_bytes: vec![1] }) },
        },
        KeyValuePair { key: key("b"), value_cell: ValueCell { version: 2, cell: Cell::Tombstone } },
    ]);
    assert_eq!(stream.len(), 3);
    match &stream[0] {
        KeyValueRef::Item {
            key,
            value_cell: ValueCell { version: 1, cell: Cell::Value(ValueBlockRef::Inline(value)) },
        } => {
            assert_eq!(key.key_bytes, b"a");
            assert_eq!(value.value_bytes, vec![1]);
        },
        _ => panic!("the first item is the first pair"),
    }
    assert!(matches!(
        &stream[1],
        KeyValueRef::Item { value_cell: ValueCell { version: 2, cell: Cell::Tombstone }, .. }
    ));
    assert!(matches!(&stream[2], KeyValueRef::NoMore));
    assert!(matches!(butcher_stream(vec![]).as_slice(), [KeyValueRef::NoMore]));
}

#[test]
fn chosen_pair_is_stale_only_if_a_loser_is_newer() {
    let pair = |version| KeyValuePair {
        key: key("k"),
        value_cell: ValueCell { version, cell: Cell::<ValueBlockRef>::Tombstone },
    };
    assert!(!superseded(&pair(5), &vec![]));
    assert!(!superseded(&pair(5), &vec![pair(3), pair(5)]));
    assert!(superseded(&pair(5), &vec![pair(3), pair(6)]));
    assert!(superseded(&pair(5), &vec![pair(9), pair(1)]));
}

#[test]
fn stale_scan_is_taken_up_again_from_the_key() {
    let range = SearchRangeBounds::new(RangeBound::Excluded(key("a")), RangeBound::Included(key("x")));
    match retry_from(range, KeyValuesTx { id: 3 }, key("m")) {
        MergeLookupRangeDone::DeprecatedResults { modified_range, key_values_tx } => {
            assert_eq!(key_values_tx.id, 3);
            assert!(!modified_range.contains(&key("l")));
            assert!(modified_range.contains(&key("m")));
            assert!(modified_range.contains(&key("x")));
            assert!(!modified_range.contains(&key("y")));
        },
        _ => panic!("the scan should be taken up again"),
    }
}

#[test]
fn started_lookup_is_found_again_by_its_reference() {
    let mut manager = Manager::new(Params::default());
    // leave a vacant slot behind, so that the next lookup takes it
    for round in 0..3 {
        let actions = step(
            &mut manager,
            Event::Request(Some(Request::Lookup { key: key("a"), reply_tx: ReplyTx { id: round } })),
        );
        let request_ref = match &actions[0] {
            Action::Task(TaskArgs::LookupButcher { request_ref, .. }) => *request_ref,
            _ => panic!("the write buffer should be asked"),
        };
        let answer = Event::Task(Ok(TaskDone::LookupButcher { request_ref, found: None }));
        assert!(manager.expects(&answer));
        let actions = step(&mut manager, answer);
        assert!(matches!(
            &actions[0],
            Action::Task(TaskArgs::RetrieveValue { reply_tx, .. }) if reply_tx.id == round
        ));
        step(&mut manager, Event::Task(Ok(TaskDone::RetrieveValue(RetrieveValueDone::RetrieveSuccess))));
    }
}
