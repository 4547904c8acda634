use ero_blockwheel_kv::kv::{Cell, Key, KeyValuePair, Value, ValueCell};
use ero_blockwheel_kv::merger::{Error, ItersMerger, KeyValueRef, KeyValuesIter, Step};
use ero_blockwheel_kv::storage::{BlockRef, ValueBlockRef};

fn key(text: &str) -> Key {
    Key::new(text.as_bytes().to_vec())
}

fn item(text: &str, version: u64, byte: u8) -> KeyValueRef {
    KeyValueRef::Item {
        key: key(text),
        value_cell: ValueCell {
            version,
            cell: Cell::Value(ValueBlockRef::Inline(Value { value_bytes: vec![byte] })),
        },
    }
}

fn shape(pair: &KeyValuePair<ValueBlockRef>) -> (Vec<u8>, u64, Option<Vec<u8>>) {
    let value = match &pair.value_cell.cell {
        Cell::Value(ValueBlockRef::Inline(value)) => Some(value.value_bytes.clone()),
        Cell::Value(ValueBlockRef::External(..)) => Some(vec![]),
        Cell::Tombstone => None,
    };
    (pair.key.key_bytes.clone(), pair.value_cell.version, value)
}

// Drives a merger over streams held in memory. A stream that runs out
// without `NoMore` behaves as a channel whose sender is gone.
fn drive(
    mut streams: Vec<Vec<KeyValueRef>>,
) -> Result<(Vec<(Vec<u8>, u64, Option<Vec<u8>>)>, Vec<(Vec<u8>, u64, Option<Vec<u8>>)>), Error> {
    for stream in streams.iter_mut() {
        stream.reverse();
    }
    let iters = (0..streams.len()).map(KeyValuesIter::new).collect();
    let mut merger = ItersMerger::new(iters);
    let mut merged = Vec::new();
    let mut deprecated = Vec::new();
    loop {
        let mut losers = Vec::new();
        match merger.next_with_deprecated(&mut losers) {
            Step::Recv { iter_index, source } => {
                assert!(losers.is_empty());
                merger.receive(iter_index, streams[source].pop())?;
            },
            Step::Yield(None) => {
                assert!(losers.is_empty());
                return Ok((merged, deprecated));
            },
            Step::Yield(Some(best)) => {
                merged.push(shape(&best));
                deprecated.extend(losers.iter().map(shape));
            },
        }
    }
}

#[test]
fn merges_two_streams_in_key_order() {
    let (merged, deprecated) = drive(vec![
        vec![item("a", 1, 1), item("c", 3, 3), KeyValueRef::NoMore],
        vec![item("b", 2, 2), item("d", 4, 4), KeyValueRef::NoMore],
    ])
    .unwrap();
    assert_eq!(
        merged,
        vec![
            (b"a".to_vec(), 1, Some(vec![1])),
            (b"b".to_vec(), 2, Some(vec![2])),
            (b"c".to_vec(), 3, Some(vec![3])),
            (b"d".to_vec(), 4, Some(vec![4])),
        ]
    );
    assert!(deprecated.is_empty());
}

#[test]
fn highest_version_wins_and_losers_are_deprecated() {
    let (merged, deprecated) = drive(vec![
        vec![item("a", 1, 1), item("c", 3, 3), KeyValueRef::NoMore],
        vec![item("b", 2, 2), item("c", 4, 4), KeyValueRef::NoMore],
        vec![item("c", 2, 9), KeyValueRef::NoMore],
    ])
    .unwrap();
    assert_eq!(
        merged,
        vec![
            (b"a".to_vec(), 1, Some(vec![1])),
            (b"b".to_vec(), 2, Some(vec![2])),
            (b"c".to_vec(), 4, Some(vec![4])),
        ]
    );
    let mut losers = deprecated.clone();
    losers.sort();
    assert_eq!(losers, vec![(b"c".to_vec(), 2, Some(vec![9])), (b"c".to_vec(), 3, Some(vec![3]))]);
}

#[test]
fn group_of_three_fires_two_deprecations() {
    let (merged, deprecated) = drive(vec![
        vec![item("k", 7, 1), KeyValueRef::NoMore],
        vec![item("k", 9, 2), KeyValueRef::NoMore],
        vec![item("k", 8, 3), KeyValueRef::NoMore],
    ])
    .unwrap();
    assert_eq!(merged, vec![(b"k".to_vec(), 9, Some(vec![2]))]);
    assert_eq!(deprecated.len(), 2);
    assert!(deprecated.contains(&(b"k".to_vec(), 7, Some(vec![1]))));
    assert!(deprecated.contains(&(b"k".to_vec(), 8, Some(vec![3]))));
}

#[test]
fn equal_versions_go_to_the_stream_added_last() {
    let (merged, deprecated) = drive(vec![
        vec![item("k", 5, 1), KeyValueRef::NoMore],
        vec![item("k", 5, 2), KeyValueRef::NoMore],
    ])
    .unwrap();
    assert_eq!(merged, vec![(b"k".to_vec(), 5, Some(vec![2]))]);
    assert_eq!(deprecated, vec![(b"k".to_vec(), 5, Some(vec![1]))]);
}

#[test]
fn tombstone_with_higher_version_wins() {
    let tombstone = KeyValueRef::Item {
        key: key("a"),
        value_cell: ValueCell { version: 2, cell: Cell::Tombstone },
    };
    let (merged, deprecated) =
        drive(vec![vec![item("a", 1, 1), KeyValueRef::NoMore], vec![tombstone, KeyValueRef::NoMore]])
            .unwrap();
    assert_eq!(merged, vec![(b"a".to_vec(), 2, None)]);
    assert_eq!(deprecated, vec![(b"a".to_vec(), 1, Some(vec![1]))]);
}

#[test]
fn block_finish_is_passed_over() {
    let (merged, _) = drive(vec![vec![
        KeyValueRef::BlockFinish(BlockRef { block_id: 1 }),
        item("a", 1, 1),
        KeyValueRef::BlockFinish(BlockRef { block_id: 2 }),
        item("b", 2, 2),
        KeyValueRef::NoMore,
    ]])
    .unwrap();
    assert_eq!(merged, vec![(b"a".to_vec(), 1, Some(vec![1])), (b"b".to_vec(), 2, Some(vec![2]))]);
}

#[test]
fn stream_without_end_is_a_lost_peer() {
    let result = drive(vec![vec![item("a", 1, 1), KeyValueRef::NoMore], vec![item("b", 2, 2)]]);
    assert!(matches!(result, Err(Error::BackendIterPeerLost)));
}

#[test]
fn no_streams_yield_nothing() {
    let (merged, deprecated) = drive(vec![]).unwrap();
    assert!(merged.is_empty());
    assert!(deprecated.is_empty());
}

#[test]
fn empty_streams_yield_nothing() {
    let (merged, _) = drive(vec![vec![KeyValueRef::NoMore], vec![KeyValueRef::NoMore]]).unwrap();
    assert!(merged.is_empty());
}

#[test]
fn step_names_first_stream_without_front() {
    let mut merger = ItersMerger::new(vec![KeyValuesIter::new(10), KeyValuesIter::new(20)]);
    assert_eq!(merger.iters_count(), 2);
    assert!(matches!(merger.next(), Step::Recv { iter_index: 0, source: 10 }));
    merger.receive(0, Some(item("a", 1, 1))).unwrap();
    assert!(matches!(merger.next(), Step::Recv { iter_index: 1, source: 20 }));
    merger.receive(1, Some(KeyValueRef::NoMore)).unwrap();
    assert_eq!(merger.iters_count(), 1);
    match merger.next() {
        Step::Yield(Some(best)) => assert_eq!(shape(&best), (b"a".to_vec(), 1, Some(vec![1]))),
        _ => panic!("a pair is due"),
    }
    assert!(matches!(merger.next(), Step::Recv { iter_index: 0, source: 10 }));
}

#[test]
fn complete_stream_leaves_and_the_others_keep_their_order() {
    let mut merger = ItersMerger::new(vec![
        KeyValuesIter::new(0),
        KeyValuesIter::new(1),
        KeyValuesIter::new(2),
    ]);
    merger.receive(0, Some(KeyValueRef::NoMore)).unwrap();
    assert_eq!(merger.iters_count(), 2);
    assert!(matches!(merger.next(), Step::Recv { iter_index: 0, source: 1 }));
    merger.receive(0, Some(item("a", 1, 1))).unwrap();
    assert!(matches!(merger.next(), Step::Recv { iter_index: 1, source: 2 }));
}

#[test]
fn tie_after_a_stream_has_left_goes_to_the_stream_added_last() {
    let (merged, deprecated) = drive(vec![
        vec![KeyValueRef::NoMore],
        vec![item("k", 7, 0x0b), KeyValueRef::NoMore],
        vec![item("k", 7, 0x0c), KeyValueRef::NoMore],
    ])
    .unwrap();
    assert_eq!(merged, vec![(b"k".to_vec(), 7, Some(vec![0x0c]))]);
    assert_eq!(deprecated, vec![(b"k".to_vec(), 7, Some(vec![0x0b]))]);
}

#[test]
fn tie_goes_to_the_stream_added_last_while_earlier_streams_come_and_go() {
    let (merged, deprecated) = drive(vec![
        vec![item("a", 1, 1), KeyValueRef::NoMore],
        vec![item("k", 7, 0x0b), item("m", 3, 0x1b), KeyValueRef::NoMore],
        vec![item("b", 2, 2), KeyValueRef::NoMore],
        vec![item("k", 7, 0x0c), item("m", 3, 0x1c), KeyValueRef::NoMore],
        vec![KeyValueRef::NoMore],
    ])
    .unwrap();
    assert_eq!(
        merged,
        vec![
            (b"a".to_vec(), 1, Some(vec![1])),
            (b"b".to_vec(), 2, Some(vec![2])),
            (b"k".to_vec(), 7, Some(vec![0x0c])),
            (b"m".to_vec(), 3, Some(vec![0x1c])),
        ]
    );
    assert_eq!(
        deprecated,
        vec![(b"k".to_vec(), 7, Some(vec![0x0b])), (b"m".to_vec(), 3, Some(vec![0x1b]))]
    );
}

#[test]
fn prefix_key_comes_first() {
    let (merged, _) = drive(vec![
        vec![item("ab", 1, 1), KeyValueRef::NoMore],
        vec![item("a", 2, 2), KeyValueRef::NoMore],
    ])
    .unwrap();
    assert_eq!(merged, vec![(b"a".to_vec(), 2, Some(vec![2])), (b"ab".to_vec(), 1, Some(vec![1]))]);
}

fn pair(text: &str, version: u64, byte: u8) -> KeyValuePair<ValueBlockRef> {
    KeyValuePair {
        key: key(text),
        value_cell: ValueCell {
            version,
            cell: Cell::Value(ValueBlockRef::Inline(Value { value_bytes: vec![byte] })),
        },
    }
}

#[test]
fn merge_all_of_two_trees_keeps_the_latest_of_each_key() {
    let tree_a = vec![pair("a", 1, 1), pair("c", 3, 3), pair("e", 9, 5)];
    let tree_b = vec![pair("b", 2, 2), pair("c", 4, 4), pair("e", 8, 6), pair("f", 7, 7)];
    let output = ero_blockwheel_kv::merger::drive::merge_all(vec![tree_a, tree_b]);
    let merged: Vec<_> = output.merged.iter().map(shape).collect();
    assert_eq!(
        merged,
        vec![
            (b"a".to_vec(), 1, Some(vec![1])),
            (b"b".to_vec(), 2, Some(vec![2])),
            (b"c".to_vec(), 4, Some(vec![4])),
            (b"e".to_vec(), 9, Some(vec![5])),
            (b"f".to_vec(), 7, Some(vec![7])),
        ]
    );
    let mut deprecated: Vec<_> = output.deprecated.iter().map(shape).collect();
    deprecated.sort();
    assert_eq!(deprecated, vec![(b"c".to_vec(), 3, Some(vec![3])), (b"e".to_vec(), 8, Some(vec![6]))]);
}

#[test]
fn merge_all_across_write_buffer_and_tree() {
    // the tree holds a and c, the write buffer b and a newer c
    let tree = vec![pair("a", 1, 1), pair("c", 3, 3)];
    let butcher = vec![pair("b", 2, 2), pair("c", 4, 4)];
    let output = ero_blockwheel_kv::merger::drive::merge_all(vec![tree, butcher]);
    let merged: Vec<_> = output.merged.iter().map(shape).collect();
    assert_eq!(
        merged,
        vec![
            (b"a".to_vec(), 1, Some(vec![1])),
            (b"b".to_vec(), 2, Some(vec![2])),
            (b"c".to_vec(), 4, Some(vec![4])),
        ]
    );
}

#[test]
fn merge_all_of_nothing() {
    let output = ero_blockwheel_kv::merger::drive::merge_all(vec![]);
    assert!(output.merged.is_empty());
    assert!(output.deprecated.is_empty());
    let output = ero_blockwheel_kv::merger::drive::merge_all(vec![vec![], vec![pair("a", 1, 1)], vec![]]);
    assert_eq!(output.merged.len(), 1);
    assert!(output.deprecated.is_empty());
}

#[test]
fn merge_all_accounts_for_every_pair() {
    let sources = vec![
        vec![pair("a", 1, 1), pair("b", 5, 1), pair("d", 2, 1)],
        vec![pair("b", 6, 2), pair("c", 1, 2), pair("d", 1, 2)],
        vec![pair("a", 3, 3), pair("b", 4, 3)],
    ];
    let output = ero_blockwheel_kv::merger::drive::merge_all(sources);
    assert_eq!(output.merged.len(), 4);
    assert_eq!(output.deprecated.len(), 4);
    let versions: Vec<u64> = output.merged.iter().map(|pair| pair.value_cell.version).collect();
    assert_eq!(versions, vec![3, 6, 1, 2]);
}
