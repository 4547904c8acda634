use ero_blockwheel_kv::kv::{Key, KeyOrder};
use ero_blockwheel_kv::range::{RangeBound, SearchRangeBounds};
use ero_blockwheel_kv::refset::RefSet;
use ero_blockwheel_kv::{Info, Params};

fn key(text: &str) -> Key {
    Key::new(text.as_bytes().to_vec())
}

#[test]
fn keys_compare_byte_wise() {
    assert_eq!(key("a").compare(&key("b")), KeyOrder::Less);
    assert_eq!(key("b").compare(&key("a")), KeyOrder::Greater);
    assert_eq!(key("abc").compare(&key("abc")), KeyOrder::Equal);
    assert_eq!(key("ab").compare(&key("abc")), KeyOrder::Less);
    assert_eq!(key("abc").compare(&key("ab")), KeyOrder::Greater);
    assert_eq!(key("").compare(&key("")), KeyOrder::Equal);
    assert_eq!(key("").compare(&key("a")), KeyOrder::Less);
    assert_eq!(Key::new(vec![0xff]).compare(&Key::new(vec![0x01, 0x02])), KeyOrder::Greater);
}

#[test]
fn key_clone_keeps_the_bytes() {
    let first = key("hello");
    assert_eq!(first.clone().key_bytes, b"hello".to_vec());
}

#[test]
fn range_with_both_ends_included() {
    let range = SearchRangeBounds::new(RangeBound::Included(key("a")), RangeBound::Included(key("c")));
    assert!(range.contains(&key("a")));
    assert!(range.contains(&key("b")));
    assert!(range.contains(&key("c")));
    assert!(!range.contains(&key("d")));
    assert!(!range.contains(&key("")));
}

#[test]
fn range_with_both_ends_excluded() {
    let range = SearchRangeBounds::new(RangeBound::Excluded(key("a")), RangeBound::Excluded(key("c")));
    assert!(!range.contains(&key("a")));
    assert!(range.contains(&key("b")));
    assert!(!range.contains(&key("c")));
}

#[test]
fn range_without_ends_holds_everything() {
    let range = SearchRangeBounds::new(RangeBound::Unbounded, RangeBound::Unbounded);
    assert!(range.contains(&key("")));
    assert!(range.contains(&key("zzz")));
}

#[test]
fn half_open_range() {
    let range = SearchRangeBounds::new(RangeBound::Included(key("b")), RangeBound::Unbounded);
    assert!(!range.contains(&key("a")));
    assert!(range.contains(&key("b")));
    assert!(range.contains(&key("z")));
    let range = SearchRangeBounds::new(RangeBound::Unbounded, RangeBound::Excluded(key("b")));
    assert!(range.contains(&key("a")));
    assert!(!range.contains(&key("b")));
}

#[test]
fn params_default_values() {
    let params = Params::default();
    assert_eq!(params.tree_block_size, 32);
    assert_eq!(params.butcher_task_restart_sec, 1);
    assert_eq!(params.manager_task_restart_sec, 1);
    assert_eq!(params.search_tree_task_restart_sec, 1);
    assert_eq!(params.search_tree_remove_tasks_limit, 64);
    assert_eq!(params.search_tree_iter_send_buffer, 4);
    assert_eq!(params.search_tree_values_inline_size_limit, 128);
}

#[test]
fn params_are_handed_down() {
    let params = Params {
        tree_block_size: 7,
        butcher_task_restart_sec: 2,
        manager_task_restart_sec: 3,
        search_tree_task_restart_sec: 4,
        search_tree_remove_tasks_limit: 5,
        search_tree_iter_send_buffer: 6,
        search_tree_values_inline_size_limit: 8,
    };
    let butcher = params.butcher_params();
    assert_eq!((butcher.tree_block_size, butcher.task_restart_sec), (7, 2));
    let manager = params.manager_params();
    assert_eq!(manager.task_restart_sec, 3);
    assert_eq!(manager.search_tree_params.task_restart_sec, 4);
    assert_eq!(manager.search_tree_params.tree_block_size, 7);
    assert_eq!(manager.search_tree_params.remove_tasks_limit, 5);
    assert_eq!(manager.search_tree_params.iter_send_buffer, 6);
    assert_eq!(manager.search_tree_params.values_inline_size_limit, 8);
}

#[test]
fn manager_params_default_values() {
    let params = ero_blockwheel_kv::manager::Params::default();
    assert_eq!(params.task_restart_sec, 4);
    assert_eq!(params.search_tree_params.tree_block_size, 32);
}

#[test]
fn info_adds_and_resets() {
    let mut info = Info::default();
    assert_eq!(info, Info { alive_cells_count: 0, tombstones_count: 0 });
    info.add_assign(Info { alive_cells_count: 3, tombstones_count: 1 });
    info.add_assign(Info { alive_cells_count: 4, tombstones_count: 2 });
    assert_eq!(info, Info { alive_cells_count: 7, tombstones_count: 3 });
    assert!(info.can_add(&Info { alive_cells_count: usize::MAX - 7, tombstones_count: 0 }));
    assert!(!info.can_add(&Info { alive_cells_count: usize::MAX - 6, tombstones_count: 0 }));
    info.reset();
    assert_eq!(info, Info { alive_cells_count: 0, tombstones_count: 0 });
}

#[test]
fn refset_finds_members_by_reference() {
    let mut set: RefSet<&str> = RefSet::new();
    assert!(set.is_empty());
    let a = set.insert("a");
    let b = set.insert("b");
    assert_ne!(a, b);
    assert_eq!(set.len(), 2);
    assert_eq!(set.get(a), Some(&"a"));
    assert_eq!(set.get(b), Some(&"b"));
    assert_eq!(set.refs(), vec![a, b]);
    assert_eq!(set.remove(a), Some("a"));
    assert_eq!(set.remove(a), None);
    assert_eq!(set.get(a), None);
    assert_eq!(set.len(), 1);
    *set.get_mut(b) = "c";
    assert_eq!(set.get(b), Some(&"c"));
    let d = set.insert("d");
    assert_eq!(set.get(d), Some(&"d"));
    assert_eq!(set.get(b), Some(&"c"));
    assert_eq!(set.len(), 2);
}

#[test]
fn scan_is_taken_up_again_from_a_key() {
    let range = SearchRangeBounds::new(RangeBound::Excluded(key("a")), RangeBound::Included(key("x")));
    let range = range.restart_from(key("m"));
    assert!(!range.contains(&key("b")));
    assert!(!range.contains(&key("l")));
    assert!(range.contains(&key("m")));
    assert!(range.contains(&key("x")));
    assert!(!range.contains(&key("y")));
}
