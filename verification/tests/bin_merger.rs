use ero_blockwheel_kv::bin_merger::{bin_index, BinMerger};

#[test]
fn bin_is_the_logarithm_rounded_down() {
    assert_eq!(bin_index(0), 0);
    assert_eq!(bin_index(1), 0);
    assert_eq!(bin_index(2), 1);
    assert_eq!(bin_index(3), 1);
    assert_eq!(bin_index(4), 2);
    assert_eq!(bin_index(7), 2);
    assert_eq!(bin_index(8), 3);
    assert_eq!(bin_index(200), 7);
    assert_eq!(bin_index(1023), 9);
    assert_eq!(bin_index(1024), 10);
}

#[test]
fn pop_refuses_without_a_pair() {
    let mut bins: BinMerger<u32> = BinMerger::new();
    assert_eq!(bins.pop(), None);
    bins.push(1, 10);
    assert_eq!(bins.pop(), None);
    bins.push(2, 100);
    assert_eq!(bins.pop(), None);
}

#[test]
fn pop_takes_the_two_oldest_of_a_bin() {
    let mut bins: BinMerger<u32> = BinMerger::new();
    bins.push(1, 8);
    bins.push(2, 9);
    bins.push(3, 15);
    assert_eq!(bins.pop(), Some((1, 2)));
    assert_eq!(bins.pop(), None);
}

#[test]
fn pop_prefers_the_fullest_bin() {
    let mut bins: BinMerger<u32> = BinMerger::new();
    bins.push(1, 2);
    bins.push(2, 3);
    bins.push(10, 64);
    bins.push(11, 65);
    bins.push(12, 100);
    assert_eq!(bins.pop(), Some((10, 11)));
    assert_eq!(bins.pop(), Some((1, 2)));
    assert_eq!(bins.pop(), None);
}

#[test]
fn equally_full_bins_go_lowest_first() {
    let mut bins: BinMerger<u32> = BinMerger::new();
    bins.push(10, 64);
    bins.push(11, 65);
    bins.push(1, 2);
    bins.push(2, 3);
    assert_eq!(bins.pop(), Some((1, 2)));
    assert_eq!(bins.pop(), Some((10, 11)));
}

#[test]
fn compaction_converges() {
    let mut bins: BinMerger<usize> = BinMerger::new();
    for _ in 0..16 {
        bins.push(50, 50);
    }
    let mut steps = 0;
    while let Some((a, b)) = bins.pop() {
        bins.push(a + b, a + b);
        steps += 1;
    }
    assert!(steps <= 15);
    assert_eq!(steps, 15);
    assert_eq!(bins.pop(), None);
}
