//! Trees waiting to be compacted, binned by the order of magnitude of their
//! size, so that trees of similar size are merged with each other.

use vstd::prelude::*;

verus! {

/// The bin of a tree with `items_count` items: the position of the highest
/// set bit, that is the logarithm to base two, rounded down. An empty tree
/// shares the bin of a tree with one item.
pub open spec fn bin_of(items_count: nat) -> nat
    decreases items_count,
{
    if items_count <= 1 {
        0
    } else {
        1 + bin_of(items_count / 2)
    }
}

/// The bins padded with empty ones until bin `bin` exists.
pub open spec fn padded<T>(bins: Seq<Seq<T>>, bin: nat) -> Seq<Seq<T>> {
    if bin < bins.len() {
        bins
    } else {
        bins + Seq::new((bin + 1 - bins.len()) as nat, |i: int| Seq::<T>::empty())
    }
}

/// The bins after `item` has joined the queue of bin `bin`.
pub open spec fn pushed<T>(bins: Seq<Seq<T>>, bin: nat, item: T) -> Seq<Seq<T>> {
    padded(bins, bin).update(bin as int, padded(bins, bin)[bin as int].push(item))
}

/// The fullest of the first `n` bins, the lowest of them where several are
/// equally full.
pub open spec fn fullest<T>(bins: Seq<Seq<T>>, n: int) -> int
    decreases n,
{
    if n <= 1 {
        0
    } else {
        let best = fullest(bins, n - 1);
        if bins[n - 1].len() > bins[best].len() {
            n - 1
        } else {
            best
        }
    }
}

/// The bin that the next pair comes from, if any bin holds a pair.
pub open spec fn pair_bin<T>(bins: Seq<Seq<T>>) -> Option<int> {
    let best = fullest(bins, bins.len() as int);
    if bins.len() > 0 && bins[best].len() >= 2 {
        Some(best)
    } else {
        None
    }
}

/// The bins after the two oldest items of bin `bin` have left.
pub open spec fn popped<T>(bins: Seq<Seq<T>>, bin: int) -> Seq<Seq<T>> {
    bins.update(bin, bins[bin].subrange(2, bins[bin].len() as int))
}

/// No bin holds two trees: there is nothing left to compact.
pub open spec fn settled<T>(bins: Seq<Seq<T>>) -> bool {
    forall|bin: int| 0 <= bin < bins.len() ==> (#[trigger] bins[bin]).len() <= 1
}

/// How many items wait in all bins together.
pub open spec fn total<T>(bins: Seq<Seq<T>>) -> nat
    decreases bins.len(),
{
    if bins.len() == 0 {
        0
    } else {
        total(bins.drop_last()) + bins.last().len()
    }
}

/// What `fullest` gives: one of the first `n` bins, at least as full as each
/// of them, and the lowest of those that are as full.
pub proof fn lemma_fullest<T>(bins: Seq<Seq<T>>, n: int)
    requires
        1 <= n <= bins.len(),
    ensures
        0 <= fullest(bins, n) < n,
        forall|j: int| 0 <= j < n ==> (#[trigger] bins[j]).len() <= bins[fullest(bins, n)].len(),
        forall|j: int|
            0 <= j < n && (#[trigger] bins[j]).len() == bins[fullest(bins, n)].len() ==> fullest(bins, n)
                <= j,
    decreases n,
{
    if n > 1 {
        lemma_fullest(bins, n - 1);
    }
}

/// Without a bin that holds a pair, the bins are settled, and the other way
/// round.
pub proof fn lemma_pair_bin_none<T>(bins: Seq<Seq<T>>)
    ensures
        pair_bin(bins) is None <==> settled(bins),
        pair_bin(bins) matches Some(bin) ==> 0 <= bin < bins.len() && bins[bin].len() >= 2,
{
    if bins.len() > 0 {
        lemma_fullest(bins, bins.len() as int);
        let best = fullest(bins, bins.len() as int);
        if bins[best].len() >= 2 {
            assert(!(bins[best].len() <= 1));
        }
    }
}

/// Replacing the queue of one bin changes the total by the difference of
/// the lengths.
pub proof fn lemma_total_update<T>(bins: Seq<Seq<T>>, bin: int, queue: Seq<T>)
    requires
        0 <= bin < bins.len(),
    ensures
        total(bins.update(bin, queue)) + bins[bin].len() == total(bins) + queue.len(),
    decreases bins.len(),
{
    if bin == bins.len() - 1 {
        assert(bins.update(bin, queue).drop_last() == bins.drop_last());
    } else {
        assert(bins.update(bin, queue).drop_last() == bins.drop_last().update(bin, queue));
        lemma_total_update(bins.drop_last(), bin, queue);
    }
}

/// Padding with empty bins adds nothing to the total.
pub proof fn lemma_total_padded<T>(bins: Seq<Seq<T>>, bin: nat)
    ensures
        total(padded(bins, bin)) == total(bins),
        padded(bins, bin).len() > bin,
        padded(bins, bin).len() >= bins.len(),
    decreases bin + 1 - bins.len(),
{
    if bin >= bins.len() {
        let wide = padded(bins, bin);
        if bin == bins.len() {
            assert(wide.drop_last() == bins);
        } else {
            assert(wide.drop_last() == padded(bins, (bin - 1) as nat));
            lemma_total_padded(bins, (bin - 1) as nat);
        }
    }
}

/// Pushing adds one item to the total.
pub proof fn lemma_total_pushed<T>(bins: Seq<Seq<T>>, bin: nat, item: T)
    ensures
        total(pushed(bins, bin, item)) == total(bins) + 1,
{
    lemma_total_padded(bins, bin);
    lemma_total_update(padded(bins, bin), bin as int, padded(bins, bin)[bin as int].push(item));
}

/// Popping a pair takes two items off the total.
pub proof fn lemma_total_popped<T>(bins: Seq<Seq<T>>, bin: int)
    requires
        0 <= bin < bins.len(),
        bins[bin].len() >= 2,
    ensures
        total(popped(bins, bin)) + 2 == total(bins),
{
    lemma_total_update(bins, bin, bins[bin].subrange(2, bins[bin].len() as int));
}

/// Every item in the bins after a push was there before, at the same place,
/// or is the pushed item at the end of its bin.
pub proof fn lemma_pushed_items<T>(bins: Seq<Seq<T>>, bin: nat, item: T)
    ensures
        pushed(bins, bin, item).len() > bin,
        pushed(bins, bin, item).len() >= bins.len(),
        pushed(bins, bin, item)[bin as int].last() == item,
        forall|b: int, i: int|
            0 <= b < pushed(bins, bin, item).len() && 0 <= i < pushed(bins, bin, item)[b].len() ==> {
                ||| (b < bins.len() && i < bins[b].len() && #[trigger] pushed(bins, bin, item)[b][i]
                    == bins[b][i])
                ||| (b == bin && i == pushed(bins, bin, item)[b].len() - 1 && pushed(
                    bins,
                    bin,
                    item,
                )[b][i] == item)
            },
        forall|b: int, i: int|
            0 <= b < bins.len() && 0 <= i < bins[b].len() ==> #[trigger] pushed(bins, bin, item)[b][i]
                == bins[b][i] && i < pushed(bins, bin, item)[b].len(),
{
}

/// Every item in the bins after a pop was there before: in the bin that
/// gave the pair two places further back, elsewhere at the same place.
pub proof fn lemma_popped_items<T>(bins: Seq<Seq<T>>, bin: int)
    requires
        0 <= bin < bins.len(),
        bins[bin].len() >= 2,
    ensures
        popped(bins, bin).len() == bins.len(),
        forall|b: int, i: int|
            0 <= b < bins.len() && 0 <= i < popped(bins, bin)[b].len() ==> #[trigger] popped(
                bins,
                bin,
            )[b][i] == bins[b][if b == bin {
                i + 2
            } else {
                i
            }] && (if b == bin {
                i + 2
            } else {
                i
            }) < bins[b].len(),
{
}

/// Settled bins that take one more item and give up the pair that may have
/// come about are settled again.
pub proof fn lemma_push_pop_settled<T>(bins: Seq<Seq<T>>, bin: nat, item: T)
    requires
        settled(bins),
    ensures
        match pair_bin(pushed(bins, bin, item)) {
            Some(full) => full == bin && settled(popped(pushed(bins, bin, item), full)),
            None => settled(pushed(bins, bin, item)),
        },
{
    let wide = pushed(bins, bin, item);
    lemma_pushed_items(bins, bin, item);
    lemma_pair_bin_none(wide);
    assert forall|b: int| 0 <= b < wide.len() && b != bin implies (#[trigger] wide[b]).len() <= 1 by {
        if b < bins.len() {
            assert(bins[b].len() <= 1);
            assert(padded(bins, bin)[b] == bins[b]);
        }
    }
    assert(wide[bin as int].len() <= 2) by {
        if bin < bins.len() {
            assert(bins[bin as int].len() <= 1);
        }
    }
    match pair_bin(wide) {
        Some(full) => {
            assert(wide[full].len() >= 2);
            assert(full == bin);
            let narrow = popped(wide, full);
            assert forall|b: int| 0 <= b < narrow.len() implies (#[trigger] narrow[b]).len() <= 1 by {
                if b != full {
                    assert(narrow[b] == wide[b]);
                }
            }
        },
        None => {},
    }
}

/// The bins after one compaction: the pair that is due leaves, and the tree
/// merged from it, of `merged_count` items, joins the bin of its size. Settled
/// bins stay as they are.
pub open spec fn compacted<T>(bins: Seq<Seq<T>>, merged: T, merged_count: nat) -> Seq<Seq<T>> {
    match pair_bin(bins) {
        Some(bin) => pushed(popped(bins, bin), bin_of(merged_count), merged),
        None => bins,
    }
}

/// The bins after as many compactions in a row as `merges` lists: each entry
/// is the tree that came out of one merge, with its size.
pub open spec fn compacted_all<T>(bins: Seq<Seq<T>>, merges: Seq<(T, nat)>) -> Seq<Seq<T>>
    decreases merges.len(),
{
    if merges.len() == 0 {
        bins
    } else {
        compacted_all(compacted(bins, merges[0].0, merges[0].1), merges.drop_first())
    }
}

/// No bin holds more items than all bins together.
pub proof fn lemma_total_bounds_bin<T>(bins: Seq<Seq<T>>, bin: int)
    requires
        0 <= bin < bins.len(),
    ensures
        bins[bin].len() <= total(bins),
    decreases bins.len(),
{
    if bin < bins.len() - 1 {
        lemma_total_bounds_bin(bins.drop_last(), bin);
    }
}

/// Every compaction of bins that are not settled leaves one tree less.
pub proof fn lemma_compaction_shrinks<T>(bins: Seq<Seq<T>>, merged: T, merged_count: nat)
    requires
        !settled(bins),
    ensures
        total(compacted(bins, merged, merged_count)) + 1 == total(bins),
{
    lemma_pair_bin_none(bins);
    let bin = pair_bin(bins)->0;
    lemma_total_popped(bins, bin);
    lemma_total_pushed(popped(bins, bin), bin_of(merged_count), merged);
}

/// Settled bins are not changed by compaction.
pub proof fn lemma_settled_stays<T>(bins: Seq<Seq<T>>, merges: Seq<(T, nat)>)
    requires
        settled(bins),
    ensures
        compacted_all(bins, merges) == bins,
    decreases merges.len(),
{
    lemma_pair_bin_none(bins);
    if merges.len() > 0 {
        lemma_settled_stays(bins, merges.drop_first());
    }
}

/// Compaction converges. Whatever the sizes of the merged trees, after one
/// compaction less than there were trees no bin holds two trees any more, and
/// the bins stay so.
pub proof fn lemma_compaction_converges<T>(bins: Seq<Seq<T>>, merges: Seq<(T, nat)>)
    requires
        merges.len() + 1 >= total(bins),
    ensures
        settled(compacted_all(bins, merges)),
    decreases merges.len(),
{
    lemma_pair_bin_none(bins);
    if settled(bins) {
        lemma_settled_stays(bins, merges);
    } else {
        let bin = pair_bin(bins)->0;
        lemma_total_bounds_bin(bins, bin);
        lemma_compaction_shrinks(bins, merges[0].0, merges[0].1);
        lemma_compaction_converges(
            compacted(bins, merges[0].0, merges[0].1),
            merges.drop_first(),
        );
    }
}

/// The queue of trees to compact: one queue for each bin, oldest first.
pub struct BinMerger<T> {
    bins: Vec<Vec<T>>,
}

impl<T> BinMerger<T> {
    /// The queues of the bins, bin 0 first, the oldest item of each first.
    pub closed spec fn view(&self) -> Seq<Seq<T>> {
        self.bins@.map_values(|queue: Vec<T>| queue@)
    }

    /// A queue without trees.
    pub fn new() -> (merger: BinMerger<T>)
        ensures
            merger@ == Seq::<Seq<T>>::empty(),
    {
        let merger = BinMerger { bins: Vec::new() };
        assert(merger@ == Seq::<Seq<T>>::empty());
        merger
    }

    /// Queues `item`, a tree of `items_count` items, in the bin of that size.
    pub fn push(&mut self, item: T, items_count: usize)
        ensures
            final(self)@ == pushed(old(self)@, bin_of(items_count as nat), item),
    {
        let bin = bin_index(items_count);
        assert(self@.len() == self.bins.len());
        while self.bins.len() <= bin
            invariant
                self@.len() == self.bins.len(),
                self.bins.len() >= old(self)@.len(),
                self.bins.len() == old(self)@.len() || self.bins.len() <= bin + 1,
                self.bins.len() > 0 ==> self@ == padded(old(self)@, (self.bins.len() - 1) as nat),
                self.bins.len() == 0 ==> self@ == old(self)@,
            decreases bin + 1 - self.bins.len(),
        {
            let ghost before = self@;
            self.bins.push(Vec::new());
            assert(self@ =~= before.push(Seq::<T>::empty()));
            assert(self@ =~= padded(old(self)@, (self.bins.len() - 1) as nat));
        }
        assert(self@ == padded(old(self)@, bin as nat));
        let ghost wide = self@;
        self.bins[bin].push(item);
        assert(self@ == wide.update(bin as int, wide[bin as int].push(item)));
    }

    /// Takes the two oldest trees out of the fullest bin that holds at least
    /// two, the lowest such bin where several are equally full. Without such a
    /// bin nothing changes.
    pub fn pop(&mut self) -> (pair: Option<(T, T)>)
        ensures
            match pair {
                None => pair_bin(old(self)@) is None && final(self)@ == old(self)@,
                Some((first, second)) => {
                    &&& pair_bin(old(self)@) matches Some(bin)
                    &&& first == old(self)@[bin][0]
                    &&& second == old(self)@[bin][1]
                    &&& final(self)@ == popped(old(self)@, bin)
                },
            },
    {
        if self.bins.len() == 0 {
            return None;
        }
        let mut best: usize = 0;
        let mut bin: usize = 1;
        while bin < self.bins.len()
            invariant
                1 <= bin <= self.bins.len(),
                self@ == old(self)@,
                self@.len() == self.bins.len(),
                best == fullest(self@, bin as int),
                best < bin,
            decreases self.bins.len() - bin,
        {
            if self.bins[bin].len() > self.bins[best].len() {
                best = bin;
            }
            bin += 1;
        }
        if self.bins[best].len() < 2 {
            return None;
        }
        let ghost before = self@;
        let first = self.bins[best].remove(0);
        let second = self.bins[best].remove(0);
        assert(self@ == popped(before, best as int)) by {
            assert(self@[best as int] == before[best as int].subrange(
                2,
                before[best as int].len() as int,
            ));
        }
        Some((first, second))
    }
}

/// The bin of a tree with `items_count` items.
pub fn bin_index(items_count: usize) -> (bin: usize)
    ensures
        bin == bin_of(items_count as nat),
{
    let mut bin: usize = 0;
    let mut rest: usize = items_count;
    while rest > 1
        invariant
            bin_of(items_count as nat) == bin + bin_of(rest as nat),
            bin + rest <= items_count || rest <= 1,
        decreases rest,
    {
        rest = rest / 2;
        bin += 1;
    }
    bin
}

} // verus!
