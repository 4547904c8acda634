//! Merging several key-ordered streams into one, with the highest version
//! winning where streams hold the same key.
//!
//! The merger never waits for a stream itself. A call either names the
//! stream whose next item it needs, or yields the next pair of the merged
//! stream; whoever drives it reads that stream and hands the item in.

use vstd::prelude::*;
use vstd::seq_lib::to_multiset_build;
use crate::kv::{
    Key, KeyOrder, KeyValue, KeyValuePair, ValueCell, key_le, key_lt, lemma_key_order_equal,
    lemma_key_order_flip, lemma_key_order_trans,
};
use crate::storage::{BlockRef, ValueBlockRef, ValueRef};

pub mod drive;

verus! {

/// What a stream delivers, one at a time.
#[derive(Debug)]
pub enum KeyValueRef {
    /// The stream is complete.
    NoMore,
    /// A block of the tree has been read through. Carries nothing to merge.
    BlockFinish(BlockRef),
    Item { key: Key, value_cell: ValueCell<ValueBlockRef> },
}

/// Why a merge broke off.
#[derive(Debug)]
pub enum Error {
    /// A stream ended without saying that it was complete.
    BackendIterPeerLost,
}

#[derive(Debug)]
enum IterState {
    NotReady,
    FrontItem(KeyValuePair<ValueBlockRef>),
}

/// One stream as the merger sees it: the item at its front, if that has been
/// read already, and the number by which the driver knows the stream.
#[derive(Debug)]
pub struct KeyValuesIter {
    source: usize,
    iter_state: IterState,
    advance_next_idx: Option<usize>,
}

/// The mathematical content of a `KeyValuesIter`.
pub ghost struct IterView {
    pub source: usize,
    pub front: Option<KeyValue<ValueRef>>,
}

impl View for KeyValuesIter {
    type V = IterView;

    closed spec fn view(&self) -> IterView {
        IterView {
            source: self.source,
            front: match self.iter_state {
                IterState::NotReady => None,
                IterState::FrontItem(front_item) => Some(front_item@),
            },
        }
    }
}

impl KeyValuesIter {
    /// A stream of which nothing has been read yet.
    pub fn new(source: usize) -> (iter: KeyValuesIter)
        ensures
            iter@ == (IterView { source, front: None }),
    {
        KeyValuesIter { source, iter_state: IterState::NotReady, advance_next_idx: None }
    }

    /// The number by which the driver knows the stream.
    pub fn source(&self) -> (source: usize)
        ensures
            source == self@.source,
    {
        self.source
    }
}

/// What a call of the merger comes to.
#[derive(Debug)]
pub enum Step {
    /// The stream at `iter_index`, known to the driver as `source`, has to
    /// deliver before the merge can go on.
    Recv { iter_index: usize, source: usize },
    /// The next pair of the merged stream, or `None` when every stream is
    /// complete.
    Yield(Option<KeyValuePair<ValueBlockRef>>),
}

/// The merger: the streams that are still being merged, in the order in
/// which they were added. A stream that is complete leaves, and those added
/// after it move up.
#[derive(Debug)]
pub struct ItersMerger {
    iters: Vec<KeyValuesIter>,
}

/// The pairs as mathematics.
pub open spec fn item_views(items: Seq<KeyValuePair<ValueBlockRef>>) -> Seq<KeyValue<ValueRef>> {
    items.map_values(|item: KeyValuePair<ValueBlockRef>| item@)
}

/// The key at the front of stream `i`.
pub open spec fn front_key(iters: Seq<IterView>, i: int) -> Seq<u8> {
    iters[i].front->0.key
}

/// The version at the front of stream `i`.
pub open spec fn front_version(iters: Seq<IterView>, i: int) -> u64 {
    iters[i].front->0.value_cell.version
}

/// `i` is the first stream whose front item has not been read.
pub open spec fn first_not_ready(iters: Seq<IterView>, i: int) -> bool {
    &&& 0 <= i < iters.len()
    &&& iters[i].front is None
    &&& forall|j: int| 0 <= j < i ==> (#[trigger] iters[j]).front is Some
}

/// Every stream has its front item read.
pub open spec fn all_ready(iters: Seq<IterView>) -> bool {
    forall|j: int| 0 <= j < iters.len() ==> (#[trigger] iters[j]).front is Some
}

/// No stream among the first `n` has a smaller key at its front than `key`.
pub open spec fn is_lower_bound(iters: Seq<IterView>, key: Seq<u8>, n: int) -> bool {
    forall|j: int| 0 <= j < n ==> key_le(key, #[trigger] front_key(iters, j))
}

/// The streams among the first `n` that have `key` at their front, the one
/// added last coming first.
pub open spec fn group(iters: Seq<IterView>, key: Seq<u8>, n: int) -> Seq<int>
    decreases n,
{
    if n <= 0 {
        Seq::empty()
    } else if front_key(iters, n - 1) == key {
        seq![n - 1] + group(iters, key, n - 1)
    } else {
        group(iters, key, n - 1)
    }
}

/// The front items of the streams that `group` lists, in that order.
pub open spec fn group_items(iters: Seq<IterView>, key: Seq<u8>, n: int) -> Seq<KeyValue<ValueRef>> {
    group(iters, key, n).map_values(|i: int| iters[i].front->0)
}

/// Stream `w` has `key` at its front and beats every other stream that does:
/// by a higher version, or at the same version by having been added later.
pub open spec fn is_winner(iters: Seq<IterView>, key: Seq<u8>, w: int) -> bool {
    &&& 0 <= w < iters.len()
    &&& front_key(iters, w) == key
    &&& forall|j: int|
        0 <= j < iters.len() && #[trigger] front_key(iters, j) == key ==> front_version(iters, j)
            < front_version(iters, w) || (front_version(iters, j) == front_version(iters, w) && j
            <= w)
}

/// The streams after a pair with `key` has been yielded: those that had the
/// key at their front have given their item up, the others are as before.
pub open spec fn after_yield(iters: Seq<IterView>, key: Seq<u8>) -> Seq<IterView> {
    Seq::new(
        iters.len(),
        |i: int|
            if front_key(iters, i) == key {
                IterView { source: iters[i].source, front: None }
            } else {
                iters[i]
            },
    )
}

/// What `group` lists: streams among the first `n`, each with `key` at its
/// front, the later ones first, and each such stream.
pub proof fn lemma_group_bounds(iters: Seq<IterView>, key: Seq<u8>, n: int)
    ensures
        group(iters, key, n).len() <= (if n < 0 { 0 } else { n }),
        forall|t: int|
            0 <= t < group(iters, key, n).len() ==> 0 <= #[trigger] group(iters, key, n)[t] < n
                && front_key(iters, group(iters, key, n)[t]) == key,
        forall|s: int, t: int|
            0 <= s < t < group(iters, key, n).len() ==> #[trigger] group(iters, key, n)[s]
                > #[trigger] group(iters, key, n)[t],
        forall|j: int|
            0 <= j < n && front_key(iters, j) == key ==> #[trigger] group(iters, key, n).contains(j),
    decreases n,
{
    if n > 0 {
        lemma_group_bounds(iters, key, n - 1);
        let rest = group(iters, key, n - 1);
        let all = group(iters, key, n);
        if front_key(iters, n - 1) == key {
            assert(all == seq![n - 1] + rest);
            assert(all[0] == n - 1);
            assert forall|t: int| 1 <= t < all.len() implies all[t] == rest[t - 1] by {}
            assert forall|j: int| 0 <= j < n && front_key(iters, j) == key implies all.contains(
                j,
            ) by {
                if j == n - 1 {
                    assert(all[0] == j);
                } else {
                    assert(rest.contains(j));
                    let t = choose|t: int| 0 <= t < rest.len() && rest[t] == j;
                    assert(all[t + 1] == j);
                }
            }
        }
    }
}

/// Where no stream has `key` at its front, `group` lists nothing.
pub proof fn lemma_group_empty(iters: Seq<IterView>, key: Seq<u8>, n: int)
    requires
        forall|j: int| 0 <= j < n ==> #[trigger] front_key(iters, j) != key,
    ensures
        group(iters, key, n) == Seq::<int>::empty(),
    decreases n,
{
    if n > 0 {
        lemma_group_empty(iters, key, n - 1);
    }
}

/// The streams that `group` lists are chained through `advance_next_idx`,
/// starting at `head`.
spec fn linked(iters: Seq<KeyValuesIter>, head: Option<usize>, g: Seq<int>) -> bool {
    &&& head is None <==> g.len() == 0
    &&& g.len() > 0 ==> head == Some(g[0] as usize)
    &&& forall|t: int|
        0 <= t < g.len() ==> 0 <= #[trigger] g[t] < iters.len() && iters[g[t]].advance_next_idx == (if t
            + 1 < g.len() {
            Some(g[t + 1] as usize)
        } else {
            None
        })
}

proof fn lemma_linked_single(iters: Seq<KeyValuesIter>, c: int)
    requires
        0 <= c < iters.len(),
        iters[c].advance_next_idx is None,
    ensures
        linked(iters, Some(c as usize), seq![c]),
{
}

proof fn lemma_linked_extend(
    before: Seq<KeyValuesIter>,
    after: Seq<KeyValuesIter>,
    head: usize,
    g: Seq<int>,
    c: int,
)
    requires
        linked(before, Some(head), g),
        forall|t: int| 0 <= t < g.len() ==> #[trigger] g[t] < c,
        after.len() == before.len(),
        0 <= c < after.len() <= usize::MAX,
        forall|j: int| 0 <= j < after.len() && j != c ==> #[trigger] after[j] == before[j],
        after[c].advance_next_idx == Some(head),
    ensures
        linked(after, Some(c as usize), seq![c] + g),
{
    let all = seq![c] + g;
    assert(all[0] == c);
    assert forall|t: int| 0 <= t < all.len() implies 0 <= #[trigger] all[t] < after.len()
        && after[all[t]].advance_next_idx == (if t + 1 < all.len() {
        Some(all[t + 1] as usize)
    } else {
        None
    }) by {
        if t > 0 {
            assert(all[t] == g[t - 1]);
            if t + 1 < all.len() {
                assert(all[t + 1] == g[t]);
            }
        } else {
            assert(all[1] == g[0]);
        }
    }
}

/// Scanning on from `c` streams to `c + 1`, where the new stream has a smaller
/// key than all before it.
proof fn lemma_scan_less(iters: Seq<IterView>, h: int, c: int)
    requires
        0 <= h < c < iters.len(),
        is_lower_bound(iters, front_key(iters, h), c),
        key_lt(front_key(iters, c), front_key(iters, h)),
    ensures
        is_lower_bound(iters, front_key(iters, c), c + 1),
        group(iters, front_key(iters, c), c + 1) == seq![c],
{
    let key_cur = front_key(iters, c);
    let key_min = front_key(iters, h);
    lemma_key_order_equal(key_cur, key_cur);
    assert forall|j: int| 0 <= j < c + 1 implies key_le(key_cur, #[trigger] front_key(iters, j)) by {
        if j < c {
            lemma_key_order_trans(key_cur, key_min, front_key(iters, j));
        }
    }
    assert forall|j: int| 0 <= j < c implies #[trigger] front_key(iters, j) != key_cur by {
        lemma_key_order_trans(key_cur, key_min, front_key(iters, j));
        lemma_key_order_equal(key_cur, front_key(iters, j));
    }
    lemma_group_empty(iters, key_cur, c);
    assert(group(iters, key_cur, c + 1) == seq![c] + group(iters, key_cur, c));
}

/// Scanning on from `c` streams to `c + 1`, where the new stream has the least
/// key so far.
proof fn lemma_scan_equal(iters: Seq<IterView>, h: int, c: int)
    requires
        0 <= h < c < iters.len(),
        is_lower_bound(iters, front_key(iters, h), c),
        front_key(iters, c) == front_key(iters, h),
    ensures
        is_lower_bound(iters, front_key(iters, c), c + 1),
        group(iters, front_key(iters, c), c + 1) == seq![c] + group(iters, front_key(iters, h), c),
{
    lemma_key_order_equal(front_key(iters, c), front_key(iters, c));
}

/// Scanning on from `c` streams to `c + 1`, where the new stream has a greater
/// key than the least so far.
proof fn lemma_scan_greater(iters: Seq<IterView>, h: int, c: int)
    requires
        0 <= h < c < iters.len(),
        is_lower_bound(iters, front_key(iters, h), c),
        key_lt(front_key(iters, h), front_key(iters, c)),
    ensures
        is_lower_bound(iters, front_key(iters, h), c + 1),
        group(iters, front_key(iters, h), c + 1) == group(iters, front_key(iters, h), c),
{
    lemma_key_order_equal(front_key(iters, h), front_key(iters, c));
}

impl ItersMerger {
    /// The streams in the order in which the merger holds them.
    pub closed spec fn view(&self) -> Seq<IterView> {
        self.iters@.map_values(|iter: KeyValuesIter| iter@)
    }

    /// A merger over the given streams.
    pub fn new(iters: Vec<KeyValuesIter>) -> (merger: ItersMerger)
        ensures
            merger@ == iters@.map_values(|iter: KeyValuesIter| iter@),
    {
        ItersMerger { iters }
    }

    /// How many streams are still being merged.
    pub fn iters_count(&self) -> (count: usize)
        ensures
            count == self@.len(),
    {
        self.iters.len()
    }

    /// Hands in what the stream at `iter_index` has delivered: `None` if it
    /// ended without notice, which the merge does not survive. A complete
    /// stream leaves the merger; the others keep the order in which they were
    /// added.
    pub fn receive(&mut self, iter_index: usize, received: Option<KeyValueRef>) -> (result: Result<
        (),
        Error,
    >)
        requires
            iter_index < old(self)@.len(),
            old(self)@[iter_index as int].front is None,
        ensures
            match received {
                None => result == Err::<(), Error>(Error::BackendIterPeerLost) && final(self)@
                    == old(self)@,
                Some(KeyValueRef::NoMore) => result is Ok && final(self)@ == old(self)@.remove(
                    iter_index as int,
                ),
                Some(KeyValueRef::BlockFinish(_)) => result is Ok && final(self)@ == old(self)@,
                Some(KeyValueRef::Item { key, value_cell }) => result is Ok && final(self)@ == old(
                    self,
                )@.update(
                    iter_index as int,
                    IterView {
                        source: old(self)@[iter_index as int].source,
                        front: Some(KeyValue { key: key@, value_cell: value_cell@ }),
                    },
                ),
            },
    {
        match received {
            None => Err(Error::BackendIterPeerLost),
            Some(KeyValueRef::NoMore) => {
                self.iters.remove(iter_index);
                assert(self@ == old(self)@.remove(iter_index as int));
                Ok(())
            },
            Some(KeyValueRef::BlockFinish(_)) => Ok(()),
            Some(KeyValueRef::Item { key, value_cell }) => {
                self.iters[iter_index].iter_state = IterState::FrontItem(
                    KeyValuePair { key, value_cell },
                );
                assert(self@ == old(self)@.update(
                    iter_index as int,
                    IterView {
                        source: old(self)@[iter_index as int].source,
                        front: Some(KeyValue { key: key@, value_cell: value_cell@ }),
                    },
                ));
                Ok(())
            },
        }
    }
    fn is_ready(&self, iter_index: usize) -> (ready: bool)
        requires
            iter_index < self@.len(),
        ensures
            ready == self@[iter_index as int].front is Some,
    {
        match &self.iters[iter_index].iter_state {
            IterState::NotReady => false,
            IterState::FrontItem(_) => true,
        }
    }

    fn source_of(&self, iter_index: usize) -> (source: usize)
        requires
            iter_index < self@.len(),
        ensures
            source == self@[iter_index as int].source,
    {
        self.iters[iter_index].source
    }

    fn set_next(&mut self, iter_index: usize, next: Option<usize>)
        requires
            iter_index < old(self)@.len(),
        ensures
            final(self)@ == old(self)@,
            final(self).iters@.len() == old(self).iters@.len(),
            final(self).iters@[iter_index as int].advance_next_idx == next,
            forall|j: int|
                0 <= j < old(self).iters@.len() && j != iter_index ==> #[trigger] final(self).iters@[j]
                    == old(self).iters@[j],
    {
        self.iters[iter_index].advance_next_idx = next;
        assert(self@ =~= old(self)@);
    }

    /// Takes the front item of a stream, and tells which stream is chained
    /// behind it.
    fn take_front(&mut self, iter_index: usize) -> (taken: (KeyValuePair<ValueBlockRef>, Option<usize>))
        requires
            iter_index < old(self)@.len(),
            old(self)@[iter_index as int].front is Some,
        ensures
            final(self).iters@.len() == old(self).iters@.len(),
            Some(taken.0@) == old(self)@[iter_index as int].front,
            taken.1 == old(self).iters@[iter_index as int].advance_next_idx,
            final(self).iters@[iter_index as int]@ == (IterView {
                source: old(self)@[iter_index as int].source,
                front: None,
            }),
            forall|j: int|
                0 <= j < old(self).iters@.len() && j != iter_index ==> #[trigger] final(self).iters@[j]
                    == old(self).iters@[j],
    {
        let mut state = IterState::NotReady;
        core::mem::swap(&mut self.iters[iter_index].iter_state, &mut state);
        let next = self.iters[iter_index].advance_next_idx;
        match state {
            IterState::FrontItem(front_item) => (front_item, next),
            IterState::NotReady => vstd::pervasive::unreached(),
        }
    }

    fn front_order(&self, i: usize, j: usize) -> (order: KeyOrder)
        requires
            i < self@.len(),
            j < self@.len(),
            self@[i as int].front is Some,
            self@[j as int].front is Some,
        ensures
            order == crate::kv::key_order(front_key(self@, i as int), front_key(self@, j as int)),
    {
        match (&self.iters[i].iter_state, &self.iters[j].iter_state) {
            (IterState::FrontItem(a), IterState::FrontItem(b)) => a.key.compare(&b.key),
            _ => vstd::pervasive::unreached(),
        }
    }

    /// The next step of the merge.
    ///
    /// While a stream has no front item, the step names the first such stream
    /// and changes nothing. Once every stream has one, the step yields the pair
    /// with the least key; of several streams with that key the highest version
    /// wins, and at equal versions the stream added last. The streams that held
    /// the key give their items up, and every item but the winner is appended
    /// to `deprecated`. With no stream left the merge is over.
    pub fn next_with_deprecated(
        &mut self,
        deprecated: &mut Vec<KeyValuePair<ValueBlockRef>>,
    ) -> (step: Step)
        ensures
            match step {
                Step::Recv { iter_index, source } => {
                    &&& first_not_ready(old(self)@, iter_index as int)
                    &&& source == old(self)@[iter_index as int].source
                    &&& final(self)@ == old(self)@
                    &&& final(deprecated)@ == old(deprecated)@
                },
                Step::Yield(None) => {
                    &&& old(self)@.len() == 0
                    &&& final(self)@ == old(self)@
                    &&& final(deprecated)@ == old(deprecated)@
                },
                Step::Yield(Some(best)) => {
                    let n = old(self)@.len() as int;
                    let before = old(deprecated)@.len() as int;
                    let after = final(deprecated)@.len() as int;
                    &&& all_ready(old(self)@)
                    &&& is_lower_bound(old(self)@, best@.key, n)
                    &&& exists|w: int|
                        is_winner(old(self)@, best@.key, w) && old(self)@[w].front == Some(best@)
                    &&& final(self)@ == after_yield(old(self)@, best@.key)
                    &&& after == before + group(old(self)@, best@.key, n).len() - 1
                    &&& final(deprecated)@.subrange(0, before) == old(deprecated)@
                    &&& item_views(final(deprecated)@).subrange(before, after).to_multiset().insert(
                        best@,
                    ) == group_items(old(self)@, best@.key, n).to_multiset()
                    &&& forall|i: int|
                        before <= i < after ==> (#[trigger] final(deprecated)@[i])@.key == best@.key
                            && final(deprecated)@[i]@.value_cell.version <= best@.value_cell.version
                },
            },
    {
        let n = self.iters.len();
        let ghost v0 = self@;
        let mut head: Option<usize> = None;
        let ghost mut g: Seq<int> = Seq::empty();
        let mut cursor_idx: usize = 0;
        while cursor_idx < n
            invariant
                n == self.iters.len(),
                n == v0.len(),
                v0 == old(self)@,
                self@ == v0,
                cursor_idx <= n,
                forall|j: int| 0 <= j < cursor_idx ==> (#[trigger] v0[j]).front is Some,
                head is None <==> cursor_idx == 0,
                head matches Some(h) ==> h < cursor_idx && is_lower_bound(
                    v0,
                    front_key(v0, h as int),
                    cursor_idx as int,
                ) && g == group(v0, front_key(v0, h as int), cursor_idx as int),
                linked(self.iters@, head, g),
                deprecated@ == old(deprecated)@,
            decreases n - cursor_idx,
        {
            if !self.is_ready(cursor_idx) {
                let source = self.source_of(cursor_idx);
                return Step::Recv { iter_index: cursor_idx, source };
            }
            let ghost iters_before = self.iters@;
            match head {
                None => {
                    self.set_next(cursor_idx, None);
                    head = Some(cursor_idx);
                    proof {
                        let key_cur = front_key(v0, 0);
                        lemma_key_order_equal(key_cur, key_cur);
                        lemma_group_empty(v0, key_cur, 0);
                        g = seq![0int];
                        assert(group(v0, key_cur, 1) == seq![0int] + group(v0, key_cur, 0));
                        lemma_linked_single(self.iters@, 0);
                    }
                },
                Some(advance_head_idx) => {
                    proof {
                        let key_cur = front_key(v0, cursor_idx as int);
                        let key_min = front_key(v0, advance_head_idx as int);
                        lemma_group_bounds(v0, key_min, cursor_idx as int);
                        lemma_key_order_equal(key_cur, key_min);
                        lemma_key_order_flip(key_cur, key_min);
                    }
                    match self.front_order(cursor_idx, advance_head_idx) {
                        KeyOrder::Less => {
                            self.set_next(cursor_idx, None);
                            head = Some(cursor_idx);
                            proof {
                                lemma_scan_less(v0, advance_head_idx as int, cursor_idx as int);
                                g = seq![cursor_idx as int];
                                lemma_linked_single(self.iters@, cursor_idx as int);
                            }
                        },
                        KeyOrder::Equal => {
                            self.set_next(cursor_idx, Some(advance_head_idx));
                            head = Some(cursor_idx);
                            proof {
                                lemma_scan_equal(v0, advance_head_idx as int, cursor_idx as int);
                                lemma_linked_extend(
                                    iters_before,
                                    self.iters@,
                                    advance_head_idx,
                                    g,
                                    cursor_idx as int,
                                );
                                g = seq![cursor_idx as int] + g;
                            }
                        },
                        KeyOrder::Greater => {
                            proof {
                                lemma_scan_greater(v0, advance_head_idx as int, cursor_idx as int);
                            }
                        },
                    }
                },
            }
            cursor_idx += 1;
        }
        let ghost key = match head {
            Some(h) => front_key(v0, h as int),
            None => Seq::empty(),
        };
        proof {
            if head is Some {
                lemma_group_bounds(v0, key, n as int);
            }
        }
        let ghost items = group_items(v0, key, n as int);
        let ghost before = deprecated@.len() as int;
        let ghost mut t: int = 0;
        let ghost mut w: int = 0;
        // for each pair that lost, its place in the group
        let ghost mut lost: Seq<int> = Seq::empty();
        let mut best_item: Option<KeyValuePair<ValueBlockRef>> = None;
        let mut cur: Option<usize> = head;
        while cur.is_some()
            invariant
                n == self.iters.len(),
                n == v0.len(),
                0 <= t <= g.len(),
                head is Some ==> g == group(v0, key, n as int),
                head is None ==> g.len() == 0,
                items == group_items(v0, key, n as int),
                forall|s: int|
                    0 <= s < g.len() ==> 0 <= #[trigger] g[s] < n && front_key(v0, g[s]) == key,
                forall|r: int, s: int| 0 <= r < s < g.len() ==> #[trigger] g[r] > #[trigger] g[s],
                forall|j: int|
                    0 <= j < n && front_key(v0, j) == key ==> #[trigger] g.contains(j),
                forall|j: int| 0 <= j < n ==> (#[trigger] v0[j]).front is Some,
                cur == (if t < g.len() {
                    Some(g[t] as usize)
                } else {
                    None
                }),
                forall|s: int|
                    t <= s < g.len() ==> #[trigger] self.iters@[g[s]]@ == v0[g[s]]
                        && self.iters@[g[s]].advance_next_idx == (if s + 1 < g.len() {
                        Some(g[s + 1] as usize)
                    } else {
                        None
                    }),
                forall|s: int|
                    0 <= s < t ==> #[trigger] self.iters@[g[s]]@ == (IterView {
                        source: v0[g[s]].source,
                        front: None,
                    }),
                forall|j: int|
                    0 <= j < n && front_key(v0, j) != key ==> #[trigger] self.iters@[j]@ == v0[j],
                t == 0 <==> best_item is None,
                best_item matches Some(best) ==> {
                    &&& 0 <= w < t
                    &&& v0[g[w]].front == Some(best@)
                    &&& forall|s: int|
                        0 <= s < t ==> front_version(v0, #[trigger] g[s]) < front_version(v0, g[w]) || (
                        front_version(v0, g[s]) == front_version(v0, g[w]) && g[s] <= g[w])
                    &&& item_views(deprecated@).subrange(
                        before,
                        deprecated@.len() as int,
                    ).to_multiset().insert(best@) == items.subrange(0, t).to_multiset()
                },
                deprecated@.len() == before + (if t == 0 {
                    0
                } else {
                    t - 1
                }),
                deprecated@.subrange(0, before) == old(deprecated)@,
                before == old(deprecated)@.len(),
                lost.len() == deprecated@.len() - before,
                forall|j: int|
                    0 <= j < lost.len() ==> 0 <= #[trigger] lost[j] < t && v0[g[lost[j]]].front == Some(
                        deprecated@[before + j]@,
                    ),
            decreases g.len() - t,
        {
            let advance_head_idx = cur.unwrap();
            let ghost iters_before = self.iters@;
            let ghost dep_before = deprecated@;
            assert(iters_before[g[t]]@ == v0[g[t]]);
            assert(self@[g[t]] == iters_before[g[t]]@);
            let (front_item, next) = self.take_front(advance_head_idx);
            cur = next;
            let ghost x = front_item@;
            proof {
                assert forall|s: int| t + 1 <= s < g.len() implies #[trigger] self.iters@[g[s]]@
                    == v0[g[s]] && self.iters@[g[s]].advance_next_idx == (if s + 1 < g.len() {
                    Some(g[s + 1] as usize)
                } else {
                    None
                }) by {
                    assert(g[t] > g[s]);
                    assert(self.iters@[g[s]] == iters_before[g[s]]);
                    assert(iters_before[g[s]]@ == v0[g[s]]);
                }
                assert forall|s: int| 0 <= s < t + 1 implies #[trigger] self.iters@[g[s]]@
                    == (IterView { source: v0[g[s]].source, front: None }) by {
                    if s < t {
                        assert(g[s] > g[t]);
                        assert(self.iters@[g[s]] == iters_before[g[s]]);
                        assert(iters_before[g[s]]@ == (IterView {
                            source: v0[g[s]].source,
                            front: None,
                        }));
                    }
                }
                assert forall|j: int| 0 <= j < n && front_key(v0, j) != key implies #[trigger] self.iters@[j]@
                    == v0[j] by {
                    assert(j != g[t]);
                    assert(self.iters@[j] == iters_before[j]);
                    assert(iters_before[j]@ == v0[j]);
                }
                assert(v0[g[t]].front == Some(x));
                assert(items[t] == x);
                assert(items.subrange(0, t + 1) == items.subrange(0, t).push(x));
                to_multiset_build(items.subrange(0, t), x);
            }
            match best_item {
                None => {
                    best_item = Some(front_item);
                    proof {
                        w = t;
                        assert(item_views(deprecated@).subrange(before, before) == Seq::<
                            KeyValue<ValueRef>,
                        >::empty());
                        assert(items.subrange(0, 0) == Seq::<KeyValue<ValueRef>>::empty());
                        assert(Seq::<KeyValue<ValueRef>>::empty().to_multiset().insert(x) =~= Seq::<
                            KeyValue<ValueRef>,
                        >::empty().push(x).to_multiset());
                    }
                },
                Some(prev_best) => {
                    let ghost prev = prev_best@;
                    let ghost losers = item_views(dep_before).subrange(
                        before,
                        dep_before.len() as int,
                    );
                    if prev_best.value_cell.version < front_item.value_cell.version {
                        deprecated.push(prev_best);
                        best_item = Some(front_item);
                        proof {
                            let wins = lost;
                            lost = lost.push(w);
                            assert forall|j: int| 0 <= j < lost.len() implies 0 <= #[trigger] lost[j] < t + 1
                                && v0[g[lost[j]]].front == Some(deprecated@[before + j]@) by {
                                if j < wins.len() {
                                    assert(lost[j] == wins[j]);
                                    assert(deprecated@[before + j] == dep_before[before + j]);
                                }
                            }
                            w = t;
                            assert(item_views(deprecated@).subrange(before, deprecated@.len() as int)
                                == losers.push(prev));
                            to_multiset_build(losers, prev);
                            assert(losers.push(prev).to_multiset().insert(x)
                                =~= losers.to_multiset().insert(prev).insert(x));
                        }
                    } else {
                        deprecated.push(front_item);
                        best_item = Some(prev_best);
                        proof {
                            let wins = lost;
                            lost = lost.push(t);
                            assert forall|j: int| 0 <= j < lost.len() implies 0 <= #[trigger] lost[j] < t + 1
                                && v0[g[lost[j]]].front == Some(deprecated@[before + j]@) by {
                                if j < wins.len() {
                                    assert(lost[j] == wins[j]);
                                    assert(deprecated@[before + j] == dep_before[before + j]);
                                }
                            }
                            assert(item_views(deprecated@).subrange(before, deprecated@.len() as int)
                                == losers.push(x));
                            to_multiset_build(losers, x);
                            assert(losers.push(x).to_multiset().insert(prev)
                                =~= losers.to_multiset().insert(prev).insert(x));
                        }
                    }
                    assert(deprecated@.subrange(0, before) == dep_before.subrange(0, before));
                },
            }
            proof {
                t = t + 1;
            }
        }
        proof {
            if best_item is Some {
                let best = best_item->0;
                assert(items.subrange(0, t) == items);
                assert(is_winner(v0, key, g[w])) by {
                    assert forall|j: int|
                        0 <= j < v0.len() && #[trigger] front_key(v0, j) == key implies front_version(
                        v0,
                        j,
                    ) < front_version(v0, g[w]) || (front_version(v0, j) == front_version(v0, g[w])
                        && j <= g[w]) by {
                        assert(g.contains(j));
                        let s = choose|s: int| 0 <= s < g.len() && g[s] == j;
                        assert(front_version(v0, g[s]) < front_version(v0, g[w]) || (front_version(
                            v0,
                            g[s],
                        ) == front_version(v0, g[w]) && g[s] <= g[w]));
                    }
                }
                assert(self@ =~= after_yield(v0, key)) by {
                    assert forall|i: int| 0 <= i < n implies self@[i] == after_yield(v0, key)[i] by {
                        if front_key(v0, i) == key {
                            assert(g.contains(i));
                            let s = choose|s: int| 0 <= s < g.len() && g[s] == i;
                            assert(self.iters@[g[s]]@ == (IterView {
                                source: v0[g[s]].source,
                                front: None,
                            }));
                        } else {
                            assert(self.iters@[i]@ == v0[i]);
                        }
                    }
                }
                assert(all_ready(v0));
                assert forall|i: int| before <= i < deprecated@.len() implies (#[trigger] deprecated@[i])@.key
                    == best@.key && deprecated@[i]@.value_cell.version <= best@.value_cell.version by {
                    let s = lost[i - before];
                    assert(v0[g[s]].front == Some(deprecated@[before + (i - before)]@));
                    assert(front_key(v0, g[s]) == key);
                    assert(front_version(v0, g[s]) < front_version(v0, g[w]) || (front_version(v0, g[s])
                        == front_version(v0, g[w]) && g[s] <= g[w]));
                }
            } else {
                assert(self@ =~= v0);
            }
        }
        Step::Yield(best_item)
    }

    /// The next step of the merge, for a driver that has no use for the items
    /// that lost.
    pub fn next(&mut self) -> (step: Step)
        ensures
            match step {
                Step::Recv { iter_index, source } => {
                    &&& first_not_ready(old(self)@, iter_index as int)
                    &&& source == old(self)@[iter_index as int].source
                    &&& final(self)@ == old(self)@
                },
                Step::Yield(None) => old(self)@.len() == 0 && final(self)@ == old(self)@,
                Step::Yield(Some(best)) => {
                    &&& all_ready(old(self)@)
                    &&& is_lower_bound(old(self)@, best@.key, old(self)@.len() as int)
                    &&& exists|w: int|
                        is_winner(old(self)@, best@.key, w) && old(self)@[w].front == Some(best@)
                    &&& final(self)@ == after_yield(old(self)@, best@.key)
                },
            },
    {
        let mut deprecated: Vec<KeyValuePair<ValueBlockRef>> = Vec::new();
        self.next_with_deprecated(&mut deprecated)
    }
}

} // verus!
