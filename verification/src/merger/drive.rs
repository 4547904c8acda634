//! Driving a merger to the end over sources that are held in memory, and
//! what the merged sequence then is.

use vstd::prelude::*;
use vstd::multiset::Multiset;
use crate::kv::{
    KeyValue, KeyValuePair, key_le, key_lt, lemma_key_order_equal, lemma_key_order_flip,
    lemma_key_order_trans,
};
use crate::mem_cache::strictly_sorted;
use crate::merger::{
    IterView, ItersMerger, KeyValueRef, KeyValuesIter, Step, after_yield, all_ready, front_key,
    front_version, group, group_items, is_lower_bound, is_winner, item_views,
    lemma_group_bounds,
};
use crate::storage::{ValueBlockRef, ValueRef};

verus! {

/// The pairs of each source, as mathematics.
pub open spec fn source_views(sources: Seq<Vec<KeyValuePair<ValueBlockRef>>>) -> Seq<
    Seq<KeyValue<ValueRef>>,
> {
    sources.map_values(|source: Vec<KeyValuePair<ValueBlockRef>>| item_views(source@))
}

/// Every source stands in strictly rising key order.
pub open spec fn sorted_sources(sources: Seq<Seq<KeyValue<ValueRef>>>) -> bool {
    forall|s: int| 0 <= s < sources.len() ==> strictly_sorted(#[trigger] sources[s])
}

/// `item` is a pair of one of the sources.
pub open spec fn is_source_item(sources: Seq<Seq<KeyValue<ValueRef>>>, item: KeyValue<ValueRef>) -> bool {
    exists|s: int, j: int|
        0 <= s < sources.len() && 0 <= j < sources[s].len() && #[trigger] sources[s][j] == item
}

/// No source holds the key of `item` at a higher version.
pub open spec fn is_latest(sources: Seq<Seq<KeyValue<ValueRef>>>, item: KeyValue<ValueRef>) -> bool {
    forall|s: int, j: int|
        0 <= s < sources.len() && 0 <= j < sources[s].len() && (#[trigger] sources[s][j]).key
            == item.key ==> sources[s][j].value_cell.version <= item.value_cell.version
}

/// No source added after source `s` holds the key of `item` at the version
/// of `item` or a higher one.
pub open spec fn beats_later(
    sources: Seq<Seq<KeyValue<ValueRef>>>,
    item: KeyValue<ValueRef>,
    s: int,
) -> bool {
    forall|t: int, j: int|
        s < t < sources.len() && 0 <= j < sources[t].len() && (#[trigger] sources[t][j]).key
            == item.key ==> sources[t][j].value_cell.version < item.value_cell.version
}

/// `item` is a pair of a source that no source added later matches: where
/// several sources hold a key at the same highest version, it is the pair of
/// the one added last.
pub open spec fn wins_ties(sources: Seq<Seq<KeyValue<ValueRef>>>, item: KeyValue<ValueRef>) -> bool {
    exists|s: int, j: int|
        0 <= s < sources.len() && 0 <= j < sources[s].len() && #[trigger] sources[s][j] == item
            && beats_later(sources, item, s)
}

/// `merged` holds a pair with `key`.
pub open spec fn holds_key(merged: Seq<KeyValue<ValueRef>>, key: Seq<u8>) -> bool {
    exists|i: int| 0 <= i < merged.len() && (#[trigger] merged[i]).key == key
}

/// `merged` is the merge of `sources`: it stands in strictly rising key
/// order, so that no key comes twice; each of its pairs is a pair of a source,
/// and the one with the highest version that any source holds for the key,
/// from the source added last where several hold that version; and it holds
/// every key that any source holds.
pub open spec fn is_merge_of(
    sources: Seq<Seq<KeyValue<ValueRef>>>,
    merged: Seq<KeyValue<ValueRef>>,
) -> bool {
    &&& strictly_sorted(merged)
    &&& forall|i: int|
        0 <= i < merged.len() ==> is_source_item(sources, #[trigger] merged[i]) && is_latest(
            sources,
            merged[i],
        ) && wins_ties(sources, merged[i])
    &&& forall|s: int, j: int|
        0 <= s < sources.len() && 0 <= j < sources[s].len() ==> holds_key(
            merged,
            (#[trigger] sources[s][j]).key,
        )
}

/// How far a merge has come: of each source, the first `consumed[s]` pairs
/// have gone into `merged`, and every later pair lies above the last key of
/// `merged`.
pub open spec fn progress(
    sources: Seq<Seq<KeyValue<ValueRef>>>,
    consumed: Seq<int>,
    merged: Seq<KeyValue<ValueRef>>,
) -> bool {
    &&& consumed.len() == sources.len()
    &&& forall|s: int| 0 <= s < sources.len() ==> 0 <= #[trigger] consumed[s] <= sources[s].len()
    &&& strictly_sorted(merged)
    &&& forall|i: int|
        0 <= i < merged.len() ==> is_source_item(sources, #[trigger] merged[i]) && is_latest(
            sources,
            merged[i],
        ) && wins_ties(sources, merged[i])
    &&& forall|s: int, j: int|
        0 <= s < sources.len() && 0 <= j < consumed[s] ==> merged.len() > 0 && holds_key(
            merged,
            (#[trigger] sources[s][j]).key,
        ) && key_le(sources[s][j].key, merged.last().key)
    &&& forall|s: int, j: int|
        0 <= s < sources.len() && consumed[s] <= j < sources[s].len() && merged.len() > 0 ==> key_lt(
            merged.last().key,
            (#[trigger] sources[s][j]).key,
        )
}

/// How far each source has been consumed after `best` was yielded: one pair
/// further where the front of the source had the key of `best`.
pub open spec fn consumed_after(
    consumed: Seq<int>,
    fronts: Seq<Option<KeyValue<ValueRef>>>,
    best: KeyValue<ValueRef>,
) -> Seq<int> {
    Seq::new(
        consumed.len(),
        |s: int|
            if fronts[s] is Some && fronts[s]->0.key == best.key {
                consumed[s] + 1
            } else {
                consumed[s]
            },
    )
}

/// Nothing consumed and nothing merged is where every merge starts.
pub proof fn lemma_progress_start(sources: Seq<Seq<KeyValue<ValueRef>>>)
    ensures
        progress(sources, Seq::new(sources.len(), |s: int| 0int), Seq::empty()),
{
}

/// A merge that has consumed every source is complete.
pub proof fn lemma_progress_end(
    sources: Seq<Seq<KeyValue<ValueRef>>>,
    consumed: Seq<int>,
    merged: Seq<KeyValue<ValueRef>>,
)
    requires
        progress(sources, consumed, merged),
        forall|s: int| 0 <= s < sources.len() ==> #[trigger] consumed[s] == sources[s].len(),
    ensures
        is_merge_of(sources, merged),
{
    assert forall|s: int, j: int| 0 <= s < sources.len() && 0 <= j < sources[s].len() implies holds_key(
        merged,
        (#[trigger] sources[s][j]).key,
    ) by {
        assert(consumed[s] == sources[s].len());
    }
}

/// One step of a merge. Every source that is not at its end shows its next
/// pair as its front. The pair `best` is the front of source `from`, no front
/// has a lower key, no front with the same key has a higher version, and none
/// of a source added later has the same. Then yielding `best`, and consuming
/// every front with its key, carries the merge on.
pub proof fn lemma_progress_yield(
    sources: Seq<Seq<KeyValue<ValueRef>>>,
    consumed: Seq<int>,
    merged: Seq<KeyValue<ValueRef>>,
    fronts: Seq<Option<KeyValue<ValueRef>>>,
    best: KeyValue<ValueRef>,
    from: int,
)
    requires
        sorted_sources(sources),
        progress(sources, consumed, merged),
        fronts.len() == sources.len(),
        forall|s: int|
            0 <= s < sources.len() ==> match #[trigger] fronts[s] {
                Some(front) => consumed[s] < sources[s].len() && sources[s][consumed[s]] == front
                    && key_le(best.key, front.key) && (front.key == best.key
                    ==> front.value_cell.version <= best.value_cell.version),
                None => consumed[s] == sources[s].len(),
            },
        0 <= from < sources.len(),
        fronts[from] == Some(best),
        forall|s: int|
            from < s < sources.len() && (#[trigger] fronts[s]) is Some && fronts[s]->0.key == best.key
                ==> fronts[s]->0.value_cell.version < best.value_cell.version,
    ensures
        progress(sources, consumed_after(consumed, fronts, best), merged.push(best)),
{
    let after = consumed_after(consumed, fronts, best);
    let longer = merged.push(best);
    let sw = from;
    assert(sources[sw][consumed[sw]] == best);
    lemma_key_order_equal(best.key, best.key);
    // the new pair lies above everything merged so far
    if merged.len() > 0 {
        assert(key_lt(merged.last().key, sources[sw][consumed[sw]].key));
    }
    assert forall|a: int, b: int| 0 <= a < b < longer.len() implies key_lt(
        (#[trigger] longer[a]).key,
        (#[trigger] longer[b]).key,
    ) by {
        if b == longer.len() - 1 {
            if a < merged.len() - 1 {
                assert(key_lt(merged[a].key, merged[merged.len() - 1].key));
                lemma_key_order_trans(merged[a].key, merged.last().key, best.key);
            }
        } else {
            assert(key_lt(merged[a].key, merged[b].key));
        }
    }
    // the new pair is the latest for its key
    assert forall|s: int, j: int|
        0 <= s < sources.len() && 0 <= j < sources[s].len() && (#[trigger] sources[s][j]).key
            == best.key implies sources[s][j].value_cell.version <= best.value_cell.version by {
        if j < consumed[s] {
            assert(key_le(sources[s][j].key, merged.last().key));
            lemma_key_order_trans(sources[s][j].key, merged.last().key, best.key);
            lemma_key_order_equal(sources[s][j].key, best.key);
        } else {
            assert(fronts[s] is Some);
            if j > consumed[s] {
                assert(strictly_sorted(sources[s]));
                assert(key_lt(sources[s][consumed[s]].key, sources[s][j].key));
                lemma_key_order_trans(best.key, sources[s][consumed[s]].key, sources[s][j].key);
                lemma_key_order_equal(best.key, sources[s][j].key);
            }
        }
    }
    assert(is_source_item(sources, best));
    // and the pair of the source added last among those that hold it so
    assert forall|t: int, j: int|
        from < t < sources.len() && 0 <= j < sources[t].len() && (#[trigger] sources[t][j]).key
            == best.key implies sources[t][j].value_cell.version < best.value_cell.version by {
        if j < consumed[t] {
            assert(key_le(sources[t][j].key, merged.last().key));
            lemma_key_order_trans(sources[t][j].key, merged.last().key, best.key);
            lemma_key_order_equal(sources[t][j].key, best.key);
        } else {
            assert(fronts[t] is Some);
            if j > consumed[t] {
                assert(strictly_sorted(sources[t]));
                assert(key_lt(sources[t][consumed[t]].key, sources[t][j].key));
                lemma_key_order_trans(best.key, sources[t][consumed[t]].key, sources[t][j].key);
                lemma_key_order_equal(best.key, sources[t][j].key);
            }
        }
    }
    assert(beats_later(sources, best, from));
    assert(wins_ties(sources, best));
    assert forall|i: int| 0 <= i < longer.len() implies is_source_item(sources, #[trigger] longer[i])
        && is_latest(sources, longer[i]) && wins_ties(sources, longer[i]) by {
        if i < merged.len() {
            assert(longer[i] == merged[i]);
        }
    }
    assert(longer.last() == best);
    assert forall|s: int, j: int| 0 <= s < sources.len() && 0 <= j < after[s] implies longer.len() > 0
        && holds_key(longer, (#[trigger] sources[s][j]).key) && key_le(
        sources[s][j].key,
        longer.last().key,
    ) by {
        if j < consumed[s] {
            let i = choose|i: int| 0 <= i < merged.len() && (#[trigger] merged[i]).key == sources[s][j].key;
            assert(longer[i].key == sources[s][j].key);
            assert(key_le(sources[s][j].key, merged.last().key));
            lemma_key_order_trans(sources[s][j].key, merged.last().key, best.key);
        } else {
            assert(fronts[s] is Some);
            assert(longer[longer.len() - 1].key == sources[s][j].key);
        }
    }
    assert forall|s: int, j: int|
        0 <= s < sources.len() && after[s] <= j < sources[s].len() && longer.len() > 0 implies key_lt(
        longer.last().key,
        (#[trigger] sources[s][j]).key,
    ) by {
        assert(fronts[s] is Some);
        let front = sources[s][consumed[s]];
        assert(strictly_sorted(sources[s]));
        if front.key == best.key {
            assert(key_lt(sources[s][consumed[s]].key, sources[s][j].key));
        } else {
            lemma_key_order_equal(best.key, front.key);
            if j > consumed[s] {
                assert(key_lt(sources[s][consumed[s]].key, sources[s][j].key));
                lemma_key_order_trans(best.key, front.key, sources[s][j].key);
            }
        }
    }
}

/// How many pairs all sources hold together.
pub open spec fn pairs_total(sources: Seq<Seq<KeyValue<ValueRef>>>) -> nat
    decreases sources.len(),
{
    if sources.len() == 0 {
        0
    } else {
        pairs_total(sources.drop_last()) + sources.last().len()
    }
}

/// All pairs of all sources together, each as often as the sources hold it.
pub open spec fn all_pairs(sources: Seq<Seq<KeyValue<ValueRef>>>) -> Multiset<KeyValue<ValueRef>>
    decreases sources.len(),
{
    if sources.len() == 0 {
        Multiset::empty()
    } else {
        all_pairs(sources.drop_last()).add(sources.last().to_multiset())
    }
}

/// The front item of a stream, as a collection of one pair or none.
spec fn front_bag(front: Option<KeyValue<ValueRef>>) -> Multiset<KeyValue<ValueRef>> {
    match front {
        Some(item) => Multiset::empty().insert(item),
        None => Multiset::empty(),
    }
}

/// The front items that the merger holds.
spec fn fronts_bag(iters: Seq<IterView>) -> Multiset<KeyValue<ValueRef>>
    decreases iters.len(),
{
    if iters.len() == 0 {
        Multiset::empty()
    } else {
        fronts_bag(iters.drop_last()).add(front_bag(iters.last().front))
    }
}

/// The pairs that are still to be fed.
spec fn rest_bag(rest: Seq<Vec<KeyValuePair<ValueBlockRef>>>) -> Multiset<KeyValue<ValueRef>>
    decreases rest.len(),
{
    if rest.len() == 0 {
        Multiset::empty()
    } else {
        rest_bag(rest.drop_last()).add(item_views(rest.last()@).to_multiset())
    }
}

proof fn lemma_fronts_bag_update(iters: Seq<IterView>, i: int, iter: IterView)
    requires
        0 <= i < iters.len(),
    ensures
        fronts_bag(iters.update(i, iter)).add(front_bag(iters[i].front)) =~= fronts_bag(iters).add(
            front_bag(iter.front),
        ),
    decreases iters.len(),
{
    broadcast use vstd::multiset::group_multiset_axioms;

    let changed = iters.update(i, iter);
    if i == iters.len() - 1 {
        assert(changed.drop_last() == iters.drop_last());
        assert(changed.last() == iter);
        assert(iters.last() == iters[i]);
    } else {
        assert(changed.drop_last() == iters.drop_last().update(i, iter));
        assert(changed.last() == iters.last());
        assert(iters.drop_last()[i] == iters[i]);
        lemma_fronts_bag_update(iters.drop_last(), i, iter);
    }
    assert forall|v: KeyValue<ValueRef>|
        fronts_bag(changed).add(front_bag(iters[i].front)).count(v) == fronts_bag(iters).add(
            front_bag(iter.front),
        ).count(v) by {
        if i < iters.len() - 1 {
            assert(fronts_bag(iters.drop_last().update(i, iter)).add(front_bag(iters[i].front)).count(v)
                == fronts_bag(iters.drop_last()).add(front_bag(iter.front)).count(v));
        }
    }
}

proof fn lemma_fronts_bag_leave(iters: Seq<IterView>, i: int)
    requires
        0 <= i < iters.len(),
        iters[i].front is None,
    ensures
        fronts_bag(iters.remove(i)) =~= fronts_bag(iters),
    decreases iters.len(),
{
    broadcast use vstd::multiset::group_multiset_axioms;

    if i == iters.len() - 1 {
        assert(iters.remove(i) == iters.drop_last());
    } else {
        assert(iters.remove(i).drop_last() == iters.drop_last().remove(i));
        assert(iters.remove(i).last() == iters.last());
        lemma_fronts_bag_leave(iters.drop_last(), i);
    }
}

/// After a pair has been yielded, the front items of its group have left
/// the merger, and no others.
proof fn lemma_fronts_bag_yield(iters: Seq<IterView>, key: Seq<u8>, n: int)
    requires
        0 <= n <= iters.len(),
        all_ready(iters),
    ensures
        fronts_bag(after_yield(iters, key).subrange(0, n)).add(
            group_items(iters, key, n).to_multiset(),
        ) =~= fronts_bag(iters.subrange(0, n)),
    decreases n,
{
    broadcast use vstd::multiset::group_multiset_axioms;

    if n > 0 {
        lemma_fronts_bag_yield(iters, key, n - 1);
        lemma_group_bounds(iters, key, n - 1);
        assert(after_yield(iters, key).subrange(0, n).drop_last() == after_yield(iters, key).subrange(
            0,
            n - 1,
        ));
        assert(iters.subrange(0, n).drop_last() == iters.subrange(0, n - 1));
        assert(iters[n - 1].front is Some);
        let front = iters[n - 1].front->0;
        if front_key(iters, n - 1) == key {
            let first = seq![front];
            assert(group_items(iters, key, n) =~= first + group_items(iters, key, n - 1));
            vstd::seq_lib::lemma_multiset_commutative(first, group_items(iters, key, n - 1));
            assert(first =~= Seq::<KeyValue<ValueRef>>::empty().push(front));
            vstd::seq_lib::to_multiset_build(Seq::<KeyValue<ValueRef>>::empty(), front);
            assert(Seq::<KeyValue<ValueRef>>::empty().to_multiset() =~= Multiset::<
                KeyValue<ValueRef>,
            >::empty()) by {
                Seq::<KeyValue<ValueRef>>::empty().to_multiset_ensures();
                vstd::multiset::lemma_multiset_empty_len(
                    Seq::<KeyValue<ValueRef>>::empty().to_multiset(),
                );
            }
            assert(first.to_multiset() =~= front_bag(Some(front)));
        } else {
            assert(group_items(iters, key, n) =~= group_items(iters, key, n - 1));
        }
    } else {
        assert(group_items(iters, key, 0) =~= Seq::<KeyValue<ValueRef>>::empty());
        Seq::<KeyValue<ValueRef>>::empty().to_multiset_ensures();
        vstd::multiset::lemma_multiset_empty_len(Seq::<KeyValue<ValueRef>>::empty().to_multiset());
    }
}

proof fn lemma_rest_bag_update(
    rest: Seq<Vec<KeyValuePair<ValueBlockRef>>>,
    s: int,
    shorter: Vec<KeyValuePair<ValueBlockRef>>,
)
    requires
        0 <= s < rest.len(),
    ensures
        rest_bag(rest.update(s, shorter)).add(item_views(rest[s]@).to_multiset()) =~= rest_bag(
            rest,
        ).add(item_views(shorter@).to_multiset()),
    decreases rest.len(),
{
    broadcast use vstd::multiset::group_multiset_axioms;

    let changed = rest.update(s, shorter);
    if s == rest.len() - 1 {
        assert(changed.drop_last() == rest.drop_last());
        assert(changed.last() == shorter);
        assert(rest.last() == rest[s]);
    } else {
        assert(changed.drop_last() == rest.drop_last().update(s, shorter));
        assert(changed.last() == rest.last());
        assert(rest.drop_last()[s] == rest[s]);
        lemma_rest_bag_update(rest.drop_last(), s, shorter);
    }
    assert forall|v: KeyValue<ValueRef>|
        rest_bag(changed).add(item_views(rest[s]@).to_multiset()).count(v) == rest_bag(rest).add(
            item_views(shorter@).to_multiset(),
        ).count(v) by {
        if s < rest.len() - 1 {
            assert(rest_bag(rest.drop_last().update(s, shorter)).add(
                item_views(rest[s]@).to_multiset(),
            ).count(v) == rest_bag(rest.drop_last()).add(item_views(shorter@).to_multiset()).count(v));
        }
    }
}

proof fn lemma_rest_bag_start(
    rest: Seq<Vec<KeyValuePair<ValueBlockRef>>>,
    sources: Seq<Seq<KeyValue<ValueRef>>>,
    n: int,
)
    requires
        0 <= n <= rest.len(),
        rest.len() == sources.len(),
        forall|s: int| 0 <= s < rest.len() ==> (#[trigger] rest[s])@.len() == sources[s].len(),
        forall|s: int, j: int|
            0 <= s < rest.len() && 0 <= j < rest[s]@.len() ==> (#[trigger] rest[s]@[j])@
                == sources[s][sources[s].len() - 1 - j],
    ensures
        rest_bag(rest.subrange(0, n)) =~= all_pairs(sources.subrange(0, n)),
    decreases n,
{
    broadcast use vstd::multiset::group_multiset_axioms;

    if n > 0 {
        lemma_rest_bag_start(rest, sources, n - 1);
        assert(rest.subrange(0, n).drop_last() == rest.subrange(0, n - 1));
        assert(sources.subrange(0, n).drop_last() == sources.subrange(0, n - 1));
        assert(rest.subrange(0, n).last() == rest[n - 1]);
        assert(sources.subrange(0, n).last() == sources[n - 1]);
        let turned = item_views(rest[n - 1]@);
        let source = sources[n - 1];
        assert(turned =~= source.reverse()) by {
            assert(turned.len() == source.len());
            assert forall|j: int| 0 <= j < turned.len() implies turned[j] == source.reverse()[j] by {
                assert(turned[j] == rest[n - 1]@[j]@);
            }
        }
        source.lemma_reverse_to_multiset();
    }
}

proof fn lemma_rest_bag_end(rest: Seq<Vec<KeyValuePair<ValueBlockRef>>>)
    requires
        forall|s: int| 0 <= s < rest.len() ==> (#[trigger] rest[s])@.len() == 0,
    ensures
        rest_bag(rest) =~= Multiset::<KeyValue<ValueRef>>::empty(),
    decreases rest.len(),
{
    broadcast use vstd::multiset::group_multiset_axioms;

    if rest.len() > 0 {
        assert forall|s: int| 0 <= s < rest.drop_last().len() implies (#[trigger] rest.drop_last()[s])@.len()
            == 0 by {
            assert(rest.drop_last()[s] == rest[s]);
        }
        lemma_rest_bag_end(rest.drop_last());
        let last = item_views(rest.last()@);
        assert(rest.last() == rest[rest.len() - 1]);
        assert(last.len() == 0);
        last.to_multiset_ensures();
        vstd::multiset::lemma_multiset_empty_len(last.to_multiset());
    }
}

proof fn lemma_fronts_bag_none(iters: Seq<IterView>)
    requires
        forall|i: int| 0 <= i < iters.len() ==> (#[trigger] iters[i]).front is None,
    ensures
        fronts_bag(iters) =~= Multiset::<KeyValue<ValueRef>>::empty(),
    decreases iters.len(),
{
    broadcast use vstd::multiset::group_multiset_axioms;

    if iters.len() > 0 {
        assert forall|i: int| 0 <= i < iters.drop_last().len() implies (#[trigger] iters.drop_last()[i]).front
            is None by {
            assert(iters.drop_last()[i] == iters[i]);
        }
        lemma_fronts_bag_none(iters.drop_last());
        assert(iters.last() == iters[iters.len() - 1]);
    }
}

/// Where every pair stands while a merge runs: merged, deprecated, at the
/// front of a stream, or still to be fed.
spec fn balance(
    merged: Seq<KeyValue<ValueRef>>,
    deprecated: Seq<KeyValue<ValueRef>>,
    iters: Seq<IterView>,
    rest: Seq<Vec<KeyValuePair<ValueBlockRef>>>,
) -> Multiset<KeyValue<ValueRef>> {
    merged.to_multiset().add(deprecated.to_multiset()).add(fronts_bag(iters)).add(rest_bag(rest))
}

/// Before anything is fed, every pair is still to be fed.
proof fn lemma_balance_start(
    iters: Seq<IterView>,
    rest: Seq<Vec<KeyValuePair<ValueBlockRef>>>,
    sources: Seq<Seq<KeyValue<ValueRef>>>,
)
    requires
        rest.len() == sources.len(),
        forall|i: int| 0 <= i < iters.len() ==> (#[trigger] iters[i]).front is None,
        forall|s: int| 0 <= s < rest.len() ==> (#[trigger] rest[s])@.len() == sources[s].len(),
        forall|s: int, j: int|
            0 <= s < rest.len() && 0 <= j < rest[s]@.len() ==> (#[trigger] rest[s]@[j])@
                == sources[s][sources[s].len() - 1 - j],
    ensures
        balance(Seq::empty(), Seq::empty(), iters, rest) == all_pairs(sources),
{
    broadcast use vstd::multiset::group_multiset_axioms;

    lemma_rest_bag_start(rest, sources, rest.len() as int);
    assert(rest.subrange(0, rest.len() as int) == rest);
    assert(sources.subrange(0, rest.len() as int) == sources);
    lemma_fronts_bag_none(iters);
    let none = Seq::<KeyValue<ValueRef>>::empty();
    none.to_multiset_ensures();
    vstd::multiset::lemma_multiset_empty_len(none.to_multiset());
    assert(balance(none, none, iters, rest) =~= all_pairs(sources));
}

/// A pair that is fed moves from the rest of its source to the front of
/// its stream.
proof fn lemma_balance_fed(
    merged: Seq<KeyValue<ValueRef>>,
    deprecated: Seq<KeyValue<ValueRef>>,
    iters: Seq<IterView>,
    rest: Seq<Vec<KeyValuePair<ValueBlockRef>>>,
    at: int,
    from: int,
    shorter: Vec<KeyValuePair<ValueBlockRef>>,
    fed: KeyValue<ValueRef>,
)
    requires
        0 <= at < iters.len(),
        iters[at].front is None,
        0 <= from < rest.len(),
        item_views(rest[from]@) == item_views(shorter@).push(fed),
    ensures
        balance(
            merged,
            deprecated,
            iters.update(at, IterView { source: iters[at].source, front: Some(fed) }),
            rest.update(from, shorter),
        ) == balance(merged, deprecated, iters, rest),
{
    broadcast use vstd::multiset::group_multiset_axioms;

    let iter = IterView { source: iters[at].source, front: Some(fed) };
    lemma_fronts_bag_update(iters, at, iter);
    lemma_rest_bag_update(rest, from, shorter);
    vstd::seq_lib::to_multiset_build(item_views(shorter@), fed);
    let longer_bag = item_views(rest[from]@).to_multiset();
    let shorter_bag = item_views(shorter@).to_multiset();
    assert forall|v: KeyValue<ValueRef>|
        balance(merged, deprecated, iters.update(at, iter), rest.update(from, shorter)).count(v)
            == balance(merged, deprecated, iters, rest).count(v) by {
        assert(fronts_bag(iters.update(at, iter)).add(front_bag(iters[at].front)).count(v)
            == fronts_bag(iters).add(front_bag(iter.front)).count(v));
        assert(rest_bag(rest.update(from, shorter)).add(longer_bag).count(v) == rest_bag(rest).add(
            shorter_bag,
        ).count(v));
        assert(longer_bag.count(v) == shorter_bag.insert(fed).count(v));
    }
    assert(balance(merged, deprecated, iters.update(at, iter), rest.update(from, shorter)) =~= balance(
        merged,
        deprecated,
        iters,
        rest,
    ));
}

/// A stream that leaves the merger takes no pair with it.
proof fn lemma_balance_left(
    merged: Seq<KeyValue<ValueRef>>,
    deprecated: Seq<KeyValue<ValueRef>>,
    iters: Seq<IterView>,
    rest: Seq<Vec<KeyValuePair<ValueBlockRef>>>,
    at: int,
    from: int,
    same: Vec<KeyValuePair<ValueBlockRef>>,
)
    requires
        0 <= at < iters.len(),
        iters[at].front is None,
        0 <= from < rest.len(),
        item_views(rest[from]@) == item_views(same@),
    ensures
        balance(merged, deprecated, iters.remove(at), rest.update(from, same)) == balance(
            merged,
            deprecated,
            iters,
            rest,
        ),
{
    broadcast use vstd::multiset::group_multiset_axioms;

    lemma_fronts_bag_leave(iters, at);
    lemma_rest_bag_update(rest, from, same);
    let bag = item_views(same@).to_multiset();
    assert forall|v: KeyValue<ValueRef>|
        balance(merged, deprecated, iters.remove(at), rest.update(from, same)).count(v) == balance(
            merged,
            deprecated,
            iters,
            rest,
        ).count(v) by {
        assert(rest_bag(rest.update(from, same)).add(bag).count(v) == rest_bag(rest).add(bag).count(v));
    }
    assert(balance(merged, deprecated, iters.remove(at), rest.update(from, same)) =~= balance(
        merged,
        deprecated,
        iters,
        rest,
    ));
}

/// The pairs of a group move from the fronts of their streams to the merged
/// and the deprecated pairs.
proof fn lemma_balance_yield(
    merged: Seq<KeyValue<ValueRef>>,
    deprecated: Seq<KeyValue<ValueRef>>,
    longer: Seq<KeyValue<ValueRef>>,
    iters: Seq<IterView>,
    rest: Seq<Vec<KeyValuePair<ValueBlockRef>>>,
    best: KeyValue<ValueRef>,
)
    requires
        all_ready(iters),
        deprecated.len() <= longer.len(),
        longer.subrange(0, deprecated.len() as int) == deprecated,
        longer.subrange(deprecated.len() as int, longer.len() as int).to_multiset().insert(best)
            == group_items(iters, best.key, iters.len() as int).to_multiset(),
    ensures
        balance(merged.push(best), longer, after_yield(iters, best.key), rest) == balance(
            merged,
            deprecated,
            iters,
            rest,
        ),
{
    broadcast use vstd::multiset::group_multiset_axioms;

    let n = iters.len() as int;
    let lost = longer.subrange(deprecated.len() as int, longer.len() as int);
    lemma_fronts_bag_yield(iters, best.key, n);
    assert(iters.subrange(0, n) == iters);
    assert(after_yield(iters, best.key).subrange(0, n) == after_yield(iters, best.key));
    vstd::seq_lib::to_multiset_build(merged, best);
    assert(longer =~= deprecated + lost);
    vstd::seq_lib::lemma_multiset_commutative(deprecated, lost);
    assert(balance(merged.push(best), longer, after_yield(iters, best.key), rest) =~= balance(
        merged,
        deprecated,
        iters,
        rest,
    ));
}

/// Once every stream has left and nothing is left to feed, every pair is
/// merged or deprecated.
proof fn lemma_balance_end(
    merged: Seq<KeyValue<ValueRef>>,
    deprecated: Seq<KeyValue<ValueRef>>,
    iters: Seq<IterView>,
    rest: Seq<Vec<KeyValuePair<ValueBlockRef>>>,
)
    requires
        iters.len() == 0,
        forall|s: int| 0 <= s < rest.len() ==> (#[trigger] rest[s])@.len() == 0,
    ensures
        balance(merged, deprecated, iters, rest) == merged.to_multiset().add(
            deprecated.to_multiset(),
        ),
{
    broadcast use vstd::multiset::group_multiset_axioms;

    lemma_rest_bag_end(rest);
    assert(balance(merged, deprecated, iters, rest) =~= merged.to_multiset().add(
        deprecated.to_multiset(),
    ));
}

/// How many streams have their front item read.
spec fn ready_count(iters: Seq<IterView>) -> nat
    decreases iters.len(),
{
    if iters.len() == 0 {
        0
    } else {
        ready_count(iters.drop_last()) + (if iters.last().front is Some {
            1nat
        } else {
            0nat
        })
    }
}

proof fn lemma_ready_update(iters: Seq<IterView>, i: int, iter: IterView)
    requires
        0 <= i < iters.len(),
    ensures
        ready_count(iters.update(i, iter)) + (if iters[i].front is Some {
            1nat
        } else {
            0nat
        }) == ready_count(iters) + (if iter.front is Some {
            1nat
        } else {
            0nat
        }),
    decreases iters.len(),
{
    if i == iters.len() - 1 {
        assert(iters.update(i, iter).drop_last() == iters.drop_last());
    } else {
        assert(iters.update(i, iter).drop_last() == iters.drop_last().update(i, iter));
        lemma_ready_update(iters.drop_last(), i, iter);
    }
}

/// A stream without a front item leaves the merger: as many fronts are
/// ready as before.
proof fn lemma_ready_leave(iters: Seq<IterView>, i: int)
    requires
        0 <= i < iters.len(),
        iters[i].front is None,
    ensures
        ready_count(iters.remove(i)) == ready_count(iters),
    decreases iters.len(),
{
    if i == iters.len() - 1 {
        assert(iters.remove(i) == iters.drop_last());
    } else {
        assert(iters.remove(i).drop_last() == iters.drop_last().remove(i));
        assert(iters.remove(i).last() == iters.last());
        lemma_ready_leave(iters.drop_last(), i);
    }
}

/// After a pair has been yielded, the fronts of its group are gone.
proof fn lemma_ready_yield(iters: Seq<IterView>, key: Seq<u8>, n: int)
    requires
        0 <= n <= iters.len(),
        all_ready(iters),
    ensures
        ready_count(after_yield(iters, key).subrange(0, n)) + group(iters, key, n).len() == n,
        ready_count(iters.subrange(0, n)) == n,
    decreases n,
{
    if n > 0 {
        lemma_ready_yield(iters, key, n - 1);
        assert(after_yield(iters, key).subrange(0, n).drop_last() == after_yield(iters, key).subrange(
            0,
            n - 1,
        ));
        assert(iters.subrange(0, n).drop_last() == iters.subrange(0, n - 1));
        assert(iters[n - 1].front is Some);
    }
}

proof fn lemma_rest_total_start(
    rest: Seq<Vec<KeyValuePair<ValueBlockRef>>>,
    sources: Seq<Seq<KeyValue<ValueRef>>>,
    n: int,
)
    requires
        0 <= n <= rest.len(),
        rest.len() == sources.len(),
        forall|s: int| 0 <= s < rest.len() ==> (#[trigger] rest[s])@.len() == sources[s].len(),
    ensures
        rest_total(rest.subrange(0, n)) == pairs_total(sources.subrange(0, n)),
    decreases n,
{
    if n > 0 {
        lemma_rest_total_start(rest, sources, n - 1);
        assert(rest.subrange(0, n).drop_last() == rest.subrange(0, n - 1));
        assert(sources.subrange(0, n).drop_last() == sources.subrange(0, n - 1));
        assert(rest.subrange(0, n).last() == rest[n - 1]);
    }
}

proof fn lemma_rest_total_end(rest: Seq<Vec<KeyValuePair<ValueBlockRef>>>)
    requires
        forall|s: int| 0 <= s < rest.len() ==> (#[trigger] rest[s])@.len() == 0,
    ensures
        rest_total(rest) == 0,
    decreases rest.len(),
{
    if rest.len() > 0 {
        assert forall|s: int| 0 <= s < rest.drop_last().len() implies (#[trigger] rest.drop_last()[s])@.len()
            == 0 by {
            assert(rest.drop_last()[s] == rest[s]);
        }
        lemma_rest_total_end(rest.drop_last());
    }
}

/// What a merge gives: the merged sequence, and the pairs that lost against
/// a pair of the same key.
#[derive(Debug)]
pub struct Merged {
    pub merged: Vec<KeyValuePair<ValueBlockRef>>,
    pub deprecated: Vec<KeyValuePair<ValueBlockRef>>,
}

/// The same items, the last one first.
fn reversed<T>(items: Vec<T>) -> (turned: Vec<T>)
    ensures
        turned@.len() == items@.len(),
        forall|i: int| 0 <= i < items@.len() ==> #[trigger] turned@[i] == items@[items@.len() - 1 - i],
{
    let mut items = items;
    let ghost all = items@;
    let mut turned: Vec<T> = Vec::new();
    while items.len() > 0
        invariant
            items@.len() + turned@.len() == all.len(),
            items@ == all.subrange(0, items@.len() as int),
            forall|i: int| 0 <= i < turned@.len() ==> #[trigger] turned@[i] == all[all.len() - 1 - i],
        decreases items@.len(),
    {
        match items.pop() {
            Some(item) => {
                turned.push(item);
            },
            None => {},
        }
    }
    turned
}

/// How many pairs are still to be fed.
spec fn rest_total(rest: Seq<Vec<KeyValuePair<ValueBlockRef>>>) -> nat
    decreases rest.len(),
{
    if rest.len() == 0 {
        0
    } else {
        rest_total(rest.drop_last()) + rest.last()@.len()
    }
}

proof fn lemma_rest_total_update(
    rest: Seq<Vec<KeyValuePair<ValueBlockRef>>>,
    s: int,
    shorter: Vec<KeyValuePair<ValueBlockRef>>,
)
    requires
        0 <= s < rest.len(),
    ensures
        rest_total(rest.update(s, shorter)) + rest[s]@.len() == rest_total(rest) + shorter@.len(),
    decreases rest.len(),
{
    if s == rest.len() - 1 {
        assert(rest.update(s, shorter).drop_last() == rest.drop_last());
    } else {
        assert(rest.update(s, shorter).drop_last() == rest.drop_last().update(s, shorter));
        lemma_rest_total_update(rest.drop_last(), s, shorter);
    }
}

proof fn lemma_none_ready(iters: Seq<IterView>)
    requires
        forall|i: int| 0 <= i < iters.len() ==> (#[trigger] iters[i]).front is None,
    ensures
        ready_count(iters) == 0,
    decreases iters.len(),
{
    if iters.len() > 0 {
        assert forall|i: int| 0 <= i < iters.drop_last().len() implies (#[trigger] iters.drop_last()[i]).front
            is None by {
            assert(iters.drop_last()[i] == iters[i]);
        }
        lemma_none_ready(iters.drop_last());
    }
}

/// What ties the state of a running merge together. `rest` holds what is
/// still to be fed of each source, last pair first; `place[s]` is where the
/// merger holds source `s`, or -1 once the source is complete.
spec fn tied(
    sources: Seq<Seq<KeyValue<ValueRef>>>,
    rest: Seq<Vec<KeyValuePair<ValueBlockRef>>>,
    iters: Seq<IterView>,
    place: Seq<int>,
    consumed: Seq<int>,
) -> bool {
    &&& rest.len() == sources.len()
    &&& place.len() == sources.len()
    &&& consumed.len() == sources.len()
    &&& forall|i: int|
        0 <= i < iters.len() ==> 0 <= (#[trigger] iters[i]).source < sources.len()
            && place[iters[i].source as int] == i
    &&& forall|i: int, j: int|
        0 <= i < j < iters.len() ==> (#[trigger] iters[i]).source < (#[trigger] iters[j]).source
    &&& forall|s: int|
        0 <= s < sources.len() ==> #[trigger] place[s] == -1 || (0 <= place[s] < iters.len()
            && iters[place[s]].source == s)
    &&& forall|s: int|
        0 <= s < sources.len() ==> (#[trigger] rest[s])@.len() <= sources[s].len()
    &&& forall|s: int, j: int|
        0 <= s < sources.len() && 0 <= j < rest[s]@.len() ==> (#[trigger] rest[s]@[j])@
            == sources[s][sources[s].len() - 1 - j]
    &&& forall|s: int|
        0 <= s < sources.len() ==> 0 <= #[trigger] consumed[s] && consumed[s] + (if place[s] >= 0
            && iters[place[s]].front is Some {
            1int
        } else {
            0int
        }) == sources[s].len() - rest[s]@.len()
    &&& forall|s: int|
        0 <= s < sources.len() && #[trigger] place[s] >= 0 && iters[place[s]].front is Some
            ==> iters[place[s]].front == Some(sources[s][consumed[s]])
    &&& forall|s: int| 0 <= s < sources.len() && #[trigger] place[s] < 0 ==> rest[s]@.len() == 0
}

/// The front of each source, where the merger holds one.
spec fn source_fronts(iters: Seq<IterView>, place: Seq<int>) -> Seq<Option<KeyValue<ValueRef>>> {
    Seq::new(
        place.len(),
        |s: int|
            if place[s] >= 0 {
                iters[place[s]].front
            } else {
                None
            },
    )
}

/// What holds while a merge runs: the state is tied together, every pair
/// that has come out is a pair of a source, every pair of the sources is
/// accounted for, and for sources in key order the merge has come as far as
/// `consumed` says.
#[verifier::opaque]
spec fn merging(
    sources: Seq<Seq<KeyValue<ValueRef>>>,
    rest: Seq<Vec<KeyValuePair<ValueBlockRef>>>,
    iters: Seq<IterView>,
    place: Seq<int>,
    consumed: Seq<int>,
    merged: Seq<KeyValue<ValueRef>>,
    deprecated: Seq<KeyValue<ValueRef>>,
) -> bool {
    &&& tied(sources, rest, iters, place, consumed)
    &&& forall|i: int| 0 <= i < merged.len() ==> is_source_item(sources, #[trigger] merged[i])
    &&& forall|i: int| 0 <= i < deprecated.len() ==> is_source_item(sources, #[trigger] deprecated[i])
    &&& merged.len() + deprecated.len() + ready_count(iters) + rest_total(rest) == pairs_total(sources)
    &&& balance(merged, deprecated, iters, rest) == all_pairs(sources)
    &&& sorted_sources(sources) ==> progress(sources, consumed, merged)
}

/// What falls with every step of a merge.
spec fn measure(rest: Seq<Vec<KeyValuePair<ValueBlockRef>>>, iters: Seq<IterView>) -> int {
    2 * (rest_total(rest) + iters.len()) + (if all_ready(iters) {
        1int
    } else {
        0int
    })
}

/// Where the merger holds each source after the stream at `at` has left.
spec fn left_place(place: Seq<int>, at: int) -> Seq<int> {
    Seq::new(
        place.len(),
        |s: int|
            if place[s] == at {
                -1
            } else if place[s] > at {
                place[s] - 1
            } else {
                place[s]
            },
    )
}

proof fn lemma_merging_start(
    sources: Seq<Seq<KeyValue<ValueRef>>>,
    rest: Seq<Vec<KeyValuePair<ValueBlockRef>>>,
    iters: Seq<IterView>,
)
    requires
        rest.len() == sources.len(),
        iters.len() == sources.len(),
        sources.len() <= usize::MAX,
        forall|s: int| 0 <= s < rest.len() ==> (#[trigger] rest[s])@.len() == sources[s].len(),
        forall|s: int, j: int|
            0 <= s < rest.len() && 0 <= j < rest[s]@.len() ==> (#[trigger] rest[s]@[j])@
                == sources[s][sources[s].len() - 1 - j],
        forall|s: int|
            0 <= s < iters.len() ==> #[trigger] iters[s] == (IterView { source: s as usize, front: None }),
    ensures
        merging(
            sources,
            rest,
            iters,
            Seq::new(sources.len(), |s: int| s),
            Seq::new(sources.len(), |s: int| 0int),
            Seq::empty(),
            Seq::empty(),
        ),
{
    reveal(merging);
    let place = Seq::new(sources.len(), |s: int| s);
    let consumed = Seq::new(sources.len(), |s: int| 0int);
    lemma_progress_start(sources);
    lemma_rest_total_start(rest, sources, rest.len() as int);
    assert(rest.subrange(0, rest.len() as int) == rest);
    assert(sources.subrange(0, rest.len() as int) == sources);
    lemma_none_ready(iters);
    lemma_balance_start(iters, rest, sources);
    assert(tied(sources, rest, iters, place, consumed));
}

/// Feeding a pair to the stream that waits for one keeps the merge in order.
proof fn lemma_step_fed(
    sources: Seq<Seq<KeyValue<ValueRef>>>,
    rest: Seq<Vec<KeyValuePair<ValueBlockRef>>>,
    iters: Seq<IterView>,
    place: Seq<int>,
    consumed: Seq<int>,
    merged: Seq<KeyValue<ValueRef>>,
    deprecated: Seq<KeyValue<ValueRef>>,
    at: int,
    shorter: Vec<KeyValuePair<ValueBlockRef>>,
    fed: KeyValue<ValueRef>,
)
    requires
        merging(sources, rest, iters, place, consumed, merged, deprecated),
        0 <= at < iters.len(),
        iters[at].front is None,
        0 <= iters[at].source < rest.len(),
        rest[iters[at].source as int]@.len() > 0,
        shorter@ == rest[iters[at].source as int]@.drop_last(),
        fed == rest[iters[at].source as int]@.last()@,
    ensures
        merging(
            sources,
            rest.update(iters[at].source as int, shorter),
            iters.update(at, IterView { source: iters[at].source, front: Some(fed) }),
            place,
            consumed,
            merged,
            deprecated,
        ),
        measure(
            rest.update(iters[at].source as int, shorter),
            iters.update(at, IterView { source: iters[at].source, front: Some(fed) }),
        ) < measure(rest, iters),
{
    reveal(merging);
    let from = iters[at].source as int;
    let iter = IterView { source: iters[at].source, front: Some(fed) };
    let rest_after = rest.update(from, shorter);
    let iters_after = iters.update(at, iter);
    assert(place[from] == at);
    let last = rest[from]@.len() - 1;
    assert(fed == rest[from]@[last]@);
    assert(fed == sources[from][sources[from].len() - 1 - last]);
    lemma_rest_total_update(rest, from, shorter);
    assert(item_views(rest[from]@) =~= item_views(shorter@).push(fed));
    lemma_balance_fed(merged, deprecated, iters, rest, at, from, shorter, fed);
    lemma_ready_update(iters, at, iter);
    assert forall|s: int, j: int|
        0 <= s < sources.len() && 0 <= j < rest_after[s]@.len() implies (#[trigger] rest_after[s]@[j])@
        == sources[s][sources[s].len() - 1 - j] by {
        if s == from {
            assert(rest_after[s]@[j] == rest[from]@[j]);
        }
    }
    assert forall|i: int| 0 <= i < iters_after.len() implies 0 <= (#[trigger] iters_after[i]).source
        < sources.len() && place[iters_after[i].source as int] == i by {
        assert(iters_after[i].source == iters[i].source);
    }
    assert forall|i: int, j: int| 0 <= i < j < iters_after.len() implies (#[trigger] iters_after[i]).source
        < (#[trigger] iters_after[j]).source by {
        assert(iters_after[i].source == iters[i].source);
        assert(iters_after[j].source == iters[j].source);
    }
    assert forall|s: int| 0 <= s < sources.len() implies #[trigger] place[s] == -1 || (0 <= place[s]
        < iters_after.len() && iters_after[place[s]].source == s) by {
        if place[s] >= 0 {
            assert(iters_after[place[s]].source == iters[place[s]].source);
        }
    }
    assert forall|s: int| 0 <= s < sources.len() implies 0 <= #[trigger] consumed[s] && consumed[s] + (
    if place[s] >= 0 && iters_after[place[s]].front is Some {
        1int
    } else {
        0int
    }) == sources[s].len() - rest_after[s]@.len() by {
        if s != from && place[s] >= 0 {
            assert(place[s] != at) by {
                if place[s] == at {
                    assert(iters[at].source == s);
                }
            }
            assert(iters_after[place[s]] == iters[place[s]]);
        }
    }
    assert forall|s: int|
        0 <= s < sources.len() && #[trigger] place[s] >= 0
            && iters_after[place[s]].front is Some implies iters_after[place[s]].front == Some(
        sources[s][consumed[s]],
    ) by {
        if s != from {
            assert(place[s] != at) by {
                if place[s] == at {
                    assert(iters[at].source == s);
                }
            }
            assert(iters_after[place[s]] == iters[place[s]]);
        }
    }
    assert(tied(sources, rest_after, iters_after, place, consumed));
}

/// A stream that is complete leaves the merger: the merge stays in order.
proof fn lemma_step_left(
    sources: Seq<Seq<KeyValue<ValueRef>>>,
    rest: Seq<Vec<KeyValuePair<ValueBlockRef>>>,
    iters: Seq<IterView>,
    place: Seq<int>,
    consumed: Seq<int>,
    merged: Seq<KeyValue<ValueRef>>,
    deprecated: Seq<KeyValue<ValueRef>>,
    at: int,
    same: Vec<KeyValuePair<ValueBlockRef>>,
)
    requires
        merging(sources, rest, iters, place, consumed, merged, deprecated),
        0 <= at < iters.len(),
        iters[at].front is None,
        0 <= iters[at].source < rest.len(),
        rest[iters[at].source as int]@.len() == 0,
        same@.len() == 0,
    ensures
        merging(
            sources,
            rest.update(iters[at].source as int, same),
            iters.remove(at),
            left_place(place, at),
            consumed,
            merged,
            deprecated,
        ),
        measure(rest.update(iters[at].source as int, same), iters.remove(at)) < measure(rest, iters),
{
    reveal(merging);
    let from = iters[at].source as int;
    let rest_after = rest.update(from, same);
    let iters_after = iters.remove(at);
    let place_after = left_place(place, at);
    assert(place[from] == at);
    lemma_rest_total_update(rest, from, same);
    assert(item_views(rest[from]@) =~= item_views(same@));
    lemma_balance_left(merged, deprecated, iters, rest, at, from, same);
    lemma_ready_leave(iters, at);
    assert forall|s: int, j: int|
        0 <= s < sources.len() && 0 <= j < rest_after[s]@.len() implies (#[trigger] rest_after[s]@[j])@
        == sources[s][sources[s].len() - 1 - j] by {
        assert(s != from);
    }
    assert forall|i: int| 0 <= i < iters_after.len() implies 0 <= (#[trigger] iters_after[i]).source
        < sources.len() && place_after[iters_after[i].source as int] == i by {
        if i < at {
            assert(iters_after[i] == iters[i]);
            assert(place[iters[i].source as int] == i);
        } else {
            assert(iters_after[i] == iters[i + 1]);
            assert(place[iters[i + 1].source as int] == i + 1);
        }
    }
    assert forall|i: int, j: int| 0 <= i < j < iters_after.len() implies (#[trigger] iters_after[i]).source
        < (#[trigger] iters_after[j]).source by {
        let a = if i < at {
            i
        } else {
            i + 1
        };
        let b = if j < at {
            j
        } else {
            j + 1
        };
        assert(iters_after[i] == iters[a]);
        assert(iters_after[j] == iters[b]);
        assert(iters[a].source < iters[b].source);
    }
    assert forall|s: int| 0 <= s < sources.len() implies #[trigger] place_after[s] == -1 || (0
        <= place_after[s] < iters_after.len() && iters_after[place_after[s]].source == s) by {
        if place[s] >= 0 && place[s] != at {
            assert(iters[place[s]].source == s);
            if place[s] > at {
                assert(iters_after[place[s] - 1] == iters[place[s]]);
            } else {
                assert(iters_after[place[s]] == iters[place[s]]);
            }
        }
    }
    assert forall|s: int| 0 <= s < sources.len() && place_after[s] >= 0 implies iters_after[#[trigger] place_after[s]]
        == iters[place[s]] by {
        assert(place[s] >= 0 && place[s] != at);
    }
    assert forall|s: int| 0 <= s < sources.len() implies 0 <= #[trigger] consumed[s] && consumed[s] + (
    if place_after[s] >= 0 && iters_after[place_after[s]].front is Some {
        1int
    } else {
        0int
    }) == sources[s].len() - rest_after[s]@.len() by {
        assert(0 <= consumed[s]);
        if place_after[s] >= 0 {
            assert(iters_after[place_after[s]] == iters[place[s]]);
        }
    }
    assert forall|s: int|
        0 <= s < sources.len() && #[trigger] place_after[s] >= 0
            && iters_after[place_after[s]].front is Some implies iters_after[place_after[s]].front
        == Some(sources[s][consumed[s]]) by {
        assert(iters_after[place_after[s]] == iters[place[s]]);
    }
    assert forall|s: int| 0 <= s < sources.len() && #[trigger] place_after[s] < 0 implies rest_after[s]@.len()
        == 0 by {
        if s != from {
            assert(place[s] < 0);
        }
    }
    assert(tied(sources, rest_after, iters_after, place_after, consumed));
    assert(iters_after.len() == iters.len() - 1);
}

/// Yielding the pair that is due keeps the merge in order.
proof fn lemma_step_yield(
    sources: Seq<Seq<KeyValue<ValueRef>>>,
    rest: Seq<Vec<KeyValuePair<ValueBlockRef>>>,
    iters: Seq<IterView>,
    place: Seq<int>,
    consumed: Seq<int>,
    merged: Seq<KeyValue<ValueRef>>,
    deprecated: Seq<KeyValue<ValueRef>>,
    longer: Seq<KeyValue<ValueRef>>,
    best: KeyValue<ValueRef>,
)
    requires
        merging(sources, rest, iters, place, consumed, merged, deprecated),
        all_ready(iters),
        is_lower_bound(iters, best.key, iters.len() as int),
        exists|w: int| is_winner(iters, best.key, w) && iters[w].front == Some(best),
        longer.len() == deprecated.len() + group(iters, best.key, iters.len() as int).len() - 1,
        longer.subrange(0, deprecated.len() as int) == deprecated,
        longer.subrange(deprecated.len() as int, longer.len() as int).to_multiset().insert(best)
            == group_items(iters, best.key, iters.len() as int).to_multiset(),
    ensures
        merging(
            sources,
            rest,
            after_yield(iters, best.key),
            place,
            consumed_after(consumed, source_fronts(iters, place), best),
            merged.push(best),
            longer,
        ),
        measure(rest, after_yield(iters, best.key)) < measure(rest, iters),
{
    reveal(merging);
    let n = iters.len() as int;
    let fronts = source_fronts(iters, place);
    let winner = choose|w: int| is_winner(iters, best.key, w) && iters[w].front == Some(best);
    let after = consumed_after(consumed, fronts, best);
    let iters_after = after_yield(iters, best.key);
    let from = iters[winner].source as int;
    assert(place[from] == winner);
    assert(fronts[from] == Some(best));
    assert(sources[from][consumed[from]] == best);
    assert forall|s: int| 0 <= s < sources.len() implies match #[trigger] fronts[s] {
        Some(front) => consumed[s] < sources[s].len() && sources[s][consumed[s]] == front && key_le(
            best.key,
            front.key,
        ) && (front.key == best.key ==> front.value_cell.version <= best.value_cell.version),
        None => consumed[s] == sources[s].len(),
    } by {
        if place[s] >= 0 {
            assert(iters[place[s]].front is Some);
            assert(key_le(best.key, front_key(iters, place[s])));
            if front_key(iters, place[s]) == best.key {
                assert(front_version(iters, place[s]) <= front_version(iters, winner));
            }
        }
    }
    assert forall|s: int|
        from < s < sources.len() && (#[trigger] fronts[s]) is Some && fronts[s]->0.key
            == best.key implies fronts[s]->0.value_cell.version < best.value_cell.version by {
        assert(place[s] >= 0);
        assert(iters[place[s]].source == s);
        if place[s] < winner {
            assert(iters[place[s]].source < iters[winner].source);
        }
        assert(place[s] > winner);
        assert(front_key(iters, place[s]) == best.key);
        assert(front_version(iters, place[s]) < front_version(iters, winner) || (front_version(
            iters,
            place[s],
        ) == front_version(iters, winner) && place[s] <= winner));
    }
    if sorted_sources(sources) {
        lemma_progress_yield(sources, consumed, merged, fronts, best, from);
    }
    // as many fronts are gone as pairs have come out
    lemma_ready_yield(iters, best.key, n);
    assert(iters.subrange(0, n) == iters);
    assert(iters_after.subrange(0, n) == iters_after);
    lemma_group_bounds(iters, best.key, n);
    assert(group(iters, best.key, n).contains(winner));
    assert(group(iters, best.key, n).len() > 0);
    lemma_balance_yield(merged, deprecated, longer, iters, rest, best);
    // every pair that lost was the front of a source
    let before = deprecated.len() as int;
    let losers = longer.subrange(before, longer.len() as int);
    let fronts_of_group = group_items(iters, best.key, n);
    assert forall|i: int| 0 <= i < longer.len() implies is_source_item(sources, #[trigger] longer[i]) by {
        if i < before {
            assert(longer.subrange(0, before)[i] == deprecated[i]);
        } else {
            let loser = longer[i];
            assert(losers[i - before] == loser);
            vstd::seq_lib::to_multiset_build(losers, best);
            losers.to_multiset_ensures();
            fronts_of_group.to_multiset_ensures();
            assert(losers.contains(loser));
            assert(losers.to_multiset().count(loser) > 0);
            assert(fronts_of_group.to_multiset().count(loser) > 0);
            assert(fronts_of_group.contains(loser));
            let t = choose|t: int| 0 <= t < fronts_of_group.len() && fronts_of_group[t] == loser;
            let at = group(iters, best.key, n)[t];
            assert(iters[at].front == Some(loser));
            let of = iters[at].source as int;
            assert(place[of] == at);
            assert(sources[of][consumed[of]] == loser);
        }
    }
    let more = merged.push(best);
    assert forall|i: int| 0 <= i < more.len() implies is_source_item(sources, #[trigger] more[i]) by {
        if i < merged.len() {
            assert(more[i] == merged[i]);
        }
    }
    assert(iters_after[winner].front is None);
    assert(!all_ready(iters_after));
    assert forall|s: int| 0 <= s < sources.len() implies 0 <= #[trigger] after[s] && after[s] + (if place[s]
        >= 0 && iters_after[place[s]].front is Some {
        1int
    } else {
        0int
    }) == sources[s].len() - rest[s]@.len() by {
        assert(0 <= consumed[s]);
        if place[s] >= 0 {
            assert(iters[place[s]].front is Some);
        }
    }
    assert forall|s: int|
        0 <= s < sources.len() && #[trigger] place[s] >= 0
            && iters_after[place[s]].front is Some implies iters_after[place[s]].front == Some(
        sources[s][after[s]],
    ) by {
        assert(iters_after[place[s]] == iters[place[s]]);
    }
    assert forall|i: int| 0 <= i < iters_after.len() implies 0 <= (#[trigger] iters_after[i]).source
        < sources.len() && place[iters_after[i].source as int] == i by {
        assert(iters_after[i].source == iters[i].source);
    }
    assert forall|i: int, j: int| 0 <= i < j < iters_after.len() implies (#[trigger] iters_after[i]).source
        < (#[trigger] iters_after[j]).source by {
        assert(iters_after[i].source == iters[i].source);
        assert(iters_after[j].source == iters[j].source);
    }
    assert forall|s: int| 0 <= s < sources.len() implies #[trigger] place[s] == -1 || (0 <= place[s]
        < iters_after.len() && iters_after[place[s]].source == s) by {
        if place[s] >= 0 {
            assert(iters_after[place[s]].source == iters[place[s]].source);
        }
    }
    assert(tied(sources, rest, iters_after, place, after));
}

/// Once every stream has left, the merge is complete.
proof fn lemma_merging_end(
    sources: Seq<Seq<KeyValue<ValueRef>>>,
    rest: Seq<Vec<KeyValuePair<ValueBlockRef>>>,
    iters: Seq<IterView>,
    place: Seq<int>,
    consumed: Seq<int>,
    merged: Seq<KeyValue<ValueRef>>,
    deprecated: Seq<KeyValue<ValueRef>>,
)
    requires
        merging(sources, rest, iters, place, consumed, merged, deprecated),
        iters.len() == 0,
    ensures
        forall|i: int| 0 <= i < merged.len() ==> is_source_item(sources, #[trigger] merged[i]),
        forall|i: int| 0 <= i < deprecated.len() ==> is_source_item(sources, #[trigger] deprecated[i]),
        merged.len() + deprecated.len() == pairs_total(sources),
        merged.to_multiset().add(deprecated.to_multiset()) == all_pairs(sources),
        sorted_sources(sources) ==> is_merge_of(sources, merged),
{
    reveal(merging);
    assert forall|s: int| 0 <= s < rest.len() implies (#[trigger] rest[s])@.len() == 0 by {
        assert(place[s] == -1);
    }
    if sorted_sources(sources) {
        assert forall|s: int| 0 <= s < sources.len() implies #[trigger] consumed[s] == sources[s].len() by {
            assert(place[s] == -1);
        }
        lemma_progress_end(sources, consumed, merged);
    }
    lemma_rest_total_end(rest);
    lemma_balance_end(merged, deprecated, iters, rest);
}

/// Merges sources that are held in memory, by driving a merger over them to
/// the end.
///
/// Whatever the sources hold, every pair of every source comes out once,
/// merged or deprecated, and nothing else comes out: the merged and the
/// deprecated pairs together are the pairs of the sources, each as often as
/// the sources hold it. Where each source stands
/// in strictly rising key order, the merged sequence is the merge of the
/// sources: in strictly rising key order, with every key of every source
/// exactly once, at the highest version that any source holds for it.
pub fn merge_all(sources: Vec<Vec<KeyValuePair<ValueBlockRef>>>) -> (output: Merged)
    ensures
        forall|i: int|
            0 <= i < output.merged@.len() ==> is_source_item(
                source_views(sources@),
                #[trigger] item_views(output.merged@)[i],
            ),
        forall|i: int|
            0 <= i < output.deprecated@.len() ==> is_source_item(
                source_views(sources@),
                #[trigger] item_views(output.deprecated@)[i],
            ),
        output.merged@.len() + output.deprecated@.len() == pairs_total(source_views(sources@)),
        item_views(output.merged@).to_multiset().add(item_views(output.deprecated@).to_multiset())
            == all_pairs(source_views(sources@)),
        sorted_sources(source_views(sources@)) ==> is_merge_of(
            source_views(sources@),
            item_views(output.merged@),
        ),
{
    let ghost views = source_views(sources@);
    let count = sources.len();
    // what is still to be fed of each source, last pair first
    let mut rest: Vec<Vec<KeyValuePair<ValueBlockRef>>> = Vec::new();
    let mut iters: Vec<KeyValuesIter> = Vec::new();
    let mut turned = reversed(sources);
    while turned.len() > 0
        invariant
            turned@.len() + rest@.len() == count,
            iters@.len() == rest@.len(),
            count == sources@.len(),
            views == source_views(sources@),
            forall|i: int| 0 <= i < turned@.len() ==> #[trigger] turned@[i] == sources@[count - 1 - i],
            views.len() == count,
            forall|s: int| 0 <= s < rest@.len() ==> (#[trigger] rest@[s])@.len() == views[s].len(),
            forall|s: int|
                0 <= s < iters@.len() ==> (#[trigger] iters@[s])@ == (IterView {
                    source: s as usize,
                    front: None,
                }),
            forall|s: int, j: int|
                0 <= s < rest@.len() && 0 <= j < rest@[s]@.len() ==> (#[trigger] rest@[s]@[j])@
                    == views[s][views[s].len() - 1 - j],
        decreases turned@.len(),
    {
        let source_index = rest.len();
        match turned.pop() {
            Some(source) => {
                assert(source == sources@[source_index as int]);
                assert(views[source_index as int] == item_views(source@));
                rest.push(reversed(source));
                iters.push(KeyValuesIter::new(source_index));
            },
            None => {},
        }
    }
    let mut merger = ItersMerger::new(iters);
    let mut merged: Vec<KeyValuePair<ValueBlockRef>> = Vec::new();
    let mut deprecated: Vec<KeyValuePair<ValueBlockRef>> = Vec::new();
    proof {
        lemma_rest_total_start(rest@, views, count as int);
        assert(rest@.subrange(0, count as int) == rest@);
        assert(views.subrange(0, count as int) == views);
        assert(ready_count(merger@) == 0) by {
            lemma_none_ready(merger@);
        }
        assert(item_views(merged@) =~= Seq::<KeyValue<ValueRef>>::empty());
        assert(item_views(deprecated@) =~= Seq::<KeyValue<ValueRef>>::empty());
        lemma_balance_start(merger@, rest@, views);
    }
    let ghost mut place: Seq<int> = Seq::new(count as nat, |s: int| s);
    let ghost mut consumed: Seq<int> = Seq::new(count as nat, |s: int| 0int);
    proof {
        assert(item_views(merged@) =~= Seq::<KeyValue<ValueRef>>::empty());
        assert(item_views(deprecated@) =~= Seq::<KeyValue<ValueRef>>::empty());
        assert forall|s: int| 0 <= s < merger@.len() implies #[trigger] merger@[s] == (IterView {
            source: s as usize,
            front: None,
        }) by {
            assert(merger@[s] == iters@[s]@);
        }
        lemma_merging_start(views, rest@, merger@);
    }
    let mut done = false;
    while !done
        invariant
            merging(
                views,
                rest@,
                merger@,
                place,
                consumed,
                item_views(merged@),
                item_views(deprecated@),
            ),
            done ==> merger@.len() == 0,
        decreases
                measure(rest@, merger@) + (if done {
                    0int
                } else {
                    2int
                }),
    {
        let ghost iters_before = merger@;
        let ghost rest_before = rest@;
        let ghost merged_before = item_views(merged@);
        let ghost deprecated_before = deprecated@;
        match merger.next_with_deprecated(&mut deprecated) {
            Step::Recv { iter_index, source } => {
                assert(iters_before[iter_index as int].source == source);
                assert(0 <= source < rest_before.len()) by {
                    reveal(merging);
                }
                match rest[source].pop() {
                    Some(item) => {
                        proof {
                            assert(rest@ =~= rest_before.update(source as int, rest@[source as int]));
                            lemma_step_fed(
                                views,
                                rest_before,
                                iters_before,
                                place,
                                consumed,
                                item_views(merged@),
                                item_views(deprecated@),
                                iter_index as int,
                                rest@[source as int],
                                item@,
                            );
                        }
                        let received = merger.receive(
                            iter_index,
                            Some(KeyValueRef::Item { key: item.key, value_cell: item.value_cell }),
                        );
                    },
                    None => {
                        proof {
                            assert(rest@ =~= rest_before.update(source as int, rest@[source as int]));
                            lemma_step_left(
                                views,
                                rest_before,
                                iters_before,
                                place,
                                consumed,
                                item_views(merged@),
                                item_views(deprecated@),
                                iter_index as int,
                                rest@[source as int],
                            );
                            place = left_place(place, iter_index as int);
                        }
                        let received = merger.receive(iter_index, Some(KeyValueRef::NoMore));
                    },
                }
            },
            Step::Yield(None) => {
                done = true;
            },
            Step::Yield(Some(best)) => {
                proof {
                    let gone = deprecated_before.len() as int;
                    let winner = choose|w: int|
                        is_winner(iters_before, best@.key, w) && iters_before[w].front == Some(best@);
                    lemma_group_bounds(iters_before, best@.key, iters_before.len() as int);
                    assert(group(iters_before, best@.key, iters_before.len() as int).contains(winner));
                    assert(gone <= deprecated@.len());
                    assert(item_views(deprecated@).subrange(0, gone) =~= item_views(
                        deprecated_before,
                    )) by {
                        assert forall|i: int| 0 <= i < gone implies item_views(deprecated@)[i]
                            == item_views(deprecated_before)[i] by {
                            assert(deprecated@.subrange(0, gone)[i] == deprecated_before[i]);
                        }
                    }
                    lemma_step_yield(
                        views,
                        rest@,
                        iters_before,
                        place,
                        consumed,
                        merged_before,
                        item_views(deprecated_before),
                        item_views(deprecated@),
                        best@,
                    );
                    consumed = consumed_after(consumed, source_fronts(iters_before, place), best@);
                }
                merged.push(best);
                proof {
                    assert(item_views(merged@) =~= merged_before.push(best@));
                }
            },
        }
    }
    proof {
        lemma_merging_end(
            views,
            rest@,
            merger@,
            place,
            consumed,
            item_views(merged@),
            item_views(deprecated@),
        );
    }
    Merged { merged, deprecated }
}

/// A merge of sources that hold keys of one range only holds keys of that
/// range only. With what `is_merge_of` says, a range scan over such sources
/// is complete: every key of the range that any source holds comes out, once,
/// in strictly rising order, at its latest version.
pub proof fn lemma_merge_stays_in_range(
    sources: Seq<Seq<KeyValue<ValueRef>>>,
    merged: Seq<KeyValue<ValueRef>>,
    range: crate::range::RangeView,
)
    requires
        is_merge_of(sources, merged),
        forall|s: int, j: int|
            0 <= s < sources.len() && 0 <= j < sources[s].len() ==> range.contains(
                (#[trigger] sources[s][j]).key,
            ),
    ensures
        forall|i: int| 0 <= i < merged.len() ==> range.contains((#[trigger] merged[i]).key),
{
    assert forall|i: int| 0 <= i < merged.len() implies range.contains((#[trigger] merged[i]).key) by {
        assert(is_source_item(sources, merged[i]));
        let (s, j) = choose|s: int, j: int|
            0 <= s < sources.len() && 0 <= j < sources[s].len() && #[trigger] sources[s][j] == merged[i];
        assert(range.contains(sources[s][j].key));
    }
}

/// In a merge, every key that a source holds stands exactly once, with the
/// pair of the highest version that any source holds for it, from the source
/// added last where several hold that version.
pub proof fn lemma_merge_holds_each_key_once(
    sources: Seq<Seq<KeyValue<ValueRef>>>,
    merged: Seq<KeyValue<ValueRef>>,
    s: int,
    j: int,
)
    requires
        is_merge_of(sources, merged),
        0 <= s < sources.len(),
        0 <= j < sources[s].len(),
    ensures
        exists|i: int|
            0 <= i < merged.len() && (#[trigger] merged[i]).key == sources[s][j].key
                && merged[i].value_cell.version >= sources[s][j].value_cell.version && is_source_item(
                sources,
                merged[i],
            ) && is_latest(sources, merged[i]) && wins_ties(sources, merged[i]),
        forall|a: int, b: int|
            0 <= a < merged.len() && 0 <= b < merged.len() && (#[trigger] merged[a]).key
                == sources[s][j].key && (#[trigger] merged[b]).key == sources[s][j].key ==> a == b,
{
    assert(holds_key(merged, sources[s][j].key));
    let i = choose|i: int| 0 <= i < merged.len() && (#[trigger] merged[i]).key == sources[s][j].key;
    assert(is_latest(sources, merged[i]));
    assert forall|a: int, b: int|
        0 <= a < merged.len() && 0 <= b < merged.len() && (#[trigger] merged[a]).key
            == sources[s][j].key && (#[trigger] merged[b]).key == sources[s][j].key implies a == b by {
        lemma_key_order_equal(merged[a].key, merged[b].key);
        lemma_key_order_flip(merged[a].key, merged[b].key);
        if a < b {
            assert(key_lt(merged[a].key, merged[b].key));
        } else if b < a {
            assert(key_lt(merged[b].key, merged[a].key));
        }
    }
}

} // verus!
