//! A snapshot of the write buffer: pairs in strict key order.

use vstd::prelude::*;
use crate::kv::{KeyOrder, KeyValue, KeyValuePair, Value, key_lt};

verus! {

/// The pairs of `items` stand in strictly rising key order.
pub open spec fn strictly_sorted<V>(items: Seq<KeyValue<V>>) -> bool {
    forall|i: int, j: int|
        0 <= i < j < items.len() ==> key_lt((#[trigger] items[i]).key, (#[trigger] items[j]).key)
}

/// A snapshot of the write buffer.
#[derive(Clone, Debug)]
pub struct MemCache {
    items: Vec<KeyValuePair<Value>>,
}

impl View for MemCache {
    type V = Seq<KeyValue<Seq<u8>>>;

    closed spec fn view(&self) -> Seq<KeyValue<Seq<u8>>> {
        self.items@.map_values(|item: KeyValuePair<Value>| item@)
    }
}

impl MemCache {
    /// The pairs stand in strictly rising key order.
    pub closed spec fn wf(&self) -> bool {
        strictly_sorted(self@)
    }

    /// A snapshot without pairs.
    pub fn new() -> (cache: MemCache)
        ensures
            cache.wf(),
            cache@ == Seq::<KeyValue<Seq<u8>>>::empty(),
    {
        let cache = MemCache { items: Vec::new() };
        assert(cache@ == Seq::<KeyValue<Seq<u8>>>::empty());
        cache
    }

    /// How many keys the snapshot holds.
    pub fn len(&self) -> (len: usize)
        ensures
            len == self@.len(),
    {
        self.items.len()
    }

    /// The pair at `index` in key order.
    pub fn get(&self, index: usize) -> (item: &KeyValuePair<Value>)
        requires
            index < self@.len(),
        ensures
            item@ == self@[index as int],
    {
        &self.items[index]
    }

    /// Appends a pair whose key is above every key in the snapshot. A pair
    /// whose key is not is refused and handed back.
    pub fn push(&mut self, item: KeyValuePair<Value>) -> (refused: Option<KeyValuePair<Value>>)
        requires
            old(self).wf(),
        ensures
            final(self).wf(),
            match refused {
                None => {
                    &&& old(self)@.len() > 0 ==> key_lt(old(self)@.last().key, item@.key)
                    &&& final(self)@ == old(self)@.push(item@)
                },
                Some(back) => {
                    &&& back == item
                    &&& old(self)@.len() > 0
                    &&& !key_lt(old(self)@.last().key, item@.key)
                    &&& final(self)@ == old(self)@
                },
            },
    {
        let len = self.items.len();
        if len > 0 {
            match self.items[len - 1].key.compare(&item.key) {
                KeyOrder::Less => {},
                _ => {
                    return Some(item);
                },
            }
        }
        self.items.push(item);
        proof {
            let before = old(self)@;
            let after = self@;
            assert(after == before.push(item@));
            assert forall|i: int, j: int| 0 <= i < j < after.len() implies key_lt(
                (#[trigger] after[i]).key,
                (#[trigger] after[j]).key,
            ) by {
                if j == after.len() - 1 && i < j - 1 {
                    assert(key_lt(before[i].key, before[j - 1].key));
                    crate::kv::lemma_key_order_trans(before[i].key, before[j - 1].key, item@.key);
                }
            }
        }
        None
    }
}

} // verus!
