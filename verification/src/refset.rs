//! A set whose members are found again by the reference that their insertion
//! returned, in constant time.

use vstd::prelude::*;

verus! {

/// Names one member of one `RefSet`. It stays valid until that member is
/// removed; the slot may then be given to a later member.
#[derive(Clone, Copy, PartialEq, Eq, Structural, Debug)]
pub struct Ref {
    pub index: usize,
}

/// The set: a vector of slots, and the list of the slots that are vacant.
pub struct RefSet<T> {
    slots: Vec<Option<T>>,
    free: Vec<usize>,
    len: usize,
}

/// How many slots are taken.
pub open spec fn occupied<T>(slots: Seq<Option<T>>) -> nat
    decreases slots.len(),
{
    if slots.len() == 0 {
        0
    } else {
        occupied(slots.drop_last()) + (if slots.last() is Some {
            1nat
        } else {
            0nat
        })
    }
}

/// A new last slot counts if it is taken.
pub proof fn lemma_occupied_push<T>(slots: Seq<Option<T>>, slot: Option<T>)
    ensures
        occupied(slots.push(slot)) == occupied(slots) + (if slot is Some {
            1nat
        } else {
            0nat
        }),
{
    assert(slots.push(slot).drop_last() == slots);
}

/// Changing one slot changes the count by whether it was and is taken.
pub proof fn lemma_occupied_update<T>(slots: Seq<Option<T>>, i: int, slot: Option<T>)
    requires
        0 <= i < slots.len(),
    ensures
        occupied(slots.update(i, slot)) + (if slots[i] is Some {
            1nat
        } else {
            0nat
        }) == occupied(slots) + (if slot is Some {
            1nat
        } else {
            0nat
        }),
        occupied(slots) <= slots.len(),
    decreases slots.len(),
{
    if i == slots.len() - 1 {
        assert(slots.update(i, slot).drop_last() == slots.drop_last());
        lemma_occupied_bound(slots.drop_last());
    } else {
        assert(slots.update(i, slot).drop_last() == slots.drop_last().update(i, slot));
        lemma_occupied_update(slots.drop_last(), i, slot);
    }
}

/// No more slots are taken than there are, and none is taken exactly if
/// every slot is vacant.
pub proof fn lemma_occupied_bound<T>(slots: Seq<Option<T>>)
    ensures
        occupied(slots) <= slots.len(),
        occupied(slots) == 0 <==> forall|i: int| 0 <= i < slots.len() ==> (#[trigger] slots[i]) is None,
    decreases slots.len(),
{
    if slots.len() > 0 {
        lemma_occupied_bound(slots.drop_last());
        if occupied(slots) == 0 {
            assert forall|i: int| 0 <= i < slots.len() implies (#[trigger] slots[i]) is None by {
                if i < slots.len() - 1 {
                    assert(slots.drop_last()[i] is None);
                }
            }
        } else if slots.last() is None {
            let i = choose|i: int| 0 <= i < slots.len() - 1 && !((#[trigger] slots.drop_last()[i]) is None);
            assert(slots[i] is Some);
        }
    }
}

/// The slots after `item` has been put at `index`: in place of a vacant slot,
/// or as a new last slot.
pub open spec fn put<T>(slots: Seq<Option<T>>, index: int, item: T) -> Seq<Option<T>> {
    if index < slots.len() {
        slots.update(index, Some(item))
    } else {
        slots.push(Some(item))
    }
}

impl<T> RefSet<T> {
    /// The slots of the set: a member at the index of its reference, `None`
    /// where there is none.
    pub closed spec fn view(&self) -> Seq<Option<T>> {
        self.slots@
    }

    /// The count of members and the list of vacant slots agree with the
    /// slots.
    pub closed spec fn wf(&self) -> bool {
        &&& self.len == occupied(self.slots@)
        &&& forall|i: int|
            0 <= i < self.free@.len() ==> (#[trigger] self.free@[i]) < self.slots@.len()
                && self.slots@[self.free@[i] as int] is None
        &&& forall|i: int, j: int|
            0 <= i < j < self.free@.len() ==> #[trigger] self.free@[i] != #[trigger] self.free@[j]
    }

    /// `set_ref` names a member.
    pub open spec fn contains(&self, set_ref: Ref) -> bool {
        set_ref.index < self@.len() && self@[set_ref.index as int] is Some
    }

    /// A set without members.
    pub fn new() -> (set: RefSet<T>)
        ensures
            set.wf(),
            set@ == Seq::<Option<T>>::empty(),
    {
        RefSet { slots: Vec::new(), free: Vec::new(), len: 0 }
    }

    /// How many members the set has.
    pub fn len(&self) -> (len: usize)
        requires
            self.wf(),
        ensures
            len == occupied(self@),
            len <= self@.len(),
    {
        proof {
            lemma_occupied_bound(self@);
        }
        self.len
    }

    /// Whether the set has no member.
    pub fn is_empty(&self) -> (empty: bool)
        requires
            self.wf(),
        ensures
            empty <==> occupied(self@) == 0,
            empty <==> forall|i: int| 0 <= i < self@.len() ==> (#[trigger] self@[i]) is None,
    {
        proof {
            lemma_occupied_bound(self@);
        }
        self.len == 0
    }

    /// One past the highest index that a reference into this set can have.
    pub fn slots_count(&self) -> (count: usize)
        ensures
            count == self@.len(),
    {
        self.slots.len()
    }

    /// Adds a member and returns its reference, which no present member has.
    pub fn insert(&mut self, item: T) -> (set_ref: Ref)
        requires
            old(self).wf(),
        ensures
            final(self).wf(),
            !old(self).contains(set_ref),
            set_ref.index <= old(self)@.len(),
            final(self)@ == put(old(self)@, set_ref.index as int, item),
    {
        proof {
            lemma_occupied_bound(self.slots@);
        }
        match self.free.pop() {
            Some(index) => {
                assert(old(self).free@[old(self).free@.len() - 1] == index);
                assert(self.slots@[index as int] is None);
                self.slots[index] = Some(item);
                proof {
                    assert(self.slots@.len() == self.slots.len());
                    lemma_occupied_update(old(self).slots@, index as int, Some(item));
                    lemma_occupied_bound(self.slots@);
                }
                self.len = self.len + 1;
                Ref { index }
            },
            None => {
                let index = self.slots.len();
                self.slots.push(Some(item));
                proof {
                    lemma_occupied_push(old(self).slots@, Some(item));
                    lemma_occupied_bound(self.slots@);
                    assert(self.slots@.len() == self.slots.len());
                }
                self.len = self.len + 1;
                Ref { index }
            },
        }
    }

    /// The member behind `set_ref`, if there is one.
    pub fn get(&self, set_ref: Ref) -> (found: Option<&T>)
        ensures
            match found {
                Some(item) => self.contains(set_ref) && self@[set_ref.index as int] == Some(*item),
                None => !self.contains(set_ref),
            },
    {
        if set_ref.index < self.slots.len() {
            self.slots[set_ref.index].as_ref()
        } else {
            None
        }
    }

    /// The member behind `set_ref`, to be changed in place.
    pub fn get_mut(&mut self, set_ref: Ref) -> (item: &mut T)
        requires
            old(self).wf(),
            old(self).contains(set_ref),
        ensures
            Some(*item) == old(self)@[set_ref.index as int],
            final(self)@ == old(self)@.update(set_ref.index as int, Some(*final(item))),
            final(self).wf(),
    {
        proof {
            assert forall|slot: T| #[trigger]
                occupied(self.slots@.update(set_ref.index as int, Some(slot))) == occupied(
                    self.slots@,
                ) by {
                lemma_occupied_update(self.slots@, set_ref.index as int, Some(slot));
            }
        }
        match &mut self.slots[set_ref.index] {
            Some(item) => item,
            None => vstd::pervasive::unreached(),
        }
    }

    /// Takes the member behind `set_ref` out, if there is one.
    pub fn remove(&mut self, set_ref: Ref) -> (removed: Option<T>)
        requires
            old(self).wf(),
        ensures
            final(self).wf(),
            old(self).contains(set_ref) ==> removed == old(self)@[set_ref.index as int] && final(self)@
                == old(self)@.update(set_ref.index as int, None),
            !old(self).contains(set_ref) ==> removed is None && final(self)@ == old(self)@,
    {
        if set_ref.index >= self.slots.len() {
            return None;
        }
        let removed = self.slots[set_ref.index].take();
        if removed.is_some() {
            proof {
                lemma_occupied_update(old(self).slots@, set_ref.index as int, None);
            }
            self.free.push(set_ref.index);
            self.len = self.len - 1;
        } else {
            assert(self.slots@ == old(self).slots@);
        }
        removed
    }

    /// The references of all members, by rising index.
    pub fn refs(&self) -> (refs: Vec<Ref>)
        ensures
            refs@ == member_refs(self@, self@.len() as int),
    {
        let mut refs: Vec<Ref> = Vec::new();
        let mut index: usize = 0;
        while index < self.slots.len()
            invariant
                index <= self.slots.len(),
                refs@ == member_refs(self@, index as int),
            decreases self.slots.len() - index,
        {
            if self.slots[index].is_some() {
                refs.push(Ref { index });
            }
            index += 1;
        }
        refs
    }
}

/// The references of the members in the first `n` slots, by rising index.
pub open spec fn member_refs<T>(slots: Seq<Option<T>>, n: int) -> Seq<Ref>
    decreases n,
{
    if n <= 0 {
        Seq::empty()
    } else if n <= slots.len() && slots[n - 1] is Some {
        member_refs(slots, n - 1).push(Ref { index: (n - 1) as usize })
    } else {
        member_refs(slots, n - 1)
    }
}

/// The sum of the weights of all members.
pub open spec fn weigh<T>(slots: Seq<Option<T>>, weight: spec_fn(T) -> nat) -> nat
    decreases slots.len(),
{
    if slots.len() == 0 {
        0
    } else {
        weigh(slots.drop_last(), weight) + (match slots.last() {
            Some(member) => weight(member),
            None => 0nat,
        })
    }
}

/// The weight of a slot: that of its member, nothing without one.
pub open spec fn slot_weight<T>(slot: Option<T>, weight: spec_fn(T) -> nat) -> nat {
    match slot {
        Some(member) => weight(member),
        None => 0nat,
    }
}

/// Changing one slot changes the sum by the difference of the weights.
pub proof fn lemma_weigh_update<T>(slots: Seq<Option<T>>, weight: spec_fn(T) -> nat, i: int, slot: Option<T>)
    requires
        0 <= i < slots.len(),
    ensures
        weigh(slots.update(i, slot), weight) + slot_weight(slots[i], weight) == weigh(slots, weight)
            + slot_weight(slot, weight),
    decreases slots.len(),
{
    if i == slots.len() - 1 {
        assert(slots.update(i, slot).drop_last() == slots.drop_last());
    } else {
        assert(slots.update(i, slot).drop_last() == slots.drop_last().update(i, slot));
        lemma_weigh_update(slots.drop_last(), weight, i, slot);
    }
}

/// Putting a member in a slot that was vacant, or in a new last slot, adds
/// its weight to the sum.
pub proof fn lemma_weigh_put<T>(slots: Seq<Option<T>>, weight: spec_fn(T) -> nat, index: int, item: T)
    requires
        0 <= index <= slots.len(),
        index < slots.len() ==> slots[index] is None,
    ensures
        weigh(put(slots, index, item), weight) == weigh(slots, weight) + weight(item),
{
    if index < slots.len() {
        lemma_weigh_update(slots, weight, index, Some(item));
    } else {
        assert(slots.push(Some(item)).drop_last() == slots);
    }
}

/// No member weighs more than all together, and if the sum is nothing then
/// no member weighs anything.
pub proof fn lemma_weigh_bounds<T>(slots: Seq<Option<T>>, weight: spec_fn(T) -> nat, i: int)
    requires
        0 <= i < slots.len(),
    ensures
        slot_weight(slots[i], weight) <= weigh(slots, weight),
    decreases slots.len(),
{
    if i < slots.len() - 1 {
        lemma_weigh_bounds(slots.drop_last(), weight, i);
    }
}

/// Every listed reference names a member, and every member is listed once.
pub proof fn lemma_member_refs<T>(slots: Seq<Option<T>>, n: int)
    requires
        0 <= n <= slots.len() <= usize::MAX,
    ensures
        member_refs(slots, n).len() == occupied(slots.subrange(0, n)),
        member_refs(slots, n).len() <= n,
        forall|i: int|
            0 <= i < member_refs(slots, n).len() ==> (#[trigger] member_refs(slots, n)[i]).index < n
                && slots[member_refs(slots, n)[i].index as int] is Some,
        forall|i: int, j: int|
            0 <= i < j < member_refs(slots, n).len() ==> (#[trigger] member_refs(slots, n)[i]).index
                < (#[trigger] member_refs(slots, n)[j]).index,
        forall|k: int|
            0 <= k < n && (#[trigger] slots[k]) is Some ==> member_refs(slots, n).contains(
                Ref { index: k as usize },
            ),
    decreases n,
{
    if n > 0 {
        lemma_member_refs(slots, n - 1);
        assert(slots.subrange(0, n).drop_last() == slots.subrange(0, n - 1));
        let rest = member_refs(slots, n - 1);
        let all = member_refs(slots, n);
        if slots[n - 1] is Some {
            assert(all[all.len() - 1] == Ref { index: (n - 1) as usize });
        }
        assert forall|k: int| 0 <= k < n && (#[trigger] slots[k]) is Some implies all.contains(
            Ref { index: k as usize },
        ) by {
            if k < n - 1 {
                assert(rest.contains(Ref { index: k as usize }));
                let i = choose|i: int| 0 <= i < rest.len() && rest[i] == Ref { index: k as usize };
                assert(all[i] == Ref { index: k as usize });
            } else {
                assert(all[all.len() - 1] == Ref { index: k as usize });
            }
        }
    }
}

} // verus!
