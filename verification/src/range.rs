//! Key ranges with any kind of bound on either side.

use vstd::prelude::*;
use crate::kv::{Key, KeyOrder, key_le, key_lt};

verus! {

/// One end of a range of keys.
#[derive(Debug)]
pub enum RangeBound {
    Unbounded,
    Included(Key),
    Excluded(Key),
}

/// The mathematical content of a `RangeBound`.
pub ghost enum BoundView {
    Unbounded,
    Included(Seq<u8>),
    Excluded(Seq<u8>),
}

impl View for RangeBound {
    type V = BoundView;

    open spec fn view(&self) -> BoundView {
        match self {
            RangeBound::Unbounded => BoundView::Unbounded,
            RangeBound::Included(key) => BoundView::Included(key@),
            RangeBound::Excluded(key) => BoundView::Excluded(key@),
        }
    }
}

impl Clone for RangeBound {
    fn clone(&self) -> (copy: RangeBound)
        ensures
            copy@ == self@,
    {
        match self {
            RangeBound::Unbounded => RangeBound::Unbounded,
            RangeBound::Included(key) => RangeBound::Included(key.clone()),
            RangeBound::Excluded(key) => RangeBound::Excluded(key.clone()),
        }
    }
}

/// A range of keys.
#[derive(Debug)]
pub struct SearchRangeBounds {
    pub range_from: RangeBound,
    pub range_to: RangeBound,
}

/// The mathematical content of a `SearchRangeBounds`.
pub ghost struct RangeView {
    pub range_from: BoundView,
    pub range_to: BoundView,
}

impl RangeView {
    /// `key` is not below the lower end.
    pub open spec fn admits_from(self, key: Seq<u8>) -> bool {
        match self.range_from {
            BoundView::Unbounded => true,
            BoundView::Included(from) => key_le(from, key),
            BoundView::Excluded(from) => key_lt(from, key),
        }
    }

    /// `key` is not above the upper end.
    pub open spec fn admits_to(self, key: Seq<u8>) -> bool {
        match self.range_to {
            BoundView::Unbounded => true,
            BoundView::Included(to) => key_le(key, to),
            BoundView::Excluded(to) => key_lt(key, to),
        }
    }

    /// `key` lies in the range.
    pub open spec fn contains(self, key: Seq<u8>) -> bool {
        self.admits_from(key) && self.admits_to(key)
    }
}

impl View for SearchRangeBounds {
    type V = RangeView;

    open spec fn view(&self) -> RangeView {
        RangeView { range_from: self.range_from@, range_to: self.range_to@ }
    }
}

impl Clone for SearchRangeBounds {
    fn clone(&self) -> (copy: SearchRangeBounds)
        ensures
            copy@ == self@,
    {
        SearchRangeBounds { range_from: self.range_from.clone(), range_to: self.range_to.clone() }
    }
}

impl SearchRangeBounds {
    /// The range between the two ends.
    pub fn new(range_from: RangeBound, range_to: RangeBound) -> (range: SearchRangeBounds)
        ensures
            range.range_from == range_from,
            range.range_to == range_to,
    {
        SearchRangeBounds { range_from, range_to }
    }

    /// The part of the range from `key` on, `key` included. This is where a
    /// scan that stopped at `key` is taken up again.
    pub fn restart_from(self, key: Key) -> (range: SearchRangeBounds)
        ensures
            range.range_from == RangeBound::Included(key),
            range.range_to == self.range_to,
            forall|other: Seq<u8>|
                #[trigger] range@.contains(other) <==> self@.admits_to(other) && key_le(key@, other),
    {
        SearchRangeBounds { range_from: RangeBound::Included(key), range_to: self.range_to }
    }

    /// Whether `key` is not below the lower end of the range.
    pub fn admits_from(&self, key: &Key) -> (admitted: bool)
        ensures
            admitted == self@.admits_from(key@),
    {
        match &self.range_from {
            RangeBound::Unbounded => true,
            RangeBound::Included(from) => match from.compare(key) {
                KeyOrder::Greater => false,
                _ => true,
            },
            RangeBound::Excluded(from) => match from.compare(key) {
                KeyOrder::Less => true,
                _ => false,
            },
        }
    }

    /// Whether `key` is not above the upper end of the range.
    pub fn admits_to(&self, key: &Key) -> (admitted: bool)
        ensures
            admitted == self@.admits_to(key@),
    {
        match &self.range_to {
            RangeBound::Unbounded => true,
            RangeBound::Included(to) => match key.compare(to) {
                KeyOrder::Greater => false,
                _ => true,
            },
            RangeBound::Excluded(to) => match key.compare(to) {
                KeyOrder::Less => true,
                _ => false,
            },
        }
    }

    /// Whether `key` lies in the range.
    pub fn contains(&self, key: &Key) -> (inside: bool)
        ensures
            inside == self@.contains(key@),
    {
        self.admits_from(key) && self.admits_to(key)
    }
}

} // verus!
