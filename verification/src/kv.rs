//! Keys, values and versioned cells, and the byte-wise order on keys.

use vstd::prelude::*;

verus! {

/// How one key stands to another in the byte-wise lexicographic order.
#[derive(Clone, Copy, PartialEq, Eq, Structural, Debug)]
pub enum KeyOrder {
    Less,
    Equal,
    Greater,
}

/// The order of `a` and `b`, given that they agree on every position before `i`.
pub open spec fn key_order_from(a: Seq<u8>, b: Seq<u8>, i: int) -> KeyOrder
    decreases a.len() - i,
{
    if i < 0 || i >= a.len() || i >= b.len() {
        if a.len() < b.len() {
            KeyOrder::Less
        } else if a.len() == b.len() {
            KeyOrder::Equal
        } else {
            KeyOrder::Greater
        }
    } else if a[i] < b[i] {
        KeyOrder::Less
    } else if a[i] > b[i] {
        KeyOrder::Greater
    } else {
        key_order_from(a, b, i + 1)
    }
}

/// Lexicographic order on byte strings: the first differing byte decides, and a
/// proper prefix comes first.
pub open spec fn key_order(a: Seq<u8>, b: Seq<u8>) -> KeyOrder {
    key_order_from(a, b, 0)
}

/// `a` comes before `b`.
pub open spec fn key_lt(a: Seq<u8>, b: Seq<u8>) -> bool {
    key_order(a, b) == KeyOrder::Less
}

/// `a` comes before `b` or is `b`.
pub open spec fn key_le(a: Seq<u8>, b: Seq<u8>) -> bool {
    key_order(a, b) != KeyOrder::Greater
}

proof fn lemma_order_from_equal(a: Seq<u8>, b: Seq<u8>, i: int)
    requires
        0 <= i <= a.len(),
        i <= b.len(),
        a.subrange(0, i) == b.subrange(0, i),
    ensures
        key_order_from(a, b, i) == KeyOrder::Equal <==> a == b,
    decreases a.len() - i,
{
    if i >= a.len() || i >= b.len() {
        if a.len() == b.len() {
            assert(a.subrange(0, i) == a);
            assert(b.subrange(0, i) == b);
        }
    } else if a[i] == b[i] {
        assert(a.subrange(0, i + 1) == a.subrange(0, i).push(a[i]));
        assert(b.subrange(0, i + 1) == b.subrange(0, i).push(b[i]));
        lemma_order_from_equal(a, b, i + 1);
    }
}

proof fn lemma_order_from_flip(a: Seq<u8>, b: Seq<u8>, i: int)
    requires
        0 <= i,
    ensures
        key_order_from(a, b, i) == KeyOrder::Less <==> key_order_from(b, a, i) == KeyOrder::Greater,
        key_order_from(a, b, i) == KeyOrder::Equal <==> key_order_from(b, a, i) == KeyOrder::Equal,
    decreases a.len() - i,
{
    if i < a.len() && i < b.len() && a[i] == b[i] {
        lemma_order_from_flip(a, b, i + 1);
    }
}

proof fn lemma_order_from_trans(a: Seq<u8>, b: Seq<u8>, c: Seq<u8>, i: int)
    requires
        0 <= i,
        key_order_from(a, b, i) != KeyOrder::Greater,
        key_order_from(b, c, i) != KeyOrder::Greater,
    ensures
        key_order_from(a, c, i) != KeyOrder::Greater,
        key_order_from(a, c, i) == KeyOrder::Equal ==> key_order_from(a, b, i) == KeyOrder::Equal
            && key_order_from(b, c, i) == KeyOrder::Equal,
    decreases a.len() - i,
{
    if i < a.len() && i < b.len() && i < c.len() && a[i] == b[i] && b[i] == c[i] {
        lemma_order_from_trans(a, b, c, i + 1);
    }
}

/// Two keys compare equal exactly when they are the same byte string.
pub proof fn lemma_key_order_equal(a: Seq<u8>, b: Seq<u8>)
    ensures
        key_order(a, b) == KeyOrder::Equal <==> a == b,
{
    assert(a.subrange(0, 0) == b.subrange(0, 0));
    lemma_order_from_equal(a, b, 0);
}

/// Swapping the arguments mirrors the outcome.
pub proof fn lemma_key_order_flip(a: Seq<u8>, b: Seq<u8>)
    ensures
        key_lt(a, b) <==> key_order(b, a) == KeyOrder::Greater,
        key_order(a, b) == KeyOrder::Equal <==> key_order(b, a) == KeyOrder::Equal,
{
    lemma_order_from_flip(a, b, 0);
}

/// The order is transitive, and strict as soon as one of the two steps is.
pub proof fn lemma_key_order_trans(a: Seq<u8>, b: Seq<u8>, c: Seq<u8>)
    requires
        key_le(a, b),
        key_le(b, c),
    ensures
        key_le(a, c),
        key_lt(a, b) || key_lt(b, c) ==> key_lt(a, c),
{
    lemma_order_from_trans(a, b, c, 0);
}

/// A key: an opaque byte string, ordered byte-wise.
#[derive(Debug)]
pub struct Key {
    pub key_bytes: Vec<u8>,
}

impl View for Key {
    type V = Seq<u8>;

    open spec fn view(&self) -> Seq<u8> {
        self.key_bytes@
    }
}

/// A fresh vector holding the same bytes.
pub fn copy_bytes(bytes: &Vec<u8>) -> (copy: Vec<u8>)
    ensures
        copy@ == bytes@,
{
    let mut copy: Vec<u8> = Vec::with_capacity(bytes.len());
    let mut i: usize = 0;
    while i < bytes.len()
        invariant
            i <= bytes.len(),
            copy@ == bytes@.subrange(0, i as int),
        decreases bytes.len() - i,
    {
        copy.push(bytes[i]);
        i += 1;
    }
    assert(bytes@.subrange(0, bytes@.len() as int) == bytes@);
    copy
}

impl Clone for Key {
    fn clone(&self) -> (copy: Key)
        ensures
            copy@ == self@,
    {
        Key { key_bytes: copy_bytes(&self.key_bytes) }
    }
}

impl Key {
    /// The key of these bytes.
    pub fn new(key_bytes: Vec<u8>) -> (key: Key)
        ensures
            key@ == key_bytes@,
    {
        Key { key_bytes }
    }

    /// Compares two keys byte by byte.
    pub fn compare(&self, other: &Key) -> (order: KeyOrder)
        ensures
            order == key_order(self@, other@),
    {
        let mut i: usize = 0;
        while i < self.key_bytes.len() && i < other.key_bytes.len()
            invariant
                i <= self.key_bytes.len(),
                i <= other.key_bytes.len(),
                key_order(self@, other@) == key_order_from(self@, other@, i as int),
            decreases self.key_bytes.len() - i,
        {
            let a: u8 = self.key_bytes[i];
            let b: u8 = other.key_bytes[i];
            if a < b {
                return KeyOrder::Less;
            }
            if a > b {
                return KeyOrder::Greater;
            }
            i += 1;
        }
        if self.key_bytes.len() < other.key_bytes.len() {
            KeyOrder::Less
        } else if self.key_bytes.len() == other.key_bytes.len() {
            KeyOrder::Equal
        } else {
            KeyOrder::Greater
        }
    }
}

/// A stored value: a byte string.
#[derive(Debug)]
pub struct Value {
    pub value_bytes: Vec<u8>,
}

impl View for Value {
    type V = Seq<u8>;

    open spec fn view(&self) -> Seq<u8> {
        self.value_bytes@
    }
}

impl Clone for Value {
    fn clone(&self) -> (copy: Value)
        ensures
            copy@ == self@,
    {
        Value { value_bytes: copy_bytes(&self.value_bytes) }
    }
}

/// What a key holds at some version: a value, or the mark of its removal.
#[derive(Clone, Debug)]
pub enum Cell<V> {
    Value(V),
    Tombstone,
}

impl<V: View> View for Cell<V> {
    type V = Cell<V::V>;

    open spec fn view(&self) -> Cell<V::V> {
        match self {
            Cell::Value(value) => Cell::Value(value@),
            Cell::Tombstone => Cell::Tombstone,
        }
    }
}

/// A cell stamped with the version of the write that made it. Of two cells for
/// one key the higher version is the one in force.
#[derive(Clone, Debug)]
pub struct ValueCell<V> {
    pub version: u64,
    pub cell: Cell<V>,
}

impl<V: View> View for ValueCell<V> {
    type V = ValueCell<V::V>;

    open spec fn view(&self) -> ValueCell<V::V> {
        ValueCell { version: self.version, cell: self.cell@ }
    }
}

/// A key with what it holds at some version.
#[derive(Clone, Debug)]
pub struct KeyValuePair<V> {
    pub key: Key,
    pub value_cell: ValueCell<V>,
}

/// The mathematical content of a key-value pair.
pub ghost struct KeyValue<V> {
    pub key: Seq<u8>,
    pub value_cell: ValueCell<V>,
}

impl<V: View> View for KeyValuePair<V> {
    type V = KeyValue<V::V>;

    open spec fn view(&self) -> KeyValue<V::V> {
        KeyValue { key: self.key@, value_cell: self.value_cell@ }
    }
}

} // verus!
