//! What the core knows of the block store: block references, values that live
//! inline or in a block of their own, and the header of a decoded block.

use vstd::prelude::*;
use crate::kv::Value;

verus! {

/// The identifier of a block in the backing store.
#[derive(Clone, Copy, PartialEq, Eq, Structural, Debug)]
pub struct BlockRef {
    pub block_id: u64,
}

/// A value as a tree holds it: small ones inline, large ones in a block of
/// their own, to be fetched before they can be handed out.
#[derive(Debug)]
pub enum ValueBlockRef {
    Inline(Value),
    External(BlockRef),
}

/// The mathematical content of a `ValueBlockRef`.
pub ghost enum ValueRef {
    Inline(Seq<u8>),
    External(BlockRef),
}

impl View for ValueBlockRef {
    type V = ValueRef;

    open spec fn view(&self) -> ValueRef {
        match self {
            ValueBlockRef::Inline(value) => ValueRef::Inline(value@),
            ValueBlockRef::External(block_ref) => ValueRef::External(*block_ref),
        }
    }
}

impl Clone for ValueBlockRef {
    fn clone(&self) -> (copy: ValueBlockRef)
        ensures
            copy@ == self@,
    {
        match self {
            ValueBlockRef::Inline(value) => ValueBlockRef::Inline(value.clone()),
            ValueBlockRef::External(block_ref) => ValueBlockRef::External(*block_ref),
        }
    }
}

/// What kind of tree node a block holds.
#[derive(Clone, Copy, PartialEq, Eq, Structural, Debug)]
pub enum NodeType {
    Root { tree_entries_count: usize },
    Leaf,
}

/// The decoded header of a block.
#[derive(Clone, Copy, PartialEq, Eq, Structural, Debug)]
pub struct BlockHeader {
    pub node_type: NodeType,
}

/// Why a block could not be decoded.
#[derive(Clone, Copy, PartialEq, Eq, Structural, Debug)]
pub enum Error {
    /// The block does not start with this store's magic number: it belongs to
    /// someone else.
    InvalidBlockMagic { expected: u64, provided: u64 },
    /// The block carries the right magic number and still does not decode.
    Malformed,
}

} // verus!
