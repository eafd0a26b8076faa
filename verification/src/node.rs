//! A trie node that indexes its slots with a two-bit kind tag per entry:
//! a building block for an indexed table representation.

use vstd::prelude::*;

verus! {

/// One slot of a node: empty, a leaf value, or a child node.
pub enum Slot<T> {
    /// Nothing stored here.
    Empty,
    /// A value.
    Leaf(T),
    /// A child node.
    Branch(Box<Node<T>>),
}

/// How many entries `log2_n` bits can index.
pub fn node_cap(log2_n: usize) -> (r: usize)
    requires
        log2_n < 32,
    ensures
        r == (1usize << log2_n),
        r >= 1,
    {
    proof {
        assert(log2_n < 32 ==> (1usize << log2_n) >= 1) by (bit_vector);
    }
    1 << log2_n
}

/// How many metadata bytes a node of `1 << log2_n` entries needs: two bits
/// per entry, eight bits per byte.
pub fn metadata_len(log2_n: usize) -> (r: usize)
    requires
        log2_n < 32,
    ensures
        r == (1usize << log2_n) * 2 / 8,
{
    proof {
        assert(log2_n < 32 ==> ((1usize << log2_n) / 4 == (1usize << log2_n) * 2 / 8 && (1usize
            << log2_n) <= 0x8000_0000usize)) by (bit_vector);
    }
    node_cap(log2_n) / 4
}

/// A node: a slot vector and the per-slot kind metadata, two bits per slot.
pub struct Node<T> {
    /// The kind tags, packed two bits per slot.
    pub metadata: Vec<u8>,
    /// The slots.
    pub slots: Vec<Slot<T>>,
}

impl<T> Node<T> {
    /// The metadata is sized for the slots.
    pub open spec fn wf(&self) -> bool {
        self.metadata@.len() == self.slots@.len() * 2 / 8
    }

    /// An empty node with `1 << log2_n` slots.
    pub fn new(log2_n: usize) -> (r: Self)
        requires
            log2_n < 32,
        ensures
            r.wf(),
            r.slots@.len() == (1usize << log2_n),
            forall|i: int| 0 <= i < r.slots@.len() ==> (#[trigger] r.slots@[i]) is Empty,
    {
        let cap = node_cap(log2_n);
        let mlen = metadata_len(log2_n);
        let mut metadata: Vec<u8> = Vec::new();
        let mut i: usize = 0;
        while i < mlen
            invariant
                i <= mlen,
                metadata@.len() == i,
            decreases mlen - i,
        {
            metadata.push(0);
            i += 1;
        }
        let mut slots: Vec<Slot<T>> = Vec::new();
        let mut j: usize = 0;
        while j < cap
            invariant
                j <= cap,
                slots@.len() == j,
                forall|m: int| 0 <= m < j ==> (#[trigger] slots@[m]) is Empty,
            decreases cap - j,
        {
            slots.push(Slot::Empty);
            j += 1;
        }
        Node { metadata, slots }
    }
}

} // verus!
