//! A stack of caller-provided buffers, each carrying its bookkeeping in its
//! last 16-byte element.

use vstd::prelude::*;

verus! {

/// Errors of turning a buffer into a stack node.
#[derive(Debug, Copy, Clone, Eq, PartialEq)]
pub enum StackNodeError {
    /// The buffer has no element to hold the node's bookkeeping.
    BufferTooSmall,
}

/// The bookkeeping element of a buffer of `len` elements: the link to the
/// next node in the low 64 bits (none yet) and the buffer length in the
/// high 64 bits.
pub open spec fn node_header(len: nat) -> u128 {
    (len * 0x1_0000_0000_0000_0000) as u128
}

/// A buffer prepared to be pushed on a `StackList`.
#[derive(Debug)]
pub struct StackNode {
    buffer: Vec<u128>,
}

impl StackNode {
    pub const REQUIRED_ALIGNEMENT: usize = 16;
    pub const NODE_SIZE: usize = 16;

    /// The elements of the buffer.
    pub closed spec fn view(&self) -> Seq<u128> {
        self.buffer@
    }

    /// Turns `buffer` into a node, writing its bookkeeping into the last
    /// element; an empty buffer is refused.
    pub fn new(buffer: Vec<u128>) -> (r: Result<Self, StackNodeError>)
        requires
            buffer.len() < 0x1_0000_0000_0000_0000,
        ensures
            buffer.len() == 0 <==> r is Err,
            r matches Ok(n) ==> n@ == buffer@.update(buffer.len() - 1, node_header(buffer.len() as nat)),
            r matches Err(e) ==> e == StackNodeError::BufferTooSmall,
    {
        let mut buffer = buffer;
        let len: usize = buffer.len();
        if len == 0 {
            return Err(StackNodeError::BufferTooSmall);
        }
        let header: u128 = (len as u128) * 0x1_0000_0000_0000_0000u128;
        buffer.set(len - 1, header);
        Ok(Self { buffer })
    }

    /// Gives the whole buffer back.
    pub fn into_buffer(self) -> (r: Vec<u128>)
        ensures
            r@ == self@,
    {
        self.buffer
    }
}

/// A last-in, first-out list of nodes.
#[derive(Debug)]
pub struct StackList {
    nodes: Vec<StackNode>,
}

impl StackList {
    /// The buffers of the nodes, the most recently pushed last.
    pub closed spec fn view(&self) -> Seq<Seq<u128>> {
        self.nodes@.map_values(|n: StackNode| n@)
    }

    /// An empty list.
    pub fn new() -> (r: Self)
        ensures
            r@ == Seq::<Seq<u128>>::empty(),
    {
        let r = Self { nodes: Vec::new() };
        assert(r@ =~= Seq::<Seq<u128>>::empty());
        r
    }

    /// Takes the most recently pushed node, or `None` when the list is empty.
    pub fn pop_front(&mut self) -> (r: Option<StackNode>)
        ensures
            old(self)@.len() == 0 ==> r is None && final(self)@ == old(self)@,
            old(self)@.len() > 0 ==> (r matches Some(n) && n@ == old(self)@.last() && final(self)@
                == old(self)@.drop_last()),
    {
        let r = self.nodes.pop();
        proof {
            if old(self)@.len() > 0 {
                assert(self@ =~= old(self)@.drop_last());
            } else {
                assert(self@ =~= old(self)@);
            }
        }
        r
    }

    /// Pushes `node` on top of the list.
    pub fn push_front(&mut self, node: StackNode)
        ensures
            final(self)@ == old(self)@.push(node@),
    {
        self.nodes.push(node);
        proof {
            assert(self@ =~= old(self)@.push(node@));
        }
    }
}

/// Popping right after a push gives back the pushed node and leaves the
/// list as it was.
pub proof fn law_push_then_pop(list: Seq<Seq<u128>>, node: Seq<u128>)
    ensures
        list.push(node).len() > 0,
        list.push(node).last() == node,
        list.push(node).drop_last() == list,
{
    assert(list.push(node).drop_last() =~= list);
}

} // verus!
