//! The immutable value records assembled by the parsers, and the ordered
//! chain that collects them.

pub mod block;
pub mod script;
pub mod transactions;

use vstd::prelude::*;

use crate::TransactionBlock;

verus! {

/// An ordered collection of decoded blocks, in file order.
#[derive(Debug)]
pub struct BlockChain<T> {
    blocks: Vec<T>,
}

impl<T: DeepView> View for BlockChain<T> {
    type V = Seq<T::V>;

    closed spec fn view(&self) -> Seq<T::V> {
        self.blocks.deep_view()
    }
}

impl<T: DeepView + TransactionBlock> BlockChain<T> {
    /// An empty chain.
    pub fn new() -> (r: Self)
        ensures
            r@ == Seq::<T::V>::empty(),
    {
        BlockChain { blocks: Vec::new() }
    }

    /// Append a block at the end of the chain.
    pub fn push(&mut self, block: T)
        ensures
            final(self)@ == old(self)@.push(block.deep_view()),
    {
        self.blocks.push(block);
        proof {
            assert(self.blocks.deep_view() =~= old(self).blocks.deep_view().push(
                block.deep_view(),
            ));
        }
    }

    /// How many blocks the chain holds.
    pub fn len(&self) -> (r: usize)
        ensures
            r == self@.len(),
    {
        self.blocks.len()
    }

    /// The blocks, in file order.
    pub fn blocks(&self) -> (r: &Vec<T>)
        ensures
            r.deep_view() == self@,
    {
        &self.blocks
    }
}

} // verus!
