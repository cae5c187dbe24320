//! Decoder for raw blockchain data files: magic-framed binary blocks are
//! scanned, split into frames, and parsed into block and transaction records,
//! with content hashes computed the way the chain computes them.

pub mod blkparser;
pub mod blockchain;
pub mod parser;
pub mod types;

use vstd::prelude::*;

verus! {

/// Marker for types that can stand as one transaction record of a block.
pub trait Transaction {}

/// Marker for types that represent one block together with its transactions.
pub trait TransactionBlock {
    type Transaction: Transaction;
}

} // verus!
