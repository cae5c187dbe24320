//! Block records: the fixed header, its mining fields, and the block body.

use vstd::prelude::*;

use crate::types::{BitcoinHash, BlockTarget};
use crate::TransactionBlock;

verus! {

/// The mathematical value of a [`MiningInfo`].
pub struct SpecMiningInfo {
    /// The block time.
    pub time: u32,
    /// The 4 raw target bytes.
    pub bits: Seq<u8>,
    /// The nonce.
    pub nonce: u32,
}

/// The mathematical value of a [`BlockHeader`].
pub struct SpecBlockHeader {
    /// The block version.
    pub version: u32,
    /// The previous block's hash, in the order read.
    pub previous: Seq<u8>,
    /// The merkle root, in the order read.
    pub txroot: Seq<u8>,
    /// The mining fields.
    pub consensus: SpecMiningInfo,
}

/// The mathematical value of a [`Block`].
pub struct SpecBlock<TV> {
    /// The parsed header fields.
    pub header: SpecBlockHeader,
    /// The transactions, in wire order.
    pub transactions: Seq<TV>,
}

/// The fields a miner varies or commits to: time, target and nonce.
#[derive(Debug)]
pub struct MiningInfo {
    time: u32,
    bits: BlockTarget,
    nonce: u32,
}

impl View for MiningInfo {
    type V = SpecMiningInfo;

    closed spec fn view(&self) -> SpecMiningInfo {
        SpecMiningInfo { time: self.time, bits: self.bits@, nonce: self.nonce }
    }
}

impl MiningInfo {
    /// Assemble the mining fields.
    pub fn new(time: u32, bits: BlockTarget, nonce: u32) -> (r: Self)
        ensures
            r@ == (SpecMiningInfo { time, bits: bits@, nonce }),
    {
        MiningInfo { time, bits, nonce }
    }

    /// The block time.
    pub fn time(&self) -> (r: u32)
        ensures
            r == self@.time,
    {
        self.time
    }

    /// The raw target bytes.
    pub fn bits(&self) -> (r: &BlockTarget)
        ensures
            r@ == self@.bits,
    {
        &self.bits
    }

    /// The nonce.
    pub fn nonce(&self) -> (r: u32)
        ensures
            r == self@.nonce,
    {
        self.nonce
    }
}

/// The parsed fields of a block's fixed 80-byte header.
#[derive(Debug)]
pub struct BlockHeader {
    version: u32,
    previous: BitcoinHash,
    txroot: BitcoinHash,
    consensus: MiningInfo,
}

impl View for BlockHeader {
    type V = SpecBlockHeader;

    closed spec fn view(&self) -> SpecBlockHeader {
        SpecBlockHeader {
            version: self.version,
            previous: self.previous@,
            txroot: self.txroot@,
            consensus: self.consensus@,
        }
    }
}

impl BlockHeader {
    /// Assemble a header record from its parsed fields.
    pub fn new(version: u32, previous: BitcoinHash, txroot: BitcoinHash, consensus: MiningInfo) -> (
        r: Self)
        ensures
            r@ == (SpecBlockHeader {
                version,
                previous: previous@,
                txroot: txroot@,
                consensus: consensus@,
            }),
    {
        BlockHeader { version, previous, txroot, consensus }
    }

    /// The block version.
    pub fn version(&self) -> (r: u32)
        ensures
            r == self@.version,
    {
        self.version
    }

    /// The previous block's hash, in the order read.
    pub fn previous(&self) -> (r: &BitcoinHash)
        ensures
            r@ == self@.previous,
    {
        &self.previous
    }

    /// The merkle root, in the order read.
    pub fn txroot(&self) -> (r: &BitcoinHash)
        ensures
            r@ == self@.txroot,
    {
        &self.txroot
    }

    /// The mining fields.
    pub fn consensus(&self) -> (r: &MiningInfo)
        ensures
            r@ == self@.consensus,
    {
        &self.consensus
    }
}

/// One decoded block: its header and its transactions.
#[derive(Debug)]
pub struct Block<T> {
    header: BlockHeader,
    transactions: Vec<T>,
}

impl<T: DeepView> View for Block<T> {
    type V = SpecBlock<T::V>;

    closed spec fn view(&self) -> SpecBlock<T::V> {
        SpecBlock { header: self.header@, transactions: self.transactions.deep_view() }
    }
}

impl<T: DeepView> DeepView for Block<T> {
    type V = SpecBlock<T::V>;

    open spec fn deep_view(&self) -> SpecBlock<T::V> {
        self@
    }
}

impl<T: DeepView + crate::Transaction> Block<T> {
    /// Assemble a block from its header and transactions.
    pub fn new(header: BlockHeader, transactions: Vec<T>) -> (r: Self)
        ensures
            r@ == (SpecBlock { header: header@, transactions: transactions.deep_view() }),
    {
        Block { header, transactions }
    }

    /// The parsed header fields.
    pub fn header(&self) -> (r: &BlockHeader)
        ensures
            r@ == self@.header,
    {
        &self.header
    }

    /// The transactions, in wire order.
    pub fn transactions(&self) -> (r: &Vec<T>)
        ensures
            r.deep_view() == self@.transactions,
    {
        &self.transactions
    }
}

impl<T: DeepView + crate::Transaction> TransactionBlock for Block<T> {
    type Transaction = T;
}

} // verus!
