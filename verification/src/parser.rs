//! The layered error kinds surfaced by every stage of the decoding pipeline,
//! each wrapping the error that caused it for diagnostic chaining.

use vstd::prelude::*;

use crate::blockchain::BlockChain;
use crate::TransactionBlock;

verus! {

/// Turns raw buffers into chains of decoded blocks.
pub trait Parser<T: TransactionBlock + DeepView> {
    /// Decode one buffer into an ordered chain, or fail on the first
    /// malformed byte.
    fn parse(&mut self, buffer: &[u8]) -> Result<BlockChain<T>, ParseError>;
}

/// A [`Parser`] whose implementations are free to split the work over
/// several workers, as long as the chain comes back in file order.
pub trait ParallelParser<T: TransactionBlock + DeepView> {
    /// Decode one buffer into an ordered chain, or fail on the first
    /// malformed byte.
    fn parse(&mut self, buffer: &[u8]) -> Result<BlockChain<T>, ParseError>;
}

/// A cursor read asked for more bytes than the buffer still holds.
#[derive(Clone, Copy, Debug, PartialEq, Eq, Structural)]
pub struct ReadError {
    /// How many bytes the read asked for.
    pub requested: u64,
    /// How many bytes were still available.
    pub available: u64,
}

/// Which block-header field could not be read.
#[derive(Clone, Copy, Debug, PartialEq, Eq, Structural)]
pub enum HeaderErrorKind {
    /// The block version could not be read.
    VersionError,
    /// The previous-block hash could not be read.
    HashError,
    /// The merkle root could not be read.
    RootError,
    /// The block time could not be read.
    TimeError,
    /// The block target could not be read.
    BitsError,
    /// The block nonce could not be read.
    NonceError,
}

/// A block-header field could not be read.
#[derive(Clone, Copy, Debug, PartialEq, Eq, Structural)]
pub struct HeaderError {
    /// Which field failed.
    pub kind: HeaderErrorKind,
    /// The underlying cursor failure.
    pub source: ReadError,
}

impl HeaderError {
    /// Wrap a cursor failure with the field it struck.
    pub fn new(kind: HeaderErrorKind, source: ReadError) -> (r: Self)
        ensures
            r == (HeaderError { kind, source }),
    {
        HeaderError { kind, source }
    }
}

/// What went wrong while decoding one transaction.
#[derive(Clone, Copy, Debug, PartialEq, Eq, Structural)]
pub enum TransactionErrorKind {
    /// A transaction field could not be read.
    ReadError,
    /// The segregated-witness flag byte held this value instead of 0x01.
    FlagError(u64),
}

/// A transaction could not be decoded.
#[derive(Clone, Copy, Debug, PartialEq, Eq, Structural)]
pub struct TransactionError {
    /// What went wrong.
    pub kind: TransactionErrorKind,
    /// The underlying cursor failure, where one caused it.
    pub source: Option<ReadError>,
}

impl TransactionError {
    /// Wrap a transaction-level failure.
    pub fn new(kind: TransactionErrorKind, source: Option<ReadError>) -> (r: Self)
        ensures
            r == (TransactionError { kind, source }),
    {
        TransactionError { kind, source }
    }
}

/// Which section of a block failed to decode.
#[derive(Clone, Copy, Debug, PartialEq, Eq, Structural)]
pub enum BlockErrorKind {
    /// The header section was malformed.
    HeaderError,
    /// A transaction was malformed.
    TransactionError,
    /// The block's raw data ran out.
    ReadError,
}

/// The failure that made a block undecodable.
#[derive(Clone, Copy, Debug, PartialEq, Eq, Structural)]
pub enum BlockErrorSource {
    /// A header field failed.
    Header(HeaderError),
    /// A transaction failed.
    Transaction(TransactionError),
    /// A raw read failed.
    Read(ReadError),
}

/// A block could not be decoded.
#[derive(Clone, Copy, Debug, PartialEq, Eq, Structural)]
pub struct BlockError {
    /// Which section failed.
    pub kind: BlockErrorKind,
    /// The failure that caused it, where one did.
    pub source: Option<BlockErrorSource>,
}

impl BlockError {
    /// Wrap a block-level failure.
    pub fn new(kind: BlockErrorKind, source: Option<BlockErrorSource>) -> (r: Self)
        ensures
            r == (BlockError { kind, source }),
    {
        BlockError { kind, source }
    }
}

/// Which stage of a whole-buffer parse failed.
#[derive(Clone, Copy, Debug, PartialEq, Eq, Structural)]
pub enum ParseErrorKind {
    /// The frame stream itself was unreadable or malformed.
    ReadError,
    /// A framed block could not be decoded.
    BlockError,
}

/// The failure that ended a whole-buffer parse.
#[derive(Clone, Copy, Debug, PartialEq, Eq, Structural)]
pub enum ParseErrorSource {
    /// A raw read of the frame stream failed.
    Read(ReadError),
    /// The frame delimiter held this value instead of the magic bytes.
    Magic(u32),
    /// A framed block failed to decode.
    Block(BlockError),
}

/// One file's parse failed.
#[derive(Clone, Copy, Debug, PartialEq, Eq, Structural)]
pub struct ParseError {
    /// Which stage failed.
    pub kind: ParseErrorKind,
    /// The failure that caused it, where one did.
    pub source: Option<ParseErrorSource>,
}

impl ParseError {
    /// Wrap a top-level failure.
    pub fn new(kind: ParseErrorKind, source: Option<ParseErrorSource>) -> (r: Self)
        ensures
            r == (ParseError { kind, source }),
    {
        ParseError { kind, source }
    }
}

} // verus!
