//! The block parser: the fixed 80-byte header, the identity hash over the
//! raw header bytes, and the block's transactions.

use vstd::prelude::*;

use super::cursor::Cursor;
use super::helpers::{le_u32, le_val, read_var_int, varint_ok, varint_size, varint_val};
use super::transaction::{
    parse_tx_at, tx_error_kind_for, tx_flag_error, SerialTransaction, SpecSerialTransaction,
};
use crate::blockchain::block::{
    Block, BlockHeader, MiningInfo, SpecBlock, SpecBlockHeader, SpecMiningInfo,
};
use crate::parser::{
    BlockError, BlockErrorKind, BlockErrorSource, HeaderError, HeaderErrorKind,
    TransactionErrorKind,
};
use crate::types::{btc_hash_of, BitcoinHash, BlockTarget};
use crate::TransactionBlock;

verus! {

/// The mathematical value of a [`SerialBlock`].
pub struct SpecSerialBlock {
    /// The length of the block's raw region.
    pub size: u32,
    /// The block identity hash, computed over the raw 80 header bytes.
    pub hash: Seq<u8>,
    /// The decoded header and transactions.
    pub contents: SpecBlock<SpecSerialTransaction>,
}

/// The fields of an 80-byte header region: version, previous hash, merkle
/// root, time, raw target bytes and nonce, the multi-byte integers read
/// little-endian and the hashes kept in the order read.
pub open spec fn parse_header_at(s: Seq<u8>) -> SpecBlockHeader
    recommends
        s.len() >= 80,
{
    SpecBlockHeader {
        version: le_val(s.take(4)) as u32,
        previous: s.subrange(4, 36),
        txroot: s.subrange(36, 68),
        consensus: SpecMiningInfo {
            time: le_val(s.subrange(68, 72)) as u32,
            bits: s.subrange(72, 76),
            nonce: le_val(s.subrange(76, 80)) as u32,
        },
    }
}

/// Which header field a read failure strikes, by how many bytes are there.
pub open spec fn header_fail_kind(len: int) -> HeaderErrorKind {
    if len < 4 {
        HeaderErrorKind::VersionError
    } else if len < 36 {
        HeaderErrorKind::HashError
    } else if len < 68 {
        HeaderErrorKind::RootError
    } else if len < 72 {
        HeaderErrorKind::TimeError
    } else if len < 76 {
        HeaderErrorKind::BitsError
    } else {
        HeaderErrorKind::NonceError
    }
}

/// Parse `n` transactions in sequence at the start of `s`.
pub open spec fn parse_txs_at(s: Seq<u8>, n: nat) -> Option<(Seq<SpecSerialTransaction>, int)>
    decreases n,
{
    if n == 0 {
        Some((Seq::empty(), 0))
    } else {
        match parse_tx_at(s) {
            None => None,
            Some(p) => match parse_txs_at(s.skip(p.consumed), (n - 1) as nat) {
                None => None,
                Some((rest, c2)) => Some((seq![p.tx] + rest, p.consumed + c2)),
            },
        }
    }
}

/// The flag value on which parsing `n` transactions at the start of `s`
/// fails with a flag error, where it does.
pub open spec fn txs_flag_error(s: Seq<u8>, n: nat) -> Option<u8>
    decreases n,
{
    if n == 0 {
        None
    } else {
        match parse_tx_at(s) {
            Some(p) => txs_flag_error(s.skip(p.consumed), (n - 1) as nat),
            None => tx_flag_error(s),
        }
    }
}

/// One whole block at the start of `s`: 80 header bytes, a transaction
/// count, and that many transactions. Bytes past the last transaction are
/// left unread.
pub open spec fn parse_block_at(s: Seq<u8>) -> Option<SpecSerialBlock> {
    if s.len() < 80 {
        None
    } else {
        let t = s.skip(80);
        if !varint_ok(t) {
            None
        } else {
            match parse_txs_at(t.skip(varint_size(t[0])), varint_val(t)) {
                None => None,
                Some((txs, _c)) => Some(
                    SpecSerialBlock {
                        size: s.len() as u32,
                        hash: btc_hash_of(s.take(80)),
                        contents: SpecBlock { header: parse_header_at(s), transactions: txs },
                    },
                ),
            }
        }
    }
}

/// Which kind of block error parsing `s` as a block raises, when it fails.
pub open spec fn block_err_kind(s: Seq<u8>) -> BlockErrorKind {
    if s.len() < 80 {
        BlockErrorKind::ReadError
    } else if !varint_ok(s.skip(80)) {
        BlockErrorKind::ReadError
    } else {
        BlockErrorKind::TransactionError
    }
}

/// The flag value on which parsing `s` as a block fails with a flag error,
/// where it does.
pub open spec fn block_flag_error(s: Seq<u8>) -> Option<u8> {
    if s.len() < 80 || !varint_ok(s.skip(80)) {
        None
    } else {
        let t = s.skip(80);
        txs_flag_error(t.skip(varint_size(t[0])), varint_val(t))
    }
}

/// Whether a block-level error describes the failure that parsing `frame`
/// runs into: the right kind, and on a transaction failure the right
/// transaction error inside it.
pub open spec fn block_error_matches(be: BlockError, frame: Seq<u8>) -> bool {
    &&& be.kind == block_err_kind(frame)
    &&& (be.kind == BlockErrorKind::TransactionError ==> ({
        &&& be.source matches Some(BlockErrorSource::Transaction(te))
        &&& te.kind == tx_error_kind_for(block_flag_error(frame))
    }))
    &&& (be.kind == BlockErrorKind::ReadError ==> (be.source matches Some(
        BlockErrorSource::Read(_),
    )))
}

/// Builds a [`BlockHeader`] from a header region handed over as a cursor.
pub struct SerialHeader;

impl SerialHeader {
    /// Parse the six header fields from the cursor, mapping a failure on
    /// each field to its own error kind.
    pub fn build_header<'a>(mut cursor: Cursor<'a>) -> (r: Result<BlockHeader, HeaderError>)
        requires
            cursor.wf(),
        ensures
            ({
                let s = cursor.remaining();
                &&& s.len() >= 80 ==> ({
                    &&& r matches Ok(h)
                    &&& h@ == parse_header_at(s)
                })
                &&& s.len() < 80 ==> ({
                    &&& r matches Err(e)
                    &&& e.kind == header_fail_kind(s.len() as int)
                })
            }),
    {
        let ghost s = cursor.remaining();
        let ghost all = cursor.all_bytes();
        let ghost a0 = cursor.at();
        let version = match cursor.read_bytes(4) {
            Ok(b) => le_u32(b),
            Err(e) => {
                return Err(HeaderError::new(HeaderErrorKind::VersionError, e));
            },
        };
        proof {
            crate::blkparser::helpers::lemma_skip_skip(all, a0, 4);
            assert(cursor.remaining() == s.skip(4));
        }
        let prev_hash = match Self::build_hash(&mut cursor) {
            Ok(h) => h,
            Err(e) => {
                return Err(e);
            },
        };
        proof {
            crate::blkparser::helpers::lemma_skip_take(s, 4, 32);
            crate::blkparser::helpers::lemma_skip_skip(all, a0, 36);
            assert(cursor.remaining() == s.skip(36));
        }
        let merkle_root = match Self::build_merkle_root(&mut cursor) {
            Ok(h) => h,
            Err(e) => {
                return Err(e);
            },
        };
        proof {
            crate::blkparser::helpers::lemma_skip_take(s, 36, 32);
            crate::blkparser::helpers::lemma_skip_skip(all, a0, 68);
            assert(cursor.remaining() == s.skip(68));
        }
        let time = match cursor.read_bytes(4) {
            Ok(b) => le_u32(b),
            Err(e) => {
                return Err(HeaderError::new(HeaderErrorKind::TimeError, e));
            },
        };
        proof {
            crate::blkparser::helpers::lemma_skip_take(s, 68, 4);
            crate::blkparser::helpers::lemma_skip_skip(all, a0, 72);
            assert(cursor.remaining() == s.skip(72));
        }
        let bits = match cursor.read_bytes(4) {
            Ok(b) => b,
            Err(e) => {
                return Err(HeaderError::new(HeaderErrorKind::BitsError, e));
            },
        };
        proof {
            crate::blkparser::helpers::lemma_skip_take(s, 72, 4);
            crate::blkparser::helpers::lemma_skip_skip(all, a0, 76);
            assert(cursor.remaining() == s.skip(76));
        }
        let nonce = match cursor.read_bytes(4) {
            Ok(b) => le_u32(b),
            Err(e) => {
                return Err(HeaderError::new(HeaderErrorKind::NonceError, e));
            },
        };
        proof {
            crate::blkparser::helpers::lemma_skip_take(s, 76, 4);
            assert(s.subrange(72, 76).take(4) =~= s.subrange(72, 76));
            crate::blkparser::helpers::lemma_le_val_fits_u32(s.take(4));
            crate::blkparser::helpers::lemma_le_val_fits_u32(s.subrange(68, 72));
            crate::blkparser::helpers::lemma_le_val_fits_u32(s.subrange(76, 80));
        }
        Ok(
            BlockHeader::new(
                version,
                prev_hash,
                merkle_root,
                MiningInfo::new(time, BlockTarget::from_slice(bits), nonce),
            ),
        )
    }

    /// Read the 32-byte previous-block hash, kept in the order read.
    fn build_hash<'a>(cursor: &mut Cursor<'a>) -> (r: Result<BitcoinHash, HeaderError>)
        requires
            old(cursor).wf(),
        ensures
            final(cursor).wf(),
            final(cursor).all_bytes() == old(cursor).all_bytes(),
            ({
                let s = old(cursor).remaining();
                &&& s.len() >= 32 ==> ({
                    &&& r matches Ok(h)
                    &&& h@ == s.take(32)
                    &&& final(cursor).at() == old(cursor).at() + 32
                })
                &&& s.len() < 32 ==> ({
                    &&& r matches Err(e)
                    &&& e.kind == HeaderErrorKind::HashError
                    &&& *final(cursor) == *old(cursor)
                })
            }),
    {
        match cursor.read_bytes(32) {
            Ok(b) => Ok(BitcoinHash::new(Self::build_hash_array(b))),
            Err(e) => Err(HeaderError::new(HeaderErrorKind::HashError, e)),
        }
    }

    /// Read the 32-byte merkle root, kept in the order read.
    fn build_merkle_root<'a>(cursor: &mut Cursor<'a>) -> (r: Result<BitcoinHash, HeaderError>)
        requires
            old(cursor).wf(),
        ensures
            final(cursor).wf(),
            final(cursor).all_bytes() == old(cursor).all_bytes(),
            ({
                let s = old(cursor).remaining();
                &&& s.len() >= 32 ==> ({
                    &&& r matches Ok(h)
                    &&& h@ == s.take(32)
                    &&& final(cursor).at() == old(cursor).at() + 32
                })
                &&& s.len() < 32 ==> ({
                    &&& r matches Err(e)
                    &&& e.kind == HeaderErrorKind::RootError
                    &&& *final(cursor) == *old(cursor)
                })
            }),
    {
        match cursor.read_bytes(32) {
            Ok(b) => Ok(BitcoinHash::new(Self::build_hash_array(b))),
            Err(e) => Err(HeaderError::new(HeaderErrorKind::RootError, e)),
        }
    }

    /// Copy the first 32 bytes of a slice into an owned hash buffer.
    fn build_hash_array(slice: &[u8]) -> (r: Vec<u8>)
        requires
            slice@.len() >= 32,
        ensures
            r@ == slice@.take(32),
    {
        crate::blkparser::helpers::slice_prefix_to_vec(slice, 32)
    }
}

/// One block as decoded from a frame: its raw length, its identity hash and
/// its contents.
#[derive(Debug)]
pub struct SerialBlock {
    size: u32,
    hash: BitcoinHash,
    contents: Block<SerialTransaction>,
}

impl View for SerialBlock {
    type V = SpecSerialBlock;

    closed spec fn view(&self) -> SpecSerialBlock {
        SpecSerialBlock { size: self.size, hash: self.hash@, contents: self.contents@ }
    }
}

impl DeepView for SerialBlock {
    type V = SpecSerialBlock;

    open spec fn deep_view(&self) -> SpecSerialBlock {
        self@
    }
}

impl TransactionBlock for SerialBlock {
    type Transaction = SerialTransaction;
}

impl SerialBlock {
    /// The length of the block's raw region.
    pub fn size(&self) -> (r: u32)
        ensures
            r == self@.size,
    {
        self.size
    }

    /// The block identity hash.
    pub fn hash(&self) -> (r: &BitcoinHash)
        ensures
            r@ == self@.hash,
    {
        &self.hash
    }

    /// The decoded header and transactions.
    pub fn contents(&self) -> (r: &Block<SerialTransaction>)
        ensures
            r@ == self@.contents,
    {
        &self.contents
    }

    /// Decode one block from its framed region: hash the raw 80 header
    /// bytes, parse the header fields, then read the declared number of
    /// transactions.
    pub fn from_raw_data<'a>(mut cursor: Cursor<'a>) -> (r: Result<SerialBlock, BlockError>)
        requires
            cursor.wf(),
        ensures
            ({
                let s = cursor.remaining();
                match parse_block_at(s) {
                    Some(sb) => {
                        &&& r matches Ok(blk)
                        &&& blk@ == (SpecSerialBlock {
                            size: cursor.all_bytes().len() as u32,
                            ..sb
                        })
                    },
                    None => {
                        &&& r matches Err(e)
                        &&& block_error_matches(e, s)
                    },
                }
            }),
    {
        let ghost s = cursor.remaining();
        let ghost all = cursor.all_bytes();
        let ghost a0 = cursor.at();
        #[verifier::truncate]
        let size = cursor.size() as u32;
        let raw_header = match cursor.bytes_to_cursor(80) {
            Ok(c) => c,
            Err(e) => {
                return Err(
                    BlockError::new(BlockErrorKind::ReadError, Some(BlockErrorSource::Read(e))),
                );
            },
        };
        proof {
            assert(raw_header.remaining() =~= s.take(80));
        }
        let hash = BitcoinHash::hash_header(raw_header.get_ref());
        let header = match SerialHeader::build_header(raw_header) {
            Ok(h) => h,
            Err(e) => {
                proof {
                    assert(false);
                }
                return Err(
                    BlockError::new(
                        BlockErrorKind::HeaderError,
                        Some(BlockErrorSource::Header(e)),
                    ),
                );
            },
        };
        proof {
            crate::blkparser::helpers::lemma_skip_skip(all, a0, 80);
            assert(cursor.remaining() == s.skip(80));
        }
        let transactions = match Self::read_transactions(&mut cursor) {
            Ok(v) => v,
            Err(e) => {
                return Err(e);
            },
        };
        proof {
            let h80 = s.take(80);
            assert(h80.take(4) =~= s.take(4));
            assert(h80.subrange(4, 36) =~= s.subrange(4, 36));
            assert(h80.subrange(36, 68) =~= s.subrange(36, 68));
            assert(h80.subrange(68, 72) =~= s.subrange(68, 72));
            assert(h80.subrange(72, 76) =~= s.subrange(72, 76));
            assert(h80.subrange(76, 80) =~= s.subrange(76, 80));
            assert(parse_header_at(h80) == parse_header_at(s));
        }
        Ok(SerialBlock { size, hash, contents: Block::new(header, transactions) })
    }

    /// Read the transaction count, then that many transactions.
    #[verifier::rlimit(100)]
    fn read_transactions<'a>(cursor: &mut Cursor<'a>) -> (r: Result<
        Vec<SerialTransaction>,
        BlockError,
    >)
        requires
            old(cursor).wf(),
        ensures
            ({
                let s = old(cursor).remaining();
                if !varint_ok(s) {
                    &&& r matches Err(e)
                    &&& e.kind == BlockErrorKind::ReadError
                    &&& e.source matches Some(BlockErrorSource::Read(_))
                } else {
                    match parse_txs_at(s.skip(varint_size(s[0])), varint_val(s)) {
                        Some((txs, _c)) => {
                            &&& r matches Ok(v)
                            &&& v.deep_view() == txs
                        },
                        None => {
                            &&& r matches Err(e)
                            &&& e.kind == BlockErrorKind::TransactionError
                            &&& e.source matches Some(BlockErrorSource::Transaction(te))
                            &&& te.kind == tx_error_kind_for(
                                txs_flag_error(s.skip(varint_size(s[0])), varint_val(s)),
                            )
                        },
                    }
                }
            }),
    {
        let ghost s = old(cursor).remaining();
        let ghost all = old(cursor).all_bytes();
        let ghost a0 = old(cursor).at();
        let txcount = match read_var_int(cursor) {
            Ok(v) => v,
            Err(e) => {
                return Err(
                    BlockError::new(BlockErrorKind::ReadError, Some(BlockErrorSource::Read(e))),
                );
            },
        };
        let ghost vs = varint_size(s[0]);
        let ghost s1 = s.skip(vs);
        let ghost base = cursor.at();
        let n = txcount.value();
        let mut transactions: Vec<SerialTransaction> = Vec::new();
        let mut i: u64 = 0;
        proof {
            crate::blkparser::helpers::lemma_skip_skip(all, a0, vs);
            assert(s1 == all.skip(base));
            if parse_txs_at(s1, n as nat) is Some {
                let (txs, c) = parse_txs_at(s1, n as nat)->Some_0;
                assert(Seq::<SpecSerialTransaction>::empty() + txs =~= txs);
            }
        }
        while i < n
            invariant
                i <= n,
                cursor.wf(),
                cursor.all_bytes() == all,
                all == old(cursor).all_bytes(),
                s == old(cursor).remaining(),
                a0 == old(cursor).at(),
                varint_ok(s),
                n as nat == varint_val(s),
                vs == varint_size(s[0]),
                s1 == s.skip(vs),
                base == a0 + vs,
                0 <= base <= cursor.at() <= all.len(),
                s1 == all.skip(base),
                transactions.deep_view().len() == i,
                ({
                    let ca = cursor.at() - base;
                    match parse_txs_at(cursor.remaining(), (n - i) as nat) {
                        Some((rest, c2)) => parse_txs_at(s1, n as nat) == Some(
                            (transactions.deep_view() + rest, ca + c2),
                        ),
                        None => parse_txs_at(s1, n as nat) is None,
                    }
                }),
                ({
                    txs_flag_error(s1, n as nat) == txs_flag_error(
                        cursor.remaining(),
                        (n - i) as nat,
                    )
                }),
            decreases n - i,
        {
            let ghost r0 = cursor.remaining();
            let ghost at0 = cursor.at();
            let ghost k = (n - i) as nat;
            let tx = match SerialTransaction::from_raw_data(cursor) {
                Ok(t) => t,
                Err(e) => {
                    proof {
                        assert(parse_txs_at(r0, k) is None);
                        assert(txs_flag_error(r0, k) == tx_flag_error(r0));
                    }
                    return Err(
                        BlockError::new(
                            BlockErrorKind::TransactionError,
                            Some(BlockErrorSource::Transaction(e)),
                        ),
                    );
                },
            };
            let ghost p = parse_tx_at(r0)->Some_0;
            let ghost dv0 = transactions.deep_view();
            transactions.push(tx);
            i = i + 1;
            proof {
                super::transaction::lemma_parse_tx_at_bounds(r0);
                assert(transactions.deep_view() =~= dv0.push(tx.deep_view()));
                crate::blkparser::helpers::lemma_skip_skip(all, at0, p.consumed);
                assert(cursor.remaining() == r0.skip(p.consumed));
                let k1 = (k - 1) as nat;
                if parse_txs_at(cursor.remaining(), k1) is Some {
                    let (rest, c2) = parse_txs_at(cursor.remaining(), k1)->Some_0;
                    assert(parse_txs_at(r0, k) == Some((seq![p.tx] + rest, p.consumed + c2)));
                    assert(dv0 + (seq![p.tx] + rest) =~= transactions.deep_view() + rest);
                } else {
                    assert(parse_txs_at(r0, k) is None);
                }
                assert(txs_flag_error(r0, k) == txs_flag_error(cursor.remaining(), k1));
            }
        }
        proof {
            assert(parse_txs_at(cursor.remaining(), 0) == Some(
                (Seq::<SpecSerialTransaction>::empty(), 0int),
            ));
            assert(transactions.deep_view() + Seq::<SpecSerialTransaction>::empty()
                =~= transactions.deep_view());
        }
        Ok(transactions)
    }
}

} // verus!
