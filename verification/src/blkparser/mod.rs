//! The binary decoding pipeline: bounds-checked cursor, variable-length
//! integer codec, block framing, header and transaction parsing.

pub mod block;
pub mod cursor;
pub mod helpers;
pub mod transaction;

use vstd::prelude::*;

use self::block::{block_error_matches, parse_block_at, SpecSerialBlock};
use self::cursor::Cursor;
use self::helpers::{be_u32, be_val, le_u32, le_val};
use crate::blockchain::BlockChain;
use crate::parser::{ParallelParser, ParseError, ParseErrorKind, ParseErrorSource, Parser};

pub use block::SerialBlock;
pub use transaction::SerialTransaction;

verus! {

/// The delimiter that opens every frame, read big-endian.
pub const MAGIC_BYTES: u32 = 0xf9be_b4d9;

/// What scanning a whole buffer for frames and decoding every block yields.
pub enum SpecChainResult {
    /// Every frame was well-formed: the decoded blocks, in file order.
    Blocks(Seq<SpecSerialBlock>),
    /// A frame delimiter held this value instead of the magic bytes.
    Magic(u32),
    /// The buffer ended inside a delimiter, a length or a frame body.
    Truncated,
    /// A frame was carved whole but its block failed to decode; carries the
    /// frame's bytes.
    Bad(Seq<u8>),
}

/// Scan `s` as a sequence of magic-delimited, length-prefixed frames and
/// decode each frame's block. An empty buffer is a complete, empty chain;
/// anything else must start with the magic bytes.
pub open spec fn parse_chain_at(s: Seq<u8>) -> SpecChainResult
    decreases s.len(),
{
    if s.len() == 0 {
        SpecChainResult::Blocks(Seq::empty())
    } else if s.len() < 4 {
        SpecChainResult::Truncated
    } else if be_val(s.take(4)) != MAGIC_BYTES {
        SpecChainResult::Magic(be_val(s.take(4)) as u32)
    } else if s.len() < 8 {
        SpecChainResult::Truncated
    } else {
        let l = le_val(s.subrange(4, 8)) as int;
        if s.len() < 8 + l {
            SpecChainResult::Truncated
        } else {
            let frame = s.subrange(8, 8 + l);
            match parse_block_at(frame) {
                None => SpecChainResult::Bad(frame),
                Some(sb) => match parse_chain_at(s.skip(8 + l)) {
                    SpecChainResult::Blocks(rest) => SpecChainResult::Blocks(seq![sb] + rest),
                    other => other,
                },
            }
        }
    }
}

/// An empty buffer holds zero frames and is no error: it decodes to the
/// empty chain.
pub proof fn lemma_empty_buffer_empty_chain(s: Seq<u8>)
    requires
        s.len() == 0,
    ensures
        parse_chain_at(s) == SpecChainResult::Blocks(Seq::<SpecSerialBlock>::empty()),
{
}

/// Decodes whole buffers of framed blocks into ordered chains.
#[derive(Default)]
pub struct BitcoinParser {}

impl BitcoinParser {
    /// A fresh parser.
    pub fn new() -> (r: Self) {
        BitcoinParser {}
    }

    /// Read the next frame off the cursor: the magic delimiter, a
    /// little-endian length, and that many bytes carved off as the frame's
    /// own cursor. An exhausted cursor yields no frame and no error; a wrong
    /// delimiter or a short read is an error.
    pub fn next_frame<'a>(cursor: &mut Cursor<'a>) -> (r: Result<Option<Cursor<'a>>, ParseError>)
        requires
            old(cursor).wf(),
        ensures
            final(cursor).wf(),
            final(cursor).all_bytes() == old(cursor).all_bytes(),
            ({
                let s = old(cursor).remaining();
                &&& s.len() == 0 ==> (r matches Ok(o) && o is None)
                &&& (1 <= s.len() < 4) ==> ({
                    &&& r matches Err(e)
                    &&& e.kind == ParseErrorKind::ReadError
                    &&& e.source matches Some(ParseErrorSource::Read(_))
                })
                &&& (s.len() >= 4 && be_val(s.take(4)) != MAGIC_BYTES) ==> ({
                    &&& r matches Err(e)
                    &&& e == (ParseError {
                        kind: ParseErrorKind::ReadError,
                        source: Some(ParseErrorSource::Magic(be_val(s.take(4)) as u32)),
                    })
                })
                &&& (4 <= s.len() < 8 && be_val(s.take(4)) == MAGIC_BYTES) ==> ({
                    &&& r matches Err(e)
                    &&& e.kind == ParseErrorKind::ReadError
                    &&& e.source matches Some(ParseErrorSource::Read(_))
                })
                &&& (s.len() >= 8 && be_val(s.take(4)) == MAGIC_BYTES) ==> ({
                    let l = le_val(s.subrange(4, 8)) as int;
                    &&& s.len() < 8 + l ==> ({
                        &&& r matches Err(e)
                        &&& e.kind == ParseErrorKind::ReadError
                        &&& e.source matches Some(ParseErrorSource::Read(_))
                    })
                    &&& s.len() >= 8 + l ==> ({
                        &&& r matches Ok(o)
                        &&& o matches Some(f)
                        &&& f.wf()
                        &&& f.at() == 0
                        &&& f.all_bytes() == s.subrange(8, 8 + l)
                        &&& final(cursor).at() == old(cursor).at() + 8 + l
                    })
                })
            }),
    {
        let ghost s = old(cursor).remaining();
        let ghost all = old(cursor).all_bytes();
        let ghost a0 = old(cursor).at();
        if cursor.remaining_len() == 0 {
            return Ok(None);
        }
        let delim_bytes = match cursor.read_bytes(4) {
            Ok(b) => b,
            Err(e) => {
                return Err(
                    ParseError::new(ParseErrorKind::ReadError, Some(ParseErrorSource::Read(e))),
                );
            },
        };
        let delimiter = be_u32(delim_bytes);
        if delimiter != MAGIC_BYTES {
            return Err(
                ParseError::new(
                    ParseErrorKind::ReadError,
                    Some(ParseErrorSource::Magic(delimiter)),
                ),
            );
        }
        proof {
            crate::blkparser::helpers::lemma_skip_skip(all, a0, 4);
            assert(cursor.remaining() == s.skip(4));
        }
        let size_bytes = match cursor.read_bytes(4) {
            Ok(b) => b,
            Err(e) => {
                return Err(
                    ParseError::new(ParseErrorKind::ReadError, Some(ParseErrorSource::Read(e))),
                );
            },
        };
        let size = le_u32(size_bytes);
        proof {
            crate::blkparser::helpers::lemma_skip_take(s, 4, 4);
            crate::blkparser::helpers::lemma_skip_skip(all, a0, 8);
            assert(cursor.remaining() == s.skip(8));
        }
        let frame = match cursor.bytes_to_cursor(size as usize) {
            Ok(c) => c,
            Err(e) => {
                return Err(
                    ParseError::new(ParseErrorKind::ReadError, Some(ParseErrorSource::Read(e))),
                );
            },
        };
        proof {
            crate::blkparser::helpers::lemma_skip_take(s, 8, size as int);
        }
        Ok(Some(frame))
    }

    /// Decode a whole buffer: scan it frame by frame, parse each frame's
    /// block, and collect the blocks in file order. The first failure of
    /// any kind aborts the parse with no partial chain.
    pub fn parse_buffer(&mut self, buffer: &[u8]) -> (r: Result<
        BlockChain<SerialBlock>,
        ParseError,
    >)
        ensures
            match parse_chain_at(buffer@) {
                SpecChainResult::Blocks(bs) => {
                    &&& r matches Ok(c)
                    &&& c@ == bs
                },
                SpecChainResult::Magic(m) => {
                    &&& r matches Err(e)
                    &&& e == (ParseError {
                        kind: ParseErrorKind::ReadError,
                        source: Some(ParseErrorSource::Magic(m)),
                    })
                },
                SpecChainResult::Truncated => {
                    &&& r matches Err(e)
                    &&& e.kind == ParseErrorKind::ReadError
                    &&& e.source matches Some(ParseErrorSource::Read(_))
                },
                SpecChainResult::Bad(frame) => {
                    &&& r matches Err(e)
                    &&& e.kind == ParseErrorKind::BlockError
                    &&& e.source matches Some(ParseErrorSource::Block(be))
                    &&& block_error_matches(be, frame)
                },
            },
    {
        let mut cursor = Cursor::new(buffer);
        let mut chain: BlockChain<SerialBlock> = BlockChain::new();
        proof {
            assert(cursor.remaining() =~= buffer@);
            match parse_chain_at(buffer@) {
                SpecChainResult::Blocks(bs) => {
                    assert(Seq::<SpecSerialBlock>::empty() + bs =~= bs);
                },
                _ => {},
            }
        }
        while cursor.remaining_len() > 0
            invariant
                cursor.wf(),
                cursor.all_bytes() == buffer@,
                ({
                    match parse_chain_at(cursor.remaining()) {
                        SpecChainResult::Blocks(rest) => parse_chain_at(buffer@)
                            == SpecChainResult::Blocks(chain@ + rest),
                        other => parse_chain_at(buffer@) == other,
                    }
                }),
            decreases cursor.remaining().len(),
        {
            let ghost r0 = cursor.remaining();
            let ghost at0 = cursor.at();
            let frame = match Self::next_frame(&mut cursor) {
                Ok(Some(f)) => f,
                Ok(None) => {
                    proof {
                        assert(false);
                    }
                    return Err(ParseError::new(ParseErrorKind::ReadError, None));
                },
                Err(e) => {
                    return Err(e);
                },
            };
            let ghost l = le_val(r0.subrange(4, 8)) as int;
            let ghost fb = r0.subrange(8, 8 + l);
            proof {
                assert(frame.remaining() =~= fb);
            }
            let block = match SerialBlock::from_raw_data(frame) {
                Ok(b) => b,
                Err(be) => {
                    proof {
                        assert(parse_chain_at(r0) == SpecChainResult::Bad(fb));
                    }
                    return Err(
                        ParseError::new(
                            ParseErrorKind::BlockError,
                            Some(ParseErrorSource::Block(be)),
                        ),
                    );
                },
            };
            let ghost chain0 = chain@;
            let ghost sb = parse_block_at(fb)->Some_0;
            chain.push(block);
            proof {
                assert(block@ == sb);
                crate::blkparser::helpers::lemma_skip_skip(buffer@, at0, 8 + l);
                assert(cursor.remaining() == r0.skip(8 + l));
                match parse_chain_at(cursor.remaining()) {
                    SpecChainResult::Blocks(rest2) => {
                        assert(parse_chain_at(r0) == SpecChainResult::Blocks(seq![sb] + rest2));
                        assert(chain0 + (seq![sb] + rest2) =~= chain@ + rest2);
                    },
                    _ => {
                        assert(parse_chain_at(r0) == parse_chain_at(cursor.remaining()));
                    },
                }
            }
        }
        proof {
            assert(parse_chain_at(cursor.remaining()) == SpecChainResult::Blocks(
                Seq::<SpecSerialBlock>::empty(),
            ));
            assert(chain@ + Seq::<SpecSerialBlock>::empty() =~= chain@);
        }
        Ok(chain)
    }
}

impl Parser<SerialBlock> for BitcoinParser {
    /// Decode a whole buffer into an ordered chain of blocks.
    fn parse(&mut self, buffer: &[u8]) -> Result<BlockChain<SerialBlock>, ParseError> {
        self.parse_buffer(buffer)
    }
}

impl ParallelParser<SerialBlock> for BitcoinParser {
    /// Decode a whole buffer into an ordered chain of blocks.
    fn parse(&mut self, buffer: &[u8]) -> Result<BlockChain<SerialBlock>, ParseError> {
        self.parse_buffer(buffer)
    }
}

} // verus!
