//! Value types shared across the pipeline: variable-length integers, content
//! hashes and the incremental hash accumulator.

use vstd::prelude::*;

use crate::blkparser::helpers::{le_u16, le_u32, le_u64, le_val};

verus! {

/// A decoded unsigned 64-bit quantity with the chain's variable-width
/// encoding; see [`crate::blkparser::helpers::varint_val`].
#[derive(Clone, Copy, Debug)]
pub struct VarInt {
    value: u64,
}

impl View for VarInt {
    type V = u64;

    closed spec fn view(&self) -> u64 {
        self.value
    }
}

impl VarInt {
    /// Wrap an already-decoded value.
    pub fn new(number: u64) -> (r: Self)
        ensures
            r@ == number,
    {
        VarInt { value: number }
    }

    /// The numeric value.
    pub fn value(&self) -> (r: u64)
        ensures
            r == self@,
    {
        self.value
    }

    /// Decode from 2 little-endian bytes, as after a 0xfd marker.
    pub fn from_2_bytes(data: &[u8]) -> (r: Self)
        requires
            data@.len() == 2,
        ensures
            r@ as nat == le_val(data@),
    {
        VarInt { value: le_u16(data) as u64 }
    }

    /// Decode from 4 little-endian bytes, as after a 0xfe marker.
    pub fn from_4_bytes(data: &[u8]) -> (r: Self)
        requires
            data@.len() == 4,
        ensures
            r@ as nat == le_val(data@),
    {
        VarInt { value: le_u32(data) as u64 }
    }

    /// Decode from 8 little-endian bytes, as after a 0xff marker.
    pub fn from_8_bytes(data: &[u8]) -> (r: Self)
        requires
            data@.len() == 8,
        ensures
            r@ as nat == le_val(data@),
    {
        VarInt { value: le_u64(data) }
    }
}

/// The 4 raw bytes of a block's compact difficulty target, kept opaque.
#[derive(Debug)]
pub struct BlockTarget {
    bytes: Vec<u8>,
}

impl View for BlockTarget {
    type V = Seq<u8>;

    closed spec fn view(&self) -> Seq<u8> {
        self.bytes@
    }
}

impl BlockTarget {
    /// Wrap 4 raw target bytes.
    pub fn new(data: Vec<u8>) -> (r: Self)
        requires
            data@.len() == 4,
        ensures
            r@ == data@,
    {
        BlockTarget { bytes: data }
    }

    /// Take the first 4 bytes of `data` as the target.
    pub fn from_slice(data: &[u8]) -> (r: Self)
        requires
            data@.len() >= 4,
        ensures
            r@ == data@.take(4),
    {
        BlockTarget { bytes: crate::blkparser::helpers::slice_prefix_to_vec(data, 4) }
    }

    /// The raw bytes.
    pub fn bytes(&self) -> (r: &Vec<u8>)
        ensures
            r@ == self@,
    {
        &self.bytes
    }
}

/// What SHA-256 returns on `data`. The digest is a function of the input
/// bytes alone; its inner workings are not restated here.
pub uninterp spec fn sha256_of(data: Seq<u8>) -> Seq<u8>;

/// The chain's content-hash convention: double SHA-256, with the final
/// digest's byte order reversed for display.
pub open spec fn btc_hash_of(data: Seq<u8>) -> Seq<u8> {
    sha256_of(sha256_of(data)).reverse()
}

/// Relies on sha2's `Sha256::digest`: a one-shot SHA-256, a pure function of
/// the input bytes whose output is exactly 32 bytes.
#[verifier::external_body]
fn sha256(data: &[u8]) -> (r: Vec<u8>)
    ensures
        r@ == sha256_of(data@),
        r@.len() == 32,
{
    <sha2::Sha256 as sha2::Digest>::digest(data).to_vec()
}

/// A copy of `b` with the byte order reversed.
fn reversed(b: &[u8]) -> (r: Vec<u8>)
    ensures
        r@ == b@.reverse(),
{
    let n = b.len();
    let mut out: Vec<u8> = Vec::new();
    let mut i: usize = 0;
    while i < n
        invariant
            i <= n,
            n == b@.len(),
            out@.len() == i,
            forall|j: int| 0 <= j < i ==> out@[j] == b@[n - 1 - j],
        decreases n - i,
    {
        out.push(b[n - 1 - i]);
        i = i + 1;
    }
    proof {
        assert(out@ =~= b@.reverse());
    }
    out
}

/// A 32-byte content identifier, stored in the chain's display byte order.
#[derive(Debug)]
pub struct BitcoinHash {
    bytes: Vec<u8>,
}

impl View for BitcoinHash {
    type V = Seq<u8>;

    closed spec fn view(&self) -> Seq<u8> {
        self.bytes@
    }
}

impl BitcoinHash {
    /// Wrap 32 bytes already in storage order.
    pub fn new(data: Vec<u8>) -> (r: Self)
        requires
            data@.len() == 32,
        ensures
            r@ == data@,
    {
        BitcoinHash { bytes: data }
    }

    /// Wrap 32 little-endian bytes, reversing them into storage order.
    pub fn from_little_endian(data: Vec<u8>) -> (r: Self)
        requires
            data@.len() == 32,
        ensures
            r@ == data@.reverse(),
    {
        BitcoinHash { bytes: reversed(data.as_slice()) }
    }

    /// The identity hash of a byte region: double SHA-256 of `digest`, with
    /// the digest byte order reversed before storage.
    pub fn hash_header(digest: &[u8]) -> (r: Self)
        ensures
            r@ == btc_hash_of(digest@),
            r@.len() == 32,
    {
        let first = sha256(digest);
        let second = sha256(first.as_slice());
        BitcoinHash { bytes: reversed(second.as_slice()) }
    }

    /// The stored bytes.
    pub fn bytes(&self) -> (r: &Vec<u8>)
        ensures
            r@ == self@,
    {
        &self.bytes
    }
}

/// Collects the bytes of a record as they are read, to be digested once at
/// the end into the record's hash.
#[derive(Debug)]
pub struct BitcoinHashBuilder {
    contents: Vec<u8>,
}

impl View for BitcoinHashBuilder {
    type V = Seq<u8>;

    closed spec fn view(&self) -> Seq<u8> {
        self.contents@
    }
}

impl BitcoinHashBuilder {
    /// An accumulator holding no bytes yet.
    pub fn new() -> (r: Self)
        ensures
            r@ == Seq::<u8>::empty(),
    {
        BitcoinHashBuilder { contents: Vec::new() }
    }

    /// Append `data` to the bytes to be hashed.
    pub fn add_digest(&mut self, data: &[u8])
        ensures
            final(self)@ == old(self)@ + data@,
    {
        let mut i: usize = 0;
        let n = data.len();
        while i < n
            invariant
                i <= n,
                n == data@.len(),
                self.contents@ == old(self).contents@ + data@.take(i as int),
            decreases n - i,
        {
            self.contents.push(data[i]);
            proof {
                assert(old(self).contents@ + data@.take(i as int) + seq![data@[i as int]]
                    =~= old(self).contents@ + data@.take(i + 1));
            }
            i = i + 1;
        }
        proof {
            assert(data@.take(n as int) =~= data@);
        }
    }

    /// Digest the collected bytes into the record's hash.
    pub fn into_hash(self) -> (r: BitcoinHash)
        ensures
            r@ == btc_hash_of(self@),
            r@.len() == 32,
    {
        BitcoinHash::hash_header(self.contents.as_slice())
    }
}

impl Default for BitcoinHashBuilder {
    /// An accumulator holding no bytes yet.
    fn default() -> (r: Self)
        ensures
            r@ == Seq::<u8>::empty(),
    {
        BitcoinHashBuilder { contents: Vec::new() }
    }
}

} // verus!
