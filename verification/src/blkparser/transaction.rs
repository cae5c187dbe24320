//! The transaction parser: consumes inputs, outputs and, conditionally,
//! witness data from a cursor, while a hash accumulator collects exactly the
//! bytes of the transaction's legacy serialization.

use vstd::prelude::*;

use super::cursor::Cursor;
use super::helpers::{
    le_u32, le_u64, le_val, read_var_int, read_var_int_marker, varint_ok, varint_size, varint_val,
};
use crate::blockchain::script::BitcoinScript;
use crate::blockchain::transactions::{
    any_witness, Input, Output, SpecInput, SpecOutput, SpecTransaction, SpecUtxo, Transaction,
    Utxo, Witness,
};
use crate::parser::{ReadError, TransactionError, TransactionErrorKind};
use crate::types::{btc_hash_of, BitcoinHash, BitcoinHashBuilder, VarInt};

verus! {

/// The mathematical value of a [`SerialTransaction`].
pub struct SpecSerialTransaction {
    /// The declared input count.
    pub txin: u64,
    /// The declared output count.
    pub txout: u64,
    /// The hash of the legacy serialization.
    pub hash: Seq<u8>,
    /// The decoded record.
    pub contents: SpecTransaction,
}

/// What parsing one transaction from the start of a byte string yields.
pub struct SpecTxParse {
    /// The decoded transaction.
    pub tx: SpecSerialTransaction,
    /// How many bytes the transaction occupied.
    pub consumed: int,
    /// The bytes of the legacy serialization: version, counts, inputs,
    /// outputs and locktime, with marker, flag and witnesses left out.
    pub legacy: Seq<u8>,
    /// How many bytes the witness section occupied; zero without one.
    pub witness_len: int,
}

/// Parse a length-prefixed byte string (a script or a witness item) at the
/// start of `s`: the declared length, the bytes, and the bytes consumed.
pub open spec fn parse_script_at(s: Seq<u8>) -> Option<(nat, Seq<u8>, int)> {
    if !varint_ok(s) {
        None
    } else {
        let vs = varint_size(s[0]);
        let sl = varint_val(s) as int;
        if vs + sl <= s.len() {
            Some((varint_val(s), s.subrange(vs, vs + sl), vs + sl))
        } else {
            None
        }
    }
}

/// Parse one transaction input at the start of `s`: 32-byte previous txid,
/// 4-byte output index, length-prefixed unlock script, 4-byte sequence.
pub open spec fn parse_input_at(s: Seq<u8>) -> Option<(SpecInput, int)> {
    if s.len() < 36 {
        None
    } else {
        match parse_script_at(s.skip(36)) {
            None => None,
            Some((_sz, script, c)) => {
                if 36 + c + 4 <= s.len() {
                    Some(
                        (
                            SpecInput {
                                utxo: SpecUtxo {
                                    txid: s.take(32),
                                    vout: le_val(s.subrange(32, 36)) as u32,
                                },
                                signature: script,
                                sequence: le_val(s.subrange(36 + c, 36 + c + 4)) as u32,
                                witness: None,
                            },
                            36 + c + 4,
                        ),
                    )
                } else {
                    None
                }
            },
        }
    }
}

/// Parse `n` transaction inputs in sequence at the start of `s`.
pub open spec fn parse_inputs_at(s: Seq<u8>, n: nat) -> Option<(Seq<SpecInput>, int)>
    decreases n,
{
    if n == 0 {
        Some((Seq::empty(), 0))
    } else {
        match parse_input_at(s) {
            None => None,
            Some((first, c)) => match parse_inputs_at(s.skip(c), (n - 1) as nat) {
                None => None,
                Some((rest, c2)) => Some((seq![first] + rest, c + c2)),
            },
        }
    }
}

/// Parse one transaction output at the start of `s`: 8-byte value, then a
/// length-prefixed lock script.
pub open spec fn parse_output_at(s: Seq<u8>) -> Option<(SpecOutput, int)> {
    if s.len() < 8 {
        None
    } else {
        match parse_script_at(s.skip(8)) {
            None => None,
            Some((_sz, script, c)) => Some(
                (SpecOutput { value: le_val(s.take(8)) as u64, pubkey: script }, 8 + c),
            ),
        }
    }
}

/// Parse `n` transaction outputs in sequence at the start of `s`.
pub open spec fn parse_outputs_at(s: Seq<u8>, n: nat) -> Option<(Seq<SpecOutput>, int)>
    decreases n,
{
    if n == 0 {
        Some((Seq::empty(), 0))
    } else {
        match parse_output_at(s) {
            None => None,
            Some((first, c)) => match parse_outputs_at(s.skip(c), (n - 1) as nat) {
                None => None,
                Some((rest, c2)) => Some((seq![first] + rest, c + c2)),
            },
        }
    }
}

/// Parse `n` length-prefixed witness stack items at the start of `s`.
pub open spec fn parse_witness_items(s: Seq<u8>, n: nat) -> Option<(Seq<Seq<u8>>, int)>
    decreases n,
{
    if n == 0 {
        Some((Seq::empty(), 0))
    } else {
        match parse_script_at(s) {
            None => None,
            Some((_sz, item, c)) => match parse_witness_items(s.skip(c), (n - 1) as nat) {
                None => None,
                Some((rest, c2)) => Some((seq![item] + rest, c + c2)),
            },
        }
    }
}

/// Parse one input's witness stack at the start of `s`: an item count, then
/// that many items. A count of zero leaves the input without a witness,
/// which is distinct from an attached empty stack.
pub open spec fn parse_witness_at(s: Seq<u8>) -> Option<(Option<Seq<Seq<u8>>>, int)> {
    if !varint_ok(s) {
        None
    } else {
        let vs = varint_size(s[0]);
        let n = varint_val(s);
        if n == 0 {
            Some((None, vs))
        } else {
            match parse_witness_items(s.skip(vs), n) {
                None => None,
                Some((items, c)) => Some((Some(items), vs + c)),
            }
        }
    }
}

/// Parse `n` witness stacks in sequence at the start of `s`, one per input.
pub open spec fn parse_witnesses_at(s: Seq<u8>, n: nat) -> Option<
    (Seq<Option<Seq<Seq<u8>>>>, int),
>
    decreases n,
{
    if n == 0 {
        Some((Seq::empty(), 0))
    } else {
        match parse_witness_at(s) {
            None => None,
            Some((first, c)) => match parse_witnesses_at(s.skip(c), (n - 1) as nat) {
                None => None,
                Some((rest, c2)) => Some((seq![first] + rest, c + c2)),
            },
        }
    }
}

/// Attach the witness stacks read for a segwit transaction to its inputs,
/// in order.
pub open spec fn attach_witnesses(
    inputs: Seq<SpecInput>,
    witnesses: Seq<Option<Seq<Seq<u8>>>>,
) -> Seq<SpecInput>
    recommends
        inputs.len() == witnesses.len(),
{
    Seq::new(inputs.len(), |i: int| SpecInput { witness: witnesses[i], ..inputs[i] })
}

/// Parse the shared middle of a transaction at the start of `s`: the input
/// count, the inputs, the output count and the outputs. Yields the inputs,
/// the outputs, the two counts, and the bytes consumed.
pub open spec fn parse_mid_at(s: Seq<u8>) -> Option<
    (Seq<SpecInput>, Seq<SpecOutput>, nat, nat, int),
> {
    if !varint_ok(s) {
        None
    } else {
        let nin = varint_val(s);
        let vs = varint_size(s[0]);
        match parse_inputs_at(s.skip(vs), nin) {
            None => None,
            Some((ins, ci)) => {
                let t = s.skip(vs + ci);
                if !varint_ok(t) {
                    None
                } else {
                    let nout = varint_val(t);
                    let vso = varint_size(t[0]);
                    match parse_outputs_at(t.skip(vso), nout) {
                        None => None,
                        Some((outs, co)) => Some((ins, outs, nin, nout, vs + ci + vso + co)),
                    }
                }
            },
        }
    }
}

/// Parse one whole transaction at the start of `s`.
///
/// A first post-version byte of 0x00 always signals segregated-witness
/// framing and demands a flag byte of 0x01; any other first byte is the
/// leading byte of the input-count integer. The legacy bytes are the
/// version, the middle section and the locktime, never marker, flag or
/// witness data, and the transaction's hash is the double SHA-256 of
/// exactly those bytes, byte-reversed.
pub open spec fn parse_tx_at(s: Seq<u8>) -> Option<SpecTxParse> {
    if s.len() < 5 {
        None
    } else {
        let version = le_val(s.take(4)) as u32;
        if s[4] == 0x00 {
            if s.len() < 6 || s[5] != 0x01 {
                None
            } else {
                match parse_mid_at(s.skip(6)) {
                    None => None,
                    Some((ins, outs, nin, nout, cm)) => {
                        let wstart = 6 + cm;
                        match parse_witnesses_at(s.skip(wstart), nin) {
                            None => None,
                            Some((ws, cw)) => {
                                let lstart = wstart + cw;
                                if s.len() < lstart + 4 {
                                    None
                                } else {
                                    let legacy = s.take(4) + s.subrange(6, wstart) + s.subrange(
                                        lstart,
                                        lstart + 4,
                                    );
                                    let ins2 = attach_witnesses(ins, ws);
                                    Some(
                                        SpecTxParse {
                                            tx: SpecSerialTransaction {
                                                txin: nin as u64,
                                                txout: nout as u64,
                                                hash: btc_hash_of(legacy),
                                                contents: SpecTransaction {
                                                    version,
                                                    inputs: ins2,
                                                    outputs: outs,
                                                    segwit: any_witness(ins2),
                                                    locktime: le_val(
                                                        s.subrange(lstart, lstart + 4),
                                                    ) as u32,
                                                },
                                            },
                                            consumed: lstart + 4,
                                            legacy,
                                            witness_len: cw,
                                        },
                                    )
                                }
                            },
                        }
                    },
                }
            }
        } else {
            match parse_mid_at(s.skip(4)) {
                None => None,
                Some((ins, outs, nin, nout, cm)) => {
                    let lstart = 4 + cm;
                    if s.len() < lstart + 4 {
                        None
                    } else {
                        let legacy = s.take(lstart + 4);
                        Some(
                            SpecTxParse {
                                tx: SpecSerialTransaction {
                                    txin: nin as u64,
                                    txout: nout as u64,
                                    hash: btc_hash_of(legacy),
                                    contents: SpecTransaction {
                                        version,
                                        inputs: ins,
                                        outputs: outs,
                                        segwit: any_witness(ins),
                                        locktime: le_val(s.subrange(lstart, lstart + 4)) as u32,
                                    },
                                },
                                consumed: lstart + 4,
                                legacy,
                                witness_len: 0,
                            },
                        )
                    }
                },
            }
        }
    }
}

/// The segwit flag value on which parsing `s` as a transaction fails with a
/// flag error: present exactly when the marker byte is 0x00 and the flag
/// byte could be read but is not 0x01.
pub open spec fn tx_flag_error(s: Seq<u8>) -> Option<u8> {
    if s.len() >= 6 && s[4] == 0x00 && s[5] != 0x01 {
        Some(s[5])
    } else {
        None
    }
}

/// The transaction error kind that a failed parse carries: a flag error
/// with the observed value where the flag byte was wrong, a read error
/// otherwise.
pub open spec fn tx_error_kind_for(flag: Option<u8>) -> TransactionErrorKind {
    match flag {
        Some(f) => TransactionErrorKind::FlagError(f as u64),
        None => TransactionErrorKind::ReadError,
    }
}

/// A transaction's hash digests exactly its legacy serialization: the
/// version, the counts, the inputs, the outputs and the locktime, never the
/// marker, the flag or the witness bytes. For a transaction without the
/// marker that is the whole consumed region; with it, the two marker bytes
/// and the witness section drop out.
pub proof fn lemma_legacy_hash(s: Seq<u8>)
    requires
        parse_tx_at(s) is Some,
    ensures
        ({
            let p = parse_tx_at(s)->Some_0;
            &&& p.tx.hash == btc_hash_of(p.legacy)
            &&& (s[4] != 0x00 ==> p.legacy == s.take(p.consumed))
            &&& (s[4] == 0x00 ==> p.legacy == s.take(4) + s.subrange(
                6,
                p.consumed - 4 - p.witness_len,
            ) + s.subrange(p.consumed - 4, p.consumed))
        }),
{
}

/// A witness stack count of zero leaves the input without a witness, which
/// is distinct from attaching an empty stack.
pub proof fn lemma_zero_witness_count(s: Seq<u8>)
    requires
        varint_ok(s),
        varint_val(s) == 0,
    ensures
        parse_witness_at(s) == Some((None::<Seq<Seq<u8>>>, varint_size(s[0]))),
{
}

/// A parsed length-prefixed byte string fits inside its buffer.
pub proof fn lemma_parse_script_at_bounds(s: Seq<u8>)
    requires
        parse_script_at(s) is Some,
    ensures
        1 <= parse_script_at(s)->Some_0.2 <= s.len(),
{
}

/// Parsed inputs fit inside their buffer and match the asked-for count.
pub proof fn lemma_parse_inputs_at_bounds(s: Seq<u8>, n: nat)
    requires
        parse_inputs_at(s, n) is Some,
    ensures
        0 <= parse_inputs_at(s, n)->Some_0.1 <= s.len(),
        parse_inputs_at(s, n)->Some_0.0.len() == n,
        forall|j: int|
            0 <= j < n ==> parse_inputs_at(s, n)->Some_0.0[j].witness is None,
    decreases n,
{
    if n != 0 {
        let (first, c) = parse_input_at(s)->Some_0;
        lemma_parse_script_at_bounds(s.skip(36));
        lemma_parse_inputs_at_bounds(s.skip(c), (n - 1) as nat);
    }
}

/// Parsed outputs fit inside their buffer and match the asked-for count.
pub proof fn lemma_parse_outputs_at_bounds(s: Seq<u8>, n: nat)
    requires
        parse_outputs_at(s, n) is Some,
    ensures
        0 <= parse_outputs_at(s, n)->Some_0.1 <= s.len(),
        parse_outputs_at(s, n)->Some_0.0.len() == n,
    decreases n,
{
    if n != 0 {
        let (first, c) = parse_output_at(s)->Some_0;
        lemma_parse_script_at_bounds(s.skip(8));
        lemma_parse_outputs_at_bounds(s.skip(c), (n - 1) as nat);
    }
}

/// Parsed witness items fit inside their buffer.
pub proof fn lemma_parse_witness_items_bounds(s: Seq<u8>, n: nat)
    requires
        parse_witness_items(s, n) is Some,
    ensures
        0 <= parse_witness_items(s, n)->Some_0.1 <= s.len(),
        parse_witness_items(s, n)->Some_0.0.len() == n,
    decreases n,
{
    if n != 0 {
        let (sz, item, c) = parse_script_at(s)->Some_0;
        lemma_parse_script_at_bounds(s);
        lemma_parse_witness_items_bounds(s.skip(c), (n - 1) as nat);
    }
}

/// A parsed witness stack fits inside its buffer.
pub proof fn lemma_parse_witness_at_bounds(s: Seq<u8>)
    requires
        parse_witness_at(s) is Some,
    ensures
        1 <= parse_witness_at(s)->Some_0.1 <= s.len(),
{
    let vs = varint_size(s[0]);
    if varint_val(s) != 0 {
        lemma_parse_witness_items_bounds(s.skip(vs), varint_val(s));
    }
}

/// Parsed witness stacks fit inside their buffer and match the input count.
pub proof fn lemma_parse_witnesses_at_bounds(s: Seq<u8>, n: nat)
    requires
        parse_witnesses_at(s, n) is Some,
    ensures
        0 <= parse_witnesses_at(s, n)->Some_0.1 <= s.len(),
        parse_witnesses_at(s, n)->Some_0.0.len() == n,
    decreases n,
{
    if n != 0 {
        let (first, c) = parse_witness_at(s)->Some_0;
        lemma_parse_witness_at_bounds(s);
        lemma_parse_witnesses_at_bounds(s.skip(c), (n - 1) as nat);
    }
}

/// The parsed middle section fits inside its buffer.
pub proof fn lemma_parse_mid_at_bounds(s: Seq<u8>)
    requires
        parse_mid_at(s) is Some,
    ensures
        1 <= parse_mid_at(s)->Some_0.4 <= s.len(),
        parse_mid_at(s)->Some_0.0.len() == parse_mid_at(s)->Some_0.2,
        parse_mid_at(s)->Some_0.1.len() == parse_mid_at(s)->Some_0.3,
{
    let nin = varint_val(s);
    let vs = varint_size(s[0]);
    lemma_parse_inputs_at_bounds(s.skip(vs), nin);
    let (ins, ci) = parse_inputs_at(s.skip(vs), nin)->Some_0;
    let t = s.skip(vs + ci);
    lemma_parse_outputs_at_bounds(t.skip(varint_size(t[0])), varint_val(t));
}

/// Couples the cursor walk with the hash accumulator: each method reads one
/// field, and feeds the accumulator exactly the bytes that belong to the
/// legacy serialization.
pub struct TxParser {
    hasher: BitcoinHashBuilder,
}

impl View for TxParser {
    type V = Seq<u8>;

    closed spec fn view(&self) -> Seq<u8> {
        self.hasher@
    }
}

/// The transaction-level error that wraps a failed cursor read.
fn read_failure(e: ReadError) -> (r: TransactionError)
    ensures
        r == (TransactionError { kind: TransactionErrorKind::ReadError, source: Some(e) }),
{
    TransactionError::new(TransactionErrorKind::ReadError, Some(e))
}

impl TxParser {
    /// A parser whose accumulator holds no bytes yet.
    pub fn new() -> (r: Self)
        ensures
            r@ == Seq::<u8>::empty(),
    {
        TxParser { hasher: BitcoinHashBuilder::new() }
    }

    /// Digest the accumulated legacy bytes into the transaction hash.
    pub fn generate_txhash(self) -> (r: BitcoinHash)
        ensures
            r@ == btc_hash_of(self@),
            r@.len() == 32,
    {
        self.hasher.into_hash()
    }

    /// Read `bytes` bytes without feeding the accumulator.
    pub fn parse_bytes<'a>(&mut self, cursor: &mut Cursor<'a>, bytes: usize) -> (r: Result<
        &'a [u8],
        TransactionError,
    >)
        requires
            old(cursor).wf(),
        ensures
            final(cursor).wf(),
            final(cursor).all_bytes() == old(cursor).all_bytes(),
            final(self)@ == old(self)@,
            bytes <= old(cursor).remaining().len() ==> ({
                &&& r matches Ok(b)
                &&& b@ == old(cursor).remaining().take(bytes as int)
                &&& final(cursor).at() == old(cursor).at() + bytes
            }),
            bytes > old(cursor).remaining().len() ==> ({
                &&& r matches Err(e)
                &&& e == (TransactionError {
                    kind: TransactionErrorKind::ReadError,
                    source: Some(
                        ReadError {
                            requested: bytes as u64,
                            available: old(cursor).remaining().len() as u64,
                        },
                    ),
                })
                &&& *final(cursor) == *old(cursor)
            }),
    {
        match cursor.read_bytes(bytes) {
            Ok(b) => Ok(b),
            Err(e) => Err(read_failure(e)),
        }
    }

    /// Read `bytes` bytes and feed them to the accumulator.
    pub fn parse_bytes_hash<'a>(&mut self, cursor: &mut Cursor<'a>, bytes: usize) -> (r: Result<
        &'a [u8],
        TransactionError,
    >)
        requires
            old(cursor).wf(),
        ensures
            final(cursor).wf(),
            final(cursor).all_bytes() == old(cursor).all_bytes(),
            bytes <= old(cursor).remaining().len() ==> ({
                &&& r matches Ok(b)
                &&& b@ == old(cursor).remaining().take(bytes as int)
                &&& final(cursor).at() == old(cursor).at() + bytes
                &&& final(self)@ == old(self)@ + b@
            }),
            bytes > old(cursor).remaining().len() ==> ({
                &&& r matches Err(e)
                &&& e == (TransactionError {
                    kind: TransactionErrorKind::ReadError,
                    source: Some(
                        ReadError {
                            requested: bytes as u64,
                            available: old(cursor).remaining().len() as u64,
                        },
                    ),
                })
                &&& *final(cursor) == *old(cursor)
                &&& final(self)@ == old(self)@
            }),
    {
        match cursor.read_bytes(bytes) {
            Ok(b) => {
                self.hasher.add_digest(b);
                Ok(b)
            },
            Err(e) => Err(read_failure(e)),
        }
    }

    /// Read the one marker byte after the version. A marker other than 0x00
    /// is the first byte of the input count and belongs to the legacy
    /// serialization, so only then is it fed to the accumulator.
    pub fn parse_marker<'a>(&mut self, cursor: &mut Cursor<'a>) -> (r: Result<
        u8,
        TransactionError,
    >)
        requires
            old(cursor).wf(),
        ensures
            final(cursor).wf(),
            final(cursor).all_bytes() == old(cursor).all_bytes(),
            old(cursor).remaining().len() >= 1 ==> ({
                &&& r matches Ok(m)
                &&& m == old(cursor).remaining()[0]
                &&& final(cursor).at() == old(cursor).at() + 1
                &&& final(self)@ == if m != 0x00 {
                    old(self)@ + seq![m]
                } else {
                    old(self)@
                }
            }),
            old(cursor).remaining().len() == 0 ==> ({
                &&& r matches Err(e)
                &&& e == (TransactionError {
                    kind: TransactionErrorKind::ReadError,
                    source: Some(ReadError { requested: 1u64, available: 0u64 }),
                })
                &&& *final(cursor) == *old(cursor)
                &&& final(self)@ == old(self)@
            }),
    {
        match cursor.read_bytes(1) {
            Ok(b) => {
                let m = b[0];
                if m != 0x00 {
                    self.hasher.add_digest(b);
                }
                proof {
                    assert(b@ =~= seq![old(cursor).remaining()[0]]);
                }
                Ok(m)
            },
            Err(e) => Err(read_failure(e)),
        }
    }

    /// Decode a variable-length integer without feeding the accumulator.
    pub fn parse_var_int<'a>(&mut self, cursor: &mut Cursor<'a>) -> (r: Result<
        VarInt,
        TransactionError,
    >)
        requires
            old(cursor).wf(),
        ensures
            final(cursor).wf(),
            final(cursor).all_bytes() == old(cursor).all_bytes(),
            final(self)@ == old(self)@,
            ({
                let s = old(cursor).remaining();
                &&& varint_ok(s) ==> ({
                    &&& r matches Ok(v)
                    &&& v@ == varint_val(s)
                    &&& final(cursor).at() == old(cursor).at() + varint_size(s[0])
                })
                &&& !varint_ok(s) ==> ({
                    &&& r matches Err(e)
                    &&& e.kind == TransactionErrorKind::ReadError
                    &&& e.source is Some
                })
            }),
    {
        match read_var_int(cursor) {
            Ok(v) => Ok(v),
            Err(e) => Err(read_failure(e)),
        }
    }

    /// Decode a variable-length integer and feed all its bytes, the marker
    /// included, to the accumulator.
    pub fn parse_var_int_hash<'a>(&mut self, cursor: &mut Cursor<'a>) -> (r: Result<
        VarInt,
        TransactionError,
    >)
        requires
            old(cursor).wf(),
        ensures
            final(cursor).wf(),
            final(cursor).all_bytes() == old(cursor).all_bytes(),
            ({
                let s = old(cursor).remaining();
                &&& varint_ok(s) ==> ({
                    &&& r matches Ok(v)
                    &&& v@ == varint_val(s)
                    &&& final(cursor).at() == old(cursor).at() + varint_size(s[0])
                    &&& final(self)@ == old(self)@ + s.take(varint_size(s[0]))
                })
                &&& !varint_ok(s) ==> ({
                    &&& r matches Err(e)
                    &&& e.kind == TransactionErrorKind::ReadError
                    &&& e.source is Some
                    &&& final(self)@ == old(self)@
                })
            }),
    {
        let position = cursor.position();
        match read_var_int(cursor) {
            Ok(v) => {
                let end = cursor.position();
                let consumed = vstd::slice::slice_subrange(cursor.get_ref(), position, end);
                self.hasher.add_digest(consumed);
                proof {
                    let s = old(cursor).remaining();
                    assert(consumed@ =~= s.take(varint_size(s[0])));
                }
                Ok(v)
            },
            Err(e) => Err(read_failure(e)),
        }
    }

    /// Decode a variable-length integer whose marker byte has already been
    /// read and accumulated, feeding the follow-up bytes to the accumulator.
    pub fn parse_var_int_marker<'a>(&mut self, marker: u8, cursor: &mut Cursor<'a>) -> (r: Result<
        VarInt,
        TransactionError,
    >)
        requires
            old(cursor).wf(),
        ensures
            final(cursor).wf(),
            final(cursor).all_bytes() == old(cursor).all_bytes(),
            ({
                let s = seq![marker] + old(cursor).remaining();
                &&& varint_ok(s) ==> ({
                    &&& r matches Ok(v)
                    &&& v@ == varint_val(s)
                    &&& final(cursor).at() == old(cursor).at() + varint_size(marker) - 1
                    &&& final(self)@ == old(self)@ + old(cursor).remaining().take(
                        varint_size(marker) - 1,
                    )
                })
                &&& !varint_ok(s) ==> ({
                    &&& r matches Err(e)
                    &&& e.kind == TransactionErrorKind::ReadError
                    &&& e.source is Some
                    &&& final(self)@ == old(self)@
                    &&& *final(cursor) == *old(cursor)
                })
            }),
    {
        let position = cursor.position();
        match read_var_int_marker(marker, cursor) {
            Ok(v) => {
                let end = cursor.position();
                let consumed = vstd::slice::slice_subrange(cursor.get_ref(), position, end);
                self.hasher.add_digest(consumed);
                proof {
                    assert(consumed@ =~= old(cursor).remaining().take(varint_size(marker) - 1));
                }
                Ok(v)
            },
            Err(e) => Err(read_failure(e)),
        }
    }

    /// Read the 4-byte little-endian transaction version, accumulated.
    pub fn parse_version<'a>(&mut self, cursor: &mut Cursor<'a>) -> (r: Result<
        u32,
        TransactionError,
    >)
        requires
            old(cursor).wf(),
        ensures
            final(cursor).wf(),
            final(cursor).all_bytes() == old(cursor).all_bytes(),
            ({
                let s = old(cursor).remaining();
                &&& s.len() >= 4 ==> ({
                    &&& r matches Ok(v)
                    &&& v as nat == le_val(s.take(4))
                    &&& final(cursor).at() == old(cursor).at() + 4
                    &&& final(self)@ == old(self)@ + s.take(4)
                })
                &&& s.len() < 4 ==> ({
                    &&& r matches Err(e)
                    &&& e.kind == TransactionErrorKind::ReadError
                    &&& e.source is Some
                    &&& final(self)@ == old(self)@
                    &&& *final(cursor) == *old(cursor)
                })
            }),
    {
        match self.parse_bytes_hash(cursor, 4) {
            Ok(b) => Ok(le_u32(b)),
            Err(e) => Err(e),
        }
    }

    /// Read an input's 32-byte previous-transaction hash, accumulated and
    /// stored in the order read.
    pub fn parse_txid<'a>(&mut self, cursor: &mut Cursor<'a>) -> (r: Result<
        BitcoinHash,
        TransactionError,
    >)
        requires
            old(cursor).wf(),
        ensures
            final(cursor).wf(),
            final(cursor).all_bytes() == old(cursor).all_bytes(),
            ({
                let s = old(cursor).remaining();
                &&& s.len() >= 32 ==> ({
                    &&& r matches Ok(h)
                    &&& h@ == s.take(32)
                    &&& final(cursor).at() == old(cursor).at() + 32
                    &&& final(self)@ == old(self)@ + s.take(32)
                })
                &&& s.len() < 32 ==> ({
                    &&& r matches Err(e)
                    &&& e.kind == TransactionErrorKind::ReadError
                    &&& e.source is Some
                    &&& final(self)@ == old(self)@
                    &&& *final(cursor) == *old(cursor)
                })
            }),
    {
        match self.parse_bytes_hash(cursor, 32) {
            Ok(b) => Ok(BitcoinHash::new(vstd::slice::slice_to_vec(b))),
            Err(e) => Err(e),
        }
    }

    /// Read an input's 4-byte little-endian output index, accumulated.
    pub fn parse_vout<'a>(&mut self, cursor: &mut Cursor<'a>) -> (r: Result<
        u32,
        TransactionError,
    >)
        requires
            old(cursor).wf(),
        ensures
            final(cursor).wf(),
            final(cursor).all_bytes() == old(cursor).all_bytes(),
            ({
                let s = old(cursor).remaining();
                &&& s.len() >= 4 ==> ({
                    &&& r matches Ok(v)
                    &&& v as nat == le_val(s.take(4))
                    &&& final(cursor).at() == old(cursor).at() + 4
                    &&& final(self)@ == old(self)@ + s.take(4)
                })
                &&& s.len() < 4 ==> ({
                    &&& r matches Err(e)
                    &&& e.kind == TransactionErrorKind::ReadError
                    &&& e.source is Some
                    &&& final(self)@ == old(self)@
                    &&& *final(cursor) == *old(cursor)
                })
            }),
    {
        match self.parse_bytes_hash(cursor, 4) {
            Ok(b) => Ok(le_u32(b)),
            Err(e) => Err(e),
        }
    }

    /// Read a length-prefixed script: its size integer and its bytes, all
    /// accumulated.
    pub fn parse_script<'a>(&mut self, cursor: &mut Cursor<'a>) -> (r: Result<
        (VarInt, Vec<u8>),
        TransactionError,
    >)
        requires
            old(cursor).wf(),
        ensures
            final(cursor).wf(),
            final(cursor).all_bytes() == old(cursor).all_bytes(),
            ({
                let s = old(cursor).remaining();
                match parse_script_at(s) {
                    Some((sz, script, c)) => {
                        &&& r matches Ok(p)
                        &&& p.0@ == sz
                        &&& p.1@ == script
                        &&& final(cursor).at() == old(cursor).at() + c
                        &&& final(self)@ == old(self)@ + s.take(c)
                    },
                    None => {
                        &&& r matches Err(e)
                        &&& e.kind == TransactionErrorKind::ReadError
                        &&& e.source is Some
                    },
                }
            }),
    {
        let ghost s = old(cursor).remaining();
        let size = match self.parse_var_int_hash(cursor) {
            Ok(v) => v,
            Err(e) => {
                return Err(e);
            },
        };
        let n = size.value();
        let left = cursor.remaining_len();
        if n > left as u64 {
            return Err(read_failure(ReadError { requested: n, available: left as u64 }));
        }
        match self.parse_bytes_hash(cursor, n as usize) {
            Ok(b) => {
                proof {
                    let vs = varint_size(s[0]);
                    let sl = varint_val(s) as int;
                    assert(cursor.remaining() =~= s.skip(vs + sl));
                    assert(s.skip(vs).take(sl) =~= s.subrange(vs, vs + sl));
                    assert(old(self)@ + s.take(vs) + s.subrange(vs, vs + sl) =~= old(self)@
                        + s.take(vs + sl));
                }
                Ok((size, vstd::slice::slice_to_vec(b)))
            },
            Err(e) => Err(e),
        }
    }

    /// Read an input's 4-byte little-endian sequence field, accumulated.
    pub fn parse_sequence<'a>(&mut self, cursor: &mut Cursor<'a>) -> (r: Result<
        u32,
        TransactionError,
    >)
        requires
            old(cursor).wf(),
        ensures
            final(cursor).wf(),
            final(cursor).all_bytes() == old(cursor).all_bytes(),
            ({
                let s = old(cursor).remaining();
                &&& s.len() >= 4 ==> ({
                    &&& r matches Ok(v)
                    &&& v as nat == le_val(s.take(4))
                    &&& final(cursor).at() == old(cursor).at() + 4
                    &&& final(self)@ == old(self)@ + s.take(4)
                })
                &&& s.len() < 4 ==> ({
                    &&& r matches Err(e)
                    &&& e.kind == TransactionErrorKind::ReadError
                    &&& e.source is Some
                    &&& final(self)@ == old(self)@
                    &&& *final(cursor) == *old(cursor)
                })
            }),
    {
        match self.parse_bytes_hash(cursor, 4) {
            Ok(b) => Ok(le_u32(b)),
            Err(e) => Err(e),
        }
    }

    /// Read an output's 8-byte little-endian value, accumulated.
    pub fn parse_out_value<'a>(&mut self, cursor: &mut Cursor<'a>) -> (r: Result<
        u64,
        TransactionError,
    >)
        requires
            old(cursor).wf(),
        ensures
            final(cursor).wf(),
            final(cursor).all_bytes() == old(cursor).all_bytes(),
            ({
                let s = old(cursor).remaining();
                &&& s.len() >= 8 ==> ({
                    &&& r matches Ok(v)
                    &&& v as nat == le_val(s.take(8))
                    &&& final(cursor).at() == old(cursor).at() + 8
                    &&& final(self)@ == old(self)@ + s.take(8)
                })
                &&& s.len() < 8 ==> ({
                    &&& r matches Err(e)
                    &&& e.kind == TransactionErrorKind::ReadError
                    &&& e.source is Some
                    &&& final(self)@ == old(self)@
                    &&& *final(cursor) == *old(cursor)
                })
            }),
    {
        match self.parse_bytes_hash(cursor, 8) {
            Ok(b) => Ok(le_u64(b)),
            Err(e) => Err(e),
        }
    }

    /// Read the 4-byte little-endian locktime, accumulated.
    pub fn parse_locktime<'a>(&mut self, cursor: &mut Cursor<'a>) -> (r: Result<
        u32,
        TransactionError,
    >)
        requires
            old(cursor).wf(),
        ensures
            final(cursor).wf(),
            final(cursor).all_bytes() == old(cursor).all_bytes(),
            ({
                let s = old(cursor).remaining();
                &&& s.len() >= 4 ==> ({
                    &&& r matches Ok(v)
                    &&& v as nat == le_val(s.take(4))
                    &&& final(cursor).at() == old(cursor).at() + 4
                    &&& final(self)@ == old(self)@ + s.take(4)
                })
                &&& s.len() < 4 ==> ({
                    &&& r matches Err(e)
                    &&& e.kind == TransactionErrorKind::ReadError
                    &&& e.source is Some
                    &&& final(self)@ == old(self)@
                    &&& *final(cursor) == *old(cursor)
                })
            }),
    {
        match self.parse_bytes_hash(cursor, 4) {
            Ok(b) => Ok(le_u32(b)),
            Err(e) => Err(e),
        }
    }
}

/// A parsed transaction fits inside its buffer.
pub proof fn lemma_parse_tx_at_bounds(s: Seq<u8>)
    requires
        parse_tx_at(s) is Some,
    ensures
        5 <= parse_tx_at(s)->Some_0.consumed <= s.len(),
{
    if s[4] == 0x00 {
        lemma_parse_mid_at_bounds(s.skip(6));
        let (ins, outs, nin, nout, cm) = parse_mid_at(s.skip(6))->Some_0;
        lemma_parse_witnesses_at_bounds(s.skip(6 + cm), nin);
    } else {
        lemma_parse_mid_at_bounds(s.skip(4));
    }
}

/// One transaction as decoded from the wire: the declared counts, the hash
/// of its legacy serialization, and the record itself.
#[derive(Debug)]
pub struct SerialTransaction {
    txin: VarInt,
    txout: VarInt,
    hash: BitcoinHash,
    contents: Transaction,
}

impl View for SerialTransaction {
    type V = SpecSerialTransaction;

    closed spec fn view(&self) -> SpecSerialTransaction {
        SpecSerialTransaction {
            txin: self.txin@,
            txout: self.txout@,
            hash: self.hash@,
            contents: self.contents@,
        }
    }
}

impl DeepView for SerialTransaction {
    type V = SpecSerialTransaction;

    open spec fn deep_view(&self) -> SpecSerialTransaction {
        self@
    }
}

impl crate::Transaction for SerialTransaction {}

impl SerialTransaction {
    /// The declared input count.
    pub fn txin(&self) -> (r: &VarInt)
        ensures
            r@ == self@.txin,
    {
        &self.txin
    }

    /// The declared output count.
    pub fn txout(&self) -> (r: &VarInt)
        ensures
            r@ == self@.txout,
    {
        &self.txout
    }

    /// The hash of the legacy serialization.
    pub fn hash(&self) -> (r: &BitcoinHash)
        ensures
            r@ == self@.hash,
    {
        &self.hash
    }

    /// The decoded record.
    pub fn contents(&self) -> (r: &Transaction)
        ensures
            r@ == self@.contents,
    {
        &self.contents
    }

    /// Decode one transaction from the cursor: version, conditional
    /// marker/flag, inputs, outputs, witnesses where announced, and
    /// locktime. On success the cursor stands right after the transaction
    /// and the record's hash digests exactly the legacy serialization.
    #[verifier::rlimit(100)]
    pub fn from_raw_data<'a>(cursor: &mut Cursor<'a>) -> (r: Result<
        SerialTransaction,
        TransactionError,
    >)
        requires
            old(cursor).wf(),
        ensures
            final(cursor).wf(),
            final(cursor).all_bytes() == old(cursor).all_bytes(),
            ({
                let s = old(cursor).remaining();
                match parse_tx_at(s) {
                    Some(p) => {
                        &&& r matches Ok(t)
                        &&& t@ == p.tx
                        &&& final(cursor).at() == old(cursor).at() + p.consumed
                    },
                    None => r is Err,
                }
            }),
            ({
                let s = old(cursor).remaining();
                r matches Err(e) ==> ({
                    &&& parse_tx_at(s) is None
                    &&& (match tx_flag_error(s) {
                        Some(f) => e.kind == TransactionErrorKind::FlagError(f as u64),
                        None => e.kind == TransactionErrorKind::ReadError,
                    })
                })
            }),
    {
        let ghost s = old(cursor).remaining();
        let ghost all = old(cursor).all_bytes();
        let ghost a0 = old(cursor).at();
        let mut txparser = TxParser::new();
        let version = match txparser.parse_version(cursor) {
            Ok(v) => v,
            Err(e) => {
                return Err(e);
            },
        };
        proof {
            assert(Seq::<u8>::empty() + s.take(4) =~= s.take(4));
            crate::blkparser::helpers::lemma_skip_skip(all, a0, 4);
            assert(cursor.remaining() == s.skip(4));
        }
        let marker = match txparser.parse_marker(cursor) {
            Ok(m) => m,
            Err(e) => {
                return Err(e);
            },
        };
        proof {
            assert(s.skip(4)[0] == s[4]);
            crate::blkparser::helpers::lemma_skip_skip(all, a0, 5);
            assert(cursor.remaining() == s.skip(5));
        }
        let segwit = marker == 0x00;
        let txin;
        if segwit {
            let flag = match txparser.parse_bytes(cursor, 1) {
                Ok(b) => b[0],
                Err(e) => {
                    return Err(e);
                },
            };
            proof {
                assert(s.skip(5).take(1)[0] == s[5]);
            }
            if flag != 0x01 {
                return Err(
                    TransactionError::new(TransactionErrorKind::FlagError(flag as u64), None),
                );
            }
            proof {
                crate::blkparser::helpers::lemma_skip_skip(all, a0, 6);
                assert(cursor.remaining() == s.skip(6));
            }
            txin = match txparser.parse_var_int_hash(cursor) {
                Ok(v) => v,
                Err(e) => {
                    return Err(e);
                },
            };
        } else {
            proof {
                assert(seq![marker] + s.skip(5) =~= s.skip(4));
            }
            txin = match txparser.parse_var_int_marker(marker, cursor) {
                Ok(v) => v,
                Err(e) => {
                    proof {
                        assert(!varint_ok(s.skip(4)));
                    }
                    return Err(e);
                },
            };
        }
        let ghost boff: int = if segwit { 6int } else { 4int };
        let ghost b = s.skip(boff);
        let ghost vs = varint_size(b[0]);
        proof {
            if segwit {
                assert(b == s.skip(6));
                assert(varint_ok(b));
                assert(txparser@ == s.take(4) + b.take(vs));
            } else {
                assert(b == s.skip(4));
                assert(b[0] == marker);
                assert(varint_ok(b));
                // The accumulator holds the version, the marker and the
                // follow-up bytes of the count: exactly the first bytes of
                // the count's encoding.
                assert(seq![marker] + s.skip(5).take(vs - 1) =~= s.skip(4).take(vs));
                assert(s.take(4) + seq![marker] + s.skip(5).take(vs - 1) =~= s.take(4) + (
                seq![marker] + s.skip(5).take(vs - 1)));
                assert(txparser@ == s.take(4) + b.take(vs));
            }
            crate::blkparser::helpers::lemma_skip_skip(all, a0, boff + vs);
            crate::blkparser::helpers::lemma_skip_skip(s, boff, vs);
            assert(cursor.remaining() == b.skip(vs));
        }
        let inputs = match Self::read_inputs(txin.value(), &mut txparser, cursor) {
            Ok(v) => v,
            Err(e) => {
                proof {
                    assert(parse_mid_at(b) is None);
                    assert(parse_tx_at(s) is None);
                }
                return Err(e);
            },
        };
        let ghost ins = parse_inputs_at(b.skip(vs), txin@ as nat)->Some_0.0;
        let ghost ci = parse_inputs_at(b.skip(vs), txin@ as nat)->Some_0.1;
        let ghost t = b.skip(vs + ci);
        proof {
            lemma_parse_inputs_at_bounds(b.skip(vs), txin@ as nat);
            crate::blkparser::helpers::lemma_skip_take(b, vs, ci);
            crate::blkparser::helpers::lemma_accum_extend(s.take(4), b, vs, vs + ci);
            assert(txparser@ == s.take(4) + b.take(vs + ci));
            crate::blkparser::helpers::lemma_skip_skip(all, a0, boff + vs + ci);
            crate::blkparser::helpers::lemma_skip_skip(s, boff, vs + ci);
            crate::blkparser::helpers::lemma_skip_skip(b, vs, ci);
            assert(cursor.remaining() == t);
        }
        let txout = match txparser.parse_var_int_hash(cursor) {
            Ok(v) => v,
            Err(e) => {
                proof {
                    assert(parse_mid_at(b) is None);
                    assert(parse_tx_at(s) is None);
                }
                return Err(e);
            },
        };
        let ghost vso = varint_size(t[0]);
        proof {
            crate::blkparser::helpers::lemma_skip_take(b, vs + ci, vso);
            crate::blkparser::helpers::lemma_accum_extend(s.take(4), b, vs + ci, vs + ci + vso);
            assert(txparser@ == s.take(4) + b.take(vs + ci + vso));
            crate::blkparser::helpers::lemma_skip_skip(all, a0, boff + vs + ci + vso);
            crate::blkparser::helpers::lemma_skip_skip(s, boff, vs + ci + vso);
            crate::blkparser::helpers::lemma_skip_skip(b, vs + ci, vso);
            assert(cursor.remaining() == t.skip(vso));
            assert(t.skip(vso) == b.skip(vs + ci + vso));
        }
        let outputs = match Self::read_outputs(txout.value(), &mut txparser, cursor) {
            Ok(v) => v,
            Err(e) => {
                proof {
                    assert(parse_outputs_at(t.skip(vso), txout@ as nat) is None);
                    assert(parse_mid_at(b) is None);
                    assert(parse_tx_at(s) is None);
                }
                return Err(e);
            },
        };
        let ghost outs = parse_outputs_at(t.skip(vso), txout@ as nat)->Some_0.0;
        let ghost co = parse_outputs_at(t.skip(vso), txout@ as nat)->Some_0.1;
        let ghost cm = vs + ci + vso + co;
        proof {
            lemma_parse_outputs_at_bounds(t.skip(vso), txout@ as nat);
            crate::blkparser::helpers::lemma_skip_take(b, vs + ci + vso, co);
            crate::blkparser::helpers::lemma_accum_extend(s.take(4), b, vs + ci + vso, cm);
            assert(txparser@ == s.take(4) + b.take(cm));
            assert(parse_mid_at(b) == Some((ins, outs, txin@ as nat, txout@ as nat, cm)));
            crate::blkparser::helpers::lemma_skip_skip(all, a0, boff + cm);
            crate::blkparser::helpers::lemma_skip_skip(s, boff, cm);
            crate::blkparser::helpers::lemma_skip_skip(b, vs + ci + vso, co);
            assert(cursor.remaining() == s.skip(boff + cm));
        }
        let ghost cw: int = if segwit {
            parse_witnesses_at(s.skip(6 + cm), txin@ as nat)->Some_0.1
        } else {
            0int
        };
        let ghost ws = parse_witnesses_at(s.skip(6 + cm), txin@ as nat)->Some_0.0;
        let inputs = if segwit {
            match Self::read_witnesses(inputs, &mut txparser, cursor) {
                Ok(v) => v,
                Err(e) => {
                    proof {
                        assert(parse_witnesses_at(s.skip(6 + cm), txin@ as nat) is None);
                        assert(parse_tx_at(s) is None);
                    }
                    return Err(e);
                },
            }
        } else {
            inputs
        };
        let ghost lstart = boff + cm + cw;
        proof {
            if segwit {
                lemma_parse_witnesses_at_bounds(s.skip(6 + cm), txin@ as nat);
                crate::blkparser::helpers::lemma_skip_skip(all, a0, lstart);
                crate::blkparser::helpers::lemma_skip_skip(s, 6 + cm, cw);
            }
            assert(cursor.remaining() == s.skip(lstart));
        }
        let locktime = match txparser.parse_locktime(cursor) {
            Ok(v) => v,
            Err(e) => {
                proof {
                    assert(s.len() < lstart + 4);
                    assert(parse_tx_at(s) is None);
                }
                return Err(e);
            },
        };
        let ghost legacy = parse_tx_at(s)->Some_0.legacy;
        proof {
            // The accumulator holds exactly the legacy serialization.
            crate::blkparser::helpers::lemma_skip_take(s, boff, cm);
            crate::blkparser::helpers::lemma_skip_take(s, lstart, 4);
            assert(txparser@ == s.take(4) + s.subrange(boff, boff + cm) + s.subrange(
                lstart,
                lstart + 4,
            ));
            if !segwit {
                crate::blkparser::helpers::lemma_concat3_prefix(s, 4, 4 + cm, lstart + 4);
                assert(txparser@ == s.take(lstart + 4));
            }
            crate::blkparser::helpers::lemma_le_val_fits_u32(s.take(4));
            crate::blkparser::helpers::lemma_skip_take(s, lstart, 4);
            crate::blkparser::helpers::lemma_le_val_fits_u32(s.subrange(lstart, lstart + 4));
        }
        let hash = txparser.generate_txhash();
        let contents = Transaction::new(version, inputs, outputs, locktime);
        let result = SerialTransaction { txin, txout, hash, contents };
        proof {
            let p = parse_tx_at(s)->Some_0;
            assert(parse_tx_at(s) is Some);
            assert(result@.contents == p.tx.contents);
            assert(result@ == p.tx);
            assert(cursor.at() == a0 + p.consumed);
        }
        Ok(result)
    }

    /// Read `amount` inputs in sequence, all their bytes accumulated.
    fn read_inputs<'a>(amount: u64, parser: &mut TxParser, cursor: &mut Cursor<'a>) -> (r: Result<
        Vec<Input>,
        TransactionError,
    >)
        requires
            old(cursor).wf(),
        ensures
            final(cursor).wf(),
            final(cursor).all_bytes() == old(cursor).all_bytes(),
            ({
                let s = old(cursor).remaining();
                match parse_inputs_at(s, amount as nat) {
                    Some((ins, c)) => {
                        &&& r matches Ok(v)
                        &&& v.deep_view() == ins
                        &&& final(cursor).at() == old(cursor).at() + c
                        &&& final(parser)@ == old(parser)@ + s.take(c)
                    },
                    None => {
                        &&& r matches Err(e)
                        &&& e.kind == TransactionErrorKind::ReadError
                        &&& e.source is Some
                    },
                }
            }),
    {
        let ghost s0 = old(cursor).remaining();
        let ghost base = old(cursor).at();
        let mut inputs: Vec<Input> = Vec::new();
        let mut i: u64 = 0;
        proof {
            assert(old(parser)@ + s0.take(0) =~= old(parser)@);
            if parse_inputs_at(s0, amount as nat) is Some {
                let (ins, c) = parse_inputs_at(s0, amount as nat)->Some_0;
                assert(Seq::<SpecInput>::empty() + ins =~= ins);
            }
        }
        while i < amount
            invariant
                i <= amount,
                cursor.wf(),
                cursor.all_bytes() == old(cursor).all_bytes(),
                base == old(cursor).at(),
                s0 == old(cursor).remaining(),
                0 <= base <= cursor.at() <= cursor.all_bytes().len(),
                parser@ == old(parser)@ + s0.take(cursor.at() - base),
                inputs.deep_view().len() == i,
                ({
                    let ca = cursor.at() - base;
                    match parse_inputs_at(cursor.remaining(), (amount - i) as nat) {
                        Some((rest, c2)) => parse_inputs_at(s0, amount as nat) == Some(
                            (inputs.deep_view() + rest, ca + c2),
                        ),
                        None => parse_inputs_at(s0, amount as nat) is None,
                    }
                }),
            decreases amount - i,
        {
            let ghost r0 = cursor.remaining();
            let ghost h0 = parser@;
            let ghost at0 = cursor.at();
            let ghost all = cursor.all_bytes();
            let ghost ca0 = at0 - base;
            let ghost k = (amount - i) as nat;
            proof {
                assert(s0 == all.skip(base));
                assert(r0 == all.skip(at0));
                crate::blkparser::helpers::lemma_skip_skip(all, base, ca0);
                assert(r0 == s0.skip(ca0));
            }
            let txid = match parser.parse_txid(cursor) {
                Ok(t) => t,
                Err(e) => {
                    proof {
                        assert(parse_input_at(r0) is None);
                        assert(parse_inputs_at(r0, k) is None);
                    }
                    return Err(e);
                },
            };
            proof {
                crate::blkparser::helpers::lemma_skip_skip(all, at0, 32);
                assert(cursor.remaining() == r0.skip(32));
            }
            let vout = match parser.parse_vout(cursor) {
                Ok(v) => v,
                Err(e) => {
                    proof {
                        assert(r0.len() < 36);
                        assert(parse_input_at(r0) is None);
                        assert(parse_inputs_at(r0, k) is None);
                    }
                    return Err(e);
                },
            };
            proof {
                crate::blkparser::helpers::lemma_skip_skip(all, at0, 36);
                assert(cursor.remaining() == r0.skip(36));
            }
            let (_scriptsize, signature) = match parser.parse_script(cursor) {
                Ok(p) => p,
                Err(e) => {
                    proof {
                        assert(parse_script_at(r0.skip(36)) is None);
                        assert(parse_input_at(r0) is None);
                        assert(parse_inputs_at(r0, k) is None);
                    }
                    return Err(e);
                },
            };
            let ghost c = parse_script_at(r0.skip(36))->Some_0.2;
            proof {
                lemma_parse_script_at_bounds(r0.skip(36));
                crate::blkparser::helpers::lemma_skip_skip(all, at0, 36 + c);
                assert(cursor.remaining() == r0.skip(36 + c));
            }
            let sequence = match parser.parse_sequence(cursor) {
                Ok(v) => v,
                Err(e) => {
                    proof {
                        assert(r0.len() < 36 + c + 4);
                        assert(parse_input_at(r0) is None);
                        assert(parse_inputs_at(r0, k) is None);
                    }
                    return Err(e);
                },
            };
            let utxo = Utxo::new(txid, vout);
            let script = BitcoinScript::new(signature);
            let input = Input::new(utxo, script, sequence, None);
            let ghost ic = 36 + c + 4;
            let ghost dv0 = inputs.deep_view();
            proof {
                // The parsed fields match the specification input.
                crate::blkparser::helpers::lemma_skip_take(r0, 32, 4);
                crate::blkparser::helpers::lemma_le_val_fits_u32(r0.subrange(32, 36));
                crate::blkparser::helpers::lemma_skip_take(r0, 36 + c, 4);
                crate::blkparser::helpers::lemma_le_val_fits_u32(r0.subrange(36 + c, 36 + c + 4));
                assert(parse_input_at(r0) == Some((input.deep_view(), ic)));
                // The accumulator took exactly this input's bytes.
                crate::blkparser::helpers::lemma_accum_extend(h0, r0, 32, 36);
                crate::blkparser::helpers::lemma_skip_take(r0, 36, c);
                crate::blkparser::helpers::lemma_accum_extend(h0, r0, 36, 36 + c);
                crate::blkparser::helpers::lemma_accum_extend(h0, r0, 36 + c, ic);
                assert(parser@ == h0 + r0.take(ic));
                // And in terms of the whole input string.
                assert(cursor.at() == at0 + ic);
                assert(s0.len() == all.len() - base);
                crate::blkparser::helpers::lemma_skip_take(s0, ca0, ic);
                crate::blkparser::helpers::lemma_accum_extend(old(parser)@, s0, ca0, ca0 + ic);
                assert(parser@ == old(parser)@ + s0.take(ca0 + ic));
            }
            inputs.push(input);
            i = i + 1;
            proof {
                // The parsed sequence grew by this input.
                assert(inputs.deep_view() =~= dv0.push(input.deep_view()));
                // One step of the specification parser.
                crate::blkparser::helpers::lemma_skip_skip(all, at0, ic);
                assert(cursor.remaining() == r0.skip(ic));
                let k1 = (k - 1) as nat;
                if parse_inputs_at(cursor.remaining(), k1) is Some {
                    let (rest, c2) = parse_inputs_at(cursor.remaining(), k1)->Some_0;
                    assert(parse_inputs_at(r0, k) == Some(
                        (seq![input.deep_view()] + rest, ic + c2),
                    ));
                    assert(dv0 + (seq![input.deep_view()] + rest) =~= inputs.deep_view() + rest);
                } else {
                    assert(parse_inputs_at(r0, k) is None);
                }
            }
        }
        proof {
            assert(parse_inputs_at(cursor.remaining(), 0) == Some(
                (Seq::<SpecInput>::empty(), 0int),
            ));
            assert(inputs.deep_view() + Seq::<SpecInput>::empty() =~= inputs.deep_view());
        }
        Ok(inputs)
    }

    /// Read `amount` outputs in sequence, all their bytes accumulated.
    fn read_outputs<'a>(amount: u64, parser: &mut TxParser, cursor: &mut Cursor<'a>) -> (r: Result<
        Vec<Output>,
        TransactionError,
    >)
        requires
            old(cursor).wf(),
        ensures
            final(cursor).wf(),
            final(cursor).all_bytes() == old(cursor).all_bytes(),
            ({
                let s = old(cursor).remaining();
                match parse_outputs_at(s, amount as nat) {
                    Some((outs, c)) => {
                        &&& r matches Ok(v)
                        &&& v.deep_view() == outs
                        &&& final(cursor).at() == old(cursor).at() + c
                        &&& final(parser)@ == old(parser)@ + s.take(c)
                    },
                    None => {
                        &&& r matches Err(e)
                        &&& e.kind == TransactionErrorKind::ReadError
                        &&& e.source is Some
                    },
                }
            }),
    {
        let ghost s0 = old(cursor).remaining();
        let ghost base = old(cursor).at();
        let mut outputs: Vec<Output> = Vec::new();
        let mut i: u64 = 0;
        proof {
            assert(old(parser)@ + s0.take(0) =~= old(parser)@);
            if parse_outputs_at(s0, amount as nat) is Some {
                let (outs, c) = parse_outputs_at(s0, amount as nat)->Some_0;
                assert(Seq::<SpecOutput>::empty() + outs =~= outs);
            }
        }
        while i < amount
            invariant
                i <= amount,
                cursor.wf(),
                cursor.all_bytes() == old(cursor).all_bytes(),
                base == old(cursor).at(),
                s0 == old(cursor).remaining(),
                0 <= base <= cursor.at() <= cursor.all_bytes().len(),
                parser@ == old(parser)@ + s0.take(cursor.at() - base),
                outputs.deep_view().len() == i,
                ({
                    let ca = cursor.at() - base;
                    match parse_outputs_at(cursor.remaining(), (amount - i) as nat) {
                        Some((rest, c2)) => parse_outputs_at(s0, amount as nat) == Some(
                            (outputs.deep_view() + rest, ca + c2),
                        ),
                        None => parse_outputs_at(s0, amount as nat) is None,
                    }
                }),
            decreases amount - i,
        {
            let ghost r0 = cursor.remaining();
            let ghost h0 = parser@;
            let ghost at0 = cursor.at();
            let ghost all = cursor.all_bytes();
            let ghost ca0 = at0 - base;
            let ghost k = (amount - i) as nat;
            proof {
                assert(s0 == all.skip(base));
                assert(r0 == all.skip(at0));
                crate::blkparser::helpers::lemma_skip_skip(all, base, ca0);
                assert(r0 == s0.skip(ca0));
            }
            let value = match parser.parse_out_value(cursor) {
                Ok(v) => v,
                Err(e) => {
                    proof {
                        assert(parse_output_at(r0) is None);
                        assert(parse_outputs_at(r0, k) is None);
                    }
                    return Err(e);
                },
            };
            proof {
                crate::blkparser::helpers::lemma_skip_skip(all, at0, 8);
                assert(cursor.remaining() == r0.skip(8));
            }
            let (_scriptsize, pubkey) = match parser.parse_script(cursor) {
                Ok(p) => p,
                Err(e) => {
                    proof {
                        assert(parse_script_at(r0.skip(8)) is None);
                        assert(parse_output_at(r0) is None);
                        assert(parse_outputs_at(r0, k) is None);
                    }
                    return Err(e);
                },
            };
            let ghost c = parse_script_at(r0.skip(8))->Some_0.2;
            let output = Output::new(value, BitcoinScript::new(pubkey));
            let ghost oc = 8 + c;
            let ghost dv0 = outputs.deep_view();
            proof {
                lemma_parse_script_at_bounds(r0.skip(8));
                // The parsed fields match the specification output.
                crate::blkparser::helpers::lemma_le_val_fits_u64(r0.take(8));
                assert(parse_output_at(r0) == Some((output.deep_view(), oc)));
                // The accumulator took exactly this output's bytes.
                crate::blkparser::helpers::lemma_skip_take(r0, 8, c);
                crate::blkparser::helpers::lemma_accum_extend(h0, r0, 8, oc);
                assert(parser@ == h0 + r0.take(oc));
                // And in terms of the whole input string.
                assert(cursor.at() == at0 + oc);
                assert(s0.len() == all.len() - base);
                crate::blkparser::helpers::lemma_skip_take(s0, ca0, oc);
                crate::blkparser::helpers::lemma_accum_extend(old(parser)@, s0, ca0, ca0 + oc);
                assert(parser@ == old(parser)@ + s0.take(ca0 + oc));
            }
            outputs.push(output);
            i = i + 1;
            proof {
                // The parsed sequence grew by this output.
                assert(outputs.deep_view() =~= dv0.push(output.deep_view()));
                // One step of the specification parser.
                crate::blkparser::helpers::lemma_skip_skip(all, at0, oc);
                assert(cursor.remaining() == r0.skip(oc));
                let k1 = (k - 1) as nat;
                if parse_outputs_at(cursor.remaining(), k1) is Some {
                    let (rest, c2) = parse_outputs_at(cursor.remaining(), k1)->Some_0;
                    assert(parse_outputs_at(r0, k) == Some(
                        (seq![output.deep_view()] + rest, oc + c2),
                    ));
                    assert(dv0 + (seq![output.deep_view()] + rest) =~= outputs.deep_view() + rest);
                } else {
                    assert(parse_outputs_at(r0, k) is None);
                }
            }
        }
        proof {
            assert(parse_outputs_at(cursor.remaining(), 0) == Some(
                (Seq::<SpecOutput>::empty(), 0int),
            ));
            assert(outputs.deep_view() + Seq::<SpecOutput>::empty() =~= outputs.deep_view());
        }
        Ok(outputs)
    }

    /// Read one input's witness stack: an item count, then that many items.
    /// A count of zero attaches nothing. Witness bytes never reach the
    /// accumulator.
    fn read_witness<'a>(parser: &mut TxParser, cursor: &mut Cursor<'a>) -> (r: Result<
        Option<Witness>,
        TransactionError,
    >)
        requires
            old(cursor).wf(),
        ensures
            final(cursor).wf(),
            final(cursor).all_bytes() == old(cursor).all_bytes(),
            final(parser)@ == old(parser)@,
            ({
                let s = old(cursor).remaining();
                match parse_witness_at(s) {
                    Some((w, c)) => {
                        &&& r matches Ok(o)
                        &&& o.deep_view() == w
                        &&& final(cursor).at() == old(cursor).at() + c
                    },
                    None => {
                        &&& r matches Err(e)
                        &&& e.kind == TransactionErrorKind::ReadError
                        &&& e.source is Some
                    },
                }
            }),
    {
        let ghost s = old(cursor).remaining();
        let ghost all = old(cursor).all_bytes();
        let ghost a0 = old(cursor).at();
        let witness_stack_size = match parser.parse_var_int(cursor) {
            Ok(v) => v,
            Err(e) => {
                return Err(e);
            },
        };
        if witness_stack_size.value() == 0x00 {
            return Ok(None);
        }
        let n = witness_stack_size.value();
        let ghost vs = varint_size(s[0]);
        let ghost s1 = cursor.remaining();
        let ghost base = cursor.at();
        let mut items: Vec<Vec<u8>> = Vec::new();
        let mut i: u64 = 0;
        proof {
            crate::blkparser::helpers::lemma_skip_skip(all, a0, vs);
            assert(s1 == s.skip(vs));
            if parse_witness_items(s1, n as nat) is Some {
                let (its, c) = parse_witness_items(s1, n as nat)->Some_0;
                assert(Seq::<Seq<u8>>::empty() + its =~= its);
            }
        }
        while i < n
            invariant
                i <= n,
                cursor.wf(),
                cursor.all_bytes() == all,
                all == old(cursor).all_bytes(),
                s == old(cursor).remaining(),
                a0 == old(cursor).at(),
                varint_ok(s),
                n as nat == varint_val(s),
                n != 0,
                vs == varint_size(s[0]),
                s1 == s.skip(vs),
                base == a0 + vs,
                0 <= base <= cursor.at() <= all.len(),
                s1 == all.skip(base),
                parser@ == old(parser)@,
                items.deep_view().len() == i,
                ({
                    let ca = cursor.at() - base;
                    match parse_witness_items(cursor.remaining(), (n - i) as nat) {
                        Some((rest, c2)) => parse_witness_items(s1, n as nat) == Some(
                            (items.deep_view() + rest, ca + c2),
                        ),
                        None => parse_witness_items(s1, n as nat) is None,
                    }
                }),
            decreases n - i,
        {
            let ghost r0 = cursor.remaining();
            let ghost at0 = cursor.at();
            let ghost k = (n - i) as nat;
            let item_length = match parser.parse_var_int(cursor) {
                Ok(v) => v,
                Err(e) => {
                    proof {
                        assert(parse_script_at(r0) is None);
                        assert(parse_witness_items(r0, k) is None);
                    }
                    return Err(e);
                },
            };
            let l = item_length.value();
            let left = cursor.remaining_len();
            if l > left as u64 {
                proof {
                    assert(parse_script_at(r0) is None);
                    assert(parse_witness_items(r0, k) is None);
                }
                return Err(read_failure(ReadError { requested: l, available: left as u64 }));
            }
            let ghost vs2 = varint_size(r0[0]);
            proof {
                crate::blkparser::helpers::lemma_skip_skip(all, at0, vs2);
                assert(cursor.remaining() == r0.skip(vs2));
            }
            let b = match parser.parse_bytes(cursor, l as usize) {
                Ok(b) => b,
                Err(e) => {
                    proof {
                        assert(false);
                    }
                    return Err(e);
                },
            };
            let ghost ic = vs2 + l as int;
            let ghost dv0 = items.deep_view();
            items.push(vstd::slice::slice_to_vec(b));
            i = i + 1;
            proof {
                crate::blkparser::helpers::lemma_skip_take(r0, vs2, l as int);
                assert(parse_script_at(r0) == Some((l as nat, b@, ic)));
                assert(items.deep_view() =~~= dv0.push(b@));
                crate::blkparser::helpers::lemma_skip_skip(all, at0, ic);
                assert(cursor.remaining() == r0.skip(ic));
                let k1 = (k - 1) as nat;
                if parse_witness_items(cursor.remaining(), k1) is Some {
                    let (rest, c2) = parse_witness_items(cursor.remaining(), k1)->Some_0;
                    assert(parse_witness_items(r0, k) == Some((seq![b@] + rest, ic + c2)));
                    assert(dv0 + (seq![b@] + rest) =~~= items.deep_view() + rest);
                } else {
                    assert(parse_witness_items(r0, k) is None);
                }
            }
        }
        proof {
            assert(parse_witness_items(cursor.remaining(), 0) == Some(
                (Seq::<Seq<u8>>::empty(), 0int),
            ));
            assert(items.deep_view() + Seq::<Seq<u8>>::empty() =~= items.deep_view());
            assert(parse_witness_at(s) == Some(
                (Some(items.deep_view()), vs + (cursor.at() - base)),
            ));
        }
        Ok(Some(Witness::new(items)))
    }

    /// Read one witness stack per input, in input order, attaching each
    /// non-empty stack to its input. Witness bytes never reach the
    /// accumulator, which is what keeps the accumulated hash the legacy
    /// transaction id.
    fn read_witnesses<'a>(
        inputs: Vec<Input>,
        parser: &mut TxParser,
        cursor: &mut Cursor<'a>,
    ) -> (r: Result<Vec<Input>, TransactionError>)
        requires
            old(cursor).wf(),
            forall|j: int|
                0 <= j < inputs.deep_view().len() ==> inputs.deep_view()[j].witness is None,
        ensures
            final(cursor).wf(),
            final(cursor).all_bytes() == old(cursor).all_bytes(),
            final(parser)@ == old(parser)@,
            ({
                let s = old(cursor).remaining();
                match parse_witnesses_at(s, inputs.deep_view().len() as nat) {
                    Some((ws, c)) => {
                        &&& r matches Ok(v)
                        &&& v.deep_view() == attach_witnesses(inputs.deep_view(), ws)
                        &&& final(cursor).at() == old(cursor).at() + c
                    },
                    None => {
                        &&& r matches Err(e)
                        &&& e.kind == TransactionErrorKind::ReadError
                        &&& e.source is Some
                    },
                }
            }),
    {
        let n = inputs.len();
        let ghost inputs0 = inputs.deep_view();
        let ghost s0 = old(cursor).remaining();
        let ghost base = old(cursor).at();
        let ghost all = old(cursor).all_bytes();
        let mut rest_in = inputs;
        let mut out: Vec<Input> = Vec::new();
        let ghost mut ws_acc: Seq<Option<Seq<Seq<u8>>>> = Seq::empty();
        let mut i: usize = 0;
        proof {
            if parse_witnesses_at(s0, n as nat) is Some {
                let (ws, c) = parse_witnesses_at(s0, n as nat)->Some_0;
                assert(Seq::<Option<Seq<Seq<u8>>>>::empty() + ws =~= ws);
            }
            assert(out.deep_view() =~= attach_witnesses(inputs0.take(0), ws_acc));
            assert(rest_in.deep_view() =~= inputs0.skip(0));
        }
        while i < n
            invariant
                i <= n,
                n == inputs0.len(),
                inputs0 == inputs.deep_view(),
                forall|j: int| 0 <= j < inputs0.len() ==> inputs0[j].witness is None,
                rest_in@.len() == n - i,
                rest_in.deep_view() == inputs0.skip(i as int),
                out.deep_view() == attach_witnesses(inputs0.take(i as int), ws_acc),
                ws_acc.len() == i,
                cursor.wf(),
                cursor.all_bytes() == all,
                all == old(cursor).all_bytes(),
                base == old(cursor).at(),
                s0 == old(cursor).remaining(),
                0 <= base <= cursor.at() <= all.len(),
                parser@ == old(parser)@,
                ({
                    let ca = cursor.at() - base;
                    match parse_witnesses_at(cursor.remaining(), (n - i) as nat) {
                        Some((ws2, c2)) => parse_witnesses_at(s0, n as nat) == Some(
                            (ws_acc + ws2, ca + c2),
                        ),
                        None => parse_witnesses_at(s0, n as nat) is None,
                    }
                }),
            decreases n - i,
        {
            let ghost r0 = cursor.remaining();
            let ghost at0 = cursor.at();
            let ghost k = (n - i) as nat;
            let ghost v0 = rest_in@;
            let ghost rdv0 = rest_in.deep_view();
            let mut inp = rest_in.remove(0);
            proof {
                assert(rdv0[0] == v0[0].deep_view());
                assert(inp.deep_view() == inputs0[i as int]);
                assert forall|j: int|
                    0 <= j < rest_in@.len() implies #[trigger] rest_in.deep_view()[j]
                    == inputs0.skip(i + 1)[j] by {
                    assert(rest_in.deep_view()[j] == rest_in@[j].deep_view());
                    assert(rest_in@[j] == v0[j + 1]);
                    assert(rdv0[j + 1] == v0[j + 1].deep_view());
                    assert(rdv0[j + 1] == inputs0.skip(i as int)[j + 1]);
                }
                assert(rest_in.deep_view() =~= inputs0.skip(i + 1));
            }
            let w = match Self::read_witness(parser, cursor) {
                Ok(w) => w,
                Err(e) => {
                    proof {
                        assert(parse_witnesses_at(r0, k) is None);
                    }
                    return Err(e);
                },
            };
            let ghost wdv = w.deep_view();
            let ghost c = parse_witness_at(r0)->Some_0.1;
            match w {
                Some(witness) => inp.assign_witness(witness),
                None => {},
            }
            proof {
                assert(inp.deep_view() == (SpecInput { witness: wdv, ..inputs0[i as int] }));
            }
            let ghost out0 = out.deep_view();
            let ghost ws0 = ws_acc;
            out.push(inp);
            proof {
                ws_acc = ws_acc.push(wdv);
            }
            i = i + 1;
            proof {
                assert(out.deep_view() =~= out0.push(inp.deep_view()));
                assert(out.deep_view() =~= attach_witnesses(inputs0.take(i as int), ws_acc));
                lemma_parse_witness_at_bounds(r0);
                crate::blkparser::helpers::lemma_skip_skip(all, at0, c);
                assert(cursor.remaining() == r0.skip(c));
                let k1 = (k - 1) as nat;
                if parse_witnesses_at(cursor.remaining(), k1) is Some {
                    let (ws2, c2) = parse_witnesses_at(cursor.remaining(), k1)->Some_0;
                    assert(parse_witnesses_at(r0, k) == Some((seq![wdv] + ws2, c + c2)));
                    assert(ws0 + (seq![wdv] + ws2) =~= ws_acc + ws2);
                } else {
                    assert(parse_witnesses_at(r0, k) is None);
                }
            }
        }
        proof {
            assert(parse_witnesses_at(cursor.remaining(), 0) == Some(
                (Seq::<Option<Seq<Seq<u8>>>>::empty(), 0int),
            ));
            assert(ws_acc + Seq::<Option<Seq<Seq<u8>>>>::empty() =~= ws_acc);
            assert(inputs0.take(n as int) =~= inputs0);
        }
        Ok(out)
    }
}

} // verus!
