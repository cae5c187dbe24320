//! Transaction records: inputs, outputs and per-input witness stacks.

use vstd::prelude::*;

use super::script::BitcoinScript;
use crate::types::BitcoinHash;

verus! {

/// The mathematical value of a [`Utxo`].
pub struct SpecUtxo {
    /// The referenced transaction's hash.
    pub txid: Seq<u8>,
    /// The referenced output's index.
    pub vout: u32,
}

/// The mathematical value of an [`Input`].
pub struct SpecInput {
    /// Which previous output this input spends.
    pub utxo: SpecUtxo,
    /// The unlock script bytes.
    pub signature: Seq<u8>,
    /// The sequence field.
    pub sequence: u32,
    /// The witness stack, where the input carries one.
    pub witness: Option<Seq<Seq<u8>>>,
}

/// The mathematical value of an [`Output`].
pub struct SpecOutput {
    /// The amount in base units.
    pub value: u64,
    /// The lock script bytes.
    pub pubkey: Seq<u8>,
}

/// The mathematical value of a [`Transaction`].
pub struct SpecTransaction {
    /// The transaction version.
    pub version: u32,
    /// The inputs, in wire order.
    pub inputs: Seq<SpecInput>,
    /// The outputs, in wire order.
    pub outputs: Seq<SpecOutput>,
    /// Whether any input carries a witness.
    pub segwit: bool,
    /// The locktime field.
    pub locktime: u32,
}

/// Whether any input of the sequence carries a witness.
pub open spec fn any_witness(inputs: Seq<SpecInput>) -> bool {
    exists|i: int| 0 <= i < inputs.len() && inputs[i].witness is Some
}

/// A reference to the output a transaction input spends: the previous
/// transaction's hash and the index of the output within it.
#[derive(Debug)]
pub struct Utxo {
    txid: BitcoinHash,
    vout: u32,
}

impl View for Utxo {
    type V = SpecUtxo;

    closed spec fn view(&self) -> SpecUtxo {
        SpecUtxo { txid: self.txid@, vout: self.vout }
    }
}

impl Utxo {
    /// Wrap a previous-output reference.
    pub fn new(txid: BitcoinHash, vout: u32) -> (r: Self)
        ensures
            r@ == (SpecUtxo { txid: txid@, vout }),
    {
        Utxo { txid, vout }
    }

    /// The referenced transaction's hash.
    pub fn txid(&self) -> (r: &BitcoinHash)
        ensures
            r@ == self@.txid,
    {
        &self.txid
    }

    /// The referenced output's index.
    pub fn vout(&self) -> (r: u32)
        ensures
            r == self@.vout,
    {
        self.vout
    }
}

/// A per-input witness stack: an ordered list of byte items.
#[derive(Debug)]
pub struct Witness {
    items: Vec<Vec<u8>>,
}

impl View for Witness {
    type V = Seq<Seq<u8>>;

    closed spec fn view(&self) -> Seq<Seq<u8>> {
        self.items.deep_view()
    }
}

impl DeepView for Witness {
    type V = Seq<Seq<u8>>;

    open spec fn deep_view(&self) -> Seq<Seq<u8>> {
        self@
    }
}

impl Witness {
    /// Wrap the stack items.
    pub fn new(items: Vec<Vec<u8>>) -> (r: Self)
        ensures
            r@ == items.deep_view(),
    {
        Witness { items }
    }

    /// How many items the stack holds.
    pub fn count(&self) -> (r: usize)
        ensures
            r == self@.len(),
    {
        self.items.len()
    }

    /// The stack items, in order.
    pub fn items(&self) -> (r: &Vec<Vec<u8>>)
        ensures
            r.deep_view() == self@,
    {
        &self.items
    }
}

/// One transaction input.
#[derive(Debug)]
pub struct Input {
    utxo: Utxo,
    signature: BitcoinScript,
    sequence: u32,
    witness: Option<Witness>,
}

impl View for Input {
    type V = SpecInput;

    closed spec fn view(&self) -> SpecInput {
        SpecInput {
            utxo: self.utxo@,
            signature: self.signature@,
            sequence: self.sequence,
            witness: self.witness.deep_view(),
        }
    }
}

impl DeepView for Input {
    type V = SpecInput;

    open spec fn deep_view(&self) -> SpecInput {
        self@
    }
}

impl Input {
    /// Assemble an input.
    pub fn new(utxo: Utxo, signature: BitcoinScript, sequence: u32, witness: Option<Witness>) -> (r:
        Self)
        ensures
            r@ == (SpecInput {
                utxo: utxo@,
                signature: signature@,
                sequence,
                witness: witness.deep_view(),
            }),
    {
        Input { utxo, signature, sequence, witness }
    }

    /// Attach a witness stack to this input.
    pub fn assign_witness(&mut self, witness: Witness)
        ensures
            final(self)@ == (SpecInput { witness: Some(witness@), ..old(self)@ }),
    {
        self.witness = Some(witness);
    }

    /// Which previous output this input spends.
    pub fn utxo(&self) -> (r: &Utxo)
        ensures
            r@ == self@.utxo,
    {
        &self.utxo
    }

    /// The unlock script.
    pub fn signature(&self) -> (r: &BitcoinScript)
        ensures
            r@ == self@.signature,
    {
        &self.signature
    }

    /// The sequence field.
    pub fn sequence(&self) -> (r: u32)
        ensures
            r == self@.sequence,
    {
        self.sequence
    }

    /// The witness stack, where the input carries one.
    pub fn witness(&self) -> (r: &Option<Witness>)
        ensures
            r.deep_view() == self@.witness,
    {
        &self.witness
    }
}

/// One transaction output.
#[derive(Debug)]
pub struct Output {
    value: u64,
    pubkey: BitcoinScript,
}

impl View for Output {
    type V = SpecOutput;

    closed spec fn view(&self) -> SpecOutput {
        SpecOutput { value: self.value, pubkey: self.pubkey@ }
    }
}

impl DeepView for Output {
    type V = SpecOutput;

    open spec fn deep_view(&self) -> SpecOutput {
        self@
    }
}

impl Output {
    /// Assemble an output.
    pub fn new(value: u64, pubkey: BitcoinScript) -> (r: Self)
        ensures
            r@ == (SpecOutput { value, pubkey: pubkey@ }),
    {
        Output { value, pubkey }
    }

    /// The amount in base units.
    pub fn value(&self) -> (r: u64)
        ensures
            r == self@.value,
    {
        self.value
    }

    /// The lock script.
    pub fn pubkey(&self) -> (r: &BitcoinScript)
        ensures
            r@ == self@.pubkey,
    {
        &self.pubkey
    }
}

/// One decoded transaction.
#[derive(Debug)]
pub struct Transaction {
    version: u32,
    inputs: Vec<Input>,
    outputs: Vec<Output>,
    segwit: bool,
    locktime: u32,
}

impl View for Transaction {
    type V = SpecTransaction;

    closed spec fn view(&self) -> SpecTransaction {
        SpecTransaction {
            version: self.version,
            inputs: self.inputs.deep_view(),
            outputs: self.outputs.deep_view(),
            segwit: self.segwit,
            locktime: self.locktime,
        }
    }
}

impl DeepView for Transaction {
    type V = SpecTransaction;

    open spec fn deep_view(&self) -> SpecTransaction {
        self@
    }
}

impl crate::Transaction for Transaction {}

impl Transaction {
    /// Assemble a transaction; its segwit flag records whether any input
    /// carries a witness.
    pub fn new(version: u32, inputs: Vec<Input>, outputs: Vec<Output>, locktime: u32) -> (r: Self)
        ensures
            r@ == (SpecTransaction {
                version,
                inputs: inputs.deep_view(),
                outputs: outputs.deep_view(),
                segwit: any_witness(inputs.deep_view()),
                locktime,
            }),
    {
        let segwit = Transaction::look_for_witness(&inputs);
        Transaction { version, inputs, outputs, locktime, segwit }
    }

    /// Whether any of `inputs` carries a witness.
    fn look_for_witness(inputs: &Vec<Input>) -> (r: bool)
        ensures
            r == any_witness(inputs.deep_view()),
    {
        let n = inputs.len();
        let mut i: usize = 0;
        while i < n
            invariant
                i <= n,
                n == inputs@.len(),
                forall|j: int| 0 <= j < i ==> inputs.deep_view()[j].witness is None,
            decreases n - i,
        {
            if inputs[i].witness().is_some() {
                proof {
                    assert(inputs.deep_view()[i as int].witness is Some);
                }
                return true;
            }
            i = i + 1;
        }
        false
    }

    /// The transaction version.
    pub fn version(&self) -> (r: u32)
        ensures
            r == self@.version,
    {
        self.version
    }

    /// The inputs, in wire order.
    pub fn inputs(&self) -> (r: &Vec<Input>)
        ensures
            r.deep_view() == self@.inputs,
    {
        &self.inputs
    }

    /// The outputs, in wire order.
    pub fn outputs(&self) -> (r: &Vec<Output>)
        ensures
            r.deep_view() == self@.outputs,
    {
        &self.outputs
    }

    /// Whether any input carries a witness.
    pub fn segwit(&self) -> (r: bool)
        ensures
            r == self@.segwit,
    {
        self.segwit
    }

    /// The locktime field.
    pub fn locktime(&self) -> (r: u32)
        ensures
            r == self@.locktime,
    {
        self.locktime
    }
}

} // verus!
