//! The raw bytes of an unlock or lock script, kept opaque.

use vstd::prelude::*;

verus! {

/// A script's raw bytes; the decoder does not interpret them.
#[derive(Debug)]
pub struct BitcoinScript {
    contents: Vec<u8>,
}

impl View for BitcoinScript {
    type V = Seq<u8>;

    closed spec fn view(&self) -> Seq<u8> {
        self.contents@
    }
}

impl DeepView for BitcoinScript {
    type V = Seq<u8>;

    open spec fn deep_view(&self) -> Seq<u8> {
        self@
    }
}

impl BitcoinScript {
    /// Wrap raw script bytes.
    pub fn new(contents: Vec<u8>) -> (r: Self)
        ensures
            r@ == contents@,
    {
        BitcoinScript { contents }
    }

    /// The raw bytes.
    pub fn bytes(&self) -> (r: &Vec<u8>)
        ensures
            r@ == self@,
    {
        &self.contents
    }
}

} // verus!
