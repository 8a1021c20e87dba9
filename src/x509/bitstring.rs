use vstd::prelude::*;

verus! {

/// A BIT STRING: the number of unused bits in the last byte, and the bytes.
#[derive(Debug)]
pub struct BitString {
    pub unused_bits: u8,
    pub data: Vec<u8>,
}

impl View for BitString {
    type V = (u8, Seq<u8>);

    open spec fn view(&self) -> (u8, Seq<u8>) {
        (self.unused_bits, self.data@)
    }
}

impl BitString {
    pub fn new(unused_bits: u8, data: Vec<u8>) -> (r: BitString)
        ensures
            r@ == (unused_bits, data@),
    {
        BitString { unused_bits, data }
    }
}

} // verus!
