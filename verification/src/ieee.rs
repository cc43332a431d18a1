use vstd::prelude::*;
use crate::codec::{DecodeError, FromToBytes};
use crate::grid::Vec2D;

verus! {

/// A double-precision number of IEEE 754, kept as its 64 bits: one sign bit,
/// eleven bits of exponent, fifty-two bits of fraction.
#[derive(Debug, Clone, Copy)]
pub struct Binary64 {
    pub bits: u64,
}

/// The bits of the exponent, all set.
pub const EXPONENT_MASK: u64 = 0x7ff0_0000_0000_0000;

/// The bits of the fraction, all set.
pub const FRACTION_MASK: u64 = 0x000f_ffff_ffff_ffff;

impl Binary64 {
    /// A number is not-a-number when its exponent is all ones and its
    /// fraction is not zero; the sign does not matter.
    pub open spec fn spec_is_nan(&self) -> bool {
        self.bits & EXPONENT_MASK == EXPONENT_MASK && self.bits & FRACTION_MASK != 0
    }

    #[verifier::when_used_as_spec(spec_is_nan)]
    pub fn is_nan(&self) -> (r: bool)
        ensures
            r == self.spec_is_nan(),
    {
        self.bits & EXPONENT_MASK == EXPONENT_MASK && self.bits & FRACTION_MASK != 0
    }
}

impl Vec2D<Binary64> {
    /// Whether at least one cell holds not-a-number.
    pub fn is_any_nan(&self) -> (r: bool)
        ensures
            r == exists|i: int| 0 <= i < self@.len() && (#[trigger] self@[i]).is_nan(),
    {
        let cells = self.as_slice();
        let mut i: usize = 0;
        while i < cells.len()
            invariant
                i <= cells@.len(),
                cells@ == self@,
                forall|j: int| 0 <= j < i ==> !(#[trigger] self@[j]).is_nan(),
            decreases cells@.len() - i,
        {
            if cells[i].is_nan() {
                return true;
            }
            i += 1;
        }
        false
    }
}

impl FromToBytes for Binary64 {
    type Plain = u64;

    open spec fn plain(&self) -> u64 {
        self.bits
    }

    open spec fn well_formed(&self) -> bool {
        true
    }

    /// The 64 bits, written as `u64` writes itself.
    open spec fn encode(p: u64) -> Seq<u8> {
        u64::encode(p)
    }

    open spec fn decode(bytes: Seq<u8>) -> Result<(u64, nat), DecodeError> {
        u64::decode(bytes)
    }

    proof fn lemma_decode_in_range(bytes: Seq<u8>) {
        u64::lemma_decode_in_range(bytes);
    }

    proof fn lemma_round_trip(v: Binary64, rest: Seq<u8>) {
        u64::lemma_round_trip(v.bits, rest);
    }

    fn to_bytes(&self, out: &mut Vec<u8>) {
        self.bits.to_bytes(out);
    }

    fn from_bytes(input: &[u8], pos: usize) -> (r: Result<(Binary64, usize), DecodeError>) {
        match u64::from_bytes(input, pos) {
            Err(e) => Err(e),
            Ok(found) => Ok((Binary64 { bits: found.0 }, found.1)),
        }
    }
}

} // verus!
