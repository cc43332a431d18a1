use vstd::prelude::*;
use vstd::bytes::{spec_u64_from_le_bytes, spec_u64_to_le_bytes, u64_from_le_bytes, u64_to_le_bytes};
use vstd::slice::slice_subrange;

verus! {

/// Why a run of bytes could not be read back as a value.
#[derive(Debug, Clone, Copy, PartialEq, Eq, Structural)]
pub enum DecodeError {
    /// The bytes ended before the value was complete.
    UnexpectedEnd,
    /// The bytes are all there but stand for no value of the type.
    Malformed,
}

/// A type whose values can be written as bytes and read back.
///
/// The wire format of a type is a pair of functions on its plain values:
/// `encode` gives the bytes of one value, `decode` reads one value off the
/// front of a run of bytes and says how many bytes it took. The two are
/// inverse to each other in the sense of `lemma_round_trip`.
pub trait FromToBytes: Sized {
    /// The mathematical value that a value of the type stands for.
    type Plain;

    spec fn plain(&self) -> Self::Plain;

    /// Whether the value is one that the format is defined for.
    spec fn well_formed(&self) -> bool;

    /// The bytes that stand for `p`.
    spec fn encode(p: Self::Plain) -> Seq<u8>;

    /// The value at the front of `bytes` and the number of bytes it takes up,
    /// or the reason why there is none.
    spec fn decode(bytes: Seq<u8>) -> Result<(Self::Plain, nat), DecodeError>;

    /// Decoding never takes more bytes than there are.
    proof fn lemma_decode_in_range(bytes: Seq<u8>)
        ensures
            Self::decode(bytes) matches Ok(found) ==> found.1 <= bytes.len(),
    ;

    /// Decoding the bytes of a value gives the value back and takes exactly
    /// those bytes, whatever follows them.
    proof fn lemma_round_trip(v: Self, rest: Seq<u8>)
        requires
            v.well_formed(),
        ensures
            Self::decode(Self::encode(v.plain()) + rest) == Ok::<(Self::Plain, nat), DecodeError>(
                (v.plain(), Self::encode(v.plain()).len()),
            ),
    ;

    /// Appends the bytes of the value to `out`.
    fn to_bytes(&self, out: &mut Vec<u8>)
        requires
            self.well_formed(),
        ensures
            final(out)@ == old(out)@ + Self::encode(self.plain()),
    ;

    /// Reads one value from `input`, starting at `pos`, and returns it with
    /// the position of the first byte after it.
    fn from_bytes(input: &[u8], pos: usize) -> (r: Result<(Self, usize), DecodeError>)
        requires
            pos <= input@.len(),
        ensures
            match Self::decode(input@.skip(pos as int)) {
                Ok(found) => r.is_ok() && r.unwrap().0.plain() == found.0
                    && r.unwrap().0.well_formed() && r.unwrap().1 == pos + found.1,
                Err(e) => r == Err::<(Self, usize), DecodeError>(e),
            },
    ;
}

impl FromToBytes for u8 {
    type Plain = u8;

    open spec fn plain(&self) -> u8 {
        *self
    }

    open spec fn well_formed(&self) -> bool {
        true
    }

    /// A byte is written as itself.
    open spec fn encode(p: u8) -> Seq<u8> {
        seq![p]
    }

    open spec fn decode(bytes: Seq<u8>) -> Result<(u8, nat), DecodeError> {
        if bytes.len() < 1 {
            Err(DecodeError::UnexpectedEnd)
        } else {
            Ok((bytes[0], 1nat))
        }
    }

    proof fn lemma_decode_in_range(bytes: Seq<u8>) {
    }

    proof fn lemma_round_trip(v: u8, rest: Seq<u8>) {
    }

    fn to_bytes(&self, out: &mut Vec<u8>) {
        out.push(*self);
    }

    fn from_bytes(input: &[u8], pos: usize) -> (r: Result<(u8, usize), DecodeError>) {
        if pos >= input.len() {
            return Err(DecodeError::UnexpectedEnd);
        }
        Ok((input[pos], pos + 1))
    }
}

impl FromToBytes for u64 {
    type Plain = u64;

    open spec fn plain(&self) -> u64 {
        *self
    }

    open spec fn well_formed(&self) -> bool {
        true
    }

    /// Eight bytes, least significant first.
    open spec fn encode(p: u64) -> Seq<u8> {
        spec_u64_to_le_bytes(p)
    }

    open spec fn decode(bytes: Seq<u8>) -> Result<(u64, nat), DecodeError> {
        if bytes.len() < 8 {
            Err(DecodeError::UnexpectedEnd)
        } else {
            Ok((spec_u64_from_le_bytes(bytes.subrange(0, 8)), 8nat))
        }
    }

    proof fn lemma_decode_in_range(bytes: Seq<u8>) {
    }

    proof fn lemma_round_trip(v: u64, rest: Seq<u8>) {
        vstd::bytes::lemma_auto_spec_u64_to_from_le_bytes();
        assert((spec_u64_to_le_bytes(v) + rest).subrange(0, 8) =~= spec_u64_to_le_bytes(v));
    }

    fn to_bytes(&self, out: &mut Vec<u8>) {
        let mut bytes = u64_to_le_bytes(*self);
        out.append(&mut bytes);
    }

    fn from_bytes(input: &[u8], pos: usize) -> (r: Result<(u64, usize), DecodeError>) {
        if input.len() - pos < 8 {
            return Err(DecodeError::UnexpectedEnd);
        }
        let v = u64_from_le_bytes(slice_subrange(input, pos, pos + 8));
        assert(input@.subrange(pos as int, pos + 8) =~= input@.skip(pos as int).subrange(0, 8));
        Ok((v, pos + 8))
    }
}

} // verus!

verus! {

impl FromToBytes for usize {
    type Plain = usize;

    open spec fn plain(&self) -> usize {
        *self
    }

    open spec fn well_formed(&self) -> bool {
        true
    }

    /// Eight bytes, least significant first, on every machine: the format does
    /// not depend on how wide a machine word is.
    open spec fn encode(p: usize) -> Seq<u8> {
        spec_u64_to_le_bytes(p as u64)
    }

    /// Eight bytes are read; a number that does not fit a machine word here is
    /// refused.
    open spec fn decode(bytes: Seq<u8>) -> Result<(usize, nat), DecodeError> {
        if bytes.len() < 8 {
            Err(DecodeError::UnexpectedEnd)
        } else if spec_u64_from_le_bytes(bytes.subrange(0, 8)) > usize::MAX {
            Err(DecodeError::Malformed)
        } else {
            Ok((spec_u64_from_le_bytes(bytes.subrange(0, 8)) as usize, 8nat))
        }
    }

    proof fn lemma_decode_in_range(bytes: Seq<u8>) {
    }

    proof fn lemma_round_trip(v: usize, rest: Seq<u8>) {
        vstd::bytes::lemma_auto_spec_u64_to_from_le_bytes();
        assert((spec_u64_to_le_bytes(v as u64) + rest).subrange(0, 8) =~= spec_u64_to_le_bytes(
            v as u64,
        ));
    }

    fn to_bytes(&self, out: &mut Vec<u8>) {
        let mut bytes = u64_to_le_bytes(*self as u64);
        out.append(&mut bytes);
    }

    fn from_bytes(input: &[u8], pos: usize) -> (r: Result<(usize, usize), DecodeError>) {
        if input.len() - pos < 8 {
            return Err(DecodeError::UnexpectedEnd);
        }
        let v = u64_from_le_bytes(slice_subrange(input, pos, pos + 8));
        assert(input@.subrange(pos as int, pos + 8) =~= input@.skip(pos as int).subrange(0, 8));
        if v > usize::MAX as u64 {
            return Err(DecodeError::Malformed);
        }
        Ok((v as usize, pos + 8))
    }
}

} // verus!
