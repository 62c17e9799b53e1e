//! Constants that the format demands at fixed places: reading one fails with
//! a mismatch unless the expected value stands there.
use crate::codec::{Codec, Decoded};
use crate::error::{ReadError, ReadResult};
use vstd::prelude::*;

verus! {

/// The 32-bit integer at `pos`, which must be `value`.
pub open spec fn decode_expect_u32(s: Seq<u8>, pos: int, value: u32) -> Decoded<u32> {
    match u32::decode(s, pos) {
        Err(e) => Err(e),
        Ok((actual, next)) => if actual == value {
            Ok((actual, next))
        } else {
            Err(ReadError::Mismatch(value, actual))
        },
    }
}

/// The byte at `pos`, which must be `value`.
pub open spec fn decode_expect_u8(s: Seq<u8>, pos: int, value: u8) -> Decoded<u8> {
    match u8::decode(s, pos) {
        Err(e) => Err(e),
        Ok((actual, next)) => if actual == value {
            Ok((actual, next))
        } else {
            Err(ReadError::Mismatch(value as u32, actual as u32))
        },
    }
}

/// Reads a 32-bit integer and fails with a mismatch unless it is `value`.
pub fn expect_u32(input: &[u8], pos: usize, value: u32) -> (res: ReadResult<u32>)
    ensures
        match res {
            Ok((v, next)) => {
                &&& decode_expect_u32(input@, pos as int, value) == Decoded::<u32>::Ok(
                    (v, next as int),
                )
                &&& v == value
                &&& pos <= next <= input@.len()
            },
            Err(e) => decode_expect_u32(input@, pos as int, value) == Decoded::<u32>::Err(e),
        },
{
    let (actual, next) = u32::from_bytes(input, pos)?;
    if actual != value {
        return Err(ReadError::Mismatch(value, actual));
    }
    Ok((actual, next))
}

/// Reads a byte and fails with a mismatch unless it is `value`.
pub fn expect_u8(input: &[u8], pos: usize, value: u8) -> (res: ReadResult<u8>)
    ensures
        match res {
            Ok((v, next)) => {
                &&& decode_expect_u8(input@, pos as int, value) == Decoded::<u8>::Ok(
                    (v, next as int),
                )
                &&& v == value
                &&& pos <= next <= input@.len()
            },
            Err(e) => decode_expect_u8(input@, pos as int, value) == Decoded::<u8>::Err(e),
        },
{
    let (actual, next) = u8::from_bytes(input, pos)?;
    if actual != value {
        return Err(ReadError::Mismatch(value as u32, actual as u32));
    }
    Ok((actual, next))
}

} // verus!
