//! Errors reported while decoding and encoding class files.
use vstd::prelude::*;

verus! {

/// Why decoding stopped.
#[derive(Debug, Clone, Copy, PartialEq, Eq, Hash)]
pub enum ReadError {
    /// The input ended in the middle of a structure.
    UnexpectedEof,
    /// A constant that the format demands was not found: the value that was
    /// expected, then the value that was read.
    Mismatch(u32, u32),
    /// A tag byte that selects no variant, with the name of the tagged union
    /// that was being decoded.
    UnknownTag(u8, &'static str),
    /// A constant pool whose count field is zero.
    MalformedCount,
}

/// Why encoding stopped.
#[derive(Debug, Clone, Copy, PartialEq, Eq, Hash)]
pub enum WriteError {
    /// A length, count or offset that does not fit the field that carries it
    /// on the wire.
    TooLarge(usize),
}

/// The outcome of decoding one value: the value and the position behind it.
pub type ReadResult<T> = Result<(T, usize), ReadError>;

/// The outcome of encoding one value.
pub type WriteResult = Result<(), WriteError>;

} // verus!
