//! The binary codec: big-endian integers, length-prefixed blobs and
//! length-prefixed sequences, each with its wire format as a specification
//! and with the proof that decoding and encoding are inverse to each other.
use crate::error::{ReadError, ReadResult, WriteError, WriteResult};
use vstd::prelude::*;

pub mod expect;

verus! {

/// What decoding yields in specifications: the model of the value that was
/// read and the position behind it, or the error that stopped the decoder.
pub type Decoded<M> = Result<(M, int), ReadError>;

/// The bytes `bytes` stand in `s` at position `pos`.
#[verifier::opaque]
pub open spec fn holds_at(s: Seq<u8>, pos: int, bytes: Seq<u8>) -> bool {
    &&& 0 <= pos
    &&& pos + bytes.len() <= s.len()
    &&& s.subrange(pos, pos + bytes.len()) == bytes
}

/// `new` starts with all of `old`: an encoder only ever appends.
pub open spec fn extends(new: Seq<u8>, old: Seq<u8>) -> bool {
    &&& old.len() <= new.len()
    &&& forall|i: int| 0 <= i < old.len() ==> #[trigger] new[i] == old[i]
}

/// The first of two findings, in the order in which an encoder meets them.
pub open spec fn first_of(a: Option<nat>, b: Option<nat>) -> Option<nat> {
    if a is Some {
        a
    } else {
        b
    }
}

/// The models of a sequence of values.
pub open spec fn views<T: View>(items: Seq<T>) -> Seq<T::V> {
    items.map_values(|item: T| item@)
}

/// What decoding yields where it succeeds: the value and the position behind
/// it.
pub open spec fn decoded<M>(m: M, next: int) -> Decoded<M> {
    Ok((m, next))
}

/// What `next` yields behind `first`: the error of `first` where that failed,
/// so that a chain of these holds the first failure of all.
pub open spec fn after<A, B>(first: Decoded<A>, next: Decoded<B>) -> Decoded<B> {
    match first {
        Err(e) => Err(e),
        Ok(_) => next,
    }
}

/// The value that was decoded.
pub open spec fn value_of<M>(d: Decoded<M>) -> M {
    d->Ok_0.0
}

/// The position behind the value that was decoded.
pub open spec fn end_of<M>(d: Decoded<M>) -> int {
    d->Ok_0.1
}

/// A value with a wire format.
///
/// The format is stated over the model `Self::V` of the value. `decode` reads
/// one value at a position of a byte sequence, `encode` is the byte sequence of
/// a value, and the three lemmas state that the two are inverse to each other
/// on well-formed values.
///
/// The implementations in this crate name their own `decode`, `encode` and
/// `oversize` in the bodies of their functions, also where the contract alone
/// would do: the verifier then has the definitions at hand whatever else the
/// crate holds.
pub trait Codec: Sized + View {
    /// The value is one that `decode` can yield: every length, count and
    /// offset fits the field that carries it, and every tag matches its
    /// variant.
    spec fn wf(m: Self::V) -> bool;

    /// The first length, count or offset of the value, in encoding order, that
    /// does not fit the field that carries it.
    spec fn oversize(m: Self::V) -> Option<nat>;

    /// The wire format of the value.
    spec fn encode(m: Self::V) -> Seq<u8>;

    /// The value that stands at `pos` in `s` and the position behind it.
    spec fn decode(s: Seq<u8>, pos: int) -> Decoded<Self::V>;

    /// Decodes the value that stands at `pos` in `input`.
    fn from_bytes(input: &[u8], pos: usize) -> (res: ReadResult<Self>)
        ensures
            match res {
                Ok((v, next)) => {
                    &&& Self::decode(input@, pos as int) == Decoded::<Self::V>::Ok(
                        (v@, next as int),
                    )
                    &&& pos <= next <= input@.len()
                },
                Err(e) => Self::decode(input@, pos as int) == Decoded::<Self::V>::Err(e),
            },
    ;

    /// Appends the wire format of the value to `out`. It fails exactly when a
    /// length, count or offset does not fit its field, with the first such
    /// number; `out` may then hold a part of the encoding behind its old
    /// content.
    fn to_bytes(&self, out: &mut Vec<u8>) -> (res: WriteResult)
        ensures
            match res {
                Ok(()) => {
                    &&& Self::oversize(self@) is None
                    &&& final(out)@ == old(out)@ + Self::encode(self@)
                },
                Err(WriteError::TooLarge(n)) => {
                    &&& Self::oversize(self@) == Some(n as nat)
                    &&& extends(final(out)@, old(out)@)
                },
            },
    ;

    /// A well-formed value can be encoded.
    proof fn lemma_fits(m: Self::V)
        requires
            Self::wf(m),
        ensures
            Self::oversize(m) is None,
    ;

    /// Decoding the encoding of a well-formed value yields the value, whatever
    /// stands before and behind the encoding.
    proof fn lemma_decode_encode(s: Seq<u8>, pos: int, m: Self::V)
        requires
            Self::wf(m),
            holds_at(s, pos, Self::encode(m)),
        ensures
            Self::decode(s, pos) == Decoded::<Self::V>::Ok((m, pos + Self::encode(m).len())),
    ;

    /// What was decoded is well-formed, and its encoding is the bytes that were
    /// read.
    proof fn lemma_encode_decode(s: Seq<u8>, pos: int)
        ensures
            Self::decode(s, pos) matches Ok((m, next)) ==> {
                &&& Self::wf(m)
                &&& 0 <= pos <= next <= s.len()
                &&& Self::encode(m) == s.subrange(pos, next)
            },
    ;
}

/// An encoding of two parts that stands at `pos` has its first part at `pos`
/// and its second part behind the first.
pub proof fn lemma_holds_split(s: Seq<u8>, pos: int, a: Seq<u8>, b: Seq<u8>)
    requires
        holds_at(s, pos, a + b),
    ensures
        holds_at(s, pos, a),
        holds_at(s, pos + a.len(), b),
{
    reveal(holds_at);
    let whole = s.subrange(pos, pos + (a + b).len());
    assert(s.subrange(pos, pos + a.len()) =~= whole.subrange(0, a.len() as int));
    assert(whole.subrange(0, a.len() as int) =~= a);
    assert(s.subrange(pos + a.len(), pos + a.len() + b.len()) =~= whole.subrange(
        a.len() as int,
        (a + b).len() as int,
    ));
    assert(whole.subrange(a.len() as int, (a + b).len() as int) =~= b);
}

/// Bytes stand at the place at which they begin, whatever follows them.
pub proof fn lemma_holds_first(bytes: Seq<u8>, rest: Seq<u8>)
    ensures
        holds_at(bytes + rest, 0, bytes),
{
    reveal(holds_at);
    assert((bytes + rest).subrange(0, bytes.len() as int) =~= bytes);
}

/// Two adjacent ranges of a sequence make up the range that spans both.
pub proof fn lemma_subrange_join(s: Seq<u8>, from: int, mid: int, to: int)
    requires
        0 <= from <= mid <= to <= s.len(),
    ensures
        s.subrange(from, mid) + s.subrange(mid, to) == s.subrange(from, to),
{
    assert(s.subrange(from, mid) + s.subrange(mid, to) =~= s.subrange(from, to));
}

/// What is appended to an output that was appended to still starts with the
/// old content.
pub proof fn lemma_extends_after(old: Seq<u8>, mid: Seq<u8>, new: Seq<u8>)
    requires
        extends(mid, old),
        extends(new, mid),
    ensures
        extends(new, old),
{
    assert forall|k: int| 0 <= k < old.len() implies #[trigger] new[k] == old[k] by {
        assert(new[k] == mid[k]);
    }
}

// ---------------------------------------------------------------------------
// Integers
// ---------------------------------------------------------------------------

/// The 16-bit big-endian integer at `pos`.
pub open spec fn be16(s: Seq<u8>, pos: int) -> u16 {
    (s[pos] as int * 0x100 + s[pos + 1] as int) as u16
}

/// The 32-bit big-endian integer at `pos`.
pub open spec fn be32(s: Seq<u8>, pos: int) -> u32 {
    (s[pos] as int * 0x100_0000 + s[pos + 1] as int * 0x1_0000 + s[pos + 2] as int * 0x100 + s[pos
        + 3] as int) as u32
}

/// The two bytes of a 16-bit integer, most significant first.
pub open spec fn u16_bytes(v: u16) -> Seq<u8> {
    seq![(v / 0x100) as u8, (v % 0x100) as u8]
}

/// The four bytes of a 32-bit integer, most significant first.
pub open spec fn u32_bytes(v: u32) -> Seq<u8> {
    seq![
        (v / 0x100_0000) as u8,
        (v / 0x1_0000 % 0x100) as u8,
        (v / 0x100 % 0x100) as u8,
        (v % 0x100) as u8,
    ]
}

impl Codec for u8 {
    open spec fn wf(m: u8) -> bool {
        true
    }

    open spec fn oversize(m: u8) -> Option<nat> {
        None
    }

    open spec fn encode(m: u8) -> Seq<u8> {
        seq![m]
    }

    open spec fn decode(s: Seq<u8>, pos: int) -> Decoded<u8> {
        if 0 <= pos && pos + 1 <= s.len() {
            Ok((s[pos], pos + 1))
        } else {
            Err(ReadError::UnexpectedEof)
        }
    }

    fn from_bytes(input: &[u8], pos: usize) -> (res: ReadResult<u8>) {
        let ghost decoded = u8::decode(input@, pos as int);
        if pos >= input.len() {
            assert(decoded is Err);
            return Err(ReadError::UnexpectedEof);
        }
        assert(decoded is Ok);
        Ok((input[pos], pos + 1))
    }

    fn to_bytes(&self, out: &mut Vec<u8>) -> (res: WriteResult) {
        out.push(*self);
        assert(u8::oversize(*self) is None);
        assert(out@ =~= old(out)@ + u8::encode(*self));
        Ok(())
    }

    proof fn lemma_fits(m: u8) {
        assert(u8::oversize(m) is None);
    }

    proof fn lemma_decode_encode(s: Seq<u8>, pos: int, m: u8) {
        reveal(holds_at);
        assert(s.subrange(pos, pos + 1)[0] == s[pos]);
        assert(u8::decode(s, pos) == Decoded::<u8>::Ok((m, pos + u8::encode(m).len())));
    }

    proof fn lemma_encode_decode(s: Seq<u8>, pos: int) {
        if u8::decode(s, pos) is Ok {
            assert(u8::encode(s[pos]) =~= s.subrange(pos, pos + 1));
            assert(u8::wf(s[pos]));
        }
    }
}

impl Codec for u16 {
    open spec fn wf(m: u16) -> bool {
        true
    }

    open spec fn oversize(m: u16) -> Option<nat> {
        None
    }

    open spec fn encode(m: u16) -> Seq<u8> {
        u16_bytes(m)
    }

    open spec fn decode(s: Seq<u8>, pos: int) -> Decoded<u16> {
        if 0 <= pos && pos + 2 <= s.len() {
            Ok((be16(s, pos), pos + 2))
        } else {
            Err(ReadError::UnexpectedEof)
        }
    }

    fn from_bytes(input: &[u8], pos: usize) -> (res: ReadResult<u16>) {
        let ghost decoded = u16::decode(input@, pos as int);
        if pos > input.len() || input.len() - pos < 2 {
            assert(decoded is Err);
            return Err(ReadError::UnexpectedEof);
        }
        let hi: u16 = input[pos] as u16;
        let lo: u16 = input[pos + 1] as u16;
        assert(decoded is Ok);
        Ok((hi * 0x100 + lo, pos + 2))
    }

    fn to_bytes(&self, out: &mut Vec<u8>) -> (res: WriteResult) {
        out.push((*self / 0x100) as u8);
        out.push((*self % 0x100) as u8);
        assert(u16::oversize(*self) is None);
        assert(out@ =~= old(out)@ + u16::encode(*self));
        Ok(())
    }

    proof fn lemma_fits(m: u16) {
        assert(u16::oversize(m) is None);
    }

    proof fn lemma_decode_encode(s: Seq<u8>, pos: int, m: u16) {
        reveal(holds_at);
        let part = s.subrange(pos, pos + 2);
        assert(part[0] == s[pos] && part[1] == s[pos + 1]);
        assert(u16::decode(s, pos) == Decoded::<u16>::Ok((m, pos + u16::encode(m).len())));
    }

    proof fn lemma_encode_decode(s: Seq<u8>, pos: int) {
        if u16::decode(s, pos) is Ok {
            assert(u16::encode(be16(s, pos)) =~= s.subrange(pos, pos + 2));
            assert(u16::wf(be16(s, pos)));
        }
    }
}

impl Codec for u32 {
    open spec fn wf(m: u32) -> bool {
        true
    }

    open spec fn oversize(m: u32) -> Option<nat> {
        None
    }

    open spec fn encode(m: u32) -> Seq<u8> {
        u32_bytes(m)
    }

    open spec fn decode(s: Seq<u8>, pos: int) -> Decoded<u32> {
        if 0 <= pos && pos + 4 <= s.len() {
            Ok((be32(s, pos), pos + 4))
        } else {
            Err(ReadError::UnexpectedEof)
        }
    }

    fn from_bytes(input: &[u8], pos: usize) -> (res: ReadResult<u32>) {
        let ghost decoded = u32::decode(input@, pos as int);
        if pos > input.len() || input.len() - pos < 4 {
            assert(decoded is Err);
            return Err(ReadError::UnexpectedEof);
        }
        let b0: u32 = input[pos] as u32;
        let b1: u32 = input[pos + 1] as u32;
        let b2: u32 = input[pos + 2] as u32;
        let b3: u32 = input[pos + 3] as u32;
        assert(decoded is Ok);
        Ok((b0 * 0x100_0000 + b1 * 0x1_0000 + b2 * 0x100 + b3, pos + 4))
    }

    fn to_bytes(&self, out: &mut Vec<u8>) -> (res: WriteResult) {
        out.push((*self / 0x100_0000) as u8);
        out.push((*self / 0x1_0000 % 0x100) as u8);
        out.push((*self / 0x100 % 0x100) as u8);
        out.push((*self % 0x100) as u8);
        assert(u32::oversize(*self) is None);
        assert(out@ =~= old(out)@ + u32::encode(*self));
        Ok(())
    }

    proof fn lemma_fits(m: u32) {
        assert(u32::oversize(m) is None);
    }

    proof fn lemma_decode_encode(s: Seq<u8>, pos: int, m: u32) {
        reveal(holds_at);
        let part = s.subrange(pos, pos + 4);
        assert(part[0] == s[pos] && part[1] == s[pos + 1] && part[2] == s[pos + 2] && part[3]
            == s[pos + 3]);
        assert(u32::decode(s, pos) == Decoded::<u32>::Ok((m, pos + u32::encode(m).len())));
    }

    proof fn lemma_encode_decode(s: Seq<u8>, pos: int) {
        if u32::decode(s, pos) is Ok {
            lemma_u32_digits(s[pos], s[pos + 1], s[pos + 2], s[pos + 3]);
            assert(u32::encode(be32(s, pos)) =~= s.subrange(pos, pos + 4));
            assert(u32::wf(be32(s, pos)));
        }
    }
}

/// The four base-256 digits of a 32-bit integer are the bytes it was made of.
proof fn lemma_u32_digits(b0: u8, b1: u8, b2: u8, b3: u8)
    ensures
        ({
            let v = b0 as int * 0x100_0000 + b1 as int * 0x1_0000 + b2 as int * 0x100 + b3 as int;
            &&& 0 <= v <= u32::MAX
            &&& v / 0x100_0000 == b0
            &&& v / 0x1_0000 % 0x100 == b1
            &&& v / 0x100 % 0x100 == b2
            &&& v % 0x100 == b3
        }),
{
    let v = b0 as int * 0x100_0000 + b1 as int * 0x1_0000 + b2 as int * 0x100 + b3 as int;
    let lo = b1 as int * 0x1_0000 + b2 as int * 0x100 + b3 as int;
    assert(v / 0x100_0000 == b0) by {
        assert(0 <= lo < 0x100_0000);
        assert(v == b0 as int * 0x100_0000 + lo);
    }
    assert(v / 0x1_0000 == b0 as int * 0x100 + b1 as int);
    assert(v / 0x100 == b0 as int * 0x1_0000 + b1 as int * 0x100 + b2 as int);
}

// ---------------------------------------------------------------------------
// Length prefixes
// ---------------------------------------------------------------------------

/// The width of the field that carries a length or a count.
#[derive(Debug, Clone, Copy, PartialEq, Eq, Hash)]
pub enum LenWidth {
    /// One byte.
    U8,
    /// Two bytes.
    U16,
    /// Four bytes.
    U32,
}

impl LenWidth {
    /// The largest number that the field can carry.
    pub open spec fn limit(self) -> nat {
        match self {
            LenWidth::U8 => 0xff,
            LenWidth::U16 => 0xffff,
            LenWidth::U32 => 0xffff_ffff,
        }
    }

    /// The number of bytes of the field.
    pub open spec fn size(self) -> nat {
        match self {
            LenWidth::U8 => 1,
            LenWidth::U16 => 2,
            LenWidth::U32 => 4,
        }
    }
}

/// The length that stands at `pos` in a field of the given width.
pub open spec fn decode_len(s: Seq<u8>, pos: int, width: LenWidth) -> Decoded<nat> {
    if 0 <= pos && pos + width.size() <= s.len() {
        Ok(
            (
                match width {
                    LenWidth::U8 => s[pos] as nat,
                    LenWidth::U16 => be16(s, pos) as nat,
                    LenWidth::U32 => be32(s, pos) as nat,
                },
                pos + width.size(),
            ),
        )
    } else {
        Err(ReadError::UnexpectedEof)
    }
}

/// The bytes of a length in a field of the given width.
pub open spec fn encode_len(width: LenWidth, n: nat) -> Seq<u8> {
    match width {
        LenWidth::U8 => seq![n as u8],
        LenWidth::U16 => u16_bytes(n as u16),
        LenWidth::U32 => u32_bytes(n as u32),
    }
}

/// Reads a length from a field of the given width.
pub fn read_len(input: &[u8], pos: usize, width: LenWidth) -> (res: ReadResult<usize>)
    ensures
        match res {
            Ok((n, next)) => {
                &&& decode_len(input@, pos as int, width) == Decoded::<nat>::Ok(
                    (n as nat, next as int),
                )
                &&& pos <= next <= input@.len()
            },
            Err(e) => decode_len(input@, pos as int, width) == Decoded::<nat>::Err(e),
        },
{
    match width {
        LenWidth::U8 => {
            let (n, next) = u8::from_bytes(input, pos)?;
            Ok((n as usize, next))
        },
        LenWidth::U16 => {
            let (n, next) = u16::from_bytes(input, pos)?;
            Ok((n as usize, next))
        },
        LenWidth::U32 => {
            let (n, next) = u32::from_bytes(input, pos)?;
            Ok((n as usize, next))
        },
    }
}

/// Appends a length in a field of the given width, unless the field cannot
/// carry it; `out` is then unchanged.
pub fn write_len(n: usize, width: LenWidth, out: &mut Vec<u8>) -> (res: WriteResult)
    ensures
        match res {
            Ok(()) => n <= width.limit() && final(out)@ == old(out)@ + encode_len(width, n as nat),
            Err(WriteError::TooLarge(m)) => n > width.limit() && m == n && final(out)@ == old(out)@,
        },
{
    match width {
        LenWidth::U8 => {
            if n > 0xff {
                return Err(WriteError::TooLarge(n));
            }
            (n as u8).to_bytes(out)
        },
        LenWidth::U16 => {
            if n > 0xffff {
                return Err(WriteError::TooLarge(n));
            }
            (n as u16).to_bytes(out)
        },
        LenWidth::U32 => {
            if n > 0xffff_ffff {
                return Err(WriteError::TooLarge(n));
            }
            (n as u32).to_bytes(out)
        },
    }
}

/// Decoding the encoding of a length that fits yields the length.
pub proof fn lemma_len_decode_encode(s: Seq<u8>, pos: int, width: LenWidth, n: nat)
    requires
        n <= width.limit(),
        holds_at(s, pos, encode_len(width, n)),
    ensures
        decode_len(s, pos, width) == Decoded::<nat>::Ok((n, pos + width.size())),
        encode_len(width, n).len() == width.size(),
{
    match width {
        LenWidth::U8 => u8::lemma_decode_encode(s, pos, n as u8),
        LenWidth::U16 => u16::lemma_decode_encode(s, pos, n as u16),
        LenWidth::U32 => u32::lemma_decode_encode(s, pos, n as u32),
    }
}

/// A length that was decoded fits its field, and its encoding is the bytes
/// that were read.
pub proof fn lemma_len_encode_decode(s: Seq<u8>, pos: int, width: LenWidth)
    ensures
        decode_len(s, pos, width) matches Ok((n, next)) ==> {
            &&& n <= width.limit()
            &&& 0 <= pos
            &&& next == pos + width.size()
            &&& next <= s.len()
            &&& encode_len(width, n) == s.subrange(pos, next)
        },
{
    match width {
        LenWidth::U8 => u8::lemma_encode_decode(s, pos),
        LenWidth::U16 => u16::lemma_encode_decode(s, pos),
        LenWidth::U32 => u32::lemma_encode_decode(s, pos),
    }
}

// ---------------------------------------------------------------------------
// Blobs
// ---------------------------------------------------------------------------

/// The length-prefixed bytes that stand at `pos`: a length in a field of the
/// given width, then that many bytes.
pub open spec fn decode_blob(s: Seq<u8>, pos: int, width: LenWidth) -> Decoded<Seq<u8>> {
    match decode_len(s, pos, width) {
        Err(e) => Err(e),
        Ok((n, start)) => if start + n <= s.len() {
            Ok((s.subrange(start, start + n), start + n))
        } else {
            Err(ReadError::UnexpectedEof)
        },
    }
}

/// The wire format of length-prefixed bytes.
pub open spec fn encode_blob(width: LenWidth, bytes: Seq<u8>) -> Seq<u8> {
    encode_len(width, bytes.len()) + bytes
}

/// The length of the bytes, if the length field cannot carry it.
pub open spec fn oversize_blob(width: LenWidth, bytes: Seq<u8>) -> Option<nat> {
    if bytes.len() > width.limit() {
        Some(bytes.len())
    } else {
        None
    }
}

/// Reads length-prefixed bytes. An empty blob is valid; a length that reaches
/// beyond the input is an unexpected end of input.
pub fn read_blob(input: &[u8], pos: usize, width: LenWidth) -> (res: ReadResult<Vec<u8>>)
    ensures
        match res {
            Ok((v, next)) => {
                &&& decode_blob(input@, pos as int, width) == Decoded::<Seq<u8>>::Ok(
                    (v@, next as int),
                )
                &&& pos <= next <= input@.len()
            },
            Err(e) => decode_blob(input@, pos as int, width) == Decoded::<Seq<u8>>::Err(e),
        },
{
    let (n, start) = read_len(input, pos, width)?;
    if input.len() - start < n {
        return Err(ReadError::UnexpectedEof);
    }
    let bytes = vstd::slice::slice_to_vec(vstd::slice::slice_subrange(input, start, start + n));
    Ok((bytes, start + n))
}

/// Appends bytes to `out`.
pub fn write_bytes(bytes: &[u8], out: &mut Vec<u8>)
    ensures
        final(out)@ == old(out)@ + bytes@,
{
    let mut i: usize = 0;
    while i < bytes.len()
        invariant
            i <= bytes@.len(),
            out@ == old(out)@ + bytes@.subrange(0, i as int),
        decreases bytes@.len() - i,
    {
        out.push(bytes[i]);
        assert(bytes@.subrange(0, i + 1) =~= bytes@.subrange(0, i as int).push(bytes@[i as int]));
        i += 1;
    }
    assert(bytes@.subrange(0, i as int) =~= bytes@);
}

/// Appends length-prefixed bytes, unless the length field cannot carry their
/// length; `out` is then unchanged.
pub fn write_blob(bytes: &[u8], width: LenWidth, out: &mut Vec<u8>) -> (res: WriteResult)
    ensures
        match res {
            Ok(()) => {
                &&& oversize_blob(width, bytes@) is None
                &&& final(out)@ == old(out)@ + encode_blob(width, bytes@)
            },
            Err(WriteError::TooLarge(n)) => {
                &&& oversize_blob(width, bytes@) == Some(n as nat)
                &&& final(out)@ == old(out)@
            },
        },
{
    write_len(bytes.len(), width, out)?;
    write_bytes(bytes, out);
    assert(out@ =~= old(out)@ + encode_blob(width, bytes@));
    Ok(())
}

/// Decoding the encoding of a blob whose length fits yields the blob.
pub proof fn lemma_blob_decode_encode(s: Seq<u8>, pos: int, width: LenWidth, bytes: Seq<u8>)
    requires
        bytes.len() <= width.limit(),
        holds_at(s, pos, encode_blob(width, bytes)),
    ensures
        decode_blob(s, pos, width) == Decoded::<Seq<u8>>::Ok(
            (bytes, pos + encode_blob(width, bytes).len()),
        ),
{
    lemma_holds_split(s, pos, encode_len(width, bytes.len()), bytes);
    lemma_len_decode_encode(s, pos, width, bytes.len());
    reveal(holds_at);
}

/// The length of a blob that was decoded fits its field, and the encoding of
/// the blob is the bytes that were read.
pub proof fn lemma_blob_encode_decode(s: Seq<u8>, pos: int, width: LenWidth)
    ensures
        decode_blob(s, pos, width) matches Ok((bytes, next)) ==> {
            &&& bytes.len() <= width.limit()
            &&& 0 <= pos <= next <= s.len()
            &&& encode_blob(width, bytes) == s.subrange(pos, next)
        },
{
    lemma_len_encode_decode(s, pos, width);
    if let Ok((bytes, next)) = decode_blob(s, pos, width) {
        lemma_subrange_join(s, pos, pos + width.size(), next);
    }
}

// ---------------------------------------------------------------------------
// Sequences
// ---------------------------------------------------------------------------

/// The `count` values that stand one behind the other from `pos` on.
pub open spec fn decode_seq<T: Codec>(s: Seq<u8>, pos: int, count: nat) -> Decoded<Seq<T::V>>
    decreases count,
{
    if count == 0 {
        Ok((Seq::empty(), pos))
    } else {
        match T::decode(s, pos) {
            Err(e) => Err(e),
            Ok((first, next)) => match decode_seq::<T>(s, next, (count - 1) as nat) {
                Err(e) => Err(e),
                Ok((rest, end)) => Ok((seq![first] + rest, end)),
            },
        }
    }
}

/// The encodings of the values, one behind the other.
pub open spec fn encode_seq<T: Codec>(items: Seq<T::V>) -> Seq<u8>
    decreases items.len(),
{
    if items.len() == 0 {
        Seq::empty()
    } else {
        T::encode(items[0]) + encode_seq::<T>(items.skip(1))
    }
}

/// Every value of the sequence is well-formed.
pub open spec fn wf_seq<T: Codec>(items: Seq<T::V>) -> bool {
    forall|i: int| 0 <= i < items.len() ==> T::wf(#[trigger] items[i])
}

/// The first number of the first value of the sequence that does not fit its
/// field.
pub open spec fn oversize_seq<T: Codec>(items: Seq<T::V>) -> Option<nat>
    decreases items.len(),
{
    if items.len() == 0 {
        None
    } else {
        first_of(T::oversize(items[0]), oversize_seq::<T>(items.skip(1)))
    }
}

/// What decoding a sequence yields once `front` has been read and `rest` is
/// what decoding the remainder yields.
pub open spec fn prepend<M>(front: Seq<M>, rest: Decoded<Seq<M>>) -> Decoded<Seq<M>> {
    match rest {
        Ok((items, end)) => Ok((front + items, end)),
        Err(e) => Err(e),
    }
}

/// A sequence of well-formed values holds no number that does not fit.
pub proof fn lemma_seq_fits<T: Codec>(items: Seq<T::V>)
    requires
        wf_seq::<T>(items),
    ensures
        oversize_seq::<T>(items) is None,
    decreases items.len(),
{
    if items.len() > 0 {
        T::lemma_fits(items[0]);
        assert forall|i: int| 0 <= i < items.skip(1).len() implies T::wf(
            #[trigger] items.skip(1)[i],
        ) by {
            assert(items.skip(1)[i] == items[i + 1]);
        }
        lemma_seq_fits::<T>(items.skip(1));
    }
}

/// Decoding the encodings of well-formed values yields the values.
pub proof fn lemma_seq_decode_encode<T: Codec>(s: Seq<u8>, pos: int, items: Seq<T::V>)
    requires
        wf_seq::<T>(items),
        holds_at(s, pos, encode_seq::<T>(items)),
    ensures
        decode_seq::<T>(s, pos, items.len()) == Decoded::<Seq<T::V>>::Ok(
            (items, pos + encode_seq::<T>(items).len()),
        ),
    decreases items.len(),
{
    if items.len() == 0 {
        assert(items =~= Seq::<T::V>::empty());
    } else {
        let tail = items.skip(1);
        lemma_holds_split(s, pos, T::encode(items[0]), encode_seq::<T>(tail));
        T::lemma_decode_encode(s, pos, items[0]);
        assert forall|i: int| 0 <= i < tail.len() implies T::wf(#[trigger] tail[i]) by {
            assert(tail[i] == items[i + 1]);
        }
        lemma_seq_decode_encode::<T>(s, pos + T::encode(items[0]).len(), tail);
        assert(seq![items[0]] + tail =~= items);
    }
}

/// The values that were decoded are well-formed, as many as were asked for,
/// and their encodings are the bytes that were read.
pub proof fn lemma_seq_encode_decode<T: Codec>(s: Seq<u8>, pos: int, count: nat)
    requires
        0 <= pos <= s.len(),
    ensures
        decode_seq::<T>(s, pos, count) matches Ok((items, end)) ==> {
            &&& items.len() == count
            &&& wf_seq::<T>(items)
            &&& pos <= end <= s.len()
            &&& encode_seq::<T>(items) == s.subrange(pos, end)
        },
    decreases count,
{
    if count == 0 {
        assert(encode_seq::<T>(Seq::<T::V>::empty()) =~= s.subrange(pos, pos));
    } else {
        T::lemma_encode_decode(s, pos);
        if let Ok((first, next)) = T::decode(s, pos) {
            lemma_seq_encode_decode::<T>(s, next, (count - 1) as nat);
            if let Ok((rest, end)) = decode_seq::<T>(s, next, (count - 1) as nat) {
                let items = seq![first] + rest;
                assert(items.skip(1) =~= rest);
                lemma_subrange_join(s, pos, next, end);
            }
        }
    }
}

/// Reads `count` values that stand one behind the other.
pub(crate) fn read_seq<T: Codec>(input: &[u8], pos: usize, count: usize) -> (res: ReadResult<
    Vec<T>,
>)
    requires
        pos <= input@.len(),
    ensures
        match res {
            Ok((v, next)) => {
                &&& decode_seq::<T>(input@, pos as int, count as nat) == Decoded::<Seq<T::V>>::Ok(
                    (views(v@), next as int),
                )
                &&& pos <= next <= input@.len()
            },
            Err(e) => decode_seq::<T>(input@, pos as int, count as nat) == Decoded::<
                Seq<T::V>,
            >::Err(e),
        },
{
    let mut items: Vec<T> = Vec::new();
    let mut cur: usize = pos;
    let mut i: usize = 0;
    assert(views(items@) + Seq::<T::V>::empty() =~= Seq::<T::V>::empty());
    while i < count
        invariant
            i <= count,
            pos <= cur <= input@.len(),
            decode_seq::<T>(input@, pos as int, count as nat) == prepend(
                views(items@),
                decode_seq::<T>(input@, cur as int, (count - i) as nat),
            ),
        decreases count - i,
    {
        let ghost before = views(items@);
        match T::from_bytes(input, cur) {
            Err(e) => {
                return Err(e);
            },
            Ok((item, next)) => {
                proof {
                    let rest = decode_seq::<T>(input@, next as int, (count - i - 1) as nat);
                    assert(views(items@.push(item)) =~= before.push(item@));
                    if let Ok((tail, end)) = rest {
                        assert(before + (seq![item@] + tail) =~= before.push(item@) + tail);
                    }
                }
                items.push(item);
                cur = next;
                i += 1;
            },
        }
    }
    assert(views(items@) + Seq::<T::V>::empty() =~= views(items@));
    Ok((items, cur))
}

/// Appends the encodings of the values, one behind the other.
pub(crate) fn write_seq<T: Codec>(items: &Vec<T>, out: &mut Vec<u8>) -> (res: WriteResult)
    ensures
        match res {
            Ok(()) => {
                &&& oversize_seq::<T>(views(items@)) is None
                &&& final(out)@ == old(out)@ + encode_seq::<T>(views(items@))
            },
            Err(WriteError::TooLarge(n)) => {
                &&& oversize_seq::<T>(views(items@)) == Some(n as nat)
                &&& extends(final(out)@, old(out)@)
            },
        },
{
    let ghost all = views(items@);
    let mut i: usize = 0;
    assert(all.skip(0) =~= all);
    while i < items.len()
        invariant
            i <= items@.len(),
            all == views(items@),
            extends(out@, old(out)@),
            oversize_seq::<T>(all) == oversize_seq::<T>(all.skip(i as int)),
            old(out)@ + encode_seq::<T>(all) == out@ + encode_seq::<T>(all.skip(i as int)),
        decreases items@.len() - i,
    {
        let ghost before = out@;
        let ghost rest = all.skip(i as int);
        assert(rest[0] == items@[i as int]@);
        assert(rest.skip(1) =~= all.skip(i + 1));
        assert(oversize_seq::<T>(rest) == first_of(
            T::oversize(rest[0]),
            oversize_seq::<T>(rest.skip(1)),
        ));
        match items[i].to_bytes(out) {
            Err(e) => {
                proof {
                    lemma_extends_after(old(out)@, before, out@);
                }
                return Err(e);
            },
            Ok(()) => {
                assert(before + (T::encode(rest[0]) + encode_seq::<T>(rest.skip(1))) =~= out@
                    + encode_seq::<T>(all.skip(i + 1)));
            },
        }
        i += 1;
    }
    assert(all.skip(i as int) =~= Seq::<T::V>::empty());
    assert(out@ =~= old(out)@ + encode_seq::<T>(all));
    Ok(())
}

// ---------------------------------------------------------------------------
// Tables: counted sequences
// ---------------------------------------------------------------------------

/// The counted sequence that stands at `pos`: a count in a field of the given
/// width, then that many values.
pub open spec fn decode_table<T: Codec>(s: Seq<u8>, pos: int, width: LenWidth) -> Decoded<
    Seq<T::V>,
> {
    match decode_len(s, pos, width) {
        Err(e) => Err(e),
        Ok((count, start)) => decode_seq::<T>(s, start, count),
    }
}

/// The wire format of a counted sequence.
pub open spec fn encode_table<T: Codec>(width: LenWidth, items: Seq<T::V>) -> Seq<u8> {
    encode_len(width, items.len()) + encode_seq::<T>(items)
}

/// The count fits its field and every value is well-formed.
pub open spec fn wf_table<T: Codec>(width: LenWidth, items: Seq<T::V>) -> bool {
    items.len() <= width.limit() && wf_seq::<T>(items)
}

/// The count, if its field cannot carry it; else what does not fit in the
/// values.
pub open spec fn oversize_table<T: Codec>(width: LenWidth, items: Seq<T::V>) -> Option<nat> {
    if items.len() > width.limit() {
        Some(items.len())
    } else {
        oversize_seq::<T>(items)
    }
}

/// Reads a counted sequence.
pub fn read_table<T: Codec>(input: &[u8], pos: usize, width: LenWidth) -> (res: ReadResult<Vec<T>>)
    ensures
        match res {
            Ok((v, next)) => {
                &&& decode_table::<T>(input@, pos as int, width) == Decoded::<Seq<T::V>>::Ok(
                    (views(v@), next as int),
                )
                &&& pos <= next <= input@.len()
            },
            Err(e) => decode_table::<T>(input@, pos as int, width) == Decoded::<Seq<T::V>>::Err(e),
        },
{
    let (count, start) = read_len(input, pos, width)?;
    read_seq(input, start, count)
}

/// Appends a counted sequence: the count, then the values. It fails with the
/// count if its field cannot carry it, before anything is written.
pub fn write_table<T: Codec>(items: &Vec<T>, width: LenWidth, out: &mut Vec<u8>) -> (res:
    WriteResult)
    ensures
        match res {
            Ok(()) => {
                &&& oversize_table::<T>(width, views(items@)) is None
                &&& final(out)@ == old(out)@ + encode_table::<T>(width, views(items@))
            },
            Err(WriteError::TooLarge(n)) => {
                &&& oversize_table::<T>(width, views(items@)) == Some(n as nat)
                &&& extends(final(out)@, old(out)@)
            },
        },
{
    write_len(items.len(), width, out)?;
    let ghost mid = out@;
    match write_seq(items, out) {
        Err(e) => {
            proof {
                lemma_extends_after(old(out)@, mid, out@);
            }
            Err(e)
        },
        Ok(()) => {
            assert(out@ =~= old(out)@ + encode_table::<T>(width, views(items@)));
            Ok(())
        },
    }
}

/// A well-formed counted sequence holds no number that does not fit.
pub proof fn lemma_table_fits<T: Codec>(width: LenWidth, items: Seq<T::V>)
    requires
        wf_table::<T>(width, items),
    ensures
        oversize_table::<T>(width, items) is None,
{
    lemma_seq_fits::<T>(items);
}

/// Decoding the encoding of a well-formed counted sequence yields the
/// sequence.
pub proof fn lemma_table_decode_encode<T: Codec>(
    s: Seq<u8>,
    pos: int,
    width: LenWidth,
    items: Seq<T::V>,
)
    requires
        wf_table::<T>(width, items),
        holds_at(s, pos, encode_table::<T>(width, items)),
    ensures
        decode_table::<T>(s, pos, width) == Decoded::<Seq<T::V>>::Ok(
            (items, pos + encode_table::<T>(width, items).len()),
        ),
{
    lemma_holds_split(s, pos, encode_len(width, items.len()), encode_seq::<T>(items));
    lemma_len_decode_encode(s, pos, width, items.len());
    lemma_seq_decode_encode::<T>(s, pos + width.size(), items);
}

/// A counted sequence that was decoded is well-formed, and its encoding is
/// the bytes that were read.
pub proof fn lemma_table_encode_decode<T: Codec>(s: Seq<u8>, pos: int, width: LenWidth)
    ensures
        decode_table::<T>(s, pos, width) matches Ok((items, end)) ==> {
            &&& wf_table::<T>(width, items)
            &&& 0 <= pos <= end <= s.len()
            &&& encode_table::<T>(width, items) == s.subrange(pos, end)
        },
{
    lemma_len_encode_decode(s, pos, width);
    if let Ok((count, start)) = decode_len(s, pos, width) {
        lemma_seq_encode_decode::<T>(s, start, count);
        if let Ok((items, end)) = decode_seq::<T>(s, start, count) {
            lemma_subrange_join(s, pos, start, end);
        }
    }
}

} // verus!
