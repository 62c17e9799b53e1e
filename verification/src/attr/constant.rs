//! The `ConstantValue` attribute: the value of a constant field.
use crate::attr::{Attribute, decode_named, parse_with};
use crate::class::Attributes;
use crate::codec::{Codec, Decoded, decoded, end_of};
use crate::error::{ReadResult, WriteResult};
use crate::ops::{
    CONSTANT_DOUBLE_TAG, CONSTANT_FLOAT_TAG, CONSTANT_INTEGER_TAG, CONSTANT_LONG_TAG,
    CONSTANT_STRING_TAG,
};
use crate::pool::{
    CPEntry, CPIndex, CPType, ConstantPool, DoubleInfo, FloatInfo, IntegerInfo, LongInfo,
    StringInfo,
};
use vstd::prelude::*;

verus! {

/// The `ConstantValue` attribute of a field.
#[derive(Debug, Clone, PartialEq, Eq, Hash)]
pub struct ConstantValue {
    /// The constant that the field holds.
    pub constantvalue_index: CPIndex<ConstantValueInfo<'static>>,
}

impl View for ConstantValue {
    type V = ConstantValue;

    open spec fn view(&self) -> ConstantValue {
        *self
    }
}

impl Codec for ConstantValue {
    open spec fn wf(m: ConstantValue) -> bool {
        true
    }

    open spec fn oversize(m: ConstantValue) -> Option<nat> {
        None
    }

    open spec fn encode(m: ConstantValue) -> Seq<u8> {
        CPIndex::<ConstantValueInfo<'static>>::encode(m.constantvalue_index)
    }

    open spec fn decode(s: Seq<u8>, pos: int) -> Decoded<ConstantValue> {
        match CPIndex::<ConstantValueInfo<'static>>::decode(s, pos) {
            Err(e) => Err(e),
            Ok((constantvalue_index, p1)) => Ok((ConstantValue { constantvalue_index }, p1)),
        }
    }

    fn from_bytes(input: &[u8], pos: usize) -> (res: ReadResult<ConstantValue>) {
        let ghost decoded = Self::decode(input@, pos as int);
        let (constantvalue_index, pos) = CPIndex::<ConstantValueInfo<'static>>::from_bytes(
            input,
            pos,
        )?;
        assert(decoded is Ok);
        Ok((ConstantValue { constantvalue_index }, pos))
    }

    fn to_bytes(&self, out: &mut Vec<u8>) -> (res: WriteResult) {
        let ghost encoded = Self::encode(self@);
        let ghost over = Self::oversize(self@);
        self.constantvalue_index.to_bytes(out)?;
        assert(over is None);
        assert(out@ =~= old(out)@ + encoded);
        Ok(())
    }

    proof fn lemma_fits(m: ConstantValue) {
        assert(Self::oversize(m) is None);
    }

    proof fn lemma_decode_encode(s: Seq<u8>, pos: int, m: ConstantValue) {
        let e1 = CPIndex::<ConstantValueInfo<'static>>::encode(m.constantvalue_index);
        CPIndex::<ConstantValueInfo<'static>>::lemma_decode_encode(s, pos, m.constantvalue_index);
        assert(Self::decode(s, pos) == decoded(m, pos + Self::encode(m).len()));
    }

    proof fn lemma_encode_decode(s: Seq<u8>, pos: int) {
        if let Ok((m, next)) = Self::decode(s, pos) {
            let p1 = end_of(CPIndex::<ConstantValueInfo<'static>>::decode(s, pos));
            CPIndex::<ConstantValueInfo<'static>>::lemma_encode_decode(s, pos);
            assert(Self::wf(m));
            assert(Self::encode(m) == s.subrange(pos, next));
        }
    }
}

impl Attribute for ConstantValue {
    open spec fn attribute_name() -> Seq<char> {
        "ConstantValue"@
    }

    open spec fn parse(info: Seq<u8>) -> Option<ConstantValue> {
        parse_with::<ConstantValue>(info)
    }

    fn from_attributes(attributes: &Attributes, cp: &ConstantPool) -> (res: Option<ConstantValue>) {
        decode_named(attributes, cp, "ConstantValue")
    }
}

/// The entries that a `ConstantValue` attribute can refer to: the constants
/// of the primitive types and of `String`.
#[derive(Debug, Clone, PartialEq, Eq, Hash)]
pub enum ConstantValueInfo<'a> {
    Integer(&'a IntegerInfo),
    Float(&'a FloatInfo),
    Long(&'a LongInfo),
    Double(&'a DoubleInfo),
    String(&'a StringInfo),
}

impl<'a, 'b> CPType<'a> for ConstantValueInfo<'b> {
    type Output = ConstantValueInfo<'a>;

    open spec fn admits(tag: u8) -> bool {
        ||| tag == CONSTANT_INTEGER_TAG
        ||| tag == CONSTANT_FLOAT_TAG
        ||| tag == CONSTANT_LONG_TAG
        ||| tag == CONSTANT_DOUBLE_TAG
        ||| tag == CONSTANT_STRING_TAG
    }

    open spec fn spec_fetch(entry: &'a CPEntry) -> Option<ConstantValueInfo<'a>> {
        match entry {
            CPEntry::Integer(info) => Some(ConstantValueInfo::Integer(info)),
            CPEntry::Float(info) => Some(ConstantValueInfo::Float(info)),
            CPEntry::Long(info) => Some(ConstantValueInfo::Long(info)),
            CPEntry::Double(info) => Some(ConstantValueInfo::Double(info)),
            CPEntry::String(info) => Some(ConstantValueInfo::String(info)),
            _ => None,
        }
    }

    fn fetch(entry: &'a CPEntry) -> (res: Option<ConstantValueInfo<'a>>) {
        match entry {
            CPEntry::Integer(info) => Some(ConstantValueInfo::Integer(info)),
            CPEntry::Float(info) => Some(ConstantValueInfo::Float(info)),
            CPEntry::Long(info) => Some(ConstantValueInfo::Long(info)),
            CPEntry::Double(info) => Some(ConstantValueInfo::Double(info)),
            CPEntry::String(info) => Some(ConstantValueInfo::String(info)),
            _ => None,
        }
    }

    proof fn lemma_fetch_admits(entry: &'a CPEntry) {
        assert(Self::spec_fetch(entry) is Some <==> Self::admits(entry.spec_tag()));
    }
}

} // verus!
