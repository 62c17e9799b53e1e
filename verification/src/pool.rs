//! The constant pool: its entries, the typed 1-based indices that refer to
//! them, and the lookup that resolves an index to the entry it names.
use crate::codec::{
    Codec, Decoded, LenWidth, be16, decode_blob, decode_seq, decoded, encode_blob, encode_seq,
    end_of, extends, holds_at, lemma_blob_decode_encode, lemma_blob_encode_decode,
    lemma_extends_after, lemma_holds_split, lemma_seq_decode_encode, lemma_seq_encode_decode,
    lemma_seq_fits, lemma_subrange_join, oversize_blob, oversize_seq, read_blob, read_seq,
    u16_bytes, views, wf_seq, write_blob, write_seq,
};
use crate::error::{ReadError, ReadResult, WriteError, WriteResult};
use crate::modified_utf8::{decode_mutf8, mstr_to_utf8};
use crate::ops::{
    CONSTANT_CLASS_TAG, CONSTANT_DOUBLE_TAG, CONSTANT_DYNAMIC_TAG, CONSTANT_FIELDREF_TAG,
    CONSTANT_FLOAT_TAG, CONSTANT_INTEGER_TAG, CONSTANT_INTERFACE_METHODREF_TAG,
    CONSTANT_INVOKE_DYNAMIC_TAG, CONSTANT_LONG_TAG, CONSTANT_METHODREF_TAG,
    CONSTANT_METHOD_HANDLE_TAG, CONSTANT_METHOD_TYPE_TAG, CONSTANT_MODULE_TAG,
    CONSTANT_NAME_AND_TYPE_TAG, CONSTANT_PACKAGE_TAG, CONSTANT_STRING_TAG, CONSTANT_UTF8_TAG,
    H_GETFIELD, H_INVOKEINTERFACE, H_INVOKEVIRTUAL, H_NEWINVOKESPECIAL, H_PUTSTATIC,
};
use std::marker::PhantomData;
use vstd::prelude::*;
use vstd::std_specs::iter::IteratorSpec;

verus! {

/// A category of constant-pool entries that an index can refer to.
///
/// `T` in a [`CPIndex<T>`] names the category. Looking the index up yields
/// `Output`, a typed view of the entry, and yields nothing for an entry whose
/// tag the category does not admit.
pub trait CPType<'a> {
    /// The typed view of an admitted entry.
    type Output;

    /// The tags of the entries that the category admits.
    spec fn admits(tag: u8) -> bool;

    /// The view of the entry, if the category admits it.
    spec fn spec_fetch(entry: &'a CPEntry) -> Option<Self::Output>;

    /// The view of the entry, if the category admits it.
    fn fetch(entry: &'a CPEntry) -> (res: Option<Self::Output>)
        ensures
            res == Self::spec_fetch(entry),
            res is Some <==> Self::admits(entry.spec_tag()),
    ;

    /// An entry has a view exactly if the category admits its tag.
    proof fn lemma_fetch_admits(entry: &'a CPEntry)
        ensures
            Self::spec_fetch(entry) is Some <==> Self::admits(entry.spec_tag()),
    ;
}

/// A 1-based index into the constant pool that is meant to refer to an entry
/// of category `T`. Index 0 refers to nothing.
#[derive(Debug, PartialEq, Eq, Hash)]
pub struct CPIndex<T> {
    /// The index as it stands on the wire.
    pub index: u16,
    /// The category of the entry that the index is meant to refer to.
    pub marker: PhantomData<T>,
}

impl<T> Clone for CPIndex<T> {
    fn clone(&self) -> (res: Self)
        ensures
            res == *self,
    {
        *self
    }
}

impl<T> Copy for CPIndex<T> {

}

impl<T> View for CPIndex<T> {
    type V = CPIndex<T>;

    open spec fn view(&self) -> CPIndex<T> {
        *self
    }
}

impl<T> CPIndex<T> {
    /// The index with the given number.
    pub open spec fn at(index: u16) -> CPIndex<T> {
        CPIndex { index, marker: PhantomData }
    }

    /// The index with the given number.
    pub fn new(index: u16) -> (res: CPIndex<T>)
        ensures
            res == Self::at(index),
    {
        CPIndex { index, marker: PhantomData }
    }

    /// An optional index as it is held in memory: an index that is present is
    /// not 0.
    pub open spec fn wf_non_zero(m: Option<CPIndex<T>>) -> bool {
        m matches Some(i) ==> i.index != 0
    }

    /// The wire format of an optional index: 0 where there is none.
    pub open spec fn encode_non_zero(m: Option<CPIndex<T>>) -> Seq<u8> {
        match m {
            None => u16_bytes(0),
            Some(i) => u16_bytes(i.index),
        }
    }

    /// The optional index that stands at `pos`: none where the wire holds 0.
    pub open spec fn decode_non_zero(s: Seq<u8>, pos: int) -> Decoded<Option<CPIndex<T>>> {
        match u16::decode(s, pos) {
            Err(e) => Err(e),
            Ok((v, next)) => if v == 0 {
                Ok((None, next))
            } else {
                Ok((Some(Self::at(v)), next))
            },
        }
    }

    /// Reads an optional index: `None` if and only if the wire holds 0.
    pub fn read_non_zero(input: &[u8], pos: usize) -> (res: ReadResult<Option<CPIndex<T>>>)
        ensures
            match res {
                Ok((v, next)) => {
                    &&& Self::decode_non_zero(input@, pos as int) == Decoded::<
                        Option<CPIndex<T>>,
                    >::Ok((v, next as int))
                    &&& v is None <==> be16(input@, pos as int) == 0
                    &&& v matches Some(i) ==> i.index == be16(input@, pos as int)
                    &&& pos + 2 == next <= input@.len()
                },
                Err(e) => {
                    &&& e == ReadError::UnexpectedEof
                    &&& pos + 2 > input@.len()
                    &&& Self::decode_non_zero(input@, pos as int) == Decoded::<
                        Option<CPIndex<T>>,
                    >::Err(e)
                },
            },
    {
        let (value, next) = u16::from_bytes(input, pos)?;
        if value == 0 {
            return Ok((None, next));
        }
        Ok((Some(CPIndex { index: value, marker: PhantomData }), next))
    }

    /// Appends an optional index: 0 where there is none.
    pub fn write_non_zero(value: &Option<CPIndex<T>>, out: &mut Vec<u8>) -> (res: WriteResult)
        ensures
            res is Ok,
            final(out)@ == old(out)@ + Self::encode_non_zero(*value),
    {
        match value {
            None => 0u16.to_bytes(out),
            Some(value) => value.index.to_bytes(out),
        }
    }

    /// Decoding the encoding of an optional index yields it, unless it holds
    /// the index 0.
    pub proof fn lemma_non_zero_decode_encode(s: Seq<u8>, pos: int, m: Option<CPIndex<T>>)
        requires
            Self::wf_non_zero(m),
            holds_at(s, pos, Self::encode_non_zero(m)),
        ensures
            Self::decode_non_zero(s, pos) == Decoded::<Option<CPIndex<T>>>::Ok(
                (m, pos + Self::encode_non_zero(m).len()),
            ),
    {
        match m {
            None => u16::lemma_decode_encode(s, pos, 0),
            Some(i) => u16::lemma_decode_encode(s, pos, i.index),
        }
    }

    /// An optional index that was decoded holds no index 0, and its encoding
    /// is the bytes that were read.
    pub proof fn lemma_non_zero_encode_decode(s: Seq<u8>, pos: int)
        ensures
            Self::decode_non_zero(s, pos) matches Ok((m, next)) ==> {
                &&& Self::wf_non_zero(m)
                &&& 0 <= pos <= next <= s.len()
                &&& Self::encode_non_zero(m) == s.subrange(pos, next)
            },
    {
        u16::lemma_encode_decode(s, pos);
    }
}

impl<T> Codec for CPIndex<T> {
    open spec fn wf(m: CPIndex<T>) -> bool {
        true
    }

    open spec fn oversize(m: CPIndex<T>) -> Option<nat> {
        None
    }

    open spec fn encode(m: CPIndex<T>) -> Seq<u8> {
        u16_bytes(m.index)
    }

    open spec fn decode(s: Seq<u8>, pos: int) -> Decoded<CPIndex<T>> {
        match u16::decode(s, pos) {
            Err(e) => Err(e),
            Ok((v, next)) => Ok((Self::at(v), next)),
        }
    }

    fn from_bytes(input: &[u8], pos: usize) -> (res: ReadResult<CPIndex<T>>) {
        let ghost decoded = Self::decode(input@, pos as int);
        let (value, next) = u16::from_bytes(input, pos)?;
        assert(decoded is Ok);
        Ok((CPIndex { index: value, marker: PhantomData }, next))
    }

    fn to_bytes(&self, out: &mut Vec<u8>) -> (res: WriteResult) {
        let ghost encoded = Self::encode(*self);
        let ghost over = Self::oversize(*self);
        self.index.to_bytes(out)?;
        assert(over is None && out@ == old(out)@ + encoded);
        Ok(())
    }

    proof fn lemma_fits(m: CPIndex<T>) {
        assert(Self::oversize(m) is None);
    }

    proof fn lemma_decode_encode(s: Seq<u8>, pos: int, m: CPIndex<T>) {
        u16::lemma_decode_encode(s, pos, m.index);
        assert(Self::decode(s, pos) == Decoded::<CPIndex<T>>::Ok((m, pos + Self::encode(m).len())));
    }

    proof fn lemma_encode_decode(s: Seq<u8>, pos: int) {
        if let Ok((m, next)) = Self::decode(s, pos) {
            u16::lemma_encode_decode(s, pos);
            assert(Self::wf(m) && Self::encode(m) == s.subrange(pos, next));
        }
    }
}


/// A class or an interface, by its name.
#[derive(Debug, Clone, PartialEq, Eq, Hash)]
pub struct ClassInfo {
    /// The binary name of the class.
    pub name_index: CPIndex<UTF8Info>,
}

impl View for ClassInfo {
    type V = ClassInfo;

    open spec fn view(&self) -> ClassInfo {
        *self
    }
}

impl Codec for ClassInfo {
    open spec fn wf(m: ClassInfo) -> bool {
        true
    }

    open spec fn oversize(m: ClassInfo) -> Option<nat> {
        None
    }

    open spec fn encode(m: ClassInfo) -> Seq<u8> {
        CPIndex::<UTF8Info>::encode(m.name_index)
    }

    open spec fn decode(s: Seq<u8>, pos: int) -> Decoded<ClassInfo> {
        match CPIndex::<UTF8Info>::decode(s, pos) {
            Err(e) => Err(e),
            Ok((name_index, p1)) => Ok((ClassInfo { name_index }, p1)),
        }
    }

    fn from_bytes(input: &[u8], pos: usize) -> (res: ReadResult<ClassInfo>) {
        let ghost decoded = Self::decode(input@, pos as int);
        let (name_index, pos) = CPIndex::<UTF8Info>::from_bytes(input, pos)?;
        assert(decoded is Ok);
        Ok((ClassInfo { name_index }, pos))
    }

    fn to_bytes(&self, out: &mut Vec<u8>) -> (res: WriteResult) {
        let ghost encoded = Self::encode(self@);
        let ghost over = Self::oversize(self@);
        self.name_index.to_bytes(out)?;
        assert(over is None);
        assert(out@ =~= old(out)@ + encoded);
        Ok(())
    }

    proof fn lemma_fits(m: ClassInfo) {
        assert(Self::oversize(m) is None);
    }

    proof fn lemma_decode_encode(s: Seq<u8>, pos: int, m: ClassInfo) {
        let e1 = CPIndex::<UTF8Info>::encode(m.name_index);
        CPIndex::<UTF8Info>::lemma_decode_encode(s, pos, m.name_index);
        assert(Self::decode(s, pos) == decoded(m, pos + Self::encode(m).len()));
    }

    proof fn lemma_encode_decode(s: Seq<u8>, pos: int) {
        if let Ok((m, next)) = Self::decode(s, pos) {
            let p1 = end_of(CPIndex::<UTF8Info>::decode(s, pos));
            CPIndex::<UTF8Info>::lemma_encode_decode(s, pos);
            assert(Self::wf(m));
            assert(Self::encode(m) == s.subrange(pos, next));
        }
    }
}


/// A field of a class.
#[derive(Debug, Clone, PartialEq, Eq, Hash)]
pub struct FieldRefInfo {
    /// The class that declares the field.
    pub class_index: CPIndex<ClassInfo>,
    /// The name and the descriptor of the field.
    pub name_and_type_index: CPIndex<NameAndTypeInfo>,
}

impl View for FieldRefInfo {
    type V = FieldRefInfo;

    open spec fn view(&self) -> FieldRefInfo {
        *self
    }
}

impl Codec for FieldRefInfo {
    open spec fn wf(m: FieldRefInfo) -> bool {
        true
    }

    open spec fn oversize(m: FieldRefInfo) -> Option<nat> {
        None
    }

    open spec fn encode(m: FieldRefInfo) -> Seq<u8> {
        CPIndex::<ClassInfo>::encode(m.class_index)
            + CPIndex::<NameAndTypeInfo>::encode(m.name_and_type_index)
    }

    open spec fn decode(s: Seq<u8>, pos: int) -> Decoded<FieldRefInfo> {
        match CPIndex::<ClassInfo>::decode(s, pos) {
            Err(e) => Err(e),
            Ok((class_index, p1)) => match CPIndex::<NameAndTypeInfo>::decode(s, p1) {
                Err(e) => Err(e),
                Ok((name_and_type_index, p2)) => Ok(
                    (FieldRefInfo { class_index, name_and_type_index }, p2),
                ),
            },
        }
    }

    fn from_bytes(input: &[u8], pos: usize) -> (res: ReadResult<FieldRefInfo>) {
        let ghost decoded = Self::decode(input@, pos as int);
        let (class_index, pos) = CPIndex::<ClassInfo>::from_bytes(input, pos)?;
        let (name_and_type_index, pos) = CPIndex::<NameAndTypeInfo>::from_bytes(input, pos)?;
        assert(decoded is Ok);
        Ok((FieldRefInfo { class_index, name_and_type_index }, pos))
    }

    fn to_bytes(&self, out: &mut Vec<u8>) -> (res: WriteResult) {
        let ghost encoded = Self::encode(self@);
        let ghost over = Self::oversize(self@);
        self.class_index.to_bytes(out)?;
        self.name_and_type_index.to_bytes(out)?;
        assert(over is None);
        assert(out@ =~= old(out)@ + encoded);
        Ok(())
    }

    proof fn lemma_fits(m: FieldRefInfo) {
        assert(Self::oversize(m) is None);
    }

    proof fn lemma_decode_encode(s: Seq<u8>, pos: int, m: FieldRefInfo) {
        let e1 = CPIndex::<ClassInfo>::encode(m.class_index);
        let e2 = CPIndex::<NameAndTypeInfo>::encode(m.name_and_type_index);
        lemma_holds_split(s, pos, e1, e2);
        CPIndex::<ClassInfo>::lemma_decode_encode(s, pos, m.class_index);
        let p1 = pos + e1.len();
        CPIndex::<NameAndTypeInfo>::lemma_decode_encode(s, p1, m.name_and_type_index);
        assert(Self::decode(s, pos) == decoded(m, pos + Self::encode(m).len()));
    }

    proof fn lemma_encode_decode(s: Seq<u8>, pos: int) {
        if let Ok((m, next)) = Self::decode(s, pos) {
            let p1 = end_of(CPIndex::<ClassInfo>::decode(s, pos));
            CPIndex::<ClassInfo>::lemma_encode_decode(s, pos);
            let p2 = end_of(CPIndex::<NameAndTypeInfo>::decode(s, p1));
            CPIndex::<NameAndTypeInfo>::lemma_encode_decode(s, p1);
            lemma_subrange_join(s, pos, p1, p2);
            assert(Self::wf(m));
            assert(Self::encode(m) == s.subrange(pos, next));
        }
    }
}


/// A method of a class.
#[derive(Debug, Clone, PartialEq, Eq, Hash)]
pub struct MethodRefInfo {
    /// The class that declares the method.
    pub class_index: CPIndex<ClassInfo>,
    /// The name and the descriptor of the method.
    pub name_and_type_index: CPIndex<NameAndTypeInfo>,
}

impl View for MethodRefInfo {
    type V = MethodRefInfo;

    open spec fn view(&self) -> MethodRefInfo {
        *self
    }
}

impl Codec for MethodRefInfo {
    open spec fn wf(m: MethodRefInfo) -> bool {
        true
    }

    open spec fn oversize(m: MethodRefInfo) -> Option<nat> {
        None
    }

    open spec fn encode(m: MethodRefInfo) -> Seq<u8> {
        CPIndex::<ClassInfo>::encode(m.class_index)
            + CPIndex::<NameAndTypeInfo>::encode(m.name_and_type_index)
    }

    open spec fn decode(s: Seq<u8>, pos: int) -> Decoded<MethodRefInfo> {
        match CPIndex::<ClassInfo>::decode(s, pos) {
            Err(e) => Err(e),
            Ok((class_index, p1)) => match CPIndex::<NameAndTypeInfo>::decode(s, p1) {
                Err(e) => Err(e),
                Ok((name_and_type_index, p2)) => Ok(
                    (MethodRefInfo { class_index, name_and_type_index }, p2),
                ),
            },
        }
    }

    fn from_bytes(input: &[u8], pos: usize) -> (res: ReadResult<MethodRefInfo>) {
        let ghost decoded = Self::decode(input@, pos as int);
        let (class_index, pos) = CPIndex::<ClassInfo>::from_bytes(input, pos)?;
        let (name_and_type_index, pos) = CPIndex::<NameAndTypeInfo>::from_bytes(input, pos)?;
        assert(decoded is Ok);
        Ok((MethodRefInfo { class_index, name_and_type_index }, pos))
    }

    fn to_bytes(&self, out: &mut Vec<u8>) -> (res: WriteResult) {
        let ghost encoded = Self::encode(self@);
        let ghost over = Self::oversize(self@);
        self.class_index.to_bytes(out)?;
        self.name_and_type_index.to_bytes(out)?;
        assert(over is None);
        assert(out@ =~= old(out)@ + encoded);
        Ok(())
    }

    proof fn lemma_fits(m: MethodRefInfo) {
        assert(Self::oversize(m) is None);
    }

    proof fn lemma_decode_encode(s: Seq<u8>, pos: int, m: MethodRefInfo) {
        let e1 = CPIndex::<ClassInfo>::encode(m.class_index);
        let e2 = CPIndex::<NameAndTypeInfo>::encode(m.name_and_type_index);
        lemma_holds_split(s, pos, e1, e2);
        CPIndex::<ClassInfo>::lemma_decode_encode(s, pos, m.class_index);
        let p1 = pos + e1.len();
        CPIndex::<NameAndTypeInfo>::lemma_decode_encode(s, p1, m.name_and_type_index);
        assert(Self::decode(s, pos) == decoded(m, pos + Self::encode(m).len()));
    }

    proof fn lemma_encode_decode(s: Seq<u8>, pos: int) {
        if let Ok((m, next)) = Self::decode(s, pos) {
            let p1 = end_of(CPIndex::<ClassInfo>::decode(s, pos));
            CPIndex::<ClassInfo>::lemma_encode_decode(s, pos);
            let p2 = end_of(CPIndex::<NameAndTypeInfo>::decode(s, p1));
            CPIndex::<NameAndTypeInfo>::lemma_encode_decode(s, p1);
            lemma_subrange_join(s, pos, p1, p2);
            assert(Self::wf(m));
            assert(Self::encode(m) == s.subrange(pos, next));
        }
    }
}


/// A method of an interface.
#[derive(Debug, Clone, PartialEq, Eq, Hash)]
pub struct InterfaceMethodRefInfo {
    /// The interface that declares the method.
    pub class_index: CPIndex<ClassInfo>,
    /// The name and the descriptor of the method.
    pub name_and_type_index: CPIndex<NameAndTypeInfo>,
}

impl View for InterfaceMethodRefInfo {
    type V = InterfaceMethodRefInfo;

    open spec fn view(&self) -> InterfaceMethodRefInfo {
        *self
    }
}

impl Codec for InterfaceMethodRefInfo {
    open spec fn wf(m: InterfaceMethodRefInfo) -> bool {
        true
    }

    open spec fn oversize(m: InterfaceMethodRefInfo) -> Option<nat> {
        None
    }

    open spec fn encode(m: InterfaceMethodRefInfo) -> Seq<u8> {
        CPIndex::<ClassInfo>::encode(m.class_index)
            + CPIndex::<NameAndTypeInfo>::encode(m.name_and_type_index)
    }

    open spec fn decode(s: Seq<u8>, pos: int) -> Decoded<InterfaceMethodRefInfo> {
        match CPIndex::<ClassInfo>::decode(s, pos) {
            Err(e) => Err(e),
            Ok((class_index, p1)) => match CPIndex::<NameAndTypeInfo>::decode(s, p1) {
                Err(e) => Err(e),
                Ok((name_and_type_index, p2)) => Ok(
                    (InterfaceMethodRefInfo { class_index, name_and_type_index }, p2),
                ),
            },
        }
    }

    fn from_bytes(input: &[u8], pos: usize) -> (res: ReadResult<InterfaceMethodRefInfo>) {
        let ghost decoded = Self::decode(input@, pos as int);
        let (class_index, pos) = CPIndex::<ClassInfo>::from_bytes(input, pos)?;
        let (name_and_type_index, pos) = CPIndex::<NameAndTypeInfo>::from_bytes(input, pos)?;
        assert(decoded is Ok);
        Ok((InterfaceMethodRefInfo { class_index, name_and_type_index }, pos))
    }

    fn to_bytes(&self, out: &mut Vec<u8>) -> (res: WriteResult) {
        let ghost encoded = Self::encode(self@);
        let ghost over = Self::oversize(self@);
        self.class_index.to_bytes(out)?;
        self.name_and_type_index.to_bytes(out)?;
        assert(over is None);
        assert(out@ =~= old(out)@ + encoded);
        Ok(())
    }

    proof fn lemma_fits(m: InterfaceMethodRefInfo) {
        assert(Self::oversize(m) is None);
    }

    proof fn lemma_decode_encode(s: Seq<u8>, pos: int, m: InterfaceMethodRefInfo) {
        let e1 = CPIndex::<ClassInfo>::encode(m.class_index);
        let e2 = CPIndex::<NameAndTypeInfo>::encode(m.name_and_type_index);
        lemma_holds_split(s, pos, e1, e2);
        CPIndex::<ClassInfo>::lemma_decode_encode(s, pos, m.class_index);
        let p1 = pos + e1.len();
        CPIndex::<NameAndTypeInfo>::lemma_decode_encode(s, p1, m.name_and_type_index);
        assert(Self::decode(s, pos) == decoded(m, pos + Self::encode(m).len()));
    }

    proof fn lemma_encode_decode(s: Seq<u8>, pos: int) {
        if let Ok((m, next)) = Self::decode(s, pos) {
            let p1 = end_of(CPIndex::<ClassInfo>::decode(s, pos));
            CPIndex::<ClassInfo>::lemma_encode_decode(s, pos);
            let p2 = end_of(CPIndex::<NameAndTypeInfo>::decode(s, p1));
            CPIndex::<NameAndTypeInfo>::lemma_encode_decode(s, p1);
            lemma_subrange_join(s, pos, p1, p2);
            assert(Self::wf(m));
            assert(Self::encode(m) == s.subrange(pos, next));
        }
    }
}


/// A string constant.
#[derive(Debug, Clone, PartialEq, Eq, Hash)]
pub struct StringInfo {
    /// The characters of the string.
    pub string_index: CPIndex<UTF8Info>,
}

impl View for StringInfo {
    type V = StringInfo;

    open spec fn view(&self) -> StringInfo {
        *self
    }
}

impl Codec for StringInfo {
    open spec fn wf(m: StringInfo) -> bool {
        true
    }

    open spec fn oversize(m: StringInfo) -> Option<nat> {
        None
    }

    open spec fn encode(m: StringInfo) -> Seq<u8> {
        CPIndex::<UTF8Info>::encode(m.string_index)
    }

    open spec fn decode(s: Seq<u8>, pos: int) -> Decoded<StringInfo> {
        match CPIndex::<UTF8Info>::decode(s, pos) {
            Err(e) => Err(e),
            Ok((string_index, p1)) => Ok((StringInfo { string_index }, p1)),
        }
    }

    fn from_bytes(input: &[u8], pos: usize) -> (res: ReadResult<StringInfo>) {
        let ghost decoded = Self::decode(input@, pos as int);
        let (string_index, pos) = CPIndex::<UTF8Info>::from_bytes(input, pos)?;
        assert(decoded is Ok);
        Ok((StringInfo { string_index }, pos))
    }

    fn to_bytes(&self, out: &mut Vec<u8>) -> (res: WriteResult) {
        let ghost encoded = Self::encode(self@);
        let ghost over = Self::oversize(self@);
        self.string_index.to_bytes(out)?;
        assert(over is None);
        assert(out@ =~= old(out)@ + encoded);
        Ok(())
    }

    proof fn lemma_fits(m: StringInfo) {
        assert(Self::oversize(m) is None);
    }

    proof fn lemma_decode_encode(s: Seq<u8>, pos: int, m: StringInfo) {
        let e1 = CPIndex::<UTF8Info>::encode(m.string_index);
        CPIndex::<UTF8Info>::lemma_decode_encode(s, pos, m.string_index);
        assert(Self::decode(s, pos) == decoded(m, pos + Self::encode(m).len()));
    }

    proof fn lemma_encode_decode(s: Seq<u8>, pos: int) {
        if let Ok((m, next)) = Self::decode(s, pos) {
            let p1 = end_of(CPIndex::<UTF8Info>::decode(s, pos));
            CPIndex::<UTF8Info>::lemma_encode_decode(s, pos);
            assert(Self::wf(m));
            assert(Self::encode(m) == s.subrange(pos, next));
        }
    }
}


/// An `int` constant.
#[derive(Debug, Clone, PartialEq, Eq, Hash)]
pub struct IntegerInfo {
    /// The bits of the constant.
    pub value: u32,
}

impl View for IntegerInfo {
    type V = IntegerInfo;

    open spec fn view(&self) -> IntegerInfo {
        *self
    }
}

impl Codec for IntegerInfo {
    open spec fn wf(m: IntegerInfo) -> bool {
        true
    }

    open spec fn oversize(m: IntegerInfo) -> Option<nat> {
        None
    }

    open spec fn encode(m: IntegerInfo) -> Seq<u8> {
        u32::encode(m.value)
    }

    open spec fn decode(s: Seq<u8>, pos: int) -> Decoded<IntegerInfo> {
        match u32::decode(s, pos) {
            Err(e) => Err(e),
            Ok((value, p1)) => Ok((IntegerInfo { value }, p1)),
        }
    }

    fn from_bytes(input: &[u8], pos: usize) -> (res: ReadResult<IntegerInfo>) {
        let ghost decoded = Self::decode(input@, pos as int);
        let (value, pos) = u32::from_bytes(input, pos)?;
        assert(decoded is Ok);
        Ok((IntegerInfo { value }, pos))
    }

    fn to_bytes(&self, out: &mut Vec<u8>) -> (res: WriteResult) {
        let ghost encoded = Self::encode(self@);
        let ghost over = Self::oversize(self@);
        self.value.to_bytes(out)?;
        assert(over is None);
        assert(out@ =~= old(out)@ + encoded);
        Ok(())
    }

    proof fn lemma_fits(m: IntegerInfo) {
        assert(Self::oversize(m) is None);
    }

    proof fn lemma_decode_encode(s: Seq<u8>, pos: int, m: IntegerInfo) {
        let e1 = u32::encode(m.value);
        u32::lemma_decode_encode(s, pos, m.value);
        assert(Self::decode(s, pos) == decoded(m, pos + Self::encode(m).len()));
    }

    proof fn lemma_encode_decode(s: Seq<u8>, pos: int) {
        if let Ok((m, next)) = Self::decode(s, pos) {
            let p1 = end_of(u32::decode(s, pos));
            u32::lemma_encode_decode(s, pos);
            assert(Self::wf(m));
            assert(Self::encode(m) == s.subrange(pos, next));
        }
    }
}


/// A `float` constant.
#[derive(Debug, Clone, PartialEq, Eq, Hash)]
pub struct FloatInfo {
    /// The bits of the constant in IEEE 754 single format.
    pub value: u32,
}

impl View for FloatInfo {
    type V = FloatInfo;

    open spec fn view(&self) -> FloatInfo {
        *self
    }
}

impl Codec for FloatInfo {
    open spec fn wf(m: FloatInfo) -> bool {
        true
    }

    open spec fn oversize(m: FloatInfo) -> Option<nat> {
        None
    }

    open spec fn encode(m: FloatInfo) -> Seq<u8> {
        u32::encode(m.value)
    }

    open spec fn decode(s: Seq<u8>, pos: int) -> Decoded<FloatInfo> {
        match u32::decode(s, pos) {
            Err(e) => Err(e),
            Ok((value, p1)) => Ok((FloatInfo { value }, p1)),
        }
    }

    fn from_bytes(input: &[u8], pos: usize) -> (res: ReadResult<FloatInfo>) {
        let ghost decoded = Self::decode(input@, pos as int);
        let (value, pos) = u32::from_bytes(input, pos)?;
        assert(decoded is Ok);
        Ok((FloatInfo { value }, pos))
    }

    fn to_bytes(&self, out: &mut Vec<u8>) -> (res: WriteResult) {
        let ghost encoded = Self::encode(self@);
        let ghost over = Self::oversize(self@);
        self.value.to_bytes(out)?;
        assert(over is None);
        assert(out@ =~= old(out)@ + encoded);
        Ok(())
    }

    proof fn lemma_fits(m: FloatInfo) {
        assert(Self::oversize(m) is None);
    }

    proof fn lemma_decode_encode(s: Seq<u8>, pos: int, m: FloatInfo) {
        let e1 = u32::encode(m.value);
        u32::lemma_decode_encode(s, pos, m.value);
        assert(Self::decode(s, pos) == decoded(m, pos + Self::encode(m).len()));
    }

    proof fn lemma_encode_decode(s: Seq<u8>, pos: int) {
        if let Ok((m, next)) = Self::decode(s, pos) {
            let p1 = end_of(u32::decode(s, pos));
            u32::lemma_encode_decode(s, pos);
            assert(Self::wf(m));
            assert(Self::encode(m) == s.subrange(pos, next));
        }
    }
}


/// A `long` constant.
#[derive(Debug, Clone, PartialEq, Eq, Hash)]
pub struct LongInfo {
    /// The upper 32 bits of the constant.
    pub high_bytes: u32,
    /// The lower 32 bits of the constant.
    pub low_bytes: u32,
}

impl View for LongInfo {
    type V = LongInfo;

    open spec fn view(&self) -> LongInfo {
        *self
    }
}

impl Codec for LongInfo {
    open spec fn wf(m: LongInfo) -> bool {
        true
    }

    open spec fn oversize(m: LongInfo) -> Option<nat> {
        None
    }

    open spec fn encode(m: LongInfo) -> Seq<u8> {
        u32::encode(m.high_bytes)
            + u32::encode(m.low_bytes)
    }

    open spec fn decode(s: Seq<u8>, pos: int) -> Decoded<LongInfo> {
        match u32::decode(s, pos) {
            Err(e) => Err(e),
            Ok((high_bytes, p1)) => match u32::decode(s, p1) {
                Err(e) => Err(e),
                Ok((low_bytes, p2)) => Ok((LongInfo { high_bytes, low_bytes }, p2)),
            },
        }
    }

    fn from_bytes(input: &[u8], pos: usize) -> (res: ReadResult<LongInfo>) {
        let ghost decoded = Self::decode(input@, pos as int);
        let (high_bytes, pos) = u32::from_bytes(input, pos)?;
        let (low_bytes, pos) = u32::from_bytes(input, pos)?;
        assert(decoded is Ok);
        Ok((LongInfo { high_bytes, low_bytes }, pos))
    }

    fn to_bytes(&self, out: &mut Vec<u8>) -> (res: WriteResult) {
        let ghost encoded = Self::encode(self@);
        let ghost over = Self::oversize(self@);
        self.high_bytes.to_bytes(out)?;
        self.low_bytes.to_bytes(out)?;
        assert(over is None);
        assert(out@ =~= old(out)@ + encoded);
        Ok(())
    }

    proof fn lemma_fits(m: LongInfo) {
        assert(Self::oversize(m) is None);
    }

    proof fn lemma_decode_encode(s: Seq<u8>, pos: int, m: LongInfo) {
        let e1 = u32::encode(m.high_bytes);
        let e2 = u32::encode(m.low_bytes);
        lemma_holds_split(s, pos, e1, e2);
        u32::lemma_decode_encode(s, pos, m.high_bytes);
        let p1 = pos + e1.len();
        u32::lemma_decode_encode(s, p1, m.low_bytes);
        assert(Self::decode(s, pos) == decoded(m, pos + Self::encode(m).len()));
    }

    proof fn lemma_encode_decode(s: Seq<u8>, pos: int) {
        if let Ok((m, next)) = Self::decode(s, pos) {
            let p1 = end_of(u32::decode(s, pos));
            u32::lemma_encode_decode(s, pos);
            let p2 = end_of(u32::decode(s, p1));
            u32::lemma_encode_decode(s, p1);
            lemma_subrange_join(s, pos, p1, p2);
            assert(Self::wf(m));
            assert(Self::encode(m) == s.subrange(pos, next));
        }
    }
}


/// A `double` constant.
#[derive(Debug, Clone, PartialEq, Eq, Hash)]
pub struct DoubleInfo {
    /// The upper 32 bits of the constant in IEEE 754 double format.
    pub high_bytes: u32,
    /// The lower 32 bits of the constant.
    pub low_bytes: u32,
}

impl View for DoubleInfo {
    type V = DoubleInfo;

    open spec fn view(&self) -> DoubleInfo {
        *self
    }
}

impl Codec for DoubleInfo {
    open spec fn wf(m: DoubleInfo) -> bool {
        true
    }

    open spec fn oversize(m: DoubleInfo) -> Option<nat> {
        None
    }

    open spec fn encode(m: DoubleInfo) -> Seq<u8> {
        u32::encode(m.high_bytes)
            + u32::encode(m.low_bytes)
    }

    open spec fn decode(s: Seq<u8>, pos: int) -> Decoded<DoubleInfo> {
        match u32::decode(s, pos) {
            Err(e) => Err(e),
            Ok((high_bytes, p1)) => match u32::decode(s, p1) {
                Err(e) => Err(e),
                Ok((low_bytes, p2)) => Ok((DoubleInfo { high_bytes, low_bytes }, p2)),
            },
        }
    }

    fn from_bytes(input: &[u8], pos: usize) -> (res: ReadResult<DoubleInfo>) {
        let ghost decoded = Self::decode(input@, pos as int);
        let (high_bytes, pos) = u32::from_bytes(input, pos)?;
        let (low_bytes, pos) = u32::from_bytes(input, pos)?;
        assert(decoded is Ok);
        Ok((DoubleInfo { high_bytes, low_bytes }, pos))
    }

    fn to_bytes(&self, out: &mut Vec<u8>) -> (res: WriteResult) {
        let ghost encoded = Self::encode(self@);
        let ghost over = Self::oversize(self@);
        self.high_bytes.to_bytes(out)?;
        self.low_bytes.to_bytes(out)?;
        assert(over is None);
        assert(out@ =~= old(out)@ + encoded);
        Ok(())
    }

    proof fn lemma_fits(m: DoubleInfo) {
        assert(Self::oversize(m) is None);
    }

    proof fn lemma_decode_encode(s: Seq<u8>, pos: int, m: DoubleInfo) {
        let e1 = u32::encode(m.high_bytes);
        let e2 = u32::encode(m.low_bytes);
        lemma_holds_split(s, pos, e1, e2);
        u32::lemma_decode_encode(s, pos, m.high_bytes);
        let p1 = pos + e1.len();
        u32::lemma_decode_encode(s, p1, m.low_bytes);
        assert(Self::decode(s, pos) == decoded(m, pos + Self::encode(m).len()));
    }

    proof fn lemma_encode_decode(s: Seq<u8>, pos: int) {
        if let Ok((m, next)) = Self::decode(s, pos) {
            let p1 = end_of(u32::decode(s, pos));
            u32::lemma_encode_decode(s, pos);
            let p2 = end_of(u32::decode(s, p1));
            u32::lemma_encode_decode(s, p1);
            lemma_subrange_join(s, pos, p1, p2);
            assert(Self::wf(m));
            assert(Self::encode(m) == s.subrange(pos, next));
        }
    }
}


/// The name and the descriptor of a field or a method.
#[derive(Debug, Clone, PartialEq, Eq, Hash)]
pub struct NameAndTypeInfo {
    /// The name.
    pub name_index: CPIndex<UTF8Info>,
    /// The descriptor.
    pub descriptor_index: CPIndex<UTF8Info>,
}

impl View for NameAndTypeInfo {
    type V = NameAndTypeInfo;

    open spec fn view(&self) -> NameAndTypeInfo {
        *self
    }
}

impl Codec for NameAndTypeInfo {
    open spec fn wf(m: NameAndTypeInfo) -> bool {
        true
    }

    open spec fn oversize(m: NameAndTypeInfo) -> Option<nat> {
        None
    }

    open spec fn encode(m: NameAndTypeInfo) -> Seq<u8> {
        CPIndex::<UTF8Info>::encode(m.name_index)
            + CPIndex::<UTF8Info>::encode(m.descriptor_index)
    }

    open spec fn decode(s: Seq<u8>, pos: int) -> Decoded<NameAndTypeInfo> {
        match CPIndex::<UTF8Info>::decode(s, pos) {
            Err(e) => Err(e),
            Ok((name_index, p1)) => match CPIndex::<UTF8Info>::decode(s, p1) {
                Err(e) => Err(e),
                Ok((descriptor_index, p2)) => Ok(
                    (NameAndTypeInfo { name_index, descriptor_index }, p2),
                ),
            },
        }
    }

    fn from_bytes(input: &[u8], pos: usize) -> (res: ReadResult<NameAndTypeInfo>) {
        let ghost decoded = Self::decode(input@, pos as int);
        let (name_index, pos) = CPIndex::<UTF8Info>::from_bytes(input, pos)?;
        let (descriptor_index, pos) = CPIndex::<UTF8Info>::from_bytes(input, pos)?;
        assert(decoded is Ok);
        Ok((NameAndTypeInfo { name_index, descriptor_index }, pos))
    }

    fn to_bytes(&self, out: &mut Vec<u8>) -> (res: WriteResult) {
        let ghost encoded = Self::encode(self@);
        let ghost over = Self::oversize(self@);
        self.name_index.to_bytes(out)?;
        self.descriptor_index.to_bytes(out)?;
        assert(over is None);
        assert(out@ =~= old(out)@ + encoded);
        Ok(())
    }

    proof fn lemma_fits(m: NameAndTypeInfo) {
        assert(Self::oversize(m) is None);
    }

    proof fn lemma_decode_encode(s: Seq<u8>, pos: int, m: NameAndTypeInfo) {
        let e1 = CPIndex::<UTF8Info>::encode(m.name_index);
        let e2 = CPIndex::<UTF8Info>::encode(m.descriptor_index);
        lemma_holds_split(s, pos, e1, e2);
        CPIndex::<UTF8Info>::lemma_decode_encode(s, pos, m.name_index);
        let p1 = pos + e1.len();
        CPIndex::<UTF8Info>::lemma_decode_encode(s, p1, m.descriptor_index);
        assert(Self::decode(s, pos) == decoded(m, pos + Self::encode(m).len()));
    }

    proof fn lemma_encode_decode(s: Seq<u8>, pos: int) {
        if let Ok((m, next)) = Self::decode(s, pos) {
            let p1 = end_of(CPIndex::<UTF8Info>::decode(s, pos));
            CPIndex::<UTF8Info>::lemma_encode_decode(s, pos);
            let p2 = end_of(CPIndex::<UTF8Info>::decode(s, p1));
            CPIndex::<UTF8Info>::lemma_encode_decode(s, p1);
            lemma_subrange_join(s, pos, p1, p2);
            assert(Self::wf(m));
            assert(Self::encode(m) == s.subrange(pos, next));
        }
    }
}


/// A string in modified UTF-8. The bytes are kept as they stand in the class
/// file; [`UTF8Info::to_utf8`] converts them.
#[derive(Debug, Clone, PartialEq, Eq, Hash)]
pub struct UTF8Info {
    /// The bytes of the string, in modified UTF-8.
    pub data: Vec<u8>,
}

/// The model of an [`UTF8Info`]: its fields as mathematical values.
pub struct UTF8InfoView {
    pub data: Seq<u8>,
}

impl View for UTF8Info {
    type V = UTF8InfoView;

    open spec fn view(&self) -> UTF8InfoView {
        UTF8InfoView {
            data: self.data@,
        }
    }
}

impl Codec for UTF8Info {
    open spec fn wf(m: UTF8InfoView) -> bool {
        m.data.len() <= LenWidth::U16.limit()
    }

    open spec fn oversize(m: UTF8InfoView) -> Option<nat> {
        oversize_blob(LenWidth::U16, m.data)
    }

    open spec fn encode(m: UTF8InfoView) -> Seq<u8> {
        encode_blob(LenWidth::U16, m.data)
    }

    open spec fn decode(s: Seq<u8>, pos: int) -> Decoded<UTF8InfoView> {
        match decode_blob(s, pos, LenWidth::U16) {
            Err(e) => Err(e),
            Ok((data, p1)) => Ok((UTF8InfoView { data }, p1)),
        }
    }

    fn from_bytes(input: &[u8], pos: usize) -> (res: ReadResult<UTF8Info>) {
        let ghost decoded = Self::decode(input@, pos as int);
        let (data, pos) = read_blob(input, pos, LenWidth::U16)?;
        assert(decoded is Ok);
        Ok((UTF8Info { data }, pos))
    }

    fn to_bytes(&self, out: &mut Vec<u8>) -> (res: WriteResult) {
        let ghost encoded = Self::encode(self@);
        let ghost over = Self::oversize(self@);
        write_blob(self.data.as_slice(), LenWidth::U16, out)?;
        assert(over is None);
        assert(out@ =~= old(out)@ + encoded);
        Ok(())
    }

    proof fn lemma_fits(m: UTF8InfoView) {
        assert(Self::wf(m));
        assert(Self::oversize(m) is None);
    }

    proof fn lemma_decode_encode(s: Seq<u8>, pos: int, m: UTF8InfoView) {
        assert(Self::wf(m));
        let e1 = encode_blob(LenWidth::U16, m.data);
        lemma_blob_decode_encode(s, pos, LenWidth::U16, m.data);
        assert(Self::decode(s, pos) == decoded(m, pos + Self::encode(m).len()));
    }

    proof fn lemma_encode_decode(s: Seq<u8>, pos: int) {
        if let Ok((m, next)) = Self::decode(s, pos) {
            let p1 = end_of(decode_blob(s, pos, LenWidth::U16));
            lemma_blob_encode_decode(s, pos, LenWidth::U16);
            assert(Self::wf(m));
            assert(Self::encode(m) == s.subrange(pos, next));
        }
    }
}


/// A method handle: a kind of access and the field or method that is
/// accessed. The kind decides which category of entry the index refers to.
#[derive(Debug, Clone, PartialEq, Eq, Hash)]
#[allow(inconsistent_fields)]
pub enum MethodHandleInfo {
    /// A field access: `H_GETFIELD` to `H_PUTSTATIC`.
    FieldRef {
        /// The kind of the handle.
        reference_kind: u8,
        /// The field that is read or written.
        reference_index: CPIndex<FieldRefInfo>,
    },
    /// A method invocation: `H_INVOKEVIRTUAL` to `H_NEWINVOKESPECIAL`.
    MethodRef {
        /// The kind of the handle.
        reference_kind: u8,
        /// The method that is invoked.
        reference_index: CPIndex<MethodRefInfo>,
    },
    /// An interface method invocation: `H_INVOKEINTERFACE`.
    InterfaceMethodRef {
        /// The kind of the handle.
        reference_kind: u8,
        /// The interface method that is invoked.
        reference_index: CPIndex<InterfaceMethodRefInfo>,
    },
}

impl View for MethodHandleInfo {
    type V = MethodHandleInfo;

    open spec fn view(&self) -> MethodHandleInfo {
        *self
    }
}

impl MethodHandleInfo {
    /// The kind of the handle.
    pub open spec fn kind(self) -> u8 {
        match self {
            MethodHandleInfo::FieldRef { reference_kind, .. } => reference_kind,
            MethodHandleInfo::MethodRef { reference_kind, .. } => reference_kind,
            MethodHandleInfo::InterfaceMethodRef { reference_kind, .. } => reference_kind,
        }
    }

    /// The index of the handle, as it stands on the wire.
    pub open spec fn target(self) -> u16 {
        match self {
            MethodHandleInfo::FieldRef { reference_index, .. } => reference_index.index,
            MethodHandleInfo::MethodRef { reference_index, .. } => reference_index.index,
            MethodHandleInfo::InterfaceMethodRef { reference_index, .. } => reference_index.index,
        }
    }
}

impl Codec for MethodHandleInfo {
    open spec fn wf(m: MethodHandleInfo) -> bool {
        match m {
            MethodHandleInfo::FieldRef { reference_kind, .. } => H_GETFIELD <= reference_kind
                <= H_PUTSTATIC,
            MethodHandleInfo::MethodRef { reference_kind, .. } => H_INVOKEVIRTUAL
                <= reference_kind <= H_NEWINVOKESPECIAL,
            MethodHandleInfo::InterfaceMethodRef { reference_kind, .. } => reference_kind
                == H_INVOKEINTERFACE,
        }
    }

    open spec fn oversize(m: MethodHandleInfo) -> Option<nat> {
        None
    }

    open spec fn encode(m: MethodHandleInfo) -> Seq<u8> {
        seq![m.kind()] + u16_bytes(m.target())
    }

    open spec fn decode(s: Seq<u8>, pos: int) -> Decoded<MethodHandleInfo> {
        match u8::decode(s, pos) {
            Err(e) => Err(e),
            Ok((reference_kind, p)) => if H_GETFIELD <= reference_kind <= H_PUTSTATIC {
                match CPIndex::<FieldRefInfo>::decode(s, p) {
                    Err(e) => Err(e),
                    Ok((reference_index, next)) => Ok(
                        (MethodHandleInfo::FieldRef { reference_kind, reference_index }, next),
                    ),
                }
            } else if H_INVOKEVIRTUAL <= reference_kind <= H_NEWINVOKESPECIAL {
                match CPIndex::<MethodRefInfo>::decode(s, p) {
                    Err(e) => Err(e),
                    Ok((reference_index, next)) => Ok(
                        (MethodHandleInfo::MethodRef { reference_kind, reference_index }, next),
                    ),
                }
            } else if reference_kind == H_INVOKEINTERFACE {
                match CPIndex::<InterfaceMethodRefInfo>::decode(s, p) {
                    Err(e) => Err(e),
                    Ok((reference_index, next)) => Ok(
                        (
                            MethodHandleInfo::InterfaceMethodRef {
                                reference_kind,
                                reference_index,
                            },
                            next,
                        ),
                    ),
                }
            } else {
                Err(ReadError::UnknownTag(reference_kind, "MethodHandleInfo"))
            },
        }
    }

    fn from_bytes(input: &[u8], pos: usize) -> (res: ReadResult<MethodHandleInfo>) {
        let ghost decoded = Self::decode(input@, pos as int);
        let (reference_kind, pos) = u8::from_bytes(input, pos)?;
        if H_GETFIELD <= reference_kind && reference_kind <= H_PUTSTATIC {
            let (reference_index, next) = CPIndex::from_bytes(input, pos)?;
            Ok((MethodHandleInfo::FieldRef { reference_kind, reference_index }, next))
        } else if H_INVOKEVIRTUAL <= reference_kind && reference_kind <= H_NEWINVOKESPECIAL {
            let (reference_index, next) = CPIndex::from_bytes(input, pos)?;
            Ok((MethodHandleInfo::MethodRef { reference_kind, reference_index }, next))
        } else if reference_kind == H_INVOKEINTERFACE {
            let (reference_index, next) = CPIndex::from_bytes(input, pos)?;
            Ok((MethodHandleInfo::InterfaceMethodRef { reference_kind, reference_index }, next))
        } else {
            assert(decoded is Err);
            Err(ReadError::UnknownTag(reference_kind, "MethodHandleInfo"))
        }
    }

    fn to_bytes(&self, out: &mut Vec<u8>) -> (res: WriteResult) {
        match self {
            MethodHandleInfo::FieldRef { reference_kind, reference_index } => {
                reference_kind.to_bytes(out)?;
                reference_index.to_bytes(out)?;
            },
            MethodHandleInfo::MethodRef { reference_kind, reference_index } => {
                reference_kind.to_bytes(out)?;
                reference_index.to_bytes(out)?;
            },
            MethodHandleInfo::InterfaceMethodRef { reference_kind, reference_index } => {
                reference_kind.to_bytes(out)?;
                reference_index.to_bytes(out)?;
            },
        }
        assert(Self::oversize(self@) is None);
        assert(out@ =~= old(out)@ + Self::encode(self@));
        Ok(())
    }

    proof fn lemma_fits(m: MethodHandleInfo) {
        assert(Self::oversize(m) is None);
    }

    proof fn lemma_decode_encode(s: Seq<u8>, pos: int, m: MethodHandleInfo) {
        assert(Self::wf(m));
        lemma_holds_split(s, pos, seq![m.kind()], u16_bytes(m.target()));
        u8::lemma_decode_encode(s, pos, m.kind());
        u16::lemma_decode_encode(s, pos + 1, m.target());
        assert(Self::decode(s, pos) == Decoded::<MethodHandleInfo>::Ok(
            (m, pos + Self::encode(m).len()),
        ));
    }

    proof fn lemma_encode_decode(s: Seq<u8>, pos: int) {
        if let Ok((m, next)) = Self::decode(s, pos) {
            u8::lemma_encode_decode(s, pos);
            u16::lemma_encode_decode(s, pos + 1);
            lemma_subrange_join(s, pos, pos + 1, next);
            assert(Self::wf(m));
            assert(Self::encode(m) == s.subrange(pos, next));
        }
    }
}


/// A method type.
#[derive(Debug, Clone, PartialEq, Eq, Hash)]
pub struct MethodTypeInfo {
    /// The descriptor of the method type.
    pub descriptor_index: CPIndex<UTF8Info>,
}

impl View for MethodTypeInfo {
    type V = MethodTypeInfo;

    open spec fn view(&self) -> MethodTypeInfo {
        *self
    }
}

impl Codec for MethodTypeInfo {
    open spec fn wf(m: MethodTypeInfo) -> bool {
        true
    }

    open spec fn oversize(m: MethodTypeInfo) -> Option<nat> {
        None
    }

    open spec fn encode(m: MethodTypeInfo) -> Seq<u8> {
        CPIndex::<UTF8Info>::encode(m.descriptor_index)
    }

    open spec fn decode(s: Seq<u8>, pos: int) -> Decoded<MethodTypeInfo> {
        match CPIndex::<UTF8Info>::decode(s, pos) {
            Err(e) => Err(e),
            Ok((descriptor_index, p1)) => Ok((MethodTypeInfo { descriptor_index }, p1)),
        }
    }

    fn from_bytes(input: &[u8], pos: usize) -> (res: ReadResult<MethodTypeInfo>) {
        let ghost decoded = Self::decode(input@, pos as int);
        let (descriptor_index, pos) = CPIndex::<UTF8Info>::from_bytes(input, pos)?;
        assert(decoded is Ok);
        Ok((MethodTypeInfo { descriptor_index }, pos))
    }

    fn to_bytes(&self, out: &mut Vec<u8>) -> (res: WriteResult) {
        let ghost encoded = Self::encode(self@);
        let ghost over = Self::oversize(self@);
        self.descriptor_index.to_bytes(out)?;
        assert(over is None);
        assert(out@ =~= old(out)@ + encoded);
        Ok(())
    }

    proof fn lemma_fits(m: MethodTypeInfo) {
        assert(Self::oversize(m) is None);
    }

    proof fn lemma_decode_encode(s: Seq<u8>, pos: int, m: MethodTypeInfo) {
        let e1 = CPIndex::<UTF8Info>::encode(m.descriptor_index);
        CPIndex::<UTF8Info>::lemma_decode_encode(s, pos, m.descriptor_index);
        assert(Self::decode(s, pos) == decoded(m, pos + Self::encode(m).len()));
    }

    proof fn lemma_encode_decode(s: Seq<u8>, pos: int) {
        if let Ok((m, next)) = Self::decode(s, pos) {
            let p1 = end_of(CPIndex::<UTF8Info>::decode(s, pos));
            CPIndex::<UTF8Info>::lemma_encode_decode(s, pos);
            assert(Self::wf(m));
            assert(Self::encode(m) == s.subrange(pos, next));
        }
    }
}


/// A dynamically computed constant.
#[derive(Debug, Clone, PartialEq, Eq, Hash)]
pub struct DynamicInfo {
    /// The index of the bootstrap method in the `BootstrapMethods` attribute.
    pub bootstrap_method_attr_index: u16,
    /// The name and the descriptor of the constant.
    pub name_and_type_index: CPIndex<NameAndTypeInfo>,
}

impl View for DynamicInfo {
    type V = DynamicInfo;

    open spec fn view(&self) -> DynamicInfo {
        *self
    }
}

impl Codec for DynamicInfo {
    open spec fn wf(m: DynamicInfo) -> bool {
        true
    }

    open spec fn oversize(m: DynamicInfo) -> Option<nat> {
        None
    }

    open spec fn encode(m: DynamicInfo) -> Seq<u8> {
        u16::encode(m.bootstrap_method_attr_index)
            + CPIndex::<NameAndTypeInfo>::encode(m.name_and_type_index)
    }

    open spec fn decode(s: Seq<u8>, pos: int) -> Decoded<DynamicInfo> {
        match u16::decode(s, pos) {
            Err(e) => Err(e),
            Ok((bootstrap_method_attr_index, p1)) => match CPIndex::<NameAndTypeInfo>::decode(
                s,
                p1,
            ) {
                Err(e) => Err(e),
                Ok((name_and_type_index, p2)) => Ok(
                    (DynamicInfo { bootstrap_method_attr_index, name_and_type_index }, p2),
                ),
            },
        }
    }

    fn from_bytes(input: &[u8], pos: usize) -> (res: ReadResult<DynamicInfo>) {
        let ghost decoded = Self::decode(input@, pos as int);
        let (bootstrap_method_attr_index, pos) = u16::from_bytes(input, pos)?;
        let (name_and_type_index, pos) = CPIndex::<NameAndTypeInfo>::from_bytes(input, pos)?;
        assert(decoded is Ok);
        Ok((DynamicInfo { bootstrap_method_attr_index, name_and_type_index }, pos))
    }

    fn to_bytes(&self, out: &mut Vec<u8>) -> (res: WriteResult) {
        let ghost encoded = Self::encode(self@);
        let ghost over = Self::oversize(self@);
        self.bootstrap_method_attr_index.to_bytes(out)?;
        self.name_and_type_index.to_bytes(out)?;
        assert(over is None);
        assert(out@ =~= old(out)@ + encoded);
        Ok(())
    }

    proof fn lemma_fits(m: DynamicInfo) {
        assert(Self::oversize(m) is None);
    }

    proof fn lemma_decode_encode(s: Seq<u8>, pos: int, m: DynamicInfo) {
        let e1 = u16::encode(m.bootstrap_method_attr_index);
        let e2 = CPIndex::<NameAndTypeInfo>::encode(m.name_and_type_index);
        lemma_holds_split(s, pos, e1, e2);
        u16::lemma_decode_encode(s, pos, m.bootstrap_method_attr_index);
        let p1 = pos + e1.len();
        CPIndex::<NameAndTypeInfo>::lemma_decode_encode(s, p1, m.name_and_type_index);
        assert(Self::decode(s, pos) == decoded(m, pos + Self::encode(m).len()));
    }

    proof fn lemma_encode_decode(s: Seq<u8>, pos: int) {
        if let Ok((m, next)) = Self::decode(s, pos) {
            let p1 = end_of(u16::decode(s, pos));
            u16::lemma_encode_decode(s, pos);
            let p2 = end_of(CPIndex::<NameAndTypeInfo>::decode(s, p1));
            CPIndex::<NameAndTypeInfo>::lemma_encode_decode(s, p1);
            lemma_subrange_join(s, pos, p1, p2);
            assert(Self::wf(m));
            assert(Self::encode(m) == s.subrange(pos, next));
        }
    }
}


/// A dynamically computed call site.
#[derive(Debug, Clone, PartialEq, Eq, Hash)]
pub struct InvokeDynamicInfo {
    /// The index of the bootstrap method in the `BootstrapMethods` attribute.
    pub bootstrap_method_attr_index: u16,
    /// The name and the descriptor of the call site.
    pub name_and_type_index: CPIndex<NameAndTypeInfo>,
}

impl View for InvokeDynamicInfo {
    type V = InvokeDynamicInfo;

    open spec fn view(&self) -> InvokeDynamicInfo {
        *self
    }
}

impl Codec for InvokeDynamicInfo {
    open spec fn wf(m: InvokeDynamicInfo) -> bool {
        true
    }

    open spec fn oversize(m: InvokeDynamicInfo) -> Option<nat> {
        None
    }

    open spec fn encode(m: InvokeDynamicInfo) -> Seq<u8> {
        u16::encode(m.bootstrap_method_attr_index)
            + CPIndex::<NameAndTypeInfo>::encode(m.name_and_type_index)
    }

    open spec fn decode(s: Seq<u8>, pos: int) -> Decoded<InvokeDynamicInfo> {
        match u16::decode(s, pos) {
            Err(e) => Err(e),
            Ok((bootstrap_method_attr_index, p1)) => match CPIndex::<NameAndTypeInfo>::decode(
                s,
                p1,
            ) {
                Err(e) => Err(e),
                Ok((name_and_type_index, p2)) => Ok(
                    (InvokeDynamicInfo { bootstrap_method_attr_index, name_and_type_index }, p2),
                ),
            },
        }
    }

    fn from_bytes(input: &[u8], pos: usize) -> (res: ReadResult<InvokeDynamicInfo>) {
        let ghost decoded = Self::decode(input@, pos as int);
        let (bootstrap_method_attr_index, pos) = u16::from_bytes(input, pos)?;
        let (name_and_type_index, pos) = CPIndex::<NameAndTypeInfo>::from_bytes(input, pos)?;
        assert(decoded is Ok);
        Ok((InvokeDynamicInfo { bootstrap_method_attr_index, name_and_type_index }, pos))
    }

    fn to_bytes(&self, out: &mut Vec<u8>) -> (res: WriteResult) {
        let ghost encoded = Self::encode(self@);
        let ghost over = Self::oversize(self@);
        self.bootstrap_method_attr_index.to_bytes(out)?;
        self.name_and_type_index.to_bytes(out)?;
        assert(over is None);
        assert(out@ =~= old(out)@ + encoded);
        Ok(())
    }

    proof fn lemma_fits(m: InvokeDynamicInfo) {
        assert(Self::oversize(m) is None);
    }

    proof fn lemma_decode_encode(s: Seq<u8>, pos: int, m: InvokeDynamicInfo) {
        let e1 = u16::encode(m.bootstrap_method_attr_index);
        let e2 = CPIndex::<NameAndTypeInfo>::encode(m.name_and_type_index);
        lemma_holds_split(s, pos, e1, e2);
        u16::lemma_decode_encode(s, pos, m.bootstrap_method_attr_index);
        let p1 = pos + e1.len();
        CPIndex::<NameAndTypeInfo>::lemma_decode_encode(s, p1, m.name_and_type_index);
        assert(Self::decode(s, pos) == decoded(m, pos + Self::encode(m).len()));
    }

    proof fn lemma_encode_decode(s: Seq<u8>, pos: int) {
        if let Ok((m, next)) = Self::decode(s, pos) {
            let p1 = end_of(u16::decode(s, pos));
            u16::lemma_encode_decode(s, pos);
            let p2 = end_of(CPIndex::<NameAndTypeInfo>::decode(s, p1));
            CPIndex::<NameAndTypeInfo>::lemma_encode_decode(s, p1);
            lemma_subrange_join(s, pos, p1, p2);
            assert(Self::wf(m));
            assert(Self::encode(m) == s.subrange(pos, next));
        }
    }
}


/// A module, by its name.
#[derive(Debug, Clone, PartialEq, Eq, Hash)]
pub struct ModuleInfo {
    /// The name of the module.
    pub name_index: CPIndex<UTF8Info>,
}

impl View for ModuleInfo {
    type V = ModuleInfo;

    open spec fn view(&self) -> ModuleInfo {
        *self
    }
}

impl Codec for ModuleInfo {
    open spec fn wf(m: ModuleInfo) -> bool {
        true
    }

    open spec fn oversize(m: ModuleInfo) -> Option<nat> {
        None
    }

    open spec fn encode(m: ModuleInfo) -> Seq<u8> {
        CPIndex::<UTF8Info>::encode(m.name_index)
    }

    open spec fn decode(s: Seq<u8>, pos: int) -> Decoded<ModuleInfo> {
        match CPIndex::<UTF8Info>::decode(s, pos) {
            Err(e) => Err(e),
            Ok((name_index, p1)) => Ok((ModuleInfo { name_index }, p1)),
        }
    }

    fn from_bytes(input: &[u8], pos: usize) -> (res: ReadResult<ModuleInfo>) {
        let ghost decoded = Self::decode(input@, pos as int);
        let (name_index, pos) = CPIndex::<UTF8Info>::from_bytes(input, pos)?;
        assert(decoded is Ok);
        Ok((ModuleInfo { name_index }, pos))
    }

    fn to_bytes(&self, out: &mut Vec<u8>) -> (res: WriteResult) {
        let ghost encoded = Self::encode(self@);
        let ghost over = Self::oversize(self@);
        self.name_index.to_bytes(out)?;
        assert(over is None);
        assert(out@ =~= old(out)@ + encoded);
        Ok(())
    }

    proof fn lemma_fits(m: ModuleInfo) {
        assert(Self::oversize(m) is None);
    }

    proof fn lemma_decode_encode(s: Seq<u8>, pos: int, m: ModuleInfo) {
        let e1 = CPIndex::<UTF8Info>::encode(m.name_index);
        CPIndex::<UTF8Info>::lemma_decode_encode(s, pos, m.name_index);
        assert(Self::decode(s, pos) == decoded(m, pos + Self::encode(m).len()));
    }

    proof fn lemma_encode_decode(s: Seq<u8>, pos: int) {
        if let Ok((m, next)) = Self::decode(s, pos) {
            let p1 = end_of(CPIndex::<UTF8Info>::decode(s, pos));
            CPIndex::<UTF8Info>::lemma_encode_decode(s, pos);
            assert(Self::wf(m));
            assert(Self::encode(m) == s.subrange(pos, next));
        }
    }
}


/// A package, by its name.
#[derive(Debug, Clone, PartialEq, Eq, Hash)]
pub struct PackageInfo {
    /// The name of the package.
    pub name_index: CPIndex<UTF8Info>,
}

impl View for PackageInfo {
    type V = PackageInfo;

    open spec fn view(&self) -> PackageInfo {
        *self
    }
}

impl Codec for PackageInfo {
    open spec fn wf(m: PackageInfo) -> bool {
        true
    }

    open spec fn oversize(m: PackageInfo) -> Option<nat> {
        None
    }

    open spec fn encode(m: PackageInfo) -> Seq<u8> {
        CPIndex::<UTF8Info>::encode(m.name_index)
    }

    open spec fn decode(s: Seq<u8>, pos: int) -> Decoded<PackageInfo> {
        match CPIndex::<UTF8Info>::decode(s, pos) {
            Err(e) => Err(e),
            Ok((name_index, p1)) => Ok((PackageInfo { name_index }, p1)),
        }
    }

    fn from_bytes(input: &[u8], pos: usize) -> (res: ReadResult<PackageInfo>) {
        let ghost decoded = Self::decode(input@, pos as int);
        let (name_index, pos) = CPIndex::<UTF8Info>::from_bytes(input, pos)?;
        assert(decoded is Ok);
        Ok((PackageInfo { name_index }, pos))
    }

    fn to_bytes(&self, out: &mut Vec<u8>) -> (res: WriteResult) {
        let ghost encoded = Self::encode(self@);
        let ghost over = Self::oversize(self@);
        self.name_index.to_bytes(out)?;
        assert(over is None);
        assert(out@ =~= old(out)@ + encoded);
        Ok(())
    }

    proof fn lemma_fits(m: PackageInfo) {
        assert(Self::oversize(m) is None);
    }

    proof fn lemma_decode_encode(s: Seq<u8>, pos: int, m: PackageInfo) {
        let e1 = CPIndex::<UTF8Info>::encode(m.name_index);
        CPIndex::<UTF8Info>::lemma_decode_encode(s, pos, m.name_index);
        assert(Self::decode(s, pos) == decoded(m, pos + Self::encode(m).len()));
    }

    proof fn lemma_encode_decode(s: Seq<u8>, pos: int) {
        if let Ok((m, next)) = Self::decode(s, pos) {
            let p1 = end_of(CPIndex::<UTF8Info>::decode(s, pos));
            CPIndex::<UTF8Info>::lemma_encode_decode(s, pos);
            assert(Self::wf(m));
            assert(Self::encode(m) == s.subrange(pos, next));
        }
    }
}


/// An entry of the constant pool. On the wire an entry is its tag, then the
/// fields of its variant.
#[derive(Debug, Clone, PartialEq, Eq, Hash)]
pub enum CPEntry {
    Class(ClassInfo),
    FieldRef(FieldRefInfo),
    MethodRef(MethodRefInfo),
    InterfaceMethodRef(InterfaceMethodRefInfo),
    String(StringInfo),
    Integer(IntegerInfo),
    Float(FloatInfo),
    Long(LongInfo),
    Double(DoubleInfo),
    NameAndType(NameAndTypeInfo),
    UTF8(UTF8Info),
    MethodHandle(MethodHandleInfo),
    MethodType(MethodTypeInfo),
    Dynamic(DynamicInfo),
    InvokeDynamic(InvokeDynamicInfo),
    Module(ModuleInfo),
    Package(PackageInfo),
}

/// The model of a [`CPEntry`].
pub enum CPEntryView {
    Class(ClassInfo),
    FieldRef(FieldRefInfo),
    MethodRef(MethodRefInfo),
    InterfaceMethodRef(InterfaceMethodRefInfo),
    String(StringInfo),
    Integer(IntegerInfo),
    Float(FloatInfo),
    Long(LongInfo),
    Double(DoubleInfo),
    NameAndType(NameAndTypeInfo),
    UTF8(UTF8InfoView),
    MethodHandle(MethodHandleInfo),
    MethodType(MethodTypeInfo),
    Dynamic(DynamicInfo),
    InvokeDynamic(InvokeDynamicInfo),
    Module(ModuleInfo),
    Package(PackageInfo),
}

impl CPEntryView {
    /// The tag that selects the variant of the entry.
    pub open spec fn tag(self) -> u8 {
        match self {
            CPEntryView::Class(_) => CONSTANT_CLASS_TAG,
            CPEntryView::FieldRef(_) => CONSTANT_FIELDREF_TAG,
            CPEntryView::MethodRef(_) => CONSTANT_METHODREF_TAG,
            CPEntryView::InterfaceMethodRef(_) => CONSTANT_INTERFACE_METHODREF_TAG,
            CPEntryView::String(_) => CONSTANT_STRING_TAG,
            CPEntryView::Integer(_) => CONSTANT_INTEGER_TAG,
            CPEntryView::Float(_) => CONSTANT_FLOAT_TAG,
            CPEntryView::Long(_) => CONSTANT_LONG_TAG,
            CPEntryView::Double(_) => CONSTANT_DOUBLE_TAG,
            CPEntryView::NameAndType(_) => CONSTANT_NAME_AND_TYPE_TAG,
            CPEntryView::UTF8(_) => CONSTANT_UTF8_TAG,
            CPEntryView::MethodHandle(_) => CONSTANT_METHOD_HANDLE_TAG,
            CPEntryView::MethodType(_) => CONSTANT_METHOD_TYPE_TAG,
            CPEntryView::Dynamic(_) => CONSTANT_DYNAMIC_TAG,
            CPEntryView::InvokeDynamic(_) => CONSTANT_INVOKE_DYNAMIC_TAG,
            CPEntryView::Module(_) => CONSTANT_MODULE_TAG,
            CPEntryView::Package(_) => CONSTANT_PACKAGE_TAG,
        }
    }
}

impl View for CPEntry {
    type V = CPEntryView;

    open spec fn view(&self) -> CPEntryView {
        match self {
            CPEntry::Class(info) => CPEntryView::Class(info@),
            CPEntry::FieldRef(info) => CPEntryView::FieldRef(info@),
            CPEntry::MethodRef(info) => CPEntryView::MethodRef(info@),
            CPEntry::InterfaceMethodRef(info) => CPEntryView::InterfaceMethodRef(info@),
            CPEntry::String(info) => CPEntryView::String(info@),
            CPEntry::Integer(info) => CPEntryView::Integer(info@),
            CPEntry::Float(info) => CPEntryView::Float(info@),
            CPEntry::Long(info) => CPEntryView::Long(info@),
            CPEntry::Double(info) => CPEntryView::Double(info@),
            CPEntry::NameAndType(info) => CPEntryView::NameAndType(info@),
            CPEntry::UTF8(info) => CPEntryView::UTF8(info@),
            CPEntry::MethodHandle(info) => CPEntryView::MethodHandle(info@),
            CPEntry::MethodType(info) => CPEntryView::MethodType(info@),
            CPEntry::Dynamic(info) => CPEntryView::Dynamic(info@),
            CPEntry::InvokeDynamic(info) => CPEntryView::InvokeDynamic(info@),
            CPEntry::Module(info) => CPEntryView::Module(info@),
            CPEntry::Package(info) => CPEntryView::Package(info@),
        }
    }
}

impl CPEntry {
    /// The tag that selects the variant of the entry.
    pub open spec fn spec_tag(&self) -> u8 {
        self@.tag()
    }

    /// The tag that selects the variant of the entry.
    #[verifier::when_used_as_spec(spec_tag)]
    pub fn tag(&self) -> (res: u8)
        ensures
            res == self.spec_tag(),
    {
        match self {
            CPEntry::Class(_) => CONSTANT_CLASS_TAG,
            CPEntry::FieldRef(_) => CONSTANT_FIELDREF_TAG,
            CPEntry::MethodRef(_) => CONSTANT_METHODREF_TAG,
            CPEntry::InterfaceMethodRef(_) => CONSTANT_INTERFACE_METHODREF_TAG,
            CPEntry::String(_) => CONSTANT_STRING_TAG,
            CPEntry::Integer(_) => CONSTANT_INTEGER_TAG,
            CPEntry::Float(_) => CONSTANT_FLOAT_TAG,
            CPEntry::Long(_) => CONSTANT_LONG_TAG,
            CPEntry::Double(_) => CONSTANT_DOUBLE_TAG,
            CPEntry::NameAndType(_) => CONSTANT_NAME_AND_TYPE_TAG,
            CPEntry::UTF8(_) => CONSTANT_UTF8_TAG,
            CPEntry::MethodHandle(_) => CONSTANT_METHOD_HANDLE_TAG,
            CPEntry::MethodType(_) => CONSTANT_METHOD_TYPE_TAG,
            CPEntry::Dynamic(_) => CONSTANT_DYNAMIC_TAG,
            CPEntry::InvokeDynamic(_) => CONSTANT_INVOKE_DYNAMIC_TAG,
            CPEntry::Module(_) => CONSTANT_MODULE_TAG,
            CPEntry::Package(_) => CONSTANT_PACKAGE_TAG,
        }
    }
}

impl Codec for CPEntry {
    open spec fn wf(m: CPEntryView) -> bool {
        match m {
            CPEntryView::UTF8(info) => UTF8Info::wf(info),
            CPEntryView::MethodHandle(info) => MethodHandleInfo::wf(info),
            _ => true,
        }
    }

    open spec fn oversize(m: CPEntryView) -> Option<nat> {
        match m {
            CPEntryView::UTF8(info) => UTF8Info::oversize(info),
            _ => None,
        }
    }

    open spec fn encode(m: CPEntryView) -> Seq<u8> {
        seq![m.tag()] + match m {
            CPEntryView::Class(info) => ClassInfo::encode(info),
            CPEntryView::FieldRef(info) => FieldRefInfo::encode(info),
            CPEntryView::MethodRef(info) => MethodRefInfo::encode(info),
            CPEntryView::InterfaceMethodRef(info) => InterfaceMethodRefInfo::encode(info),
            CPEntryView::String(info) => StringInfo::encode(info),
            CPEntryView::Integer(info) => IntegerInfo::encode(info),
            CPEntryView::Float(info) => FloatInfo::encode(info),
            CPEntryView::Long(info) => LongInfo::encode(info),
            CPEntryView::Double(info) => DoubleInfo::encode(info),
            CPEntryView::NameAndType(info) => NameAndTypeInfo::encode(info),
            CPEntryView::UTF8(info) => UTF8Info::encode(info),
            CPEntryView::MethodHandle(info) => MethodHandleInfo::encode(info),
            CPEntryView::MethodType(info) => MethodTypeInfo::encode(info),
            CPEntryView::Dynamic(info) => DynamicInfo::encode(info),
            CPEntryView::InvokeDynamic(info) => InvokeDynamicInfo::encode(info),
            CPEntryView::Module(info) => ModuleInfo::encode(info),
            CPEntryView::Package(info) => PackageInfo::encode(info),
        }
    }

    open spec fn decode(s: Seq<u8>, pos: int) -> Decoded<CPEntryView> {
        match u8::decode(s, pos) {
            Err(e) => Err(e),
            Ok((tag, p)) => if tag == CONSTANT_CLASS_TAG {
                match ClassInfo::decode(s, p) {
                    Err(e) => Err(e),
                    Ok((info, next)) => Ok((CPEntryView::Class(info), next)),
                }
            } else if tag == CONSTANT_FIELDREF_TAG {
                match FieldRefInfo::decode(s, p) {
                    Err(e) => Err(e),
                    Ok((info, next)) => Ok((CPEntryView::FieldRef(info), next)),
                }
            } else if tag == CONSTANT_METHODREF_TAG {
                match MethodRefInfo::decode(s, p) {
                    Err(e) => Err(e),
                    Ok((info, next)) => Ok((CPEntryView::MethodRef(info), next)),
                }
            } else if tag == CONSTANT_INTERFACE_METHODREF_TAG {
                match InterfaceMethodRefInfo::decode(s, p) {
                    Err(e) => Err(e),
                    Ok((info, next)) => Ok((CPEntryView::InterfaceMethodRef(info), next)),
                }
            } else if tag == CONSTANT_STRING_TAG {
                match StringInfo::decode(s, p) {
                    Err(e) => Err(e),
                    Ok((info, next)) => Ok((CPEntryView::String(info), next)),
                }
            } else if tag == CONSTANT_INTEGER_TAG {
                match IntegerInfo::decode(s, p) {
                    Err(e) => Err(e),
                    Ok((info, next)) => Ok((CPEntryView::Integer(info), next)),
                }
            } else if tag == CONSTANT_FLOAT_TAG {
                match FloatInfo::decode(s, p) {
                    Err(e) => Err(e),
                    Ok((info, next)) => Ok((CPEntryView::Float(info), next)),
                }
            } else if tag == CONSTANT_LONG_TAG {
                match LongInfo::decode(s, p) {
                    Err(e) => Err(e),
                    Ok((info, next)) => Ok((CPEntryView::Long(info), next)),
                }
            } else if tag == CONSTANT_DOUBLE_TAG {
                match DoubleInfo::decode(s, p) {
                    Err(e) => Err(e),
                    Ok((info, next)) => Ok((CPEntryView::Double(info), next)),
                }
            } else if tag == CONSTANT_NAME_AND_TYPE_TAG {
                match NameAndTypeInfo::decode(s, p) {
                    Err(e) => Err(e),
                    Ok((info, next)) => Ok((CPEntryView::NameAndType(info), next)),
                }
            } else if tag == CONSTANT_UTF8_TAG {
                match UTF8Info::decode(s, p) {
                    Err(e) => Err(e),
                    Ok((info, next)) => Ok((CPEntryView::UTF8(info), next)),
                }
            } else if tag == CONSTANT_METHOD_HANDLE_TAG {
                match MethodHandleInfo::decode(s, p) {
                    Err(e) => Err(e),
                    Ok((info, next)) => Ok((CPEntryView::MethodHandle(info), next)),
                }
            } else if tag == CONSTANT_METHOD_TYPE_TAG {
                match MethodTypeInfo::decode(s, p) {
                    Err(e) => Err(e),
                    Ok((info, next)) => Ok((CPEntryView::MethodType(info), next)),
                }
            } else if tag == CONSTANT_DYNAMIC_TAG {
                match DynamicInfo::decode(s, p) {
                    Err(e) => Err(e),
                    Ok((info, next)) => Ok((CPEntryView::Dynamic(info), next)),
                }
            } else if tag == CONSTANT_INVOKE_DYNAMIC_TAG {
                match InvokeDynamicInfo::decode(s, p) {
                    Err(e) => Err(e),
                    Ok((info, next)) => Ok((CPEntryView::InvokeDynamic(info), next)),
                }
            } else if tag == CONSTANT_MODULE_TAG {
                match ModuleInfo::decode(s, p) {
                    Err(e) => Err(e),
                    Ok((info, next)) => Ok((CPEntryView::Module(info), next)),
                }
            } else if tag == CONSTANT_PACKAGE_TAG {
                match PackageInfo::decode(s, p) {
                    Err(e) => Err(e),
                    Ok((info, next)) => Ok((CPEntryView::Package(info), next)),
                }
            } else {
                Err(ReadError::UnknownTag(tag, "CPEntry"))
            },
        }
    }

    fn from_bytes(input: &[u8], pos: usize) -> (res: ReadResult<CPEntry>) {
        let ghost decoded = Self::decode(input@, pos as int);
        let (tag, pos) = u8::from_bytes(input, pos)?;
        if tag == CONSTANT_CLASS_TAG {
            let (info, next) = ClassInfo::from_bytes(input, pos)?;
            Ok((CPEntry::Class(info), next))
        } else if tag == CONSTANT_FIELDREF_TAG {
            let (info, next) = FieldRefInfo::from_bytes(input, pos)?;
            Ok((CPEntry::FieldRef(info), next))
        } else if tag == CONSTANT_METHODREF_TAG {
            let (info, next) = MethodRefInfo::from_bytes(input, pos)?;
            Ok((CPEntry::MethodRef(info), next))
        } else if tag == CONSTANT_INTERFACE_METHODREF_TAG {
            let (info, next) = InterfaceMethodRefInfo::from_bytes(input, pos)?;
            Ok((CPEntry::InterfaceMethodRef(info), next))
        } else if tag == CONSTANT_STRING_TAG {
            let (info, next) = StringInfo::from_bytes(input, pos)?;
            Ok((CPEntry::String(info), next))
        } else if tag == CONSTANT_INTEGER_TAG {
            let (info, next) = IntegerInfo::from_bytes(input, pos)?;
            Ok((CPEntry::Integer(info), next))
        } else if tag == CONSTANT_FLOAT_TAG {
            let (info, next) = FloatInfo::from_bytes(input, pos)?;
            Ok((CPEntry::Float(info), next))
        } else if tag == CONSTANT_LONG_TAG {
            let (info, next) = LongInfo::from_bytes(input, pos)?;
            Ok((CPEntry::Long(info), next))
        } else if tag == CONSTANT_DOUBLE_TAG {
            let (info, next) = DoubleInfo::from_bytes(input, pos)?;
            Ok((CPEntry::Double(info), next))
        } else if tag == CONSTANT_NAME_AND_TYPE_TAG {
            let (info, next) = NameAndTypeInfo::from_bytes(input, pos)?;
            Ok((CPEntry::NameAndType(info), next))
        } else if tag == CONSTANT_UTF8_TAG {
            let (info, next) = UTF8Info::from_bytes(input, pos)?;
            Ok((CPEntry::UTF8(info), next))
        } else if tag == CONSTANT_METHOD_HANDLE_TAG {
            let (info, next) = MethodHandleInfo::from_bytes(input, pos)?;
            Ok((CPEntry::MethodHandle(info), next))
        } else if tag == CONSTANT_METHOD_TYPE_TAG {
            let (info, next) = MethodTypeInfo::from_bytes(input, pos)?;
            Ok((CPEntry::MethodType(info), next))
        } else if tag == CONSTANT_DYNAMIC_TAG {
            let (info, next) = DynamicInfo::from_bytes(input, pos)?;
            Ok((CPEntry::Dynamic(info), next))
        } else if tag == CONSTANT_INVOKE_DYNAMIC_TAG {
            let (info, next) = InvokeDynamicInfo::from_bytes(input, pos)?;
            Ok((CPEntry::InvokeDynamic(info), next))
        } else if tag == CONSTANT_MODULE_TAG {
            let (info, next) = ModuleInfo::from_bytes(input, pos)?;
            Ok((CPEntry::Module(info), next))
        } else if tag == CONSTANT_PACKAGE_TAG {
            let (info, next) = PackageInfo::from_bytes(input, pos)?;
            Ok((CPEntry::Package(info), next))
        } else {
            assert(decoded is Err);
            Err(ReadError::UnknownTag(tag, "CPEntry"))
        }
    }

    fn to_bytes(&self, out: &mut Vec<u8>) -> (res: WriteResult) {
        let ghost encoded = Self::encode(self@);
        let ghost over = Self::oversize(self@);
        self.tag().to_bytes(out)?;
        let ghost mid = out@;
        let res = match self {
            CPEntry::Class(info) => info.to_bytes(out),
            CPEntry::FieldRef(info) => info.to_bytes(out),
            CPEntry::MethodRef(info) => info.to_bytes(out),
            CPEntry::InterfaceMethodRef(info) => info.to_bytes(out),
            CPEntry::String(info) => info.to_bytes(out),
            CPEntry::Integer(info) => info.to_bytes(out),
            CPEntry::Float(info) => info.to_bytes(out),
            CPEntry::Long(info) => info.to_bytes(out),
            CPEntry::Double(info) => info.to_bytes(out),
            CPEntry::NameAndType(info) => info.to_bytes(out),
            CPEntry::UTF8(info) => info.to_bytes(out),
            CPEntry::MethodHandle(info) => info.to_bytes(out),
            CPEntry::MethodType(info) => info.to_bytes(out),
            CPEntry::Dynamic(info) => info.to_bytes(out),
            CPEntry::InvokeDynamic(info) => info.to_bytes(out),
            CPEntry::Module(info) => info.to_bytes(out),
            CPEntry::Package(info) => info.to_bytes(out),
        };
        proof {
            if res is Ok {
                assert(over is None);
                assert(out@ =~= old(out)@ + encoded);
            } else {
                assert(over is Some);
                lemma_extends_after(old(out)@, mid, out@);
            }
        }
        res
    }

    proof fn lemma_fits(m: CPEntryView) {
        match m {
            CPEntryView::UTF8(info) => UTF8Info::lemma_fits(info),
            _ => {},
        }
        assert(Self::wf(m) && Self::oversize(m) is None);
    }

    proof fn lemma_decode_encode(s: Seq<u8>, pos: int, m: CPEntryView) {
        assert(Self::wf(m));
        match m {
            CPEntryView::Class(info) => {
                lemma_holds_split(s, pos, seq![m.tag()], ClassInfo::encode(info));
                u8::lemma_decode_encode(s, pos, m.tag());
                ClassInfo::lemma_decode_encode(s, pos + 1, info);
            },
            CPEntryView::FieldRef(info) => {
                lemma_holds_split(s, pos, seq![m.tag()], FieldRefInfo::encode(info));
                u8::lemma_decode_encode(s, pos, m.tag());
                FieldRefInfo::lemma_decode_encode(s, pos + 1, info);
            },
            CPEntryView::MethodRef(info) => {
                lemma_holds_split(s, pos, seq![m.tag()], MethodRefInfo::encode(info));
                u8::lemma_decode_encode(s, pos, m.tag());
                MethodRefInfo::lemma_decode_encode(s, pos + 1, info);
            },
            CPEntryView::InterfaceMethodRef(info) => {
                lemma_holds_split(s, pos, seq![m.tag()], InterfaceMethodRefInfo::encode(info));
                u8::lemma_decode_encode(s, pos, m.tag());
                InterfaceMethodRefInfo::lemma_decode_encode(s, pos + 1, info);
            },
            CPEntryView::String(info) => {
                lemma_holds_split(s, pos, seq![m.tag()], StringInfo::encode(info));
                u8::lemma_decode_encode(s, pos, m.tag());
                StringInfo::lemma_decode_encode(s, pos + 1, info);
            },
            CPEntryView::Integer(info) => {
                lemma_holds_split(s, pos, seq![m.tag()], IntegerInfo::encode(info));
                u8::lemma_decode_encode(s, pos, m.tag());
                IntegerInfo::lemma_decode_encode(s, pos + 1, info);
            },
            CPEntryView::Float(info) => {
                lemma_holds_split(s, pos, seq![m.tag()], FloatInfo::encode(info));
                u8::lemma_decode_encode(s, pos, m.tag());
                FloatInfo::lemma_decode_encode(s, pos + 1, info);
            },
            CPEntryView::Long(info) => {
                lemma_holds_split(s, pos, seq![m.tag()], LongInfo::encode(info));
                u8::lemma_decode_encode(s, pos, m.tag());
                LongInfo::lemma_decode_encode(s, pos + 1, info);
            },
            CPEntryView::Double(info) => {
                lemma_holds_split(s, pos, seq![m.tag()], DoubleInfo::encode(info));
                u8::lemma_decode_encode(s, pos, m.tag());
                DoubleInfo::lemma_decode_encode(s, pos + 1, info);
            },
            CPEntryView::NameAndType(info) => {
                lemma_holds_split(s, pos, seq![m.tag()], NameAndTypeInfo::encode(info));
                u8::lemma_decode_encode(s, pos, m.tag());
                NameAndTypeInfo::lemma_decode_encode(s, pos + 1, info);
            },
            CPEntryView::UTF8(info) => {
                lemma_holds_split(s, pos, seq![m.tag()], UTF8Info::encode(info));
                u8::lemma_decode_encode(s, pos, m.tag());
                UTF8Info::lemma_decode_encode(s, pos + 1, info);
            },
            CPEntryView::MethodHandle(info) => {
                lemma_holds_split(s, pos, seq![m.tag()], MethodHandleInfo::encode(info));
                u8::lemma_decode_encode(s, pos, m.tag());
                MethodHandleInfo::lemma_decode_encode(s, pos + 1, info);
            },
            CPEntryView::MethodType(info) => {
                lemma_holds_split(s, pos, seq![m.tag()], MethodTypeInfo::encode(info));
                u8::lemma_decode_encode(s, pos, m.tag());
                MethodTypeInfo::lemma_decode_encode(s, pos + 1, info);
            },
            CPEntryView::Dynamic(info) => {
                lemma_holds_split(s, pos, seq![m.tag()], DynamicInfo::encode(info));
                u8::lemma_decode_encode(s, pos, m.tag());
                DynamicInfo::lemma_decode_encode(s, pos + 1, info);
            },
            CPEntryView::InvokeDynamic(info) => {
                lemma_holds_split(s, pos, seq![m.tag()], InvokeDynamicInfo::encode(info));
                u8::lemma_decode_encode(s, pos, m.tag());
                InvokeDynamicInfo::lemma_decode_encode(s, pos + 1, info);
            },
            CPEntryView::Module(info) => {
                lemma_holds_split(s, pos, seq![m.tag()], ModuleInfo::encode(info));
                u8::lemma_decode_encode(s, pos, m.tag());
                ModuleInfo::lemma_decode_encode(s, pos + 1, info);
            },
            CPEntryView::Package(info) => {
                lemma_holds_split(s, pos, seq![m.tag()], PackageInfo::encode(info));
                u8::lemma_decode_encode(s, pos, m.tag());
                PackageInfo::lemma_decode_encode(s, pos + 1, info);
            },
        }
        assert(Self::decode(s, pos) == Decoded::<CPEntryView>::Ok(
            (m, pos + Self::encode(m).len()),
        ));
    }

    proof fn lemma_encode_decode(s: Seq<u8>, pos: int) {
        u8::lemma_encode_decode(s, pos);
        if let Ok((m, end)) = Self::decode(s, pos) {
            let tag = s[pos];
            let p = pos + 1;
            if tag == CONSTANT_CLASS_TAG {
                ClassInfo::lemma_encode_decode(s, p);
                if let Ok((info, next)) = ClassInfo::decode(s, p) {
                    lemma_subrange_join(s, pos, p, next);
                }
            } else if tag == CONSTANT_FIELDREF_TAG {
                FieldRefInfo::lemma_encode_decode(s, p);
                if let Ok((info, next)) = FieldRefInfo::decode(s, p) {
                    lemma_subrange_join(s, pos, p, next);
                }
            } else if tag == CONSTANT_METHODREF_TAG {
                MethodRefInfo::lemma_encode_decode(s, p);
                if let Ok((info, next)) = MethodRefInfo::decode(s, p) {
                    lemma_subrange_join(s, pos, p, next);
                }
            } else if tag == CONSTANT_INTERFACE_METHODREF_TAG {
                InterfaceMethodRefInfo::lemma_encode_decode(s, p);
                if let Ok((info, next)) = InterfaceMethodRefInfo::decode(s, p) {
                    lemma_subrange_join(s, pos, p, next);
                }
            } else if tag == CONSTANT_STRING_TAG {
                StringInfo::lemma_encode_decode(s, p);
                if let Ok((info, next)) = StringInfo::decode(s, p) {
                    lemma_subrange_join(s, pos, p, next);
                }
            } else if tag == CONSTANT_INTEGER_TAG {
                IntegerInfo::lemma_encode_decode(s, p);
                if let Ok((info, next)) = IntegerInfo::decode(s, p) {
                    lemma_subrange_join(s, pos, p, next);
                }
            } else if tag == CONSTANT_FLOAT_TAG {
                FloatInfo::lemma_encode_decode(s, p);
                if let Ok((info, next)) = FloatInfo::decode(s, p) {
                    lemma_subrange_join(s, pos, p, next);
                }
            } else if tag == CONSTANT_LONG_TAG {
                LongInfo::lemma_encode_decode(s, p);
                if let Ok((info, next)) = LongInfo::decode(s, p) {
                    lemma_subrange_join(s, pos, p, next);
                }
            } else if tag == CONSTANT_DOUBLE_TAG {
                DoubleInfo::lemma_encode_decode(s, p);
                if let Ok((info, next)) = DoubleInfo::decode(s, p) {
                    lemma_subrange_join(s, pos, p, next);
                }
            } else if tag == CONSTANT_NAME_AND_TYPE_TAG {
                NameAndTypeInfo::lemma_encode_decode(s, p);
                if let Ok((info, next)) = NameAndTypeInfo::decode(s, p) {
                    lemma_subrange_join(s, pos, p, next);
                }
            } else if tag == CONSTANT_UTF8_TAG {
                UTF8Info::lemma_encode_decode(s, p);
                if let Ok((info, next)) = UTF8Info::decode(s, p) {
                    lemma_subrange_join(s, pos, p, next);
                }
            } else if tag == CONSTANT_METHOD_HANDLE_TAG {
                MethodHandleInfo::lemma_encode_decode(s, p);
                if let Ok((info, next)) = MethodHandleInfo::decode(s, p) {
                    lemma_subrange_join(s, pos, p, next);
                }
            } else if tag == CONSTANT_METHOD_TYPE_TAG {
                MethodTypeInfo::lemma_encode_decode(s, p);
                if let Ok((info, next)) = MethodTypeInfo::decode(s, p) {
                    lemma_subrange_join(s, pos, p, next);
                }
            } else if tag == CONSTANT_DYNAMIC_TAG {
                DynamicInfo::lemma_encode_decode(s, p);
                if let Ok((info, next)) = DynamicInfo::decode(s, p) {
                    lemma_subrange_join(s, pos, p, next);
                }
            } else if tag == CONSTANT_INVOKE_DYNAMIC_TAG {
                InvokeDynamicInfo::lemma_encode_decode(s, p);
                if let Ok((info, next)) = InvokeDynamicInfo::decode(s, p) {
                    lemma_subrange_join(s, pos, p, next);
                }
            } else if tag == CONSTANT_MODULE_TAG {
                ModuleInfo::lemma_encode_decode(s, p);
                if let Ok((info, next)) = ModuleInfo::decode(s, p) {
                    lemma_subrange_join(s, pos, p, next);
                }
            } else if tag == CONSTANT_PACKAGE_TAG {
                PackageInfo::lemma_encode_decode(s, p);
                if let Ok((info, next)) = PackageInfo::decode(s, p) {
                    lemma_subrange_join(s, pos, p, next);
                }
            }
            assert(Self::wf(m));
            assert(Self::encode(m) == s.subrange(pos, end));
        }
    }
}

impl<'a> CPType<'a> for ClassInfo {
    type Output = &'a ClassInfo;

    open spec fn admits(tag: u8) -> bool {
        tag == CONSTANT_CLASS_TAG
    }

    open spec fn spec_fetch(entry: &'a CPEntry) -> Option<&'a ClassInfo> {
        match entry {
            CPEntry::Class(info) => Some(info),
            _ => None,
        }
    }

    fn fetch(entry: &'a CPEntry) -> (res: Option<&'a ClassInfo>) {
        match entry {
            CPEntry::Class(info) => Some(info),
            _ => None,
        }
    }

    proof fn lemma_fetch_admits(entry: &'a CPEntry) {
        assert(Self::spec_fetch(entry) is Some <==> Self::admits(entry.spec_tag()));
    }
}

impl<'a> CPType<'a> for FieldRefInfo {
    type Output = &'a FieldRefInfo;

    open spec fn admits(tag: u8) -> bool {
        tag == CONSTANT_FIELDREF_TAG
    }

    open spec fn spec_fetch(entry: &'a CPEntry) -> Option<&'a FieldRefInfo> {
        match entry {
            CPEntry::FieldRef(info) => Some(info),
            _ => None,
        }
    }

    fn fetch(entry: &'a CPEntry) -> (res: Option<&'a FieldRefInfo>) {
        match entry {
            CPEntry::FieldRef(info) => Some(info),
            _ => None,
        }
    }

    proof fn lemma_fetch_admits(entry: &'a CPEntry) {
        assert(Self::spec_fetch(entry) is Some <==> Self::admits(entry.spec_tag()));
    }
}

impl<'a> CPType<'a> for MethodRefInfo {
    type Output = &'a MethodRefInfo;

    open spec fn admits(tag: u8) -> bool {
        tag == CONSTANT_METHODREF_TAG
    }

    open spec fn spec_fetch(entry: &'a CPEntry) -> Option<&'a MethodRefInfo> {
        match entry {
            CPEntry::MethodRef(info) => Some(info),
            _ => None,
        }
    }

    fn fetch(entry: &'a CPEntry) -> (res: Option<&'a MethodRefInfo>) {
        match entry {
            CPEntry::MethodRef(info) => Some(info),
            _ => None,
        }
    }

    proof fn lemma_fetch_admits(entry: &'a CPEntry) {
        assert(Self::spec_fetch(entry) is Some <==> Self::admits(entry.spec_tag()));
    }
}

impl<'a> CPType<'a> for InterfaceMethodRefInfo {
    type Output = &'a InterfaceMethodRefInfo;

    open spec fn admits(tag: u8) -> bool {
        tag == CONSTANT_INTERFACE_METHODREF_TAG
    }

    open spec fn spec_fetch(entry: &'a CPEntry) -> Option<&'a InterfaceMethodRefInfo> {
        match entry {
            CPEntry::InterfaceMethodRef(info) => Some(info),
            _ => None,
        }
    }

    fn fetch(entry: &'a CPEntry) -> (res: Option<&'a InterfaceMethodRefInfo>) {
        match entry {
            CPEntry::InterfaceMethodRef(info) => Some(info),
            _ => None,
        }
    }

    proof fn lemma_fetch_admits(entry: &'a CPEntry) {
        assert(Self::spec_fetch(entry) is Some <==> Self::admits(entry.spec_tag()));
    }
}

impl<'a> CPType<'a> for StringInfo {
    type Output = &'a StringInfo;

    open spec fn admits(tag: u8) -> bool {
        tag == CONSTANT_STRING_TAG
    }

    open spec fn spec_fetch(entry: &'a CPEntry) -> Option<&'a StringInfo> {
        match entry {
            CPEntry::String(info) => Some(info),
            _ => None,
        }
    }

    fn fetch(entry: &'a CPEntry) -> (res: Option<&'a StringInfo>) {
        match entry {
            CPEntry::String(info) => Some(info),
            _ => None,
        }
    }

    proof fn lemma_fetch_admits(entry: &'a CPEntry) {
        assert(Self::spec_fetch(entry) is Some <==> Self::admits(entry.spec_tag()));
    }
}

impl<'a> CPType<'a> for IntegerInfo {
    type Output = &'a IntegerInfo;

    open spec fn admits(tag: u8) -> bool {
        tag == CONSTANT_INTEGER_TAG
    }

    open spec fn spec_fetch(entry: &'a CPEntry) -> Option<&'a IntegerInfo> {
        match entry {
            CPEntry::Integer(info) => Some(info),
            _ => None,
        }
    }

    fn fetch(entry: &'a CPEntry) -> (res: Option<&'a IntegerInfo>) {
        match entry {
            CPEntry::Integer(info) => Some(info),
            _ => None,
        }
    }

    proof fn lemma_fetch_admits(entry: &'a CPEntry) {
        assert(Self::spec_fetch(entry) is Some <==> Self::admits(entry.spec_tag()));
    }
}

impl<'a> CPType<'a> for FloatInfo {
    type Output = &'a FloatInfo;

    open spec fn admits(tag: u8) -> bool {
        tag == CONSTANT_FLOAT_TAG
    }

    open spec fn spec_fetch(entry: &'a CPEntry) -> Option<&'a FloatInfo> {
        match entry {
            CPEntry::Float(info) => Some(info),
            _ => None,
        }
    }

    fn fetch(entry: &'a CPEntry) -> (res: Option<&'a FloatInfo>) {
        match entry {
            CPEntry::Float(info) => Some(info),
            _ => None,
        }
    }

    proof fn lemma_fetch_admits(entry: &'a CPEntry) {
        assert(Self::spec_fetch(entry) is Some <==> Self::admits(entry.spec_tag()));
    }
}

impl<'a> CPType<'a> for LongInfo {
    type Output = &'a LongInfo;

    open spec fn admits(tag: u8) -> bool {
        tag == CONSTANT_LONG_TAG
    }

    open spec fn spec_fetch(entry: &'a CPEntry) -> Option<&'a LongInfo> {
        match entry {
            CPEntry::Long(info) => Some(info),
            _ => None,
        }
    }

    fn fetch(entry: &'a CPEntry) -> (res: Option<&'a LongInfo>) {
        match entry {
            CPEntry::Long(info) => Some(info),
            _ => None,
        }
    }

    proof fn lemma_fetch_admits(entry: &'a CPEntry) {
        assert(Self::spec_fetch(entry) is Some <==> Self::admits(entry.spec_tag()));
    }
}

impl<'a> CPType<'a> for DoubleInfo {
    type Output = &'a DoubleInfo;

    open spec fn admits(tag: u8) -> bool {
        tag == CONSTANT_DOUBLE_TAG
    }

    open spec fn spec_fetch(entry: &'a CPEntry) -> Option<&'a DoubleInfo> {
        match entry {
            CPEntry::Double(info) => Some(info),
            _ => None,
        }
    }

    fn fetch(entry: &'a CPEntry) -> (res: Option<&'a DoubleInfo>) {
        match entry {
            CPEntry::Double(info) => Some(info),
            _ => None,
        }
    }

    proof fn lemma_fetch_admits(entry: &'a CPEntry) {
        assert(Self::spec_fetch(entry) is Some <==> Self::admits(entry.spec_tag()));
    }
}

impl<'a> CPType<'a> for NameAndTypeInfo {
    type Output = &'a NameAndTypeInfo;

    open spec fn admits(tag: u8) -> bool {
        tag == CONSTANT_NAME_AND_TYPE_TAG
    }

    open spec fn spec_fetch(entry: &'a CPEntry) -> Option<&'a NameAndTypeInfo> {
        match entry {
            CPEntry::NameAndType(info) => Some(info),
            _ => None,
        }
    }

    fn fetch(entry: &'a CPEntry) -> (res: Option<&'a NameAndTypeInfo>) {
        match entry {
            CPEntry::NameAndType(info) => Some(info),
            _ => None,
        }
    }

    proof fn lemma_fetch_admits(entry: &'a CPEntry) {
        assert(Self::spec_fetch(entry) is Some <==> Self::admits(entry.spec_tag()));
    }
}

impl<'a> CPType<'a> for UTF8Info {
    type Output = &'a UTF8Info;

    open spec fn admits(tag: u8) -> bool {
        tag == CONSTANT_UTF8_TAG
    }

    open spec fn spec_fetch(entry: &'a CPEntry) -> Option<&'a UTF8Info> {
        match entry {
            CPEntry::UTF8(info) => Some(info),
            _ => None,
        }
    }

    fn fetch(entry: &'a CPEntry) -> (res: Option<&'a UTF8Info>) {
        match entry {
            CPEntry::UTF8(info) => Some(info),
            _ => None,
        }
    }

    proof fn lemma_fetch_admits(entry: &'a CPEntry) {
        assert(Self::spec_fetch(entry) is Some <==> Self::admits(entry.spec_tag()));
    }
}

impl<'a> CPType<'a> for MethodHandleInfo {
    type Output = &'a MethodHandleInfo;

    open spec fn admits(tag: u8) -> bool {
        tag == CONSTANT_METHOD_HANDLE_TAG
    }

    open spec fn spec_fetch(entry: &'a CPEntry) -> Option<&'a MethodHandleInfo> {
        match entry {
            CPEntry::MethodHandle(info) => Some(info),
            _ => None,
        }
    }

    fn fetch(entry: &'a CPEntry) -> (res: Option<&'a MethodHandleInfo>) {
        match entry {
            CPEntry::MethodHandle(info) => Some(info),
            _ => None,
        }
    }

    proof fn lemma_fetch_admits(entry: &'a CPEntry) {
        assert(Self::spec_fetch(entry) is Some <==> Self::admits(entry.spec_tag()));
    }
}

impl<'a> CPType<'a> for MethodTypeInfo {
    type Output = &'a MethodTypeInfo;

    open spec fn admits(tag: u8) -> bool {
        tag == CONSTANT_METHOD_TYPE_TAG
    }

    open spec fn spec_fetch(entry: &'a CPEntry) -> Option<&'a MethodTypeInfo> {
        match entry {
            CPEntry::MethodType(info) => Some(info),
            _ => None,
        }
    }

    fn fetch(entry: &'a CPEntry) -> (res: Option<&'a MethodTypeInfo>) {
        match entry {
            CPEntry::MethodType(info) => Some(info),
            _ => None,
        }
    }

    proof fn lemma_fetch_admits(entry: &'a CPEntry) {
        assert(Self::spec_fetch(entry) is Some <==> Self::admits(entry.spec_tag()));
    }
}

impl<'a> CPType<'a> for DynamicInfo {
    type Output = &'a DynamicInfo;

    open spec fn admits(tag: u8) -> bool {
        tag == CONSTANT_DYNAMIC_TAG
    }

    open spec fn spec_fetch(entry: &'a CPEntry) -> Option<&'a DynamicInfo> {
        match entry {
            CPEntry::Dynamic(info) => Some(info),
            _ => None,
        }
    }

    fn fetch(entry: &'a CPEntry) -> (res: Option<&'a DynamicInfo>) {
        match entry {
            CPEntry::Dynamic(info) => Some(info),
            _ => None,
        }
    }

    proof fn lemma_fetch_admits(entry: &'a CPEntry) {
        assert(Self::spec_fetch(entry) is Some <==> Self::admits(entry.spec_tag()));
    }
}

impl<'a> CPType<'a> for InvokeDynamicInfo {
    type Output = &'a InvokeDynamicInfo;

    open spec fn admits(tag: u8) -> bool {
        tag == CONSTANT_INVOKE_DYNAMIC_TAG
    }

    open spec fn spec_fetch(entry: &'a CPEntry) -> Option<&'a InvokeDynamicInfo> {
        match entry {
            CPEntry::InvokeDynamic(info) => Some(info),
            _ => None,
        }
    }

    fn fetch(entry: &'a CPEntry) -> (res: Option<&'a InvokeDynamicInfo>) {
        match entry {
            CPEntry::InvokeDynamic(info) => Some(info),
            _ => None,
        }
    }

    proof fn lemma_fetch_admits(entry: &'a CPEntry) {
        assert(Self::spec_fetch(entry) is Some <==> Self::admits(entry.spec_tag()));
    }
}

impl<'a> CPType<'a> for ModuleInfo {
    type Output = &'a ModuleInfo;

    open spec fn admits(tag: u8) -> bool {
        tag == CONSTANT_MODULE_TAG
    }

    open spec fn spec_fetch(entry: &'a CPEntry) -> Option<&'a ModuleInfo> {
        match entry {
            CPEntry::Module(info) => Some(info),
            _ => None,
        }
    }

    fn fetch(entry: &'a CPEntry) -> (res: Option<&'a ModuleInfo>) {
        match entry {
            CPEntry::Module(info) => Some(info),
            _ => None,
        }
    }

    proof fn lemma_fetch_admits(entry: &'a CPEntry) {
        assert(Self::spec_fetch(entry) is Some <==> Self::admits(entry.spec_tag()));
    }
}

impl<'a> CPType<'a> for PackageInfo {
    type Output = &'a PackageInfo;

    open spec fn admits(tag: u8) -> bool {
        tag == CONSTANT_PACKAGE_TAG
    }

    open spec fn spec_fetch(entry: &'a CPEntry) -> Option<&'a PackageInfo> {
        match entry {
            CPEntry::Package(info) => Some(info),
            _ => None,
        }
    }

    fn fetch(entry: &'a CPEntry) -> (res: Option<&'a PackageInfo>) {
        match entry {
            CPEntry::Package(info) => Some(info),
            _ => None,
        }
    }

    proof fn lemma_fetch_admits(entry: &'a CPEntry) {
        assert(Self::spec_fetch(entry) is Some <==> Self::admits(entry.spec_tag()));
    }
}

/// The constant pool: the entries in the order of the class file. The entry
/// at position `i` of `entries` has the index `i + 1`; entries are stored one
/// behind the other, whatever their kind.
#[derive(Debug, Clone, PartialEq, Eq, Hash)]
pub struct ConstantPool {
    /// The entries, in the order of the class file.
    pub entries: Vec<CPEntry>,
}

/// The model of a [`ConstantPool`].
pub struct ConstantPoolView {
    pub entries: Seq<CPEntryView>,
}

impl View for ConstantPool {
    type V = ConstantPoolView;

    open spec fn view(&self) -> ConstantPoolView {
        ConstantPoolView { entries: views(self.entries@) }
    }
}

/// The entries of the constant pool that stands at `pos`: a 16-bit count,
/// then one entry fewer than the count says. A count of 0 is malformed.
pub open spec fn decode_constant_pool(s: Seq<u8>, pos: int) -> Decoded<Seq<CPEntryView>> {
    match u16::decode(s, pos) {
        Err(e) => Err(e),
        Ok((count, start)) => if count == 0 {
            Err(ReadError::MalformedCount)
        } else {
            decode_seq::<CPEntry>(s, start, (count - 1) as nat)
        },
    }
}

/// The wire format of the entries of a constant pool: the number of entries
/// plus one, then the entries.
pub open spec fn encode_constant_pool(entries: Seq<CPEntryView>) -> Seq<u8> {
    u16_bytes((entries.len() + 1) as u16) + encode_seq::<CPEntry>(entries)
}

/// The number of entries, if 16 bits cannot carry that number plus one; else
/// what does not fit in the entries.
pub open spec fn oversize_constant_pool(entries: Seq<CPEntryView>) -> Option<nat> {
    if entries.len() + 1 > 0xffff {
        Some(entries.len())
    } else {
        oversize_seq::<CPEntry>(entries)
    }
}

/// Reads the entries of a constant pool.
pub fn read_constant_pool(input: &[u8], pos: usize) -> (res: ReadResult<Vec<CPEntry>>)
    ensures
        match res {
            Ok((v, next)) => {
                &&& decode_constant_pool(input@, pos as int) == Decoded::<Seq<CPEntryView>>::Ok(
                    (views(v@), next as int),
                )
                &&& v@.len() + 1 == be16(input@, pos as int)
                &&& pos <= next <= input@.len()
            },
            Err(e) => decode_constant_pool(input@, pos as int) == Decoded::<
                Seq<CPEntryView>,
            >::Err(e),
        },
{
    let (count, start) = u16::from_bytes(input, pos)?;
    if count == 0 {
        return Err(ReadError::MalformedCount);
    }
    let res = read_seq(input, start, (count - 1) as usize);
    proof {
        lemma_seq_encode_decode::<CPEntry>(input@, start as int, (count - 1) as nat);
    }
    res
}

/// Appends the entries of a constant pool: the number of entries plus one as
/// a 16-bit count, then the entries. It fails with the number of entries if
/// 16 bits cannot carry the count, before anything is written.
pub fn write_constant_pool(value: &Vec<CPEntry>, out: &mut Vec<u8>) -> (res: WriteResult)
    ensures
        match res {
            Ok(()) => {
                &&& oversize_constant_pool(views(value@)) is None
                &&& final(out)@ == old(out)@ + encode_constant_pool(views(value@))
            },
            Err(WriteError::TooLarge(n)) => {
                &&& oversize_constant_pool(views(value@)) == Some(n as nat)
                &&& extends(final(out)@, old(out)@)
            },
        },
{
    if value.len() >= 0xffff {
        return Err(WriteError::TooLarge(value.len()));
    }
    let count: u16 = (value.len() + 1) as u16;
    count.to_bytes(out)?;
    let ghost mid = out@;
    match write_seq(value, out) {
        Err(e) => {
            proof {
                lemma_extends_after(old(out)@, mid, out@);
            }
            Err(e)
        },
        Ok(()) => {
            assert(out@ =~= old(out)@ + encode_constant_pool(views(value@)));
            Ok(())
        },
    }
}

impl Codec for ConstantPool {
    open spec fn wf(m: ConstantPoolView) -> bool {
        m.entries.len() + 1 <= 0xffff && wf_seq::<CPEntry>(m.entries)
    }

    open spec fn oversize(m: ConstantPoolView) -> Option<nat> {
        oversize_constant_pool(m.entries)
    }

    open spec fn encode(m: ConstantPoolView) -> Seq<u8> {
        encode_constant_pool(m.entries)
    }

    open spec fn decode(s: Seq<u8>, pos: int) -> Decoded<ConstantPoolView> {
        match decode_constant_pool(s, pos) {
            Err(e) => Err(e),
            Ok((entries, next)) => Ok((ConstantPoolView { entries }, next)),
        }
    }

    fn from_bytes(input: &[u8], pos: usize) -> (res: ReadResult<ConstantPool>) {
        let ghost decoded = Self::decode(input@, pos as int);
        let (entries, next) = read_constant_pool(input, pos)?;
        assert(decoded is Ok);
        Ok((ConstantPool { entries }, next))
    }

    fn to_bytes(&self, out: &mut Vec<u8>) -> (res: WriteResult) {
        let ghost encoded = Self::encode(self@);
        let ghost over = Self::oversize(self@);
        write_constant_pool(&self.entries, out)?;
        assert(over is None && out@ == old(out)@ + encoded);
        Ok(())
    }

    proof fn lemma_fits(m: ConstantPoolView) {
        assert(Self::wf(m));
        lemma_seq_fits::<CPEntry>(m.entries);
        assert(Self::oversize(m) is None);
    }

    proof fn lemma_decode_encode(s: Seq<u8>, pos: int, m: ConstantPoolView) {
        assert(Self::wf(m));
        let count = (m.entries.len() + 1) as u16;
        lemma_holds_split(s, pos, u16_bytes(count), encode_seq::<CPEntry>(m.entries));
        u16::lemma_decode_encode(s, pos, count);
        lemma_seq_decode_encode::<CPEntry>(s, pos + 2, m.entries);
        assert(Self::decode(s, pos) == Decoded::<ConstantPoolView>::Ok(
            (m, pos + Self::encode(m).len()),
        ));
    }

    proof fn lemma_encode_decode(s: Seq<u8>, pos: int) {
        if let Ok((m, next)) = Self::decode(s, pos) {
            u16::lemma_encode_decode(s, pos);
            let count = be16(s, pos);
            lemma_seq_encode_decode::<CPEntry>(s, pos + 2, (count - 1) as nat);
            lemma_subrange_join(s, pos, pos + 2, next);
            assert(Self::wf(m));
            assert(Self::encode(m) == s.subrange(pos, next));
        }
    }
}

impl ConstantPool {
    /// The view of the entry that the index names: none if the index is 0 or
    /// beyond the last entry, or if the entry is not of category `T`.
    pub open spec fn spec_index<'a, T: CPType<'a>>(&'a self, index: CPIndex<T>) -> Option<
        T::Output,
    > {
        if 1 <= index.index <= self.entries@.len() {
            T::spec_fetch(&self.entries@[index.index - 1])
        } else {
            None
        }
    }

    /// Looks an index up. The result is `None` if the index is 0 or beyond
    /// the last entry, or if the entry is not of category `T`; else it is the
    /// typed view of the entry at position `index - 1`.
    pub fn index<'a, T: CPType<'a>>(&'a self, index: CPIndex<T>) -> (res: Option<T::Output>)
        ensures
            res == self.spec_index(index),
            res is Some <==> 1 <= index.index <= self.entries@.len() && T::admits(
                self.entries@[index.index - 1].spec_tag(),
            ),
    {
        if index.index == 0 || index.index as usize > self.entries.len() {
            return None;
        }
        T::fetch(&self.entries[(index.index - 1) as usize])
    }

}

impl IntoIterator for ConstantPool {
    type Item = CPEntry;

    type IntoIter = std::vec::IntoIter<CPEntry>;

    /// The entries in the order of the class file.
    fn into_iter(self) -> (res: std::vec::IntoIter<CPEntry>)
        ensures
            res.remaining() == self.entries@,
    {
        self.entries.into_iter()
    }
}

impl<'b> IntoIterator for &'b ConstantPool {
    type Item = &'b CPEntry;

    type IntoIter = std::slice::Iter<'b, CPEntry>;

    /// The entries in the order of the class file.
    fn into_iter(self) -> (res: std::slice::Iter<'b, CPEntry>)
        ensures
            res.remaining() == self.entries@.as_ref(),
    {
        self.entries.as_slice().iter()
    }
}

impl UTF8Info {
    /// The string in standard UTF-8, or `None` if the bytes are not modified
    /// UTF-8.
    pub fn to_utf8(&self) -> (res: Option<String>)
        ensures
            match res {
                Some(text) => mstr_to_utf8(self.data@) == Some(text@),
                None => mstr_to_utf8(self.data@) is None,
            },
    {
        decode_mutf8(self.data.as_slice())
    }
}

} // verus!
