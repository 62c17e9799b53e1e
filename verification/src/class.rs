//! The outer frame of a class file: the class itself, its fields and methods,
//! and the attributes, which are kept as named, opaque payloads.
use crate::codec::{
    Codec, Decoded, LenWidth, after, decode_blob, decode_table, decoded, encode_blob, encode_table,
    end_of, first_of, lemma_blob_decode_encode, lemma_blob_encode_decode, lemma_holds_split,
    lemma_subrange_join, lemma_table_decode_encode, lemma_table_encode_decode, lemma_table_fits,
    oversize_blob, oversize_table, read_blob, read_table, value_of, views, wf_table, write_blob,
    write_bytes, write_table,
};
use crate::codec::expect::{decode_expect_u32, expect_u32};
use crate::error::{ReadError, ReadResult, WriteError, WriteResult};
use crate::modified_utf8::mstr_to_utf8;
use crate::ops::MAGIC;
use crate::pool::{CPIndex, ClassInfo, ConstantPool, ConstantPoolView, UTF8Info};
use vstd::prelude::*;
use vstd::std_specs::iter::IteratorSpec;

verus! {

/// Reads the payload of an attribute: a 32-bit length, then that many bytes.
pub fn read_attr_info(input: &[u8], pos: usize) -> (res: ReadResult<Vec<u8>>)
    ensures
        match res {
            Ok((v, next)) => {
                &&& decode_blob(input@, pos as int, LenWidth::U32) == Decoded::<Seq<u8>>::Ok(
                    (v@, next as int),
                )
                &&& pos <= next <= input@.len()
            },
            Err(e) => decode_blob(input@, pos as int, LenWidth::U32) == Decoded::<Seq<u8>>::Err(
                e,
            ),
        },
{
    read_blob(input, pos, LenWidth::U32)
}

/// Appends the payload of an attribute: its length in 32 bits, then its
/// bytes. It fails with the length if 32 bits cannot carry it; `out` is then
/// unchanged.
pub fn write_attr_info(value: &Vec<u8>, out: &mut Vec<u8>) -> (res: WriteResult)
    ensures
        match res {
            Ok(()) => {
                &&& oversize_blob(LenWidth::U32, value@) is None
                &&& final(out)@ == old(out)@ + encode_blob(LenWidth::U32, value@)
            },
            Err(WriteError::TooLarge(n)) => {
                &&& oversize_blob(LenWidth::U32, value@) == Some(n as nat)
                &&& final(out)@ == old(out)@
            },
        },
{
    write_blob(value.as_slice(), LenWidth::U32, out)
}


/// An attribute as it stands in the class file: a name and a payload. What the
/// payload means depends on the name, so it is kept as bytes and decoded on
/// demand.
#[derive(Debug, Clone, PartialEq, Eq, Hash)]
pub struct AttributeInfo {
    /// The name of the attribute.
    pub attribute_name_index: CPIndex<UTF8Info>,
    /// The payload of the attribute.
    pub info: Vec<u8>,
}

/// The model of an [`AttributeInfo`]: its fields as mathematical values.
pub struct AttributeInfoView {
    pub attribute_name_index: CPIndex<UTF8Info>,
    pub info: Seq<u8>,
}

impl View for AttributeInfo {
    type V = AttributeInfoView;

    open spec fn view(&self) -> AttributeInfoView {
        AttributeInfoView {
            attribute_name_index: self.attribute_name_index,
            info: self.info@,
        }
    }
}

impl Codec for AttributeInfo {
    open spec fn wf(m: AttributeInfoView) -> bool {
        m.info.len() <= LenWidth::U32.limit()
    }

    open spec fn oversize(m: AttributeInfoView) -> Option<nat> {
        oversize_blob(LenWidth::U32, m.info)
    }

    open spec fn encode(m: AttributeInfoView) -> Seq<u8> {
        CPIndex::<UTF8Info>::encode(m.attribute_name_index)
            + encode_blob(LenWidth::U32, m.info)
    }

    open spec fn decode(s: Seq<u8>, pos: int) -> Decoded<AttributeInfoView> {
        match CPIndex::<UTF8Info>::decode(s, pos) {
            Err(e) => Err(e),
            Ok((attribute_name_index, p1)) => match decode_blob(s, p1, LenWidth::U32) {
                Err(e) => Err(e),
                Ok((info, p2)) => Ok((AttributeInfoView { attribute_name_index, info }, p2)),
            },
        }
    }

    fn from_bytes(input: &[u8], pos: usize) -> (res: ReadResult<AttributeInfo>) {
        let ghost decoded = Self::decode(input@, pos as int);
        let (attribute_name_index, pos) = CPIndex::<UTF8Info>::from_bytes(input, pos)?;
        let (info, pos) = read_attr_info(input, pos)?;
        assert(decoded is Ok);
        Ok((AttributeInfo { attribute_name_index, info }, pos))
    }

    fn to_bytes(&self, out: &mut Vec<u8>) -> (res: WriteResult) {
        let ghost encoded = Self::encode(self@);
        let ghost over = Self::oversize(self@);
        self.attribute_name_index.to_bytes(out)?;
        write_attr_info(&self.info, out)?;
        assert(over is None);
        assert(out@ =~= old(out)@ + encoded);
        Ok(())
    }

    proof fn lemma_fits(m: AttributeInfoView) {
        assert(Self::wf(m));
        assert(Self::oversize(m) is None);
    }

    proof fn lemma_decode_encode(s: Seq<u8>, pos: int, m: AttributeInfoView) {
        assert(Self::wf(m));
        let e1 = CPIndex::<UTF8Info>::encode(m.attribute_name_index);
        let e2 = encode_blob(LenWidth::U32, m.info);
        lemma_holds_split(s, pos, e1, e2);
        CPIndex::<UTF8Info>::lemma_decode_encode(s, pos, m.attribute_name_index);
        let p1 = pos + e1.len();
        lemma_blob_decode_encode(s, p1, LenWidth::U32, m.info);
        assert(Self::decode(s, pos) == decoded(m, pos + Self::encode(m).len()));
    }

    proof fn lemma_encode_decode(s: Seq<u8>, pos: int) {
        if let Ok((m, next)) = Self::decode(s, pos) {
            let p1 = end_of(CPIndex::<UTF8Info>::decode(s, pos));
            CPIndex::<UTF8Info>::lemma_encode_decode(s, pos);
            let p2 = end_of(decode_blob(s, p1, LenWidth::U32));
            lemma_blob_encode_decode(s, p1, LenWidth::U32);
            lemma_subrange_join(s, pos, p1, p2);
            assert(Self::wf(m));
            assert(Self::encode(m) == s.subrange(pos, next));
        }
    }
}


/// The attributes of a class, a field, a method or a `Code` attribute, in the
/// order of the class file.
#[derive(Debug, Clone, PartialEq, Eq, Hash)]
pub struct Attributes {
    /// The attributes.
    pub attributes: Vec<AttributeInfo>,
}

/// The model of an [`Attributes`]: its fields as mathematical values.
pub struct AttributesView {
    pub attributes: Seq<AttributeInfoView>,
}

impl View for Attributes {
    type V = AttributesView;

    open spec fn view(&self) -> AttributesView {
        AttributesView {
            attributes: views(self.attributes@),
        }
    }
}

impl Codec for Attributes {
    open spec fn wf(m: AttributesView) -> bool {
        wf_table::<AttributeInfo>(LenWidth::U16, m.attributes)
    }

    open spec fn oversize(m: AttributesView) -> Option<nat> {
        oversize_table::<AttributeInfo>(LenWidth::U16, m.attributes)
    }

    open spec fn encode(m: AttributesView) -> Seq<u8> {
        encode_table::<AttributeInfo>(LenWidth::U16, m.attributes)
    }

    open spec fn decode(s: Seq<u8>, pos: int) -> Decoded<AttributesView> {
        match decode_table::<AttributeInfo>(s, pos, LenWidth::U16) {
            Err(e) => Err(e),
            Ok((attributes, p1)) => Ok((AttributesView { attributes }, p1)),
        }
    }

    fn from_bytes(input: &[u8], pos: usize) -> (res: ReadResult<Attributes>) {
        let ghost decoded = Self::decode(input@, pos as int);
        let (attributes, pos) = read_table(input, pos, LenWidth::U16)?;
        assert(decoded is Ok);
        Ok((Attributes { attributes }, pos))
    }

    fn to_bytes(&self, out: &mut Vec<u8>) -> (res: WriteResult) {
        let ghost encoded = Self::encode(self@);
        let ghost over = Self::oversize(self@);
        write_table(&self.attributes, LenWidth::U16, out)?;
        assert(over is None);
        assert(out@ =~= old(out)@ + encoded);
        Ok(())
    }

    proof fn lemma_fits(m: AttributesView) {
        assert(Self::wf(m));
        lemma_table_fits::<AttributeInfo>(LenWidth::U16, m.attributes);
        assert(Self::oversize(m) is None);
    }

    proof fn lemma_decode_encode(s: Seq<u8>, pos: int, m: AttributesView) {
        assert(Self::wf(m));
        let e1 = encode_table::<AttributeInfo>(LenWidth::U16, m.attributes);
        lemma_table_decode_encode::<AttributeInfo>(s, pos, LenWidth::U16, m.attributes);
        assert(Self::decode(s, pos) == decoded(m, pos + Self::encode(m).len()));
    }

    proof fn lemma_encode_decode(s: Seq<u8>, pos: int) {
        if let Ok((m, next)) = Self::decode(s, pos) {
            let p1 = end_of(decode_table::<AttributeInfo>(s, pos, LenWidth::U16));
            lemma_table_encode_decode::<AttributeInfo>(s, pos, LenWidth::U16);
            assert(Self::wf(m));
            assert(Self::encode(m) == s.subrange(pos, next));
        }
    }
}


/// Whether the text that was decoded from a name is the text that is looked
/// for.
pub fn name_matches(decoded: &Option<String>, name: &str) -> (res: bool)
    ensures
        res == (decoded matches Some(text) && text@ == name@),
{
    match decoded {
        None => false,
        Some(text) => {
            let wanted = name.to_owned();
            *text == wanted
        },
    }
}

impl Attributes {
    /// The name of an attribute as text: what its name index refers to in the
    /// constant pool, converted from modified UTF-8. There is none if the
    /// index does not refer to a string or if the conversion fails.
    pub open spec fn name_of(cp: &ConstantPool, attr: &AttributeInfo) -> Option<Seq<char>> {
        match cp.spec_index(attr.attribute_name_index) {
            Some(info) => mstr_to_utf8(info.data@),
            None => None,
        }
    }

    /// The first of the attributes that has the given name.
    pub open spec fn first_named(attrs: Seq<AttributeInfo>, cp: &ConstantPool, name: Seq<char>)
        -> Option<AttributeInfo>
        decreases attrs.len(),
    {
        if attrs.len() == 0 {
            None
        } else if Self::name_of(cp, &attrs[0]) == Some(name) {
            Some(attrs[0])
        } else {
            Self::first_named(attrs.skip(1), cp, name)
        }
    }

    /// The first attribute that has the given name.
    pub open spec fn spec_named(&self, cp: &ConstantPool, name: Seq<char>) -> Option<
        AttributeInfo,
    > {
        Self::first_named(self.attributes@, cp, name)
    }

    /// The attributes in the order of the class file.
    pub fn iter(&self) -> (res: std::slice::Iter<'_, AttributeInfo>)
        ensures
            res.remaining() == self.attributes@.as_ref(),
    {
        self.attributes.as_slice().iter()
    }

    /// Looks for the first attribute with the given name. An attribute whose
    /// name index does not refer to a string of the constant pool, or whose
    /// name is not modified UTF-8, has no name and is passed over.
    pub fn named(&self, cp: &ConstantPool, name: &str) -> (res: Option<&AttributeInfo>)
        ensures
            match res {
                Some(attr) => self.spec_named(cp, name@) == Some(*attr),
                None => self.spec_named(cp, name@) is None,
            },
    {
        let mut i: usize = 0;
        assert(self.attributes@.skip(0) =~= self.attributes@);
        while i < self.attributes.len()
            invariant
                i <= self.attributes@.len(),
                self.spec_named(cp, name@) == Self::first_named(
                    self.attributes@.skip(i as int),
                    cp,
                    name@,
                ),
            decreases self.attributes@.len() - i,
        {
            let attr = &self.attributes[i];
            let decoded = match cp.index(attr.attribute_name_index) {
                Some(info) => info.to_utf8(),
                None => None,
            };
            assert(self.attributes@.skip(i as int)[0] == *attr);
            if name_matches(&decoded, name) {
                return Some(attr);
            }
            assert(self.attributes@.skip(i as int).skip(1) =~= self.attributes@.skip(i + 1));
            i += 1;
        }
        None
    }
}

impl IntoIterator for Attributes {
    type Item = AttributeInfo;

    type IntoIter = std::vec::IntoIter<AttributeInfo>;

    /// The attributes in the order of the class file.
    fn into_iter(self) -> (res: std::vec::IntoIter<AttributeInfo>)
        ensures
            res.remaining() == self.attributes@,
    {
        self.attributes.into_iter()
    }
}


/// A field of a class.
#[derive(Debug, Clone, PartialEq, Eq, Hash)]
pub struct FieldInfo {
    /// The access flags of the field.
    pub access_flags: u16,
    /// The name of the field.
    pub name_index: CPIndex<UTF8Info>,
    /// The descriptor of the field.
    pub descriptor_index: CPIndex<UTF8Info>,
    /// The attributes of the field.
    pub attributes: Attributes,
}

/// The model of a [`FieldInfo`]: its fields as mathematical values.
pub struct FieldInfoView {
    pub access_flags: u16,
    pub name_index: CPIndex<UTF8Info>,
    pub descriptor_index: CPIndex<UTF8Info>,
    pub attributes: AttributesView,
}

impl View for FieldInfo {
    type V = FieldInfoView;

    open spec fn view(&self) -> FieldInfoView {
        FieldInfoView {
            access_flags: self.access_flags,
            name_index: self.name_index,
            descriptor_index: self.descriptor_index,
            attributes: self.attributes@,
        }
    }
}

impl Codec for FieldInfo {
    open spec fn wf(m: FieldInfoView) -> bool {
        Attributes::wf(m.attributes)
    }

    open spec fn oversize(m: FieldInfoView) -> Option<nat> {
        Attributes::oversize(m.attributes)
    }

    open spec fn encode(m: FieldInfoView) -> Seq<u8> {
        u16::encode(m.access_flags)
            + CPIndex::<UTF8Info>::encode(m.name_index)
            + CPIndex::<UTF8Info>::encode(m.descriptor_index)
            + Attributes::encode(m.attributes)
    }

    open spec fn decode(s: Seq<u8>, pos: int) -> Decoded<FieldInfoView> {
        let access_flags = u16::decode(s, pos);
        let name_index = after(access_flags, CPIndex::<UTF8Info>::decode(s, end_of(access_flags)));
        let descriptor_index = after(
            name_index,
            CPIndex::<UTF8Info>::decode(s, end_of(name_index)),
        );
        let attributes = after(descriptor_index, Attributes::decode(s, end_of(descriptor_index)));
        match attributes {
            Err(e) => Err(e),
            Ok((_, end)) => Ok(
                (
                    FieldInfoView {
                        access_flags: value_of(access_flags),
                        name_index: value_of(name_index),
                        descriptor_index: value_of(descriptor_index),
                        attributes: value_of(attributes),
                    },
                    end,
                ),
            ),
        }
    }

    fn from_bytes(input: &[u8], pos: usize) -> (res: ReadResult<FieldInfo>) {
        let ghost decoded = Self::decode(input@, pos as int);
        let (access_flags, pos) = u16::from_bytes(input, pos)?;
        let (name_index, pos) = CPIndex::<UTF8Info>::from_bytes(input, pos)?;
        let (descriptor_index, pos) = CPIndex::<UTF8Info>::from_bytes(input, pos)?;
        let (attributes, pos) = Attributes::from_bytes(input, pos)?;
        assert(decoded is Ok);
        Ok((FieldInfo { access_flags, name_index, descriptor_index, attributes }, pos))
    }

    fn to_bytes(&self, out: &mut Vec<u8>) -> (res: WriteResult) {
        let ghost encoded = Self::encode(self@);
        let ghost over = Self::oversize(self@);
        self.access_flags.to_bytes(out)?;
        self.name_index.to_bytes(out)?;
        assert(out@ =~= old(out)@ + (
            u16::encode(self@.access_flags)
            + CPIndex::<UTF8Info>::encode(self@.name_index)
        ));
        self.descriptor_index.to_bytes(out)?;
        assert(out@ =~= old(out)@ + (
            u16::encode(self@.access_flags)
            + CPIndex::<UTF8Info>::encode(self@.name_index)
            + CPIndex::<UTF8Info>::encode(self@.descriptor_index)
        ));
        self.attributes.to_bytes(out)?;
        assert(over is None);
        assert(out@ =~= old(out)@ + encoded);
        Ok(())
    }

    proof fn lemma_fits(m: FieldInfoView) {
        assert(Self::wf(m));
        Attributes::lemma_fits(m.attributes);
        assert(Self::oversize(m) is None);
    }

    proof fn lemma_decode_encode(s: Seq<u8>, pos: int, m: FieldInfoView) {
        assert(Self::wf(m));
        let e1 = u16::encode(m.access_flags);
        let e2 = CPIndex::<UTF8Info>::encode(m.name_index);
        let e3 = CPIndex::<UTF8Info>::encode(m.descriptor_index);
        let e4 = Attributes::encode(m.attributes);
        lemma_holds_split(s, pos, e1 + e2 + e3, e4);
        lemma_holds_split(s, pos, e1 + e2, e3);
        lemma_holds_split(s, pos, e1, e2);
        u16::lemma_decode_encode(s, pos, m.access_flags);
        let p1 = pos + e1.len();
        CPIndex::<UTF8Info>::lemma_decode_encode(s, p1, m.name_index);
        let p2 = p1 + e2.len();
        CPIndex::<UTF8Info>::lemma_decode_encode(s, p2, m.descriptor_index);
        let p3 = p2 + e3.len();
        Attributes::lemma_decode_encode(s, p3, m.attributes);
        assert(Self::decode(s, pos) == decoded(m, pos + Self::encode(m).len()));
    }

    proof fn lemma_encode_decode(s: Seq<u8>, pos: int) {
        if let Ok((m, next)) = Self::decode(s, pos) {
            let p1 = end_of(u16::decode(s, pos));
            u16::lemma_encode_decode(s, pos);
            let p2 = end_of(CPIndex::<UTF8Info>::decode(s, p1));
            CPIndex::<UTF8Info>::lemma_encode_decode(s, p1);
            lemma_subrange_join(s, pos, p1, p2);
            let p3 = end_of(CPIndex::<UTF8Info>::decode(s, p2));
            CPIndex::<UTF8Info>::lemma_encode_decode(s, p2);
            lemma_subrange_join(s, pos, p2, p3);
            let p4 = end_of(Attributes::decode(s, p3));
            Attributes::lemma_encode_decode(s, p3);
            lemma_subrange_join(s, pos, p3, p4);
            assert(Self::wf(m));
            assert(Self::encode(m) == s.subrange(pos, next));
        }
    }
}


/// A method of a class.
#[derive(Debug, Clone, PartialEq, Eq, Hash)]
pub struct MethodInfo {
    /// The access flags of the method.
    pub access_flags: u16,
    /// The name of the method.
    pub name_index: CPIndex<UTF8Info>,
    /// The descriptor of the method.
    pub descriptor_index: CPIndex<UTF8Info>,
    /// The attributes of the method.
    pub attributes: Attributes,
}

/// The model of a [`MethodInfo`]: its fields as mathematical values.
pub struct MethodInfoView {
    pub access_flags: u16,
    pub name_index: CPIndex<UTF8Info>,
    pub descriptor_index: CPIndex<UTF8Info>,
    pub attributes: AttributesView,
}

impl View for MethodInfo {
    type V = MethodInfoView;

    open spec fn view(&self) -> MethodInfoView {
        MethodInfoView {
            access_flags: self.access_flags,
            name_index: self.name_index,
            descriptor_index: self.descriptor_index,
            attributes: self.attributes@,
        }
    }
}

impl Codec for MethodInfo {
    open spec fn wf(m: MethodInfoView) -> bool {
        Attributes::wf(m.attributes)
    }

    open spec fn oversize(m: MethodInfoView) -> Option<nat> {
        Attributes::oversize(m.attributes)
    }

    open spec fn encode(m: MethodInfoView) -> Seq<u8> {
        u16::encode(m.access_flags)
            + CPIndex::<UTF8Info>::encode(m.name_index)
            + CPIndex::<UTF8Info>::encode(m.descriptor_index)
            + Attributes::encode(m.attributes)
    }

    open spec fn decode(s: Seq<u8>, pos: int) -> Decoded<MethodInfoView> {
        let access_flags = u16::decode(s, pos);
        let name_index = after(access_flags, CPIndex::<UTF8Info>::decode(s, end_of(access_flags)));
        let descriptor_index = after(
            name_index,
            CPIndex::<UTF8Info>::decode(s, end_of(name_index)),
        );
        let attributes = after(descriptor_index, Attributes::decode(s, end_of(descriptor_index)));
        match attributes {
            Err(e) => Err(e),
            Ok((_, end)) => Ok(
                (
                    MethodInfoView {
                        access_flags: value_of(access_flags),
                        name_index: value_of(name_index),
                        descriptor_index: value_of(descriptor_index),
                        attributes: value_of(attributes),
                    },
                    end,
                ),
            ),
        }
    }

    fn from_bytes(input: &[u8], pos: usize) -> (res: ReadResult<MethodInfo>) {
        let ghost decoded = Self::decode(input@, pos as int);
        let (access_flags, pos) = u16::from_bytes(input, pos)?;
        let (name_index, pos) = CPIndex::<UTF8Info>::from_bytes(input, pos)?;
        let (descriptor_index, pos) = CPIndex::<UTF8Info>::from_bytes(input, pos)?;
        let (attributes, pos) = Attributes::from_bytes(input, pos)?;
        assert(decoded is Ok);
        Ok((MethodInfo { access_flags, name_index, descriptor_index, attributes }, pos))
    }

    fn to_bytes(&self, out: &mut Vec<u8>) -> (res: WriteResult) {
        let ghost encoded = Self::encode(self@);
        let ghost over = Self::oversize(self@);
        self.access_flags.to_bytes(out)?;
        self.name_index.to_bytes(out)?;
        assert(out@ =~= old(out)@ + (
            u16::encode(self@.access_flags)
            + CPIndex::<UTF8Info>::encode(self@.name_index)
        ));
        self.descriptor_index.to_bytes(out)?;
        assert(out@ =~= old(out)@ + (
            u16::encode(self@.access_flags)
            + CPIndex::<UTF8Info>::encode(self@.name_index)
            + CPIndex::<UTF8Info>::encode(self@.descriptor_index)
        ));
        self.attributes.to_bytes(out)?;
        assert(over is None);
        assert(out@ =~= old(out)@ + encoded);
        Ok(())
    }

    proof fn lemma_fits(m: MethodInfoView) {
        assert(Self::wf(m));
        Attributes::lemma_fits(m.attributes);
        assert(Self::oversize(m) is None);
    }

    proof fn lemma_decode_encode(s: Seq<u8>, pos: int, m: MethodInfoView) {
        assert(Self::wf(m));
        let e1 = u16::encode(m.access_flags);
        let e2 = CPIndex::<UTF8Info>::encode(m.name_index);
        let e3 = CPIndex::<UTF8Info>::encode(m.descriptor_index);
        let e4 = Attributes::encode(m.attributes);
        lemma_holds_split(s, pos, e1 + e2 + e3, e4);
        lemma_holds_split(s, pos, e1 + e2, e3);
        lemma_holds_split(s, pos, e1, e2);
        u16::lemma_decode_encode(s, pos, m.access_flags);
        let p1 = pos + e1.len();
        CPIndex::<UTF8Info>::lemma_decode_encode(s, p1, m.name_index);
        let p2 = p1 + e2.len();
        CPIndex::<UTF8Info>::lemma_decode_encode(s, p2, m.descriptor_index);
        let p3 = p2 + e3.len();
        Attributes::lemma_decode_encode(s, p3, m.attributes);
        assert(Self::decode(s, pos) == decoded(m, pos + Self::encode(m).len()));
    }

    proof fn lemma_encode_decode(s: Seq<u8>, pos: int) {
        if let Ok((m, next)) = Self::decode(s, pos) {
            let p1 = end_of(u16::decode(s, pos));
            u16::lemma_encode_decode(s, pos);
            let p2 = end_of(CPIndex::<UTF8Info>::decode(s, p1));
            CPIndex::<UTF8Info>::lemma_encode_decode(s, p1);
            lemma_subrange_join(s, pos, p1, p2);
            let p3 = end_of(CPIndex::<UTF8Info>::decode(s, p2));
            CPIndex::<UTF8Info>::lemma_encode_decode(s, p2);
            lemma_subrange_join(s, pos, p2, p3);
            let p4 = end_of(Attributes::decode(s, p3));
            Attributes::lemma_encode_decode(s, p3);
            lemma_subrange_join(s, pos, p3, p4);
            assert(Self::wf(m));
            assert(Self::encode(m) == s.subrange(pos, next));
        }
    }
}


/// A class file. On the wire the four bytes `CA FE BA BE` stand before its
/// fields.
#[derive(Debug, Clone, PartialEq, Eq, Hash)]
pub struct ClassFile {
    /// The minor version of the format.
    pub minor_version: u16,
    /// The major version of the format.
    pub major_version: u16,
    /// The constant pool.
    pub constant_pool: ConstantPool,
    /// The access flags of the class.
    pub access_flags: u16,
    /// The class that the file defines.
    pub this_class: CPIndex<ClassInfo>,
    /// The direct superclass; 0 for `java/lang/Object` alone.
    pub super_class: CPIndex<ClassInfo>,
    /// The direct superinterfaces.
    pub interfaces: Vec<CPIndex<ClassInfo>>,
    /// The fields that the class declares.
    pub fields: Vec<FieldInfo>,
    /// The methods that the class declares.
    pub methods: Vec<MethodInfo>,
    /// The attributes of the class.
    pub attributes: Attributes,
}

/// The model of a [`ClassFile`]: its fields as mathematical values.
pub struct ClassFileView {
    pub minor_version: u16,
    pub major_version: u16,
    pub constant_pool: ConstantPoolView,
    pub access_flags: u16,
    pub this_class: CPIndex<ClassInfo>,
    pub super_class: CPIndex<ClassInfo>,
    pub interfaces: Seq<CPIndex<ClassInfo>>,
    pub fields: Seq<FieldInfoView>,
    pub methods: Seq<MethodInfoView>,
    pub attributes: AttributesView,
}

impl View for ClassFile {
    type V = ClassFileView;

    open spec fn view(&self) -> ClassFileView {
        ClassFileView {
            minor_version: self.minor_version,
            major_version: self.major_version,
            constant_pool: self.constant_pool@,
            access_flags: self.access_flags,
            this_class: self.this_class,
            super_class: self.super_class,
            interfaces: views(self.interfaces@),
            fields: views(self.fields@),
            methods: views(self.methods@),
            attributes: self.attributes@,
        }
    }
}

impl Codec for ClassFile {
    open spec fn wf(m: ClassFileView) -> bool {
        &&& ConstantPool::wf(m.constant_pool)
        &&& wf_table::<CPIndex<ClassInfo>>(LenWidth::U16, m.interfaces)
        &&& wf_table::<FieldInfo>(LenWidth::U16, m.fields)
        &&& wf_table::<MethodInfo>(LenWidth::U16, m.methods)
        &&& Attributes::wf(m.attributes)
    }

    open spec fn oversize(m: ClassFileView) -> Option<nat> {
        first_of(
            ConstantPool::oversize(m.constant_pool),
            first_of(
                oversize_table::<CPIndex<ClassInfo>>(LenWidth::U16, m.interfaces),
                first_of(
                    oversize_table::<FieldInfo>(LenWidth::U16, m.fields),
                    first_of(
                        oversize_table::<MethodInfo>(LenWidth::U16, m.methods),
                        Attributes::oversize(m.attributes),
                    ),
                ),
            ),
        )
    }

    open spec fn encode(m: ClassFileView) -> Seq<u8> {
        u32::encode(MAGIC)
            + u16::encode(m.minor_version)
            + u16::encode(m.major_version)
            + ConstantPool::encode(m.constant_pool)
            + u16::encode(m.access_flags)
            + CPIndex::<ClassInfo>::encode(m.this_class)
            + CPIndex::<ClassInfo>::encode(m.super_class)
            + encode_table::<CPIndex<ClassInfo>>(LenWidth::U16, m.interfaces)
            + encode_table::<FieldInfo>(LenWidth::U16, m.fields)
            + encode_table::<MethodInfo>(LenWidth::U16, m.methods)
            + Attributes::encode(m.attributes)
    }

    open spec fn decode(s: Seq<u8>, pos: int) -> Decoded<ClassFileView> {
        let magic = decode_expect_u32(s, pos, MAGIC);
        let minor_version = after(magic, u16::decode(s, end_of(magic)));
        let major_version = after(minor_version, u16::decode(s, end_of(minor_version)));
        let constant_pool = after(major_version, ConstantPool::decode(s, end_of(major_version)));
        let access_flags = after(constant_pool, u16::decode(s, end_of(constant_pool)));
        let this_class = after(access_flags, CPIndex::<ClassInfo>::decode(s, end_of(access_flags)));
        let super_class = after(this_class, CPIndex::<ClassInfo>::decode(s, end_of(this_class)));
        let interfaces = after(
            super_class,
            decode_table::<CPIndex<ClassInfo>>(s, end_of(super_class), LenWidth::U16),
        );
        let fields = after(
            interfaces,
            decode_table::<FieldInfo>(s, end_of(interfaces), LenWidth::U16),
        );
        let methods = after(fields, decode_table::<MethodInfo>(s, end_of(fields), LenWidth::U16));
        let attributes = after(methods, Attributes::decode(s, end_of(methods)));
        match attributes {
            Err(e) => Err(e),
            Ok((_, end)) => Ok(
                (
                    ClassFileView {
                        minor_version: value_of(minor_version),
                        major_version: value_of(major_version),
                        constant_pool: value_of(constant_pool),
                        access_flags: value_of(access_flags),
                        this_class: value_of(this_class),
                        super_class: value_of(super_class),
                        interfaces: value_of(interfaces),
                        fields: value_of(fields),
                        methods: value_of(methods),
                        attributes: value_of(attributes),
                    },
                    end,
                ),
            ),
        }
    }

    fn from_bytes(input: &[u8], pos: usize) -> (res: ReadResult<ClassFile>) {
        let ghost decoded = Self::decode(input@, pos as int);
        let (_, pos) = expect_u32(input, pos, MAGIC)?;
        let (minor_version, pos) = u16::from_bytes(input, pos)?;
        let (major_version, pos) = u16::from_bytes(input, pos)?;
        let (constant_pool, pos) = ConstantPool::from_bytes(input, pos)?;
        let (access_flags, pos) = u16::from_bytes(input, pos)?;
        let (this_class, pos) = CPIndex::<ClassInfo>::from_bytes(input, pos)?;
        let (super_class, pos) = CPIndex::<ClassInfo>::from_bytes(input, pos)?;
        let (interfaces, pos) = read_table(input, pos, LenWidth::U16)?;
        let (fields, pos) = read_table(input, pos, LenWidth::U16)?;
        let (methods, pos) = read_table(input, pos, LenWidth::U16)?;
        let (attributes, pos) = Attributes::from_bytes(input, pos)?;
        assert(decoded is Ok);
        Ok((
            ClassFile {
                minor_version,
                major_version,
                constant_pool,
                access_flags,
                this_class,
                super_class,
                interfaces,
                fields,
                methods,
                attributes,
            },
            pos,
        ))
    }

    fn to_bytes(&self, out: &mut Vec<u8>) -> (res: WriteResult) {
        let ghost encoded = Self::encode(self@);
        let ghost over = Self::oversize(self@);
        MAGIC.to_bytes(out)?;
        self.minor_version.to_bytes(out)?;
        assert(out@ =~= old(out)@ + (u32::encode(MAGIC) + u16::encode(self@.minor_version)));
        self.major_version.to_bytes(out)?;
        assert(out@ =~= old(out)@ + (
            u32::encode(MAGIC)
            + u16::encode(self@.minor_version)
            + u16::encode(self@.major_version)
        ));
        self.constant_pool.to_bytes(out)?;
        assert(out@ =~= old(out)@ + (
            u32::encode(MAGIC)
            + u16::encode(self@.minor_version)
            + u16::encode(self@.major_version)
            + ConstantPool::encode(self@.constant_pool)
        ));
        self.access_flags.to_bytes(out)?;
        assert(out@ =~= old(out)@ + (
            u32::encode(MAGIC)
            + u16::encode(self@.minor_version)
            + u16::encode(self@.major_version)
            + ConstantPool::encode(self@.constant_pool)
            + u16::encode(self@.access_flags)
        ));
        self.this_class.to_bytes(out)?;
        assert(out@ =~= old(out)@ + (
            u32::encode(MAGIC)
            + u16::encode(self@.minor_version)
            + u16::encode(self@.major_version)
            + ConstantPool::encode(self@.constant_pool)
            + u16::encode(self@.access_flags)
            + CPIndex::<ClassInfo>::encode(self@.this_class)
        ));
        self.super_class.to_bytes(out)?;
        assert(out@ =~= old(out)@ + (
            u32::encode(MAGIC)
            + u16::encode(self@.minor_version)
            + u16::encode(self@.major_version)
            + ConstantPool::encode(self@.constant_pool)
            + u16::encode(self@.access_flags)
            + CPIndex::<ClassInfo>::encode(self@.this_class)
            + CPIndex::<ClassInfo>::encode(self@.super_class)
        ));
        write_table(&self.interfaces, LenWidth::U16, out)?;
        assert(out@ =~= old(out)@ + (
            u32::encode(MAGIC)
            + u16::encode(self@.minor_version)
            + u16::encode(self@.major_version)
            + ConstantPool::encode(self@.constant_pool)
            + u16::encode(self@.access_flags)
            + CPIndex::<ClassInfo>::encode(self@.this_class)
            + CPIndex::<ClassInfo>::encode(self@.super_class)
            + encode_table::<CPIndex<ClassInfo>>(LenWidth::U16, self@.interfaces)
        ));
        write_table(&self.fields, LenWidth::U16, out)?;
        assert(out@ =~= old(out)@ + (
            u32::encode(MAGIC)
            + u16::encode(self@.minor_version)
            + u16::encode(self@.major_version)
            + ConstantPool::encode(self@.constant_pool)
            + u16::encode(self@.access_flags)
            + CPIndex::<ClassInfo>::encode(self@.this_class)
            + CPIndex::<ClassInfo>::encode(self@.super_class)
            + encode_table::<CPIndex<ClassInfo>>(LenWidth::U16, self@.interfaces)
            + encode_table::<FieldInfo>(LenWidth::U16, self@.fields)
        ));
        write_table(&self.methods, LenWidth::U16, out)?;
        assert(out@ =~= old(out)@ + (
            u32::encode(MAGIC)
            + u16::encode(self@.minor_version)
            + u16::encode(self@.major_version)
            + ConstantPool::encode(self@.constant_pool)
            + u16::encode(self@.access_flags)
            + CPIndex::<ClassInfo>::encode(self@.this_class)
            + CPIndex::<ClassInfo>::encode(self@.super_class)
            + encode_table::<CPIndex<ClassInfo>>(LenWidth::U16, self@.interfaces)
            + encode_table::<FieldInfo>(LenWidth::U16, self@.fields)
            + encode_table::<MethodInfo>(LenWidth::U16, self@.methods)
        ));
        self.attributes.to_bytes(out)?;
        assert(over is None);
        assert(out@ =~= old(out)@ + encoded);
        Ok(())
    }

    proof fn lemma_fits(m: ClassFileView) {
        assert(Self::wf(m));
        ConstantPool::lemma_fits(m.constant_pool);
        lemma_table_fits::<CPIndex<ClassInfo>>(LenWidth::U16, m.interfaces);
        lemma_table_fits::<FieldInfo>(LenWidth::U16, m.fields);
        lemma_table_fits::<MethodInfo>(LenWidth::U16, m.methods);
        Attributes::lemma_fits(m.attributes);
        assert(Self::oversize(m) is None);
    }

    #[verifier::rlimit(30)]
    proof fn lemma_decode_encode(s: Seq<u8>, pos: int, m: ClassFileView) {
        assert(Self::wf(m));
        let e1 = u32::encode(MAGIC);
        let e2 = u16::encode(m.minor_version);
        let e3 = u16::encode(m.major_version);
        let e4 = ConstantPool::encode(m.constant_pool);
        let e5 = u16::encode(m.access_flags);
        let e6 = CPIndex::<ClassInfo>::encode(m.this_class);
        let e7 = CPIndex::<ClassInfo>::encode(m.super_class);
        let e8 = encode_table::<CPIndex<ClassInfo>>(LenWidth::U16, m.interfaces);
        let e9 = encode_table::<FieldInfo>(LenWidth::U16, m.fields);
        let e10 = encode_table::<MethodInfo>(LenWidth::U16, m.methods);
        let e11 = Attributes::encode(m.attributes);
        lemma_holds_split(s, pos, e1 + e2 + e3 + e4 + e5 + e6 + e7 + e8 + e9 + e10, e11);
        lemma_holds_split(s, pos, e1 + e2 + e3 + e4 + e5 + e6 + e7 + e8 + e9, e10);
        lemma_holds_split(s, pos, e1 + e2 + e3 + e4 + e5 + e6 + e7 + e8, e9);
        lemma_holds_split(s, pos, e1 + e2 + e3 + e4 + e5 + e6 + e7, e8);
        lemma_holds_split(s, pos, e1 + e2 + e3 + e4 + e5 + e6, e7);
        lemma_holds_split(s, pos, e1 + e2 + e3 + e4 + e5, e6);
        lemma_holds_split(s, pos, e1 + e2 + e3 + e4, e5);
        lemma_holds_split(s, pos, e1 + e2 + e3, e4);
        lemma_holds_split(s, pos, e1 + e2, e3);
        lemma_holds_split(s, pos, e1, e2);
        let p1 = pos + e1.len();
        u32::lemma_decode_encode(s, pos, MAGIC);
        let p2 = p1 + e2.len();
        u16::lemma_decode_encode(s, p1, m.minor_version);
        let p3 = p2 + e3.len();
        u16::lemma_decode_encode(s, p2, m.major_version);
        let p4 = p3 + e4.len();
        ConstantPool::lemma_decode_encode(s, p3, m.constant_pool);
        let p5 = p4 + e5.len();
        u16::lemma_decode_encode(s, p4, m.access_flags);
        let p6 = p5 + e6.len();
        CPIndex::<ClassInfo>::lemma_decode_encode(s, p5, m.this_class);
        let p7 = p6 + e7.len();
        CPIndex::<ClassInfo>::lemma_decode_encode(s, p6, m.super_class);
        let p8 = p7 + e8.len();
        lemma_table_decode_encode::<CPIndex<ClassInfo>>(s, p7, LenWidth::U16, m.interfaces);
        let p9 = p8 + e9.len();
        lemma_table_decode_encode::<FieldInfo>(s, p8, LenWidth::U16, m.fields);
        let p10 = p9 + e10.len();
        lemma_table_decode_encode::<MethodInfo>(s, p9, LenWidth::U16, m.methods);
        let p11 = p10 + e11.len();
        Attributes::lemma_decode_encode(s, p10, m.attributes);
        Self::lemma_decode_fields(s, pos, m, p1, p2, p3, p4, p5, p6, p7, p8, p9, p10, p11);
        assert(p11 == pos + Self::encode(m).len());
        assert(Self::decode(s, pos) == decoded(m, p11));
    }

    proof fn lemma_encode_decode(s: Seq<u8>, pos: int) {
        if let Ok((m, next)) = Self::decode(s, pos) {
            let p1 = end_of(decode_expect_u32(s, pos, MAGIC));
            u32::lemma_encode_decode(s, pos);
            let p2 = end_of(u16::decode(s, p1));
            u16::lemma_encode_decode(s, p1);
            lemma_subrange_join(s, pos, p1, p2);
            let p3 = end_of(u16::decode(s, p2));
            u16::lemma_encode_decode(s, p2);
            lemma_subrange_join(s, pos, p2, p3);
            let p4 = end_of(ConstantPool::decode(s, p3));
            ConstantPool::lemma_encode_decode(s, p3);
            lemma_subrange_join(s, pos, p3, p4);
            let p5 = end_of(u16::decode(s, p4));
            u16::lemma_encode_decode(s, p4);
            lemma_subrange_join(s, pos, p4, p5);
            let p6 = end_of(CPIndex::<ClassInfo>::decode(s, p5));
            CPIndex::<ClassInfo>::lemma_encode_decode(s, p5);
            lemma_subrange_join(s, pos, p5, p6);
            let p7 = end_of(CPIndex::<ClassInfo>::decode(s, p6));
            CPIndex::<ClassInfo>::lemma_encode_decode(s, p6);
            lemma_subrange_join(s, pos, p6, p7);
            let p8 = end_of(decode_table::<CPIndex<ClassInfo>>(s, p7, LenWidth::U16));
            lemma_table_encode_decode::<CPIndex<ClassInfo>>(s, p7, LenWidth::U16);
            lemma_subrange_join(s, pos, p7, p8);
            let p9 = end_of(decode_table::<FieldInfo>(s, p8, LenWidth::U16));
            lemma_table_encode_decode::<FieldInfo>(s, p8, LenWidth::U16);
            lemma_subrange_join(s, pos, p8, p9);
            let p10 = end_of(decode_table::<MethodInfo>(s, p9, LenWidth::U16));
            lemma_table_encode_decode::<MethodInfo>(s, p9, LenWidth::U16);
            lemma_subrange_join(s, pos, p9, p10);
            let p11 = end_of(Attributes::decode(s, p10));
            Attributes::lemma_encode_decode(s, p10);
            lemma_subrange_join(s, pos, p10, p11);
            assert(Self::wf(m));
            assert(Self::encode(m) == s.subrange(pos, next));
        }
    }
}

impl ClassFile {
    /// Where the fields stand one behind the other, the whole stands at the place
    /// of the first.
    proof fn lemma_decode_fields(
        s: Seq<u8>,
        pos: int,
        m: ClassFileView,
        p1: int,
        p2: int,
        p3: int,
        p4: int,
        p5: int,
        p6: int,
        p7: int,
        p8: int,
        p9: int,
        p10: int,
        p11: int,
    )
        requires
            decode_expect_u32(s, pos, MAGIC) == decoded(MAGIC, p1),
            u16::decode(s, p1) == decoded(m.minor_version, p2),
            u16::decode(s, p2) == decoded(m.major_version, p3),
            ConstantPool::decode(s, p3) == decoded(m.constant_pool, p4),
            u16::decode(s, p4) == decoded(m.access_flags, p5),
            CPIndex::<ClassInfo>::decode(s, p5) == decoded(m.this_class, p6),
            CPIndex::<ClassInfo>::decode(s, p6) == decoded(m.super_class, p7),
            decode_table::<CPIndex<ClassInfo>>(s, p7, LenWidth::U16) == decoded(m.interfaces, p8),
            decode_table::<FieldInfo>(s, p8, LenWidth::U16) == decoded(m.fields, p9),
            decode_table::<MethodInfo>(s, p9, LenWidth::U16) == decoded(m.methods, p10),
            Attributes::decode(s, p10) == decoded(m.attributes, p11),
        ensures
            Self::decode(s, pos) == decoded(m, p11),
    {
    }
}


impl ClassFile {
    /// Decodes the class file that `input` starts with. Bytes behind the class
    /// file are not looked at.
    pub fn open(input: &[u8]) -> (res: Result<ClassFile, ReadError>)
        ensures
            match res {
                Ok(class) => ClassFile::decode(input@, 0) matches Ok((m, _)) && m == class@,
                Err(e) => ClassFile::decode(input@, 0) == Decoded::<ClassFileView>::Err(e),
            },
    {
        let (class, _) = ClassFile::from_bytes(input, 0)?;
        Ok(class)
    }

    /// Appends the class file to `out`. It fails exactly when a length or a
    /// count does not fit its field, with the first such number; `out` is
    /// then unchanged.
    pub fn write(&self, out: &mut Vec<u8>) -> (res: WriteResult)
        ensures
            match res {
                Ok(()) => {
                    &&& ClassFile::oversize(self@) is None
                    &&& final(out)@ == old(out)@ + ClassFile::encode(self@)
                },
                Err(WriteError::TooLarge(n)) => {
                    &&& ClassFile::oversize(self@) == Some(n as nat)
                    &&& final(out)@ == old(out)@
                },
            },
    {
        let mut buffer: Vec<u8> = Vec::new();
        self.to_bytes(&mut buffer)?;
        write_bytes(buffer.as_slice(), out);
        Ok(())
    }
}

} // verus!
