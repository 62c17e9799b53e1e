//! The small attributes of classes, fields and methods: one or two indices,
//! a table of indices, or nothing but their presence.
use crate::attr::{Attribute, decode_named, parse_with};
use crate::class::Attributes;
use crate::codec::{
    Codec, Decoded, LenWidth, after, decode_table, decoded, encode_table, end_of, holds_at,
    lemma_holds_split, lemma_subrange_join, lemma_table_decode_encode, lemma_table_encode_decode,
    lemma_table_fits, oversize_table, read_table, value_of, views, wf_table, write_table,
};
use crate::error::{ReadError, ReadResult, WriteResult};
use crate::modified_utf8::{decode_mutf8, mstr_to_utf8};
use crate::pool::{CPIndex, ClassInfo, ConstantPool, NameAndTypeInfo, UTF8Info};
use vstd::prelude::*;

verus! {

/// The `Exceptions` attribute: the checked exceptions that a method may throw.
#[derive(Debug, Clone, PartialEq, Eq, Hash)]
pub struct Exceptions {
    /// The classes of the exceptions.
    pub table: Vec<CPIndex<ClassInfo>>,
}

/// The model of an [`Exceptions`]: its fields as mathematical values.
pub struct ExceptionsView {
    pub table: Seq<CPIndex<ClassInfo>>,
}

impl View for Exceptions {
    type V = ExceptionsView;

    open spec fn view(&self) -> ExceptionsView {
        ExceptionsView {
            table: views(self.table@),
        }
    }
}

impl Codec for Exceptions {
    open spec fn wf(m: ExceptionsView) -> bool {
        wf_table::<CPIndex<ClassInfo>>(LenWidth::U16, m.table)
    }

    open spec fn oversize(m: ExceptionsView) -> Option<nat> {
        oversize_table::<CPIndex<ClassInfo>>(LenWidth::U16, m.table)
    }

    open spec fn encode(m: ExceptionsView) -> Seq<u8> {
        encode_table::<CPIndex<ClassInfo>>(LenWidth::U16, m.table)
    }

    open spec fn decode(s: Seq<u8>, pos: int) -> Decoded<ExceptionsView> {
        match decode_table::<CPIndex<ClassInfo>>(s, pos, LenWidth::U16) {
            Err(e) => Err(e),
            Ok((table, p1)) => Ok((ExceptionsView { table }, p1)),
        }
    }

    fn from_bytes(input: &[u8], pos: usize) -> (res: ReadResult<Exceptions>) {
        let ghost decoded = Self::decode(input@, pos as int);
        let (table, pos) = read_table(input, pos, LenWidth::U16)?;
        assert(decoded is Ok);
        Ok((Exceptions { table }, pos))
    }

    fn to_bytes(&self, out: &mut Vec<u8>) -> (res: WriteResult) {
        let ghost encoded = Self::encode(self@);
        let ghost over = Self::oversize(self@);
        write_table(&self.table, LenWidth::U16, out)?;
        assert(over is None);
        assert(out@ =~= old(out)@ + encoded);
        Ok(())
    }

    proof fn lemma_fits(m: ExceptionsView) {
        assert(Self::wf(m));
        lemma_table_fits::<CPIndex<ClassInfo>>(LenWidth::U16, m.table);
        assert(Self::oversize(m) is None);
    }

    proof fn lemma_decode_encode(s: Seq<u8>, pos: int, m: ExceptionsView) {
        assert(Self::wf(m));
        let e1 = encode_table::<CPIndex<ClassInfo>>(LenWidth::U16, m.table);
        lemma_table_decode_encode::<CPIndex<ClassInfo>>(s, pos, LenWidth::U16, m.table);
        assert(Self::decode(s, pos) == decoded(m, pos + Self::encode(m).len()));
    }

    proof fn lemma_encode_decode(s: Seq<u8>, pos: int) {
        if let Ok((m, next)) = Self::decode(s, pos) {
            let p1 = end_of(decode_table::<CPIndex<ClassInfo>>(s, pos, LenWidth::U16));
            lemma_table_encode_decode::<CPIndex<ClassInfo>>(s, pos, LenWidth::U16);
            assert(Self::wf(m));
            assert(Self::encode(m) == s.subrange(pos, next));
        }
    }
}

impl Attribute for Exceptions {
    open spec fn attribute_name() -> Seq<char> {
        "Exceptions"@
    }

    open spec fn parse(info: Seq<u8>) -> Option<ExceptionsView> {
        parse_with::<Exceptions>(info)
    }

    fn from_attributes(attributes: &Attributes, cp: &ConstantPool) -> (res: Option<Exceptions>) {
        decode_named(attributes, cp, "Exceptions")
    }
}

/// A class that is a member of another class.
#[derive(Debug, Clone, PartialEq, Eq, Hash)]
pub struct InnerClass {
    /// The member class.
    pub inner_class_info_index: CPIndex<ClassInfo>,
    /// The class of which it is a member; none for a local or anonymous class.
    pub outer_class_info_index: Option<CPIndex<ClassInfo>>,
    /// The simple name of the member class; none for an anonymous class.
    pub inner_name_index: Option<CPIndex<UTF8Info>>,
    /// The access flags as the source declares them.
    pub inner_class_access_flags: u16,
}

impl View for InnerClass {
    type V = InnerClass;

    open spec fn view(&self) -> InnerClass {
        *self
    }
}

impl Codec for InnerClass {
    open spec fn wf(m: InnerClass) -> bool {
        &&& CPIndex::<ClassInfo>::wf_non_zero(m.outer_class_info_index)
        &&& CPIndex::<UTF8Info>::wf_non_zero(m.inner_name_index)
    }

    open spec fn oversize(m: InnerClass) -> Option<nat> {
        None
    }

    open spec fn encode(m: InnerClass) -> Seq<u8> {
        CPIndex::<ClassInfo>::encode(m.inner_class_info_index)
            + CPIndex::<ClassInfo>::encode_non_zero(m.outer_class_info_index)
            + CPIndex::<UTF8Info>::encode_non_zero(m.inner_name_index)
            + u16::encode(m.inner_class_access_flags)
    }

    open spec fn decode(s: Seq<u8>, pos: int) -> Decoded<InnerClass> {
        let inner_class_info_index = CPIndex::<ClassInfo>::decode(s, pos);
        let outer_class_info_index = after(
            inner_class_info_index,
            CPIndex::<ClassInfo>::decode_non_zero(s, end_of(inner_class_info_index)),
        );
        let inner_name_index = after(
            outer_class_info_index,
            CPIndex::<UTF8Info>::decode_non_zero(s, end_of(outer_class_info_index)),
        );
        let inner_class_access_flags = after(
            inner_name_index,
            u16::decode(s, end_of(inner_name_index)),
        );
        match inner_class_access_flags {
            Err(e) => Err(e),
            Ok((_, end)) => Ok(
                (
                    InnerClass {
                        inner_class_info_index: value_of(inner_class_info_index),
                        outer_class_info_index: value_of(outer_class_info_index),
                        inner_name_index: value_of(inner_name_index),
                        inner_class_access_flags: value_of(inner_class_access_flags),
                    },
                    end,
                ),
            ),
        }
    }

    fn from_bytes(input: &[u8], pos: usize) -> (res: ReadResult<InnerClass>) {
        let ghost decoded = Self::decode(input@, pos as int);
        let (inner_class_info_index, pos) = CPIndex::<ClassInfo>::from_bytes(input, pos)?;
        let (outer_class_info_index, pos) = CPIndex::read_non_zero(input, pos)?;
        let (inner_name_index, pos) = CPIndex::read_non_zero(input, pos)?;
        let (inner_class_access_flags, pos) = u16::from_bytes(input, pos)?;
        assert(decoded is Ok);
        Ok((
            InnerClass {
                inner_class_info_index,
                outer_class_info_index,
                inner_name_index,
                inner_class_access_flags,
            },
            pos,
        ))
    }

    fn to_bytes(&self, out: &mut Vec<u8>) -> (res: WriteResult) {
        let ghost encoded = Self::encode(self@);
        let ghost over = Self::oversize(self@);
        self.inner_class_info_index.to_bytes(out)?;
        CPIndex::write_non_zero(&self.outer_class_info_index, out)?;
        assert(out@ =~= old(out)@ + (
            CPIndex::<ClassInfo>::encode(self@.inner_class_info_index)
            + CPIndex::<ClassInfo>::encode_non_zero(self@.outer_class_info_index)
        ));
        CPIndex::write_non_zero(&self.inner_name_index, out)?;
        assert(out@ =~= old(out)@ + (
            CPIndex::<ClassInfo>::encode(self@.inner_class_info_index)
            + CPIndex::<ClassInfo>::encode_non_zero(self@.outer_class_info_index)
            + CPIndex::<UTF8Info>::encode_non_zero(self@.inner_name_index)
        ));
        self.inner_class_access_flags.to_bytes(out)?;
        assert(over is None);
        assert(out@ =~= old(out)@ + encoded);
        Ok(())
    }

    proof fn lemma_fits(m: InnerClass) {
        assert(Self::wf(m));
        assert(Self::oversize(m) is None);
    }

    proof fn lemma_decode_encode(s: Seq<u8>, pos: int, m: InnerClass) {
        assert(Self::wf(m));
        let e1 = CPIndex::<ClassInfo>::encode(m.inner_class_info_index);
        let e2 = CPIndex::<ClassInfo>::encode_non_zero(m.outer_class_info_index);
        let e3 = CPIndex::<UTF8Info>::encode_non_zero(m.inner_name_index);
        let e4 = u16::encode(m.inner_class_access_flags);
        lemma_holds_split(s, pos, e1 + e2 + e3, e4);
        lemma_holds_split(s, pos, e1 + e2, e3);
        lemma_holds_split(s, pos, e1, e2);
        CPIndex::<ClassInfo>::lemma_decode_encode(s, pos, m.inner_class_info_index);
        let p1 = pos + e1.len();
        CPIndex::<ClassInfo>::lemma_non_zero_decode_encode(s, p1, m.outer_class_info_index);
        let p2 = p1 + e2.len();
        CPIndex::<UTF8Info>::lemma_non_zero_decode_encode(s, p2, m.inner_name_index);
        let p3 = p2 + e3.len();
        u16::lemma_decode_encode(s, p3, m.inner_class_access_flags);
        assert(Self::decode(s, pos) == decoded(m, pos + Self::encode(m).len()));
    }

    proof fn lemma_encode_decode(s: Seq<u8>, pos: int) {
        if let Ok((m, next)) = Self::decode(s, pos) {
            let p1 = end_of(CPIndex::<ClassInfo>::decode(s, pos));
            CPIndex::<ClassInfo>::lemma_encode_decode(s, pos);
            let p2 = end_of(CPIndex::<ClassInfo>::decode_non_zero(s, p1));
            CPIndex::<ClassInfo>::lemma_non_zero_encode_decode(s, p1);
            lemma_subrange_join(s, pos, p1, p2);
            let p3 = end_of(CPIndex::<UTF8Info>::decode_non_zero(s, p2));
            CPIndex::<UTF8Info>::lemma_non_zero_encode_decode(s, p2);
            lemma_subrange_join(s, pos, p2, p3);
            let p4 = end_of(u16::decode(s, p3));
            u16::lemma_encode_decode(s, p3);
            lemma_subrange_join(s, pos, p3, p4);
            assert(Self::wf(m));
            assert(Self::encode(m) == s.subrange(pos, next));
        }
    }
}

/// The `InnerClasses` attribute: the member classes that a class refers to.
#[derive(Debug, Clone, PartialEq, Eq, Hash)]
pub struct InnerClasses {
    /// The entries of the table.
    pub table: Vec<InnerClass>,
}

/// The model of an [`InnerClasses`]: its fields as mathematical values.
pub struct InnerClassesView {
    pub table: Seq<InnerClass>,
}

impl View for InnerClasses {
    type V = InnerClassesView;

    open spec fn view(&self) -> InnerClassesView {
        InnerClassesView {
            table: views(self.table@),
        }
    }
}

impl Codec for InnerClasses {
    open spec fn wf(m: InnerClassesView) -> bool {
        wf_table::<InnerClass>(LenWidth::U16, m.table)
    }

    open spec fn oversize(m: InnerClassesView) -> Option<nat> {
        oversize_table::<InnerClass>(LenWidth::U16, m.table)
    }

    open spec fn encode(m: InnerClassesView) -> Seq<u8> {
        encode_table::<InnerClass>(LenWidth::U16, m.table)
    }

    open spec fn decode(s: Seq<u8>, pos: int) -> Decoded<InnerClassesView> {
        match decode_table::<InnerClass>(s, pos, LenWidth::U16) {
            Err(e) => Err(e),
            Ok((table, p1)) => Ok((InnerClassesView { table }, p1)),
        }
    }

    fn from_bytes(input: &[u8], pos: usize) -> (res: ReadResult<InnerClasses>) {
        let ghost decoded = Self::decode(input@, pos as int);
        let (table, pos) = read_table(input, pos, LenWidth::U16)?;
        assert(decoded is Ok);
        Ok((InnerClasses { table }, pos))
    }

    fn to_bytes(&self, out: &mut Vec<u8>) -> (res: WriteResult) {
        let ghost encoded = Self::encode(self@);
        let ghost over = Self::oversize(self@);
        write_table(&self.table, LenWidth::U16, out)?;
        assert(over is None);
        assert(out@ =~= old(out)@ + encoded);
        Ok(())
    }

    proof fn lemma_fits(m: InnerClassesView) {
        assert(Self::wf(m));
        lemma_table_fits::<InnerClass>(LenWidth::U16, m.table);
        assert(Self::oversize(m) is None);
    }

    proof fn lemma_decode_encode(s: Seq<u8>, pos: int, m: InnerClassesView) {
        assert(Self::wf(m));
        let e1 = encode_table::<InnerClass>(LenWidth::U16, m.table);
        lemma_table_decode_encode::<InnerClass>(s, pos, LenWidth::U16, m.table);
        assert(Self::decode(s, pos) == decoded(m, pos + Self::encode(m).len()));
    }

    proof fn lemma_encode_decode(s: Seq<u8>, pos: int) {
        if let Ok((m, next)) = Self::decode(s, pos) {
            let p1 = end_of(decode_table::<InnerClass>(s, pos, LenWidth::U16));
            lemma_table_encode_decode::<InnerClass>(s, pos, LenWidth::U16);
            assert(Self::wf(m));
            assert(Self::encode(m) == s.subrange(pos, next));
        }
    }
}

impl Attribute for InnerClasses {
    open spec fn attribute_name() -> Seq<char> {
        "InnerClasses"@
    }

    open spec fn parse(info: Seq<u8>) -> Option<InnerClassesView> {
        parse_with::<InnerClasses>(info)
    }

    fn from_attributes(attributes: &Attributes, cp: &ConstantPool) -> (res: Option<InnerClasses>) {
        decode_named(attributes, cp, "InnerClasses")
    }
}

/// The `EnclosingMethod` attribute of a local or anonymous class.
#[derive(Debug, Clone, PartialEq, Eq, Hash)]
pub struct EnclosingMethod {
    /// The innermost class that encloses the class.
    pub class_index: CPIndex<ClassInfo>,
    /// The method that encloses the class.
    pub method_index: CPIndex<NameAndTypeInfo>,
}

impl View for EnclosingMethod {
    type V = EnclosingMethod;

    open spec fn view(&self) -> EnclosingMethod {
        *self
    }
}

impl Codec for EnclosingMethod {
    open spec fn wf(m: EnclosingMethod) -> bool {
        true
    }

    open spec fn oversize(m: EnclosingMethod) -> Option<nat> {
        None
    }

    open spec fn encode(m: EnclosingMethod) -> Seq<u8> {
        CPIndex::<ClassInfo>::encode(m.class_index)
            + CPIndex::<NameAndTypeInfo>::encode(m.method_index)
    }

    open spec fn decode(s: Seq<u8>, pos: int) -> Decoded<EnclosingMethod> {
        match CPIndex::<ClassInfo>::decode(s, pos) {
            Err(e) => Err(e),
            Ok((class_index, p1)) => match CPIndex::<NameAndTypeInfo>::decode(s, p1) {
                Err(e) => Err(e),
                Ok((method_index, p2)) => Ok((EnclosingMethod { class_index, method_index }, p2)),
            },
        }
    }

    fn from_bytes(input: &[u8], pos: usize) -> (res: ReadResult<EnclosingMethod>) {
        let ghost decoded = Self::decode(input@, pos as int);
        let (class_index, pos) = CPIndex::<ClassInfo>::from_bytes(input, pos)?;
        let (method_index, pos) = CPIndex::<NameAndTypeInfo>::from_bytes(input, pos)?;
        assert(decoded is Ok);
        Ok((EnclosingMethod { class_index, method_index }, pos))
    }

    fn to_bytes(&self, out: &mut Vec<u8>) -> (res: WriteResult) {
        let ghost encoded = Self::encode(self@);
        let ghost over = Self::oversize(self@);
        self.class_index.to_bytes(out)?;
        self.method_index.to_bytes(out)?;
        assert(over is None);
        assert(out@ =~= old(out)@ + encoded);
        Ok(())
    }

    proof fn lemma_fits(m: EnclosingMethod) {
        assert(Self::oversize(m) is None);
    }

    proof fn lemma_decode_encode(s: Seq<u8>, pos: int, m: EnclosingMethod) {
        let e1 = CPIndex::<ClassInfo>::encode(m.class_index);
        let e2 = CPIndex::<NameAndTypeInfo>::encode(m.method_index);
        lemma_holds_split(s, pos, e1, e2);
        CPIndex::<ClassInfo>::lemma_decode_encode(s, pos, m.class_index);
        let p1 = pos + e1.len();
        CPIndex::<NameAndTypeInfo>::lemma_decode_encode(s, p1, m.method_index);
        assert(Self::decode(s, pos) == decoded(m, pos + Self::encode(m).len()));
    }

    proof fn lemma_encode_decode(s: Seq<u8>, pos: int) {
        if let Ok((m, next)) = Self::decode(s, pos) {
            let p1 = end_of(CPIndex::<ClassInfo>::decode(s, pos));
            CPIndex::<ClassInfo>::lemma_encode_decode(s, pos);
            let p2 = end_of(CPIndex::<NameAndTypeInfo>::decode(s, p1));
            CPIndex::<NameAndTypeInfo>::lemma_encode_decode(s, p1);
            lemma_subrange_join(s, pos, p1, p2);
            assert(Self::wf(m));
            assert(Self::encode(m) == s.subrange(pos, next));
        }
    }
}

impl Attribute for EnclosingMethod {
    open spec fn attribute_name() -> Seq<char> {
        "EnclosingMethod"@
    }

    open spec fn parse(info: Seq<u8>) -> Option<EnclosingMethod> {
        parse_with::<EnclosingMethod>(info)
    }

    fn from_attributes(
        attributes: &Attributes,
        cp: &ConstantPool,
    ) -> (res: Option<EnclosingMethod>) {
        decode_named(attributes, cp, "EnclosingMethod")
    }
}

/// The `Synthetic` attribute: the member does not appear in the source. Its
/// payload is empty; its presence is all it says.
#[derive(Debug, Clone, PartialEq, Eq, Hash)]
pub struct Synthetic;

impl View for Synthetic {
    type V = Synthetic;

    open spec fn view(&self) -> Synthetic {
        *self
    }
}

impl Codec for Synthetic {
    open spec fn wf(m: Synthetic) -> bool {
        true
    }

    open spec fn oversize(m: Synthetic) -> Option<nat> {
        None
    }

    open spec fn encode(m: Synthetic) -> Seq<u8> {
        Seq::empty()
    }

    open spec fn decode(s: Seq<u8>, pos: int) -> Decoded<Synthetic> {
        if 0 <= pos <= s.len() {
            Ok((Synthetic, pos))
        } else {
            Err(ReadError::UnexpectedEof)
        }
    }

    fn from_bytes(input: &[u8], pos: usize) -> (res: ReadResult<Synthetic>) {
        let ghost decoded = Self::decode(input@, pos as int);
        if pos > input.len() {
            assert(decoded is Err);
            return Err(ReadError::UnexpectedEof);
        }
        assert(decoded is Ok);
        Ok((Synthetic, pos))
    }

    fn to_bytes(&self, out: &mut Vec<u8>) -> (res: WriteResult) {
        let ghost encoded = Self::encode(self@);
        let ghost over = Self::oversize(self@);
        assert(over is None);
        assert(out@ =~= old(out)@ + encoded);
        Ok(())
    }

    proof fn lemma_fits(m: Synthetic) {
        assert(Self::oversize(m) is None);
    }

    proof fn lemma_decode_encode(s: Seq<u8>, pos: int, m: Synthetic) {
        reveal(holds_at);
        assert(Self::decode(s, pos) == decoded(m, pos + Self::encode(m).len()));
    }

    proof fn lemma_encode_decode(s: Seq<u8>, pos: int) {
        if Self::decode(s, pos) is Ok {
            assert(Self::wf(Synthetic));
            assert(Self::encode(Synthetic) =~= s.subrange(pos, pos));
        }
    }
}

impl Attribute for Synthetic {
    open spec fn attribute_name() -> Seq<char> {
        "Synthetic"@
    }

    open spec fn parse(info: Seq<u8>) -> Option<Synthetic> {
        parse_with::<Synthetic>(info)
    }

    fn from_attributes(attributes: &Attributes, cp: &ConstantPool) -> (res: Option<Synthetic>) {
        decode_named(attributes, cp, "Synthetic")
    }
}

/// The `Deprecated` attribute: the member has been superseded. Its payload is
/// empty; its presence is all it says.
#[derive(Debug, Clone, PartialEq, Eq, Hash)]
pub struct Deprecated;

impl View for Deprecated {
    type V = Deprecated;

    open spec fn view(&self) -> Deprecated {
        *self
    }
}

impl Codec for Deprecated {
    open spec fn wf(m: Deprecated) -> bool {
        true
    }

    open spec fn oversize(m: Deprecated) -> Option<nat> {
        None
    }

    open spec fn encode(m: Deprecated) -> Seq<u8> {
        Seq::empty()
    }

    open spec fn decode(s: Seq<u8>, pos: int) -> Decoded<Deprecated> {
        if 0 <= pos <= s.len() {
            Ok((Deprecated, pos))
        } else {
            Err(ReadError::UnexpectedEof)
        }
    }

    fn from_bytes(input: &[u8], pos: usize) -> (res: ReadResult<Deprecated>) {
        let ghost decoded = Self::decode(input@, pos as int);
        if pos > input.len() {
            assert(decoded is Err);
            return Err(ReadError::UnexpectedEof);
        }
        assert(decoded is Ok);
        Ok((Deprecated, pos))
    }

    fn to_bytes(&self, out: &mut Vec<u8>) -> (res: WriteResult) {
        let ghost encoded = Self::encode(self@);
        let ghost over = Self::oversize(self@);
        assert(over is None);
        assert(out@ =~= old(out)@ + encoded);
        Ok(())
    }

    proof fn lemma_fits(m: Deprecated) {
        assert(Self::oversize(m) is None);
    }

    proof fn lemma_decode_encode(s: Seq<u8>, pos: int, m: Deprecated) {
        reveal(holds_at);
        assert(Self::decode(s, pos) == decoded(m, pos + Self::encode(m).len()));
    }

    proof fn lemma_encode_decode(s: Seq<u8>, pos: int) {
        if Self::decode(s, pos) is Ok {
            assert(Self::wf(Deprecated));
            assert(Self::encode(Deprecated) =~= s.subrange(pos, pos));
        }
    }
}

impl Attribute for Deprecated {
    open spec fn attribute_name() -> Seq<char> {
        "Deprecated"@
    }

    open spec fn parse(info: Seq<u8>) -> Option<Deprecated> {
        parse_with::<Deprecated>(info)
    }

    fn from_attributes(attributes: &Attributes, cp: &ConstantPool) -> (res: Option<Deprecated>) {
        decode_named(attributes, cp, "Deprecated")
    }
}

/// The `Signature` attribute: the generic signature of a class, a field or a
/// method.
#[derive(Debug, Clone, PartialEq, Eq, Hash)]
pub struct Signature {
    /// The signature.
    pub class_index: CPIndex<UTF8Info>,
}

impl View for Signature {
    type V = Signature;

    open spec fn view(&self) -> Signature {
        *self
    }
}

impl Codec for Signature {
    open spec fn wf(m: Signature) -> bool {
        true
    }

    open spec fn oversize(m: Signature) -> Option<nat> {
        None
    }

    open spec fn encode(m: Signature) -> Seq<u8> {
        CPIndex::<UTF8Info>::encode(m.class_index)
    }

    open spec fn decode(s: Seq<u8>, pos: int) -> Decoded<Signature> {
        match CPIndex::<UTF8Info>::decode(s, pos) {
            Err(e) => Err(e),
            Ok((class_index, p1)) => Ok((Signature { class_index }, p1)),
        }
    }

    fn from_bytes(input: &[u8], pos: usize) -> (res: ReadResult<Signature>) {
        let ghost decoded = Self::decode(input@, pos as int);
        let (class_index, pos) = CPIndex::<UTF8Info>::from_bytes(input, pos)?;
        assert(decoded is Ok);
        Ok((Signature { class_index }, pos))
    }

    fn to_bytes(&self, out: &mut Vec<u8>) -> (res: WriteResult) {
        let ghost encoded = Self::encode(self@);
        let ghost over = Self::oversize(self@);
        self.class_index.to_bytes(out)?;
        assert(over is None);
        assert(out@ =~= old(out)@ + encoded);
        Ok(())
    }

    proof fn lemma_fits(m: Signature) {
        assert(Self::oversize(m) is None);
    }

    proof fn lemma_decode_encode(s: Seq<u8>, pos: int, m: Signature) {
        let e1 = CPIndex::<UTF8Info>::encode(m.class_index);
        CPIndex::<UTF8Info>::lemma_decode_encode(s, pos, m.class_index);
        assert(Self::decode(s, pos) == decoded(m, pos + Self::encode(m).len()));
    }

    proof fn lemma_encode_decode(s: Seq<u8>, pos: int) {
        if let Ok((m, next)) = Self::decode(s, pos) {
            let p1 = end_of(CPIndex::<UTF8Info>::decode(s, pos));
            CPIndex::<UTF8Info>::lemma_encode_decode(s, pos);
            assert(Self::wf(m));
            assert(Self::encode(m) == s.subrange(pos, next));
        }
    }
}

impl Attribute for Signature {
    open spec fn attribute_name() -> Seq<char> {
        "Signature"@
    }

    open spec fn parse(info: Seq<u8>) -> Option<Signature> {
        parse_with::<Signature>(info)
    }

    fn from_attributes(attributes: &Attributes, cp: &ConstantPool) -> (res: Option<Signature>) {
        decode_named(attributes, cp, "Signature")
    }
}

/// The `SourceFile` attribute: the source file of a class.
#[derive(Debug, Clone, PartialEq, Eq, Hash)]
pub struct SourceFile {
    /// The name of the source file.
    pub sourcefile_index: CPIndex<UTF8Info>,
}

impl View for SourceFile {
    type V = SourceFile;

    open spec fn view(&self) -> SourceFile {
        *self
    }
}

impl Codec for SourceFile {
    open spec fn wf(m: SourceFile) -> bool {
        true
    }

    open spec fn oversize(m: SourceFile) -> Option<nat> {
        None
    }

    open spec fn encode(m: SourceFile) -> Seq<u8> {
        CPIndex::<UTF8Info>::encode(m.sourcefile_index)
    }

    open spec fn decode(s: Seq<u8>, pos: int) -> Decoded<SourceFile> {
        match CPIndex::<UTF8Info>::decode(s, pos) {
            Err(e) => Err(e),
            Ok((sourcefile_index, p1)) => Ok((SourceFile { sourcefile_index }, p1)),
        }
    }

    fn from_bytes(input: &[u8], pos: usize) -> (res: ReadResult<SourceFile>) {
        let ghost decoded = Self::decode(input@, pos as int);
        let (sourcefile_index, pos) = CPIndex::<UTF8Info>::from_bytes(input, pos)?;
        assert(decoded is Ok);
        Ok((SourceFile { sourcefile_index }, pos))
    }

    fn to_bytes(&self, out: &mut Vec<u8>) -> (res: WriteResult) {
        let ghost encoded = Self::encode(self@);
        let ghost over = Self::oversize(self@);
        self.sourcefile_index.to_bytes(out)?;
        assert(over is None);
        assert(out@ =~= old(out)@ + encoded);
        Ok(())
    }

    proof fn lemma_fits(m: SourceFile) {
        assert(Self::oversize(m) is None);
    }

    proof fn lemma_decode_encode(s: Seq<u8>, pos: int, m: SourceFile) {
        let e1 = CPIndex::<UTF8Info>::encode(m.sourcefile_index);
        CPIndex::<UTF8Info>::lemma_decode_encode(s, pos, m.sourcefile_index);
        assert(Self::decode(s, pos) == decoded(m, pos + Self::encode(m).len()));
    }

    proof fn lemma_encode_decode(s: Seq<u8>, pos: int) {
        if let Ok((m, next)) = Self::decode(s, pos) {
            let p1 = end_of(CPIndex::<UTF8Info>::decode(s, pos));
            CPIndex::<UTF8Info>::lemma_encode_decode(s, pos);
            assert(Self::wf(m));
            assert(Self::encode(m) == s.subrange(pos, next));
        }
    }
}

impl Attribute for SourceFile {
    open spec fn attribute_name() -> Seq<char> {
        "SourceFile"@
    }

    open spec fn parse(info: Seq<u8>) -> Option<SourceFile> {
        parse_with::<SourceFile>(info)
    }

    fn from_attributes(attributes: &Attributes, cp: &ConstantPool) -> (res: Option<SourceFile>) {
        decode_named(attributes, cp, "SourceFile")
    }
}

/// The `SourceDebugExtension` attribute: debugging information as a string
/// in modified UTF-8. The string has no length of its own: it is the whole
/// payload of the attribute.
#[derive(Debug, Clone, PartialEq, Eq, Hash)]
pub struct SourceDebugExtension {
    /// The bytes of the string, in modified UTF-8.
    pub data: Vec<u8>,
}

/// The model of a [`SourceDebugExtension`].
pub struct SourceDebugExtensionView {
    pub data: Seq<u8>,
}

impl View for SourceDebugExtension {
    type V = SourceDebugExtensionView;

    open spec fn view(&self) -> SourceDebugExtensionView {
        SourceDebugExtensionView { data: self.data@ }
    }
}

impl SourceDebugExtension {
    /// The string in standard UTF-8, or `None` if the bytes are not modified
    /// UTF-8.
    pub fn to_utf8(&self) -> (res: Option<String>)
        ensures
            match res {
                Some(text) => mstr_to_utf8(self.data@) == Some(text@),
                None => mstr_to_utf8(self.data@) is None,
            },
    {
        decode_mutf8(self.data.as_slice())
    }
}

impl Attribute for SourceDebugExtension {
    open spec fn attribute_name() -> Seq<char> {
        "SourceDebugExtension"@
    }

    open spec fn parse(info: Seq<u8>) -> Option<SourceDebugExtensionView> {
        Some(SourceDebugExtensionView { data: info })
    }

    fn from_attributes(attributes: &Attributes, cp: &ConstantPool) -> (res: Option<
        SourceDebugExtension,
    >) {
        match attributes.named(cp, "SourceDebugExtension") {
            None => None,
            Some(attr) => Some(
                SourceDebugExtension { data: vstd::slice::slice_to_vec(attr.info.as_slice()) },
            ),
        }
    }
}

/// A formal parameter of a method.
#[derive(Debug, Clone, PartialEq, Eq, Hash)]
pub struct MethodParameter {
    /// The name of the parameter; none for a parameter without a name.
    pub name_index: Option<CPIndex<UTF8Info>>,
    /// The access flags of the parameter.
    pub access_flags: u16,
}

impl View for MethodParameter {
    type V = MethodParameter;

    open spec fn view(&self) -> MethodParameter {
        *self
    }
}

impl Codec for MethodParameter {
    open spec fn wf(m: MethodParameter) -> bool {
        CPIndex::<UTF8Info>::wf_non_zero(m.name_index)
    }

    open spec fn oversize(m: MethodParameter) -> Option<nat> {
        None
    }

    open spec fn encode(m: MethodParameter) -> Seq<u8> {
        CPIndex::<UTF8Info>::encode_non_zero(m.name_index)
            + u16::encode(m.access_flags)
    }

    open spec fn decode(s: Seq<u8>, pos: int) -> Decoded<MethodParameter> {
        match CPIndex::<UTF8Info>::decode_non_zero(s, pos) {
            Err(e) => Err(e),
            Ok((name_index, p1)) => match u16::decode(s, p1) {
                Err(e) => Err(e),
                Ok((access_flags, p2)) => Ok((MethodParameter { name_index, access_flags }, p2)),
            },
        }
    }

    fn from_bytes(input: &[u8], pos: usize) -> (res: ReadResult<MethodParameter>) {
        let ghost decoded = Self::decode(input@, pos as int);
        let (name_index, pos) = CPIndex::read_non_zero(input, pos)?;
        let (access_flags, pos) = u16::from_bytes(input, pos)?;
        assert(decoded is Ok);
        Ok((MethodParameter { name_index, access_flags }, pos))
    }

    fn to_bytes(&self, out: &mut Vec<u8>) -> (res: WriteResult) {
        let ghost encoded = Self::encode(self@);
        let ghost over = Self::oversize(self@);
        CPIndex::write_non_zero(&self.name_index, out)?;
        self.access_flags.to_bytes(out)?;
        assert(over is None);
        assert(out@ =~= old(out)@ + encoded);
        Ok(())
    }

    proof fn lemma_fits(m: MethodParameter) {
        assert(Self::wf(m));
        assert(Self::oversize(m) is None);
    }

    proof fn lemma_decode_encode(s: Seq<u8>, pos: int, m: MethodParameter) {
        assert(Self::wf(m));
        let e1 = CPIndex::<UTF8Info>::encode_non_zero(m.name_index);
        let e2 = u16::encode(m.access_flags);
        lemma_holds_split(s, pos, e1, e2);
        CPIndex::<UTF8Info>::lemma_non_zero_decode_encode(s, pos, m.name_index);
        let p1 = pos + e1.len();
        u16::lemma_decode_encode(s, p1, m.access_flags);
        assert(Self::decode(s, pos) == decoded(m, pos + Self::encode(m).len()));
    }

    proof fn lemma_encode_decode(s: Seq<u8>, pos: int) {
        if let Ok((m, next)) = Self::decode(s, pos) {
            let p1 = end_of(CPIndex::<UTF8Info>::decode_non_zero(s, pos));
            CPIndex::<UTF8Info>::lemma_non_zero_encode_decode(s, pos);
            let p2 = end_of(u16::decode(s, p1));
            u16::lemma_encode_decode(s, p1);
            lemma_subrange_join(s, pos, p1, p2);
            assert(Self::wf(m));
            assert(Self::encode(m) == s.subrange(pos, next));
        }
    }
}

/// The `MethodParameters` attribute: the formal parameters of a method.
#[derive(Debug, Clone, PartialEq, Eq, Hash)]
pub struct MethodParameters {
    /// The parameters.
    pub table: Vec<MethodParameter>,
}

/// The model of a [`MethodParameters`]: its fields as mathematical values.
pub struct MethodParametersView {
    pub table: Seq<MethodParameter>,
}

impl View for MethodParameters {
    type V = MethodParametersView;

    open spec fn view(&self) -> MethodParametersView {
        MethodParametersView {
            table: views(self.table@),
        }
    }
}

impl Codec for MethodParameters {
    open spec fn wf(m: MethodParametersView) -> bool {
        wf_table::<MethodParameter>(LenWidth::U8, m.table)
    }

    open spec fn oversize(m: MethodParametersView) -> Option<nat> {
        oversize_table::<MethodParameter>(LenWidth::U8, m.table)
    }

    open spec fn encode(m: MethodParametersView) -> Seq<u8> {
        encode_table::<MethodParameter>(LenWidth::U8, m.table)
    }

    open spec fn decode(s: Seq<u8>, pos: int) -> Decoded<MethodParametersView> {
        match decode_table::<MethodParameter>(s, pos, LenWidth::U8) {
            Err(e) => Err(e),
            Ok((table, p1)) => Ok((MethodParametersView { table }, p1)),
        }
    }

    fn from_bytes(input: &[u8], pos: usize) -> (res: ReadResult<MethodParameters>) {
        let ghost decoded = Self::decode(input@, pos as int);
        let (table, pos) = read_table(input, pos, LenWidth::U8)?;
        assert(decoded is Ok);
        Ok((MethodParameters { table }, pos))
    }

    fn to_bytes(&self, out: &mut Vec<u8>) -> (res: WriteResult) {
        let ghost encoded = Self::encode(self@);
        let ghost over = Self::oversize(self@);
        write_table(&self.table, LenWidth::U8, out)?;
        assert(over is None);
        assert(out@ =~= old(out)@ + encoded);
        Ok(())
    }

    proof fn lemma_fits(m: MethodParametersView) {
        assert(Self::wf(m));
        lemma_table_fits::<MethodParameter>(LenWidth::U8, m.table);
        assert(Self::oversize(m) is None);
    }

    proof fn lemma_decode_encode(s: Seq<u8>, pos: int, m: MethodParametersView) {
        assert(Self::wf(m));
        let e1 = encode_table::<MethodParameter>(LenWidth::U8, m.table);
        lemma_table_decode_encode::<MethodParameter>(s, pos, LenWidth::U8, m.table);
        assert(Self::decode(s, pos) == decoded(m, pos + Self::encode(m).len()));
    }

    proof fn lemma_encode_decode(s: Seq<u8>, pos: int) {
        if let Ok((m, next)) = Self::decode(s, pos) {
            let p1 = end_of(decode_table::<MethodParameter>(s, pos, LenWidth::U8));
            lemma_table_encode_decode::<MethodParameter>(s, pos, LenWidth::U8);
            assert(Self::wf(m));
            assert(Self::encode(m) == s.subrange(pos, next));
        }
    }
}

impl Attribute for MethodParameters {
    open spec fn attribute_name() -> Seq<char> {
        "MethodParameters"@
    }

    open spec fn parse(info: Seq<u8>) -> Option<MethodParametersView> {
        parse_with::<MethodParameters>(info)
    }

    fn from_attributes(
        attributes: &Attributes,
        cp: &ConstantPool,
    ) -> (res: Option<MethodParameters>) {
        decode_named(attributes, cp, "MethodParameters")
    }
}

/// The `NestHost` attribute: the host of the nest to which a class belongs.
#[derive(Debug, Clone, PartialEq, Eq, Hash)]
pub struct NestHost {
    /// The host class.
    pub host_class_index: CPIndex<ClassInfo>,
}

impl View for NestHost {
    type V = NestHost;

    open spec fn view(&self) -> NestHost {
        *self
    }
}

impl Codec for NestHost {
    open spec fn wf(m: NestHost) -> bool {
        true
    }

    open spec fn oversize(m: NestHost) -> Option<nat> {
        None
    }

    open spec fn encode(m: NestHost) -> Seq<u8> {
        CPIndex::<ClassInfo>::encode(m.host_class_index)
    }

    open spec fn decode(s: Seq<u8>, pos: int) -> Decoded<NestHost> {
        match CPIndex::<ClassInfo>::decode(s, pos) {
            Err(e) => Err(e),
            Ok((host_class_index, p1)) => Ok((NestHost { host_class_index }, p1)),
        }
    }

    fn from_bytes(input: &[u8], pos: usize) -> (res: ReadResult<NestHost>) {
        let ghost decoded = Self::decode(input@, pos as int);
        let (host_class_index, pos) = CPIndex::<ClassInfo>::from_bytes(input, pos)?;
        assert(decoded is Ok);
        Ok((NestHost { host_class_index }, pos))
    }

    fn to_bytes(&self, out: &mut Vec<u8>) -> (res: WriteResult) {
        let ghost encoded = Self::encode(self@);
        let ghost over = Self::oversize(self@);
        self.host_class_index.to_bytes(out)?;
        assert(over is None);
        assert(out@ =~= old(out)@ + encoded);
        Ok(())
    }

    proof fn lemma_fits(m: NestHost) {
        assert(Self::oversize(m) is None);
    }

    proof fn lemma_decode_encode(s: Seq<u8>, pos: int, m: NestHost) {
        let e1 = CPIndex::<ClassInfo>::encode(m.host_class_index);
        CPIndex::<ClassInfo>::lemma_decode_encode(s, pos, m.host_class_index);
        assert(Self::decode(s, pos) == decoded(m, pos + Self::encode(m).len()));
    }

    proof fn lemma_encode_decode(s: Seq<u8>, pos: int) {
        if let Ok((m, next)) = Self::decode(s, pos) {
            let p1 = end_of(CPIndex::<ClassInfo>::decode(s, pos));
            CPIndex::<ClassInfo>::lemma_encode_decode(s, pos);
            assert(Self::wf(m));
            assert(Self::encode(m) == s.subrange(pos, next));
        }
    }
}

impl Attribute for NestHost {
    open spec fn attribute_name() -> Seq<char> {
        "NestHost"@
    }

    open spec fn parse(info: Seq<u8>) -> Option<NestHost> {
        parse_with::<NestHost>(info)
    }

    fn from_attributes(attributes: &Attributes, cp: &ConstantPool) -> (res: Option<NestHost>) {
        decode_named(attributes, cp, "NestHost")
    }
}

/// The `NestMembers` attribute: the classes of the nest that a class hosts.
#[derive(Debug, Clone, PartialEq, Eq, Hash)]
pub struct NestMembers {
    /// The members of the nest.
    pub classes: Vec<CPIndex<ClassInfo>>,
}

/// The model of a [`NestMembers`]: its fields as mathematical values.
pub struct NestMembersView {
    pub classes: Seq<CPIndex<ClassInfo>>,
}

impl View for NestMembers {
    type V = NestMembersView;

    open spec fn view(&self) -> NestMembersView {
        NestMembersView {
            classes: views(self.classes@),
        }
    }
}

impl Codec for NestMembers {
    open spec fn wf(m: NestMembersView) -> bool {
        wf_table::<CPIndex<ClassInfo>>(LenWidth::U16, m.classes)
    }

    open spec fn oversize(m: NestMembersView) -> Option<nat> {
        oversize_table::<CPIndex<ClassInfo>>(LenWidth::U16, m.classes)
    }

    open spec fn encode(m: NestMembersView) -> Seq<u8> {
        encode_table::<CPIndex<ClassInfo>>(LenWidth::U16, m.classes)
    }

    open spec fn decode(s: Seq<u8>, pos: int) -> Decoded<NestMembersView> {
        match decode_table::<CPIndex<ClassInfo>>(s, pos, LenWidth::U16) {
            Err(e) => Err(e),
            Ok((classes, p1)) => Ok((NestMembersView { classes }, p1)),
        }
    }

    fn from_bytes(input: &[u8], pos: usize) -> (res: ReadResult<NestMembers>) {
        let ghost decoded = Self::decode(input@, pos as int);
        let (classes, pos) = read_table(input, pos, LenWidth::U16)?;
        assert(decoded is Ok);
        Ok((NestMembers { classes }, pos))
    }

    fn to_bytes(&self, out: &mut Vec<u8>) -> (res: WriteResult) {
        let ghost encoded = Self::encode(self@);
        let ghost over = Self::oversize(self@);
        write_table(&self.classes, LenWidth::U16, out)?;
        assert(over is None);
        assert(out@ =~= old(out)@ + encoded);
        Ok(())
    }

    proof fn lemma_fits(m: NestMembersView) {
        assert(Self::wf(m));
        lemma_table_fits::<CPIndex<ClassInfo>>(LenWidth::U16, m.classes);
        assert(Self::oversize(m) is None);
    }

    proof fn lemma_decode_encode(s: Seq<u8>, pos: int, m: NestMembersView) {
        assert(Self::wf(m));
        let e1 = encode_table::<CPIndex<ClassInfo>>(LenWidth::U16, m.classes);
        lemma_table_decode_encode::<CPIndex<ClassInfo>>(s, pos, LenWidth::U16, m.classes);
        assert(Self::decode(s, pos) == decoded(m, pos + Self::encode(m).len()));
    }

    proof fn lemma_encode_decode(s: Seq<u8>, pos: int) {
        if let Ok((m, next)) = Self::decode(s, pos) {
            let p1 = end_of(decode_table::<CPIndex<ClassInfo>>(s, pos, LenWidth::U16));
            lemma_table_encode_decode::<CPIndex<ClassInfo>>(s, pos, LenWidth::U16);
            assert(Self::wf(m));
            assert(Self::encode(m) == s.subrange(pos, next));
        }
    }
}

impl Attribute for NestMembers {
    open spec fn attribute_name() -> Seq<char> {
        "NestMembers"@
    }

    open spec fn parse(info: Seq<u8>) -> Option<NestMembersView> {
        parse_with::<NestMembers>(info)
    }

    fn from_attributes(attributes: &Attributes, cp: &ConstantPool) -> (res: Option<NestMembers>) {
        decode_named(attributes, cp, "NestMembers")
    }
}

} // verus!
