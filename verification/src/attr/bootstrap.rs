//! The `BootstrapMethods` attribute: the methods that compute dynamic
//! constants and call sites, with their static arguments.
use crate::attr::{Attribute, decode_named, parse_with};
use crate::class::Attributes;
use crate::codec::{
    Codec, Decoded, LenWidth, decode_table, decoded, encode_table, end_of, lemma_holds_split,
    lemma_subrange_join, lemma_table_decode_encode, lemma_table_encode_decode, lemma_table_fits,
    oversize_table, read_table, views, wf_table, write_table,
};
use crate::error::{ReadResult, WriteResult};
use crate::ops::{
    CONSTANT_CLASS_TAG, CONSTANT_DOUBLE_TAG, CONSTANT_DYNAMIC_TAG, CONSTANT_FLOAT_TAG,
    CONSTANT_INTEGER_TAG, CONSTANT_LONG_TAG, CONSTANT_METHOD_HANDLE_TAG, CONSTANT_METHOD_TYPE_TAG,
    CONSTANT_STRING_TAG,
};
use crate::pool::{
    CPEntry, CPIndex, CPType, ClassInfo, ConstantPool, DoubleInfo, DynamicInfo, FloatInfo,
    IntegerInfo, LongInfo, MethodHandleInfo, MethodTypeInfo, StringInfo,
};
use vstd::prelude::*;

verus! {

/// A bootstrap method and its static arguments.
#[derive(Debug, Clone, PartialEq, Eq, Hash)]
pub struct BootstrapMethod {
    /// The handle of the method.
    pub bootstrap_method_ref: CPIndex<MethodHandleInfo>,
    /// The static arguments.
    pub bootstrap_arguments: Vec<CPIndex<LoadableConstant<'static>>>,
}

/// The model of a [`BootstrapMethod`]: its fields as mathematical values.
pub struct BootstrapMethodView {
    pub bootstrap_method_ref: CPIndex<MethodHandleInfo>,
    pub bootstrap_arguments: Seq<CPIndex<LoadableConstant<'static>>>,
}

impl View for BootstrapMethod {
    type V = BootstrapMethodView;

    open spec fn view(&self) -> BootstrapMethodView {
        BootstrapMethodView {
            bootstrap_method_ref: self.bootstrap_method_ref,
            bootstrap_arguments: views(self.bootstrap_arguments@),
        }
    }
}

impl Codec for BootstrapMethod {
    open spec fn wf(m: BootstrapMethodView) -> bool {
        wf_table::<CPIndex<LoadableConstant<'static>>>(LenWidth::U16, m.bootstrap_arguments)
    }

    open spec fn oversize(m: BootstrapMethodView) -> Option<nat> {
        oversize_table::<CPIndex<LoadableConstant<'static>>>(LenWidth::U16, m.bootstrap_arguments)
    }

    open spec fn encode(m: BootstrapMethodView) -> Seq<u8> {
        CPIndex::<MethodHandleInfo>::encode(m.bootstrap_method_ref)
            + encode_table::<CPIndex<LoadableConstant<'static>>>(
                LenWidth::U16,
                m.bootstrap_arguments,
            )
    }

    open spec fn decode(s: Seq<u8>, pos: int) -> Decoded<BootstrapMethodView> {
        match CPIndex::<MethodHandleInfo>::decode(s, pos) {
            Err(e) => Err(e),
            Ok(
                (bootstrap_method_ref, p1),
            ) => match decode_table::<CPIndex<LoadableConstant<'static>>>(
                s,
                p1,
                LenWidth::U16,
            ) {
                Err(e) => Err(e),
                Ok((bootstrap_arguments, p2)) => Ok(
                    (BootstrapMethodView { bootstrap_method_ref, bootstrap_arguments }, p2),
                ),
            },
        }
    }

    fn from_bytes(input: &[u8], pos: usize) -> (res: ReadResult<BootstrapMethod>) {
        let ghost decoded = Self::decode(input@, pos as int);
        let (bootstrap_method_ref, pos) = CPIndex::<MethodHandleInfo>::from_bytes(input, pos)?;
        let (bootstrap_arguments, pos) = read_table(input, pos, LenWidth::U16)?;
        assert(decoded is Ok);
        Ok((BootstrapMethod { bootstrap_method_ref, bootstrap_arguments }, pos))
    }

    fn to_bytes(&self, out: &mut Vec<u8>) -> (res: WriteResult) {
        let ghost encoded = Self::encode(self@);
        let ghost over = Self::oversize(self@);
        self.bootstrap_method_ref.to_bytes(out)?;
        write_table(&self.bootstrap_arguments, LenWidth::U16, out)?;
        assert(over is None);
        assert(out@ =~= old(out)@ + encoded);
        Ok(())
    }

    proof fn lemma_fits(m: BootstrapMethodView) {
        assert(Self::wf(m));
        lemma_table_fits::<CPIndex<LoadableConstant<'static>>>(
            LenWidth::U16,
            m.bootstrap_arguments,
        );
        assert(Self::oversize(m) is None);
    }

    proof fn lemma_decode_encode(s: Seq<u8>, pos: int, m: BootstrapMethodView) {
        assert(Self::wf(m));
        let e1 = CPIndex::<MethodHandleInfo>::encode(m.bootstrap_method_ref);
        let e2 = encode_table::<CPIndex<LoadableConstant<'static>>>(
            LenWidth::U16,
            m.bootstrap_arguments,
        );
        lemma_holds_split(s, pos, e1, e2);
        CPIndex::<MethodHandleInfo>::lemma_decode_encode(s, pos, m.bootstrap_method_ref);
        let p1 = pos + e1.len();
        lemma_table_decode_encode::<CPIndex<LoadableConstant<'static>>>(
            s,
            p1,
            LenWidth::U16,
            m.bootstrap_arguments,
        );
        assert(Self::decode(s, pos) == decoded(m, pos + Self::encode(m).len()));
    }

    proof fn lemma_encode_decode(s: Seq<u8>, pos: int) {
        if let Ok((m, next)) = Self::decode(s, pos) {
            let p1 = end_of(CPIndex::<MethodHandleInfo>::decode(s, pos));
            CPIndex::<MethodHandleInfo>::lemma_encode_decode(s, pos);
            let p2 = end_of(
                decode_table::<CPIndex<LoadableConstant<'static>>>(s, p1, LenWidth::U16),
            );
            lemma_table_encode_decode::<CPIndex<LoadableConstant<'static>>>(s, p1, LenWidth::U16);
            lemma_subrange_join(s, pos, p1, p2);
            assert(Self::wf(m));
            assert(Self::encode(m) == s.subrange(pos, next));
        }
    }
}

/// The `BootstrapMethods` attribute of a class.
#[derive(Debug, Clone, PartialEq, Eq, Hash)]
pub struct BootstrapMethods {
    /// The bootstrap methods.
    pub table: Vec<BootstrapMethod>,
}

/// The model of a [`BootstrapMethods`]: its fields as mathematical values.
pub struct BootstrapMethodsView {
    pub table: Seq<BootstrapMethodView>,
}

impl View for BootstrapMethods {
    type V = BootstrapMethodsView;

    open spec fn view(&self) -> BootstrapMethodsView {
        BootstrapMethodsView {
            table: views(self.table@),
        }
    }
}

impl Codec for BootstrapMethods {
    open spec fn wf(m: BootstrapMethodsView) -> bool {
        wf_table::<BootstrapMethod>(LenWidth::U16, m.table)
    }

    open spec fn oversize(m: BootstrapMethodsView) -> Option<nat> {
        oversize_table::<BootstrapMethod>(LenWidth::U16, m.table)
    }

    open spec fn encode(m: BootstrapMethodsView) -> Seq<u8> {
        encode_table::<BootstrapMethod>(LenWidth::U16, m.table)
    }

    open spec fn decode(s: Seq<u8>, pos: int) -> Decoded<BootstrapMethodsView> {
        match decode_table::<BootstrapMethod>(s, pos, LenWidth::U16) {
            Err(e) => Err(e),
            Ok((table, p1)) => Ok((BootstrapMethodsView { table }, p1)),
        }
    }

    fn from_bytes(input: &[u8], pos: usize) -> (res: ReadResult<BootstrapMethods>) {
        let ghost decoded = Self::decode(input@, pos as int);
        let (table, pos) = read_table(input, pos, LenWidth::U16)?;
        assert(decoded is Ok);
        Ok((BootstrapMethods { table }, pos))
    }

    fn to_bytes(&self, out: &mut Vec<u8>) -> (res: WriteResult) {
        let ghost encoded = Self::encode(self@);
        let ghost over = Self::oversize(self@);
        write_table(&self.table, LenWidth::U16, out)?;
        assert(over is None);
        assert(out@ =~= old(out)@ + encoded);
        Ok(())
    }

    proof fn lemma_fits(m: BootstrapMethodsView) {
        assert(Self::wf(m));
        lemma_table_fits::<BootstrapMethod>(LenWidth::U16, m.table);
        assert(Self::oversize(m) is None);
    }

    proof fn lemma_decode_encode(s: Seq<u8>, pos: int, m: BootstrapMethodsView) {
        assert(Self::wf(m));
        let e1 = encode_table::<BootstrapMethod>(LenWidth::U16, m.table);
        lemma_table_decode_encode::<BootstrapMethod>(s, pos, LenWidth::U16, m.table);
        assert(Self::decode(s, pos) == decoded(m, pos + Self::encode(m).len()));
    }

    proof fn lemma_encode_decode(s: Seq<u8>, pos: int) {
        if let Ok((m, next)) = Self::decode(s, pos) {
            let p1 = end_of(decode_table::<BootstrapMethod>(s, pos, LenWidth::U16));
            lemma_table_encode_decode::<BootstrapMethod>(s, pos, LenWidth::U16);
            assert(Self::wf(m));
            assert(Self::encode(m) == s.subrange(pos, next));
        }
    }
}

impl Attribute for BootstrapMethods {
    open spec fn attribute_name() -> Seq<char> {
        "BootstrapMethods"@
    }

    open spec fn parse(info: Seq<u8>) -> Option<BootstrapMethodsView> {
        parse_with::<BootstrapMethods>(info)
    }

    fn from_attributes(
        attributes: &Attributes,
        cp: &ConstantPool,
    ) -> (res: Option<BootstrapMethods>) {
        decode_named(attributes, cp, "BootstrapMethods")
    }
}

/// The entries that can be pushed onto the operand stack, and so can serve
/// as the static arguments of a bootstrap method.
#[derive(Debug, Clone, PartialEq, Eq, Hash)]
pub enum LoadableConstant<'a> {
    Integer(&'a IntegerInfo),
    Float(&'a FloatInfo),
    Long(&'a LongInfo),
    Double(&'a DoubleInfo),
    Class(&'a ClassInfo),
    String(&'a StringInfo),
    MethodHandle(&'a MethodHandleInfo),
    MethodType(&'a MethodTypeInfo),
    Dynamic(&'a DynamicInfo),
}

impl<'a, 'b> CPType<'a> for LoadableConstant<'b> {
    type Output = LoadableConstant<'a>;

    open spec fn admits(tag: u8) -> bool {
        ||| tag == CONSTANT_INTEGER_TAG
        ||| tag == CONSTANT_FLOAT_TAG
        ||| tag == CONSTANT_LONG_TAG
        ||| tag == CONSTANT_DOUBLE_TAG
        ||| tag == CONSTANT_CLASS_TAG
        ||| tag == CONSTANT_STRING_TAG
        ||| tag == CONSTANT_METHOD_HANDLE_TAG
        ||| tag == CONSTANT_METHOD_TYPE_TAG
        ||| tag == CONSTANT_DYNAMIC_TAG
    }

    open spec fn spec_fetch(entry: &'a CPEntry) -> Option<LoadableConstant<'a>> {
        match entry {
            CPEntry::Integer(info) => Some(LoadableConstant::Integer(info)),
            CPEntry::Float(info) => Some(LoadableConstant::Float(info)),
            CPEntry::Long(info) => Some(LoadableConstant::Long(info)),
            CPEntry::Double(info) => Some(LoadableConstant::Double(info)),
            CPEntry::Class(info) => Some(LoadableConstant::Class(info)),
            CPEntry::String(info) => Some(LoadableConstant::String(info)),
            CPEntry::MethodHandle(info) => Some(LoadableConstant::MethodHandle(info)),
            CPEntry::MethodType(info) => Some(LoadableConstant::MethodType(info)),
            CPEntry::Dynamic(info) => Some(LoadableConstant::Dynamic(info)),
            _ => None,
        }
    }

    fn fetch(entry: &'a CPEntry) -> (res: Option<LoadableConstant<'a>>) {
        match entry {
            CPEntry::Integer(info) => Some(LoadableConstant::Integer(info)),
            CPEntry::Float(info) => Some(LoadableConstant::Float(info)),
            CPEntry::Long(info) => Some(LoadableConstant::Long(info)),
            CPEntry::Double(info) => Some(LoadableConstant::Double(info)),
            CPEntry::Class(info) => Some(LoadableConstant::Class(info)),
            CPEntry::String(info) => Some(LoadableConstant::String(info)),
            CPEntry::MethodHandle(info) => Some(LoadableConstant::MethodHandle(info)),
            CPEntry::MethodType(info) => Some(LoadableConstant::MethodType(info)),
            CPEntry::Dynamic(info) => Some(LoadableConstant::Dynamic(info)),
            _ => None,
        }
    }

    proof fn lemma_fetch_admits(entry: &'a CPEntry) {
        assert(Self::spec_fetch(entry) is Some <==> Self::admits(entry.spec_tag()));
    }
}

} // verus!
