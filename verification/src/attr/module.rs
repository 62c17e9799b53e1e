//! The attributes of a module declaration.
use crate::attr::{Attribute, decode_named, parse_with};
use crate::class::Attributes;
use crate::codec::{
    Codec, Decoded, LenWidth, after, decode_table, decoded, encode_table, end_of, first_of,
    lemma_holds_split, lemma_subrange_join, lemma_table_decode_encode, lemma_table_encode_decode,
    lemma_table_fits, oversize_table, read_table, value_of, views, wf_table, write_table,
};
use crate::error::{ReadResult, WriteResult};
use crate::pool::{CPIndex, ClassInfo, ConstantPool, ModuleInfo, PackageInfo, UTF8Info};
use vstd::prelude::*;

verus! {

/// A module on which the module depends.
#[derive(Debug, Clone, PartialEq, Eq, Hash)]
pub struct Requires {
    /// The module that is required.
    pub requires_index: CPIndex<ModuleInfo>,
    /// The flags of the dependence.
    pub requires_flags: u16,
    /// The version of the required module; none where it is not recorded.
    pub requires_version_index: Option<CPIndex<UTF8Info>>,
}

impl View for Requires {
    type V = Requires;

    open spec fn view(&self) -> Requires {
        *self
    }
}

impl Codec for Requires {
    open spec fn wf(m: Requires) -> bool {
        CPIndex::<UTF8Info>::wf_non_zero(m.requires_version_index)
    }

    open spec fn oversize(m: Requires) -> Option<nat> {
        None
    }

    open spec fn encode(m: Requires) -> Seq<u8> {
        CPIndex::<ModuleInfo>::encode(m.requires_index)
            + u16::encode(m.requires_flags)
            + CPIndex::<UTF8Info>::encode_non_zero(m.requires_version_index)
    }

    open spec fn decode(s: Seq<u8>, pos: int) -> Decoded<Requires> {
        let requires_index = CPIndex::<ModuleInfo>::decode(s, pos);
        let requires_flags = after(requires_index, u16::decode(s, end_of(requires_index)));
        let requires_version_index = after(
            requires_flags,
            CPIndex::<UTF8Info>::decode_non_zero(s, end_of(requires_flags)),
        );
        match requires_version_index {
            Err(e) => Err(e),
            Ok((_, end)) => Ok(
                (
                    Requires {
                        requires_index: value_of(requires_index),
                        requires_flags: value_of(requires_flags),
                        requires_version_index: value_of(requires_version_index),
                    },
                    end,
                ),
            ),
        }
    }

    fn from_bytes(input: &[u8], pos: usize) -> (res: ReadResult<Requires>) {
        let ghost decoded = Self::decode(input@, pos as int);
        let (requires_index, pos) = CPIndex::<ModuleInfo>::from_bytes(input, pos)?;
        let (requires_flags, pos) = u16::from_bytes(input, pos)?;
        let (requires_version_index, pos) = CPIndex::read_non_zero(input, pos)?;
        assert(decoded is Ok);
        Ok((Requires { requires_index, requires_flags, requires_version_index }, pos))
    }

    fn to_bytes(&self, out: &mut Vec<u8>) -> (res: WriteResult) {
        let ghost encoded = Self::encode(self@);
        let ghost over = Self::oversize(self@);
        self.requires_index.to_bytes(out)?;
        self.requires_flags.to_bytes(out)?;
        assert(out@ =~= old(out)@ + (
            CPIndex::<ModuleInfo>::encode(self@.requires_index)
            + u16::encode(self@.requires_flags)
        ));
        CPIndex::write_non_zero(&self.requires_version_index, out)?;
        assert(over is None);
        assert(out@ =~= old(out)@ + encoded);
        Ok(())
    }

    proof fn lemma_fits(m: Requires) {
        assert(Self::wf(m));
        assert(Self::oversize(m) is None);
    }

    proof fn lemma_decode_encode(s: Seq<u8>, pos: int, m: Requires) {
        assert(Self::wf(m));
        let e1 = CPIndex::<ModuleInfo>::encode(m.requires_index);
        let e2 = u16::encode(m.requires_flags);
        let e3 = CPIndex::<UTF8Info>::encode_non_zero(m.requires_version_index);
        lemma_holds_split(s, pos, e1 + e2, e3);
        lemma_holds_split(s, pos, e1, e2);
        CPIndex::<ModuleInfo>::lemma_decode_encode(s, pos, m.requires_index);
        let p1 = pos + e1.len();
        u16::lemma_decode_encode(s, p1, m.requires_flags);
        let p2 = p1 + e2.len();
        CPIndex::<UTF8Info>::lemma_non_zero_decode_encode(s, p2, m.requires_version_index);
        assert(Self::decode(s, pos) == decoded(m, pos + Self::encode(m).len()));
    }

    proof fn lemma_encode_decode(s: Seq<u8>, pos: int) {
        if let Ok((m, next)) = Self::decode(s, pos) {
            let p1 = end_of(CPIndex::<ModuleInfo>::decode(s, pos));
            CPIndex::<ModuleInfo>::lemma_encode_decode(s, pos);
            let p2 = end_of(u16::decode(s, p1));
            u16::lemma_encode_decode(s, p1);
            lemma_subrange_join(s, pos, p1, p2);
            let p3 = end_of(CPIndex::<UTF8Info>::decode_non_zero(s, p2));
            CPIndex::<UTF8Info>::lemma_non_zero_encode_decode(s, p2);
            lemma_subrange_join(s, pos, p2, p3);
            assert(Self::wf(m));
            assert(Self::encode(m) == s.subrange(pos, next));
        }
    }
}

/// A package that the module exports.
#[derive(Debug, Clone, PartialEq, Eq, Hash)]
pub struct Exports {
    /// The package that is exported.
    pub exports_index: CPIndex<PackageInfo>,
    /// The flags of the export.
    pub exports_flags: u16,
    /// The modules to which the package is exported; empty where it is exported
    /// to all.
    pub exports_to: Vec<CPIndex<ModuleInfo>>,
}

/// The model of an [`Exports`]: its fields as mathematical values.
pub struct ExportsView {
    pub exports_index: CPIndex<PackageInfo>,
    pub exports_flags: u16,
    pub exports_to: Seq<CPIndex<ModuleInfo>>,
}

impl View for Exports {
    type V = ExportsView;

    open spec fn view(&self) -> ExportsView {
        ExportsView {
            exports_index: self.exports_index,
            exports_flags: self.exports_flags,
            exports_to: views(self.exports_to@),
        }
    }
}

impl Codec for Exports {
    open spec fn wf(m: ExportsView) -> bool {
        wf_table::<CPIndex<ModuleInfo>>(LenWidth::U16, m.exports_to)
    }

    open spec fn oversize(m: ExportsView) -> Option<nat> {
        oversize_table::<CPIndex<ModuleInfo>>(LenWidth::U16, m.exports_to)
    }

    open spec fn encode(m: ExportsView) -> Seq<u8> {
        CPIndex::<PackageInfo>::encode(m.exports_index)
            + u16::encode(m.exports_flags)
            + encode_table::<CPIndex<ModuleInfo>>(LenWidth::U16, m.exports_to)
    }

    open spec fn decode(s: Seq<u8>, pos: int) -> Decoded<ExportsView> {
        let exports_index = CPIndex::<PackageInfo>::decode(s, pos);
        let exports_flags = after(exports_index, u16::decode(s, end_of(exports_index)));
        let exports_to = after(
            exports_flags,
            decode_table::<CPIndex<ModuleInfo>>(s, end_of(exports_flags), LenWidth::U16),
        );
        match exports_to {
            Err(e) => Err(e),
            Ok((_, end)) => Ok(
                (
                    ExportsView {
                        exports_index: value_of(exports_index),
                        exports_flags: value_of(exports_flags),
                        exports_to: value_of(exports_to),
                    },
                    end,
                ),
            ),
        }
    }

    fn from_bytes(input: &[u8], pos: usize) -> (res: ReadResult<Exports>) {
        let ghost decoded = Self::decode(input@, pos as int);
        let (exports_index, pos) = CPIndex::<PackageInfo>::from_bytes(input, pos)?;
        let (exports_flags, pos) = u16::from_bytes(input, pos)?;
        let (exports_to, pos) = read_table(input, pos, LenWidth::U16)?;
        assert(decoded is Ok);
        Ok((Exports { exports_index, exports_flags, exports_to }, pos))
    }

    fn to_bytes(&self, out: &mut Vec<u8>) -> (res: WriteResult) {
        let ghost encoded = Self::encode(self@);
        let ghost over = Self::oversize(self@);
        self.exports_index.to_bytes(out)?;
        self.exports_flags.to_bytes(out)?;
        assert(out@ =~= old(out)@ + (
            CPIndex::<PackageInfo>::encode(self@.exports_index)
            + u16::encode(self@.exports_flags)
        ));
        write_table(&self.exports_to, LenWidth::U16, out)?;
        assert(over is None);
        assert(out@ =~= old(out)@ + encoded);
        Ok(())
    }

    proof fn lemma_fits(m: ExportsView) {
        assert(Self::wf(m));
        lemma_table_fits::<CPIndex<ModuleInfo>>(LenWidth::U16, m.exports_to);
        assert(Self::oversize(m) is None);
    }

    proof fn lemma_decode_encode(s: Seq<u8>, pos: int, m: ExportsView) {
        assert(Self::wf(m));
        let e1 = CPIndex::<PackageInfo>::encode(m.exports_index);
        let e2 = u16::encode(m.exports_flags);
        let e3 = encode_table::<CPIndex<ModuleInfo>>(LenWidth::U16, m.exports_to);
        lemma_holds_split(s, pos, e1 + e2, e3);
        lemma_holds_split(s, pos, e1, e2);
        CPIndex::<PackageInfo>::lemma_decode_encode(s, pos, m.exports_index);
        let p1 = pos + e1.len();
        u16::lemma_decode_encode(s, p1, m.exports_flags);
        let p2 = p1 + e2.len();
        lemma_table_decode_encode::<CPIndex<ModuleInfo>>(s, p2, LenWidth::U16, m.exports_to);
        assert(Self::decode(s, pos) == decoded(m, pos + Self::encode(m).len()));
    }

    proof fn lemma_encode_decode(s: Seq<u8>, pos: int) {
        if let Ok((m, next)) = Self::decode(s, pos) {
            let p1 = end_of(CPIndex::<PackageInfo>::decode(s, pos));
            CPIndex::<PackageInfo>::lemma_encode_decode(s, pos);
            let p2 = end_of(u16::decode(s, p1));
            u16::lemma_encode_decode(s, p1);
            lemma_subrange_join(s, pos, p1, p2);
            let p3 = end_of(decode_table::<CPIndex<ModuleInfo>>(s, p2, LenWidth::U16));
            lemma_table_encode_decode::<CPIndex<ModuleInfo>>(s, p2, LenWidth::U16);
            lemma_subrange_join(s, pos, p2, p3);
            assert(Self::wf(m));
            assert(Self::encode(m) == s.subrange(pos, next));
        }
    }
}

/// A package that the module opens.
#[derive(Debug, Clone, PartialEq, Eq, Hash)]
pub struct Opens {
    /// The package that is opened.
    pub opens_index: CPIndex<PackageInfo>,
    /// The flags of the opening.
    pub opens_flags: u16,
    /// The modules to which the package is opened; empty where it is opened to
    /// all.
    pub opens_to: Vec<CPIndex<ModuleInfo>>,
}

/// The model of an [`Opens`]: its fields as mathematical values.
pub struct OpensView {
    pub opens_index: CPIndex<PackageInfo>,
    pub opens_flags: u16,
    pub opens_to: Seq<CPIndex<ModuleInfo>>,
}

impl View for Opens {
    type V = OpensView;

    open spec fn view(&self) -> OpensView {
        OpensView {
            opens_index: self.opens_index,
            opens_flags: self.opens_flags,
            opens_to: views(self.opens_to@),
        }
    }
}

impl Codec for Opens {
    open spec fn wf(m: OpensView) -> bool {
        wf_table::<CPIndex<ModuleInfo>>(LenWidth::U16, m.opens_to)
    }

    open spec fn oversize(m: OpensView) -> Option<nat> {
        oversize_table::<CPIndex<ModuleInfo>>(LenWidth::U16, m.opens_to)
    }

    open spec fn encode(m: OpensView) -> Seq<u8> {
        CPIndex::<PackageInfo>::encode(m.opens_index)
            + u16::encode(m.opens_flags)
            + encode_table::<CPIndex<ModuleInfo>>(LenWidth::U16, m.opens_to)
    }

    open spec fn decode(s: Seq<u8>, pos: int) -> Decoded<OpensView> {
        let opens_index = CPIndex::<PackageInfo>::decode(s, pos);
        let opens_flags = after(opens_index, u16::decode(s, end_of(opens_index)));
        let opens_to = after(
            opens_flags,
            decode_table::<CPIndex<ModuleInfo>>(s, end_of(opens_flags), LenWidth::U16),
        );
        match opens_to {
            Err(e) => Err(e),
            Ok((_, end)) => Ok(
                (
                    OpensView {
                        opens_index: value_of(opens_index),
                        opens_flags: value_of(opens_flags),
                        opens_to: value_of(opens_to),
                    },
                    end,
                ),
            ),
        }
    }

    fn from_bytes(input: &[u8], pos: usize) -> (res: ReadResult<Opens>) {
        let ghost decoded = Self::decode(input@, pos as int);
        let (opens_index, pos) = CPIndex::<PackageInfo>::from_bytes(input, pos)?;
        let (opens_flags, pos) = u16::from_bytes(input, pos)?;
        let (opens_to, pos) = read_table(input, pos, LenWidth::U16)?;
        assert(decoded is Ok);
        Ok((Opens { opens_index, opens_flags, opens_to }, pos))
    }

    fn to_bytes(&self, out: &mut Vec<u8>) -> (res: WriteResult) {
        let ghost encoded = Self::encode(self@);
        let ghost over = Self::oversize(self@);
        self.opens_index.to_bytes(out)?;
        self.opens_flags.to_bytes(out)?;
        assert(out@ =~= old(out)@ + (
            CPIndex::<PackageInfo>::encode(self@.opens_index)
            + u16::encode(self@.opens_flags)
        ));
        write_table(&self.opens_to, LenWidth::U16, out)?;
        assert(over is None);
        assert(out@ =~= old(out)@ + encoded);
        Ok(())
    }

    proof fn lemma_fits(m: OpensView) {
        assert(Self::wf(m));
        lemma_table_fits::<CPIndex<ModuleInfo>>(LenWidth::U16, m.opens_to);
        assert(Self::oversize(m) is None);
    }

    proof fn lemma_decode_encode(s: Seq<u8>, pos: int, m: OpensView) {
        assert(Self::wf(m));
        let e1 = CPIndex::<PackageInfo>::encode(m.opens_index);
        let e2 = u16::encode(m.opens_flags);
        let e3 = encode_table::<CPIndex<ModuleInfo>>(LenWidth::U16, m.opens_to);
        lemma_holds_split(s, pos, e1 + e2, e3);
        lemma_holds_split(s, pos, e1, e2);
        CPIndex::<PackageInfo>::lemma_decode_encode(s, pos, m.opens_index);
        let p1 = pos + e1.len();
        u16::lemma_decode_encode(s, p1, m.opens_flags);
        let p2 = p1 + e2.len();
        lemma_table_decode_encode::<CPIndex<ModuleInfo>>(s, p2, LenWidth::U16, m.opens_to);
        assert(Self::decode(s, pos) == decoded(m, pos + Self::encode(m).len()));
    }

    proof fn lemma_encode_decode(s: Seq<u8>, pos: int) {
        if let Ok((m, next)) = Self::decode(s, pos) {
            let p1 = end_of(CPIndex::<PackageInfo>::decode(s, pos));
            CPIndex::<PackageInfo>::lemma_encode_decode(s, pos);
            let p2 = end_of(u16::decode(s, p1));
            u16::lemma_encode_decode(s, p1);
            lemma_subrange_join(s, pos, p1, p2);
            let p3 = end_of(decode_table::<CPIndex<ModuleInfo>>(s, p2, LenWidth::U16));
            lemma_table_encode_decode::<CPIndex<ModuleInfo>>(s, p2, LenWidth::U16);
            lemma_subrange_join(s, pos, p2, p3);
            assert(Self::wf(m));
            assert(Self::encode(m) == s.subrange(pos, next));
        }
    }
}

/// A service that the module provides.
#[derive(Debug, Clone, PartialEq, Eq, Hash)]
pub struct Provides {
    /// The service interface.
    pub provides: CPIndex<ClassInfo>,
    /// The classes that implement the service.
    pub provides_with: Vec<CPIndex<ClassInfo>>,
}

/// The model of a [`Provides`]: its fields as mathematical values.
pub struct ProvidesView {
    pub provides: CPIndex<ClassInfo>,
    pub provides_with: Seq<CPIndex<ClassInfo>>,
}

impl View for Provides {
    type V = ProvidesView;

    open spec fn view(&self) -> ProvidesView {
        ProvidesView {
            provides: self.provides,
            provides_with: views(self.provides_with@),
        }
    }
}

impl Codec for Provides {
    open spec fn wf(m: ProvidesView) -> bool {
        wf_table::<CPIndex<ClassInfo>>(LenWidth::U16, m.provides_with)
    }

    open spec fn oversize(m: ProvidesView) -> Option<nat> {
        oversize_table::<CPIndex<ClassInfo>>(LenWidth::U16, m.provides_with)
    }

    open spec fn encode(m: ProvidesView) -> Seq<u8> {
        CPIndex::<ClassInfo>::encode(m.provides)
            + encode_table::<CPIndex<ClassInfo>>(LenWidth::U16, m.provides_with)
    }

    open spec fn decode(s: Seq<u8>, pos: int) -> Decoded<ProvidesView> {
        match CPIndex::<ClassInfo>::decode(s, pos) {
            Err(e) => Err(e),
            Ok((provides, p1)) => match decode_table::<CPIndex<ClassInfo>>(s, p1, LenWidth::U16) {
                Err(e) => Err(e),
                Ok((provides_with, p2)) => Ok((ProvidesView { provides, provides_with }, p2)),
            },
        }
    }

    fn from_bytes(input: &[u8], pos: usize) -> (res: ReadResult<Provides>) {
        let ghost decoded = Self::decode(input@, pos as int);
        let (provides, pos) = CPIndex::<ClassInfo>::from_bytes(input, pos)?;
        let (provides_with, pos) = read_table(input, pos, LenWidth::U16)?;
        assert(decoded is Ok);
        Ok((Provides { provides, provides_with }, pos))
    }

    fn to_bytes(&self, out: &mut Vec<u8>) -> (res: WriteResult) {
        let ghost encoded = Self::encode(self@);
        let ghost over = Self::oversize(self@);
        self.provides.to_bytes(out)?;
        write_table(&self.provides_with, LenWidth::U16, out)?;
        assert(over is None);
        assert(out@ =~= old(out)@ + encoded);
        Ok(())
    }

    proof fn lemma_fits(m: ProvidesView) {
        assert(Self::wf(m));
        lemma_table_fits::<CPIndex<ClassInfo>>(LenWidth::U16, m.provides_with);
        assert(Self::oversize(m) is None);
    }

    proof fn lemma_decode_encode(s: Seq<u8>, pos: int, m: ProvidesView) {
        assert(Self::wf(m));
        let e1 = CPIndex::<ClassInfo>::encode(m.provides);
        let e2 = encode_table::<CPIndex<ClassInfo>>(LenWidth::U16, m.provides_with);
        lemma_holds_split(s, pos, e1, e2);
        CPIndex::<ClassInfo>::lemma_decode_encode(s, pos, m.provides);
        let p1 = pos + e1.len();
        lemma_table_decode_encode::<CPIndex<ClassInfo>>(s, p1, LenWidth::U16, m.provides_with);
        assert(Self::decode(s, pos) == decoded(m, pos + Self::encode(m).len()));
    }

    proof fn lemma_encode_decode(s: Seq<u8>, pos: int) {
        if let Ok((m, next)) = Self::decode(s, pos) {
            let p1 = end_of(CPIndex::<ClassInfo>::decode(s, pos));
            CPIndex::<ClassInfo>::lemma_encode_decode(s, pos);
            let p2 = end_of(decode_table::<CPIndex<ClassInfo>>(s, p1, LenWidth::U16));
            lemma_table_encode_decode::<CPIndex<ClassInfo>>(s, p1, LenWidth::U16);
            lemma_subrange_join(s, pos, p1, p2);
            assert(Self::wf(m));
            assert(Self::encode(m) == s.subrange(pos, next));
        }
    }
}

/// The `Module` attribute: the declaration of a module.
#[derive(Debug, Clone, PartialEq, Eq, Hash)]
pub struct Module {
    /// The module.
    pub module_name_index: CPIndex<ModuleInfo>,
    /// The flags of the module.
    pub module_flags: u16,
    /// The version of the module; none where it is not recorded.
    pub module_version_index: Option<CPIndex<UTF8Info>>,
    /// The modules on which the module depends.
    pub required: Vec<Requires>,
    /// The packages that the module exports.
    pub exports: Vec<Exports>,
    /// The packages that the module opens.
    pub opens: Vec<Opens>,
    /// The services that the module uses.
    pub uses: Vec<CPIndex<ClassInfo>>,
    /// The services that the module provides.
    pub provides: Vec<Provides>,
}

/// The model of a [`Module`]: its fields as mathematical values.
pub struct ModuleView {
    pub module_name_index: CPIndex<ModuleInfo>,
    pub module_flags: u16,
    pub module_version_index: Option<CPIndex<UTF8Info>>,
    pub required: Seq<Requires>,
    pub exports: Seq<ExportsView>,
    pub opens: Seq<OpensView>,
    pub uses: Seq<CPIndex<ClassInfo>>,
    pub provides: Seq<ProvidesView>,
}

impl View for Module {
    type V = ModuleView;

    open spec fn view(&self) -> ModuleView {
        ModuleView {
            module_name_index: self.module_name_index,
            module_flags: self.module_flags,
            module_version_index: self.module_version_index,
            required: views(self.required@),
            exports: views(self.exports@),
            opens: views(self.opens@),
            uses: views(self.uses@),
            provides: views(self.provides@),
        }
    }
}

impl Codec for Module {
    open spec fn wf(m: ModuleView) -> bool {
        &&& CPIndex::<UTF8Info>::wf_non_zero(m.module_version_index)
        &&& wf_table::<Requires>(LenWidth::U16, m.required)
        &&& wf_table::<Exports>(LenWidth::U16, m.exports)
        &&& wf_table::<Opens>(LenWidth::U16, m.opens)
        &&& wf_table::<CPIndex<ClassInfo>>(LenWidth::U16, m.uses)
        &&& wf_table::<Provides>(LenWidth::U16, m.provides)
    }

    open spec fn oversize(m: ModuleView) -> Option<nat> {
        first_of(
            oversize_table::<Requires>(LenWidth::U16, m.required),
            first_of(
                oversize_table::<Exports>(LenWidth::U16, m.exports),
                first_of(
                    oversize_table::<Opens>(LenWidth::U16, m.opens),
                    first_of(
                        oversize_table::<CPIndex<ClassInfo>>(LenWidth::U16, m.uses),
                        oversize_table::<Provides>(LenWidth::U16, m.provides),
                    ),
                ),
            ),
        )
    }

    open spec fn encode(m: ModuleView) -> Seq<u8> {
        CPIndex::<ModuleInfo>::encode(m.module_name_index)
            + u16::encode(m.module_flags)
            + CPIndex::<UTF8Info>::encode_non_zero(m.module_version_index)
            + encode_table::<Requires>(LenWidth::U16, m.required)
            + encode_table::<Exports>(LenWidth::U16, m.exports)
            + encode_table::<Opens>(LenWidth::U16, m.opens)
            + encode_table::<CPIndex<ClassInfo>>(LenWidth::U16, m.uses)
            + encode_table::<Provides>(LenWidth::U16, m.provides)
    }

    open spec fn decode(s: Seq<u8>, pos: int) -> Decoded<ModuleView> {
        let module_name_index = CPIndex::<ModuleInfo>::decode(s, pos);
        let module_flags = after(module_name_index, u16::decode(s, end_of(module_name_index)));
        let module_version_index = after(
            module_flags,
            CPIndex::<UTF8Info>::decode_non_zero(s, end_of(module_flags)),
        );
        let required = after(
            module_version_index,
            decode_table::<Requires>(s, end_of(module_version_index), LenWidth::U16),
        );
        let exports = after(required, decode_table::<Exports>(s, end_of(required), LenWidth::U16));
        let opens = after(exports, decode_table::<Opens>(s, end_of(exports), LenWidth::U16));
        let uses = after(
            opens,
            decode_table::<CPIndex<ClassInfo>>(s, end_of(opens), LenWidth::U16),
        );
        let provides = after(uses, decode_table::<Provides>(s, end_of(uses), LenWidth::U16));
        match provides {
            Err(e) => Err(e),
            Ok((_, end)) => Ok(
                (
                    ModuleView {
                        module_name_index: value_of(module_name_index),
                        module_flags: value_of(module_flags),
                        module_version_index: value_of(module_version_index),
                        required: value_of(required),
                        exports: value_of(exports),
                        opens: value_of(opens),
                        uses: value_of(uses),
                        provides: value_of(provides),
                    },
                    end,
                ),
            ),
        }
    }

    fn from_bytes(input: &[u8], pos: usize) -> (res: ReadResult<Module>) {
        let ghost decoded = Self::decode(input@, pos as int);
        let (module_name_index, pos) = CPIndex::<ModuleInfo>::from_bytes(input, pos)?;
        let (module_flags, pos) = u16::from_bytes(input, pos)?;
        let (module_version_index, pos) = CPIndex::read_non_zero(input, pos)?;
        let (required, pos) = read_table(input, pos, LenWidth::U16)?;
        let (exports, pos) = read_table(input, pos, LenWidth::U16)?;
        let (opens, pos) = read_table(input, pos, LenWidth::U16)?;
        let (uses, pos) = read_table(input, pos, LenWidth::U16)?;
        let (provides, pos) = read_table(input, pos, LenWidth::U16)?;
        assert(decoded is Ok);
        Ok((
            Module {
                module_name_index,
                module_flags,
                module_version_index,
                required,
                exports,
                opens,
                uses,
                provides,
            },
            pos,
        ))
    }

    fn to_bytes(&self, out: &mut Vec<u8>) -> (res: WriteResult) {
        let ghost encoded = Self::encode(self@);
        let ghost over = Self::oversize(self@);
        self.module_name_index.to_bytes(out)?;
        self.module_flags.to_bytes(out)?;
        assert(out@ =~= old(out)@ + (
            CPIndex::<ModuleInfo>::encode(self@.module_name_index)
            + u16::encode(self@.module_flags)
        ));
        CPIndex::write_non_zero(&self.module_version_index, out)?;
        assert(out@ =~= old(out)@ + (
            CPIndex::<ModuleInfo>::encode(self@.module_name_index)
            + u16::encode(self@.module_flags)
            + CPIndex::<UTF8Info>::encode_non_zero(self@.module_version_index)
        ));
        write_table(&self.required, LenWidth::U16, out)?;
        assert(out@ =~= old(out)@ + (
            CPIndex::<ModuleInfo>::encode(self@.module_name_index)
            + u16::encode(self@.module_flags)
            + CPIndex::<UTF8Info>::encode_non_zero(self@.module_version_index)
            + encode_table::<Requires>(LenWidth::U16, self@.required)
        ));
        write_table(&self.exports, LenWidth::U16, out)?;
        assert(out@ =~= old(out)@ + (
            CPIndex::<ModuleInfo>::encode(self@.module_name_index)
            + u16::encode(self@.module_flags)
            + CPIndex::<UTF8Info>::encode_non_zero(self@.module_version_index)
            + encode_table::<Requires>(LenWidth::U16, self@.required)
            + encode_table::<Exports>(LenWidth::U16, self@.exports)
        ));
        write_table(&self.opens, LenWidth::U16, out)?;
        assert(out@ =~= old(out)@ + (
            CPIndex::<ModuleInfo>::encode(self@.module_name_index)
            + u16::encode(self@.module_flags)
            + CPIndex::<UTF8Info>::encode_non_zero(self@.module_version_index)
            + encode_table::<Requires>(LenWidth::U16, self@.required)
            + encode_table::<Exports>(LenWidth::U16, self@.exports)
            + encode_table::<Opens>(LenWidth::U16, self@.opens)
        ));
        write_table(&self.uses, LenWidth::U16, out)?;
        assert(out@ =~= old(out)@ + (
            CPIndex::<ModuleInfo>::encode(self@.module_name_index)
            + u16::encode(self@.module_flags)
            + CPIndex::<UTF8Info>::encode_non_zero(self@.module_version_index)
            + encode_table::<Requires>(LenWidth::U16, self@.required)
            + encode_table::<Exports>(LenWidth::U16, self@.exports)
            + encode_table::<Opens>(LenWidth::U16, self@.opens)
            + encode_table::<CPIndex<ClassInfo>>(LenWidth::U16, self@.uses)
        ));
        write_table(&self.provides, LenWidth::U16, out)?;
        assert(over is None);
        assert(out@ =~= old(out)@ + encoded);
        Ok(())
    }

    proof fn lemma_fits(m: ModuleView) {
        assert(Self::wf(m));
        lemma_table_fits::<Requires>(LenWidth::U16, m.required);
        lemma_table_fits::<Exports>(LenWidth::U16, m.exports);
        lemma_table_fits::<Opens>(LenWidth::U16, m.opens);
        lemma_table_fits::<CPIndex<ClassInfo>>(LenWidth::U16, m.uses);
        lemma_table_fits::<Provides>(LenWidth::U16, m.provides);
        assert(Self::oversize(m) is None);
    }

    proof fn lemma_decode_encode(s: Seq<u8>, pos: int, m: ModuleView) {
        assert(Self::wf(m));
        let e1 = CPIndex::<ModuleInfo>::encode(m.module_name_index);
        let e2 = u16::encode(m.module_flags);
        let e3 = CPIndex::<UTF8Info>::encode_non_zero(m.module_version_index);
        let e4 = encode_table::<Requires>(LenWidth::U16, m.required);
        let e5 = encode_table::<Exports>(LenWidth::U16, m.exports);
        let e6 = encode_table::<Opens>(LenWidth::U16, m.opens);
        let e7 = encode_table::<CPIndex<ClassInfo>>(LenWidth::U16, m.uses);
        let e8 = encode_table::<Provides>(LenWidth::U16, m.provides);
        lemma_holds_split(s, pos, e1 + e2 + e3 + e4 + e5 + e6 + e7, e8);
        lemma_holds_split(s, pos, e1 + e2 + e3 + e4 + e5 + e6, e7);
        lemma_holds_split(s, pos, e1 + e2 + e3 + e4 + e5, e6);
        lemma_holds_split(s, pos, e1 + e2 + e3 + e4, e5);
        lemma_holds_split(s, pos, e1 + e2 + e3, e4);
        lemma_holds_split(s, pos, e1 + e2, e3);
        lemma_holds_split(s, pos, e1, e2);
        let p1 = pos + e1.len();
        CPIndex::<ModuleInfo>::lemma_decode_encode(s, pos, m.module_name_index);
        let p2 = p1 + e2.len();
        u16::lemma_decode_encode(s, p1, m.module_flags);
        let p3 = p2 + e3.len();
        CPIndex::<UTF8Info>::lemma_non_zero_decode_encode(s, p2, m.module_version_index);
        let p4 = p3 + e4.len();
        lemma_table_decode_encode::<Requires>(s, p3, LenWidth::U16, m.required);
        let p5 = p4 + e5.len();
        lemma_table_decode_encode::<Exports>(s, p4, LenWidth::U16, m.exports);
        let p6 = p5 + e6.len();
        lemma_table_decode_encode::<Opens>(s, p5, LenWidth::U16, m.opens);
        let p7 = p6 + e7.len();
        lemma_table_decode_encode::<CPIndex<ClassInfo>>(s, p6, LenWidth::U16, m.uses);
        let p8 = p7 + e8.len();
        lemma_table_decode_encode::<Provides>(s, p7, LenWidth::U16, m.provides);
        Self::lemma_decode_fields(s, pos, m, p1, p2, p3, p4, p5, p6, p7, p8);
        assert(p8 == pos + Self::encode(m).len());
        assert(Self::decode(s, pos) == decoded(m, p8));
    }

    proof fn lemma_encode_decode(s: Seq<u8>, pos: int) {
        if let Ok((m, next)) = Self::decode(s, pos) {
            let p1 = end_of(CPIndex::<ModuleInfo>::decode(s, pos));
            CPIndex::<ModuleInfo>::lemma_encode_decode(s, pos);
            let p2 = end_of(u16::decode(s, p1));
            u16::lemma_encode_decode(s, p1);
            lemma_subrange_join(s, pos, p1, p2);
            let p3 = end_of(CPIndex::<UTF8Info>::decode_non_zero(s, p2));
            CPIndex::<UTF8Info>::lemma_non_zero_encode_decode(s, p2);
            lemma_subrange_join(s, pos, p2, p3);
            let p4 = end_of(decode_table::<Requires>(s, p3, LenWidth::U16));
            lemma_table_encode_decode::<Requires>(s, p3, LenWidth::U16);
            lemma_subrange_join(s, pos, p3, p4);
            let p5 = end_of(decode_table::<Exports>(s, p4, LenWidth::U16));
            lemma_table_encode_decode::<Exports>(s, p4, LenWidth::U16);
            lemma_subrange_join(s, pos, p4, p5);
            let p6 = end_of(decode_table::<Opens>(s, p5, LenWidth::U16));
            lemma_table_encode_decode::<Opens>(s, p5, LenWidth::U16);
            lemma_subrange_join(s, pos, p5, p6);
            let p7 = end_of(decode_table::<CPIndex<ClassInfo>>(s, p6, LenWidth::U16));
            lemma_table_encode_decode::<CPIndex<ClassInfo>>(s, p6, LenWidth::U16);
            lemma_subrange_join(s, pos, p6, p7);
            let p8 = end_of(decode_table::<Provides>(s, p7, LenWidth::U16));
            lemma_table_encode_decode::<Provides>(s, p7, LenWidth::U16);
            lemma_subrange_join(s, pos, p7, p8);
            assert(Self::wf(m));
            assert(Self::encode(m) == s.subrange(pos, next));
        }
    }
}

impl Module {
    /// Where the fields stand one behind the other, the whole stands at the place
    /// of the first.
    proof fn lemma_decode_fields(
        s: Seq<u8>,
        pos: int,
        m: ModuleView,
        p1: int,
        p2: int,
        p3: int,
        p4: int,
        p5: int,
        p6: int,
        p7: int,
        p8: int,
    )
        requires
            CPIndex::<ModuleInfo>::decode(s, pos) == decoded(m.module_name_index, p1),
            u16::decode(s, p1) == decoded(m.module_flags, p2),
            CPIndex::<UTF8Info>::decode_non_zero(s, p2) == decoded(m.module_version_index, p3),
            decode_table::<Requires>(s, p3, LenWidth::U16) == decoded(m.required, p4),
            decode_table::<Exports>(s, p4, LenWidth::U16) == decoded(m.exports, p5),
            decode_table::<Opens>(s, p5, LenWidth::U16) == decoded(m.opens, p6),
            decode_table::<CPIndex<ClassInfo>>(s, p6, LenWidth::U16) == decoded(m.uses, p7),
            decode_table::<Provides>(s, p7, LenWidth::U16) == decoded(m.provides, p8),
        ensures
            Self::decode(s, pos) == decoded(m, p8),
    {
    }
}

impl Attribute for Module {
    open spec fn attribute_name() -> Seq<char> {
        "Module"@
    }

    open spec fn parse(info: Seq<u8>) -> Option<ModuleView> {
        parse_with::<Module>(info)
    }

    fn from_attributes(attributes: &Attributes, cp: &ConstantPool) -> (res: Option<Module>) {
        decode_named(attributes, cp, "Module")
    }
}

/// The `ModulePackages` attribute: the packages of a module.
#[derive(Debug, Clone, PartialEq, Eq, Hash)]
pub struct ModulePackages {
    /// The packages.
    pub packages: Vec<CPIndex<PackageInfo>>,
}

/// The model of a [`ModulePackages`]: its fields as mathematical values.
pub struct ModulePackagesView {
    pub packages: Seq<CPIndex<PackageInfo>>,
}

impl View for ModulePackages {
    type V = ModulePackagesView;

    open spec fn view(&self) -> ModulePackagesView {
        ModulePackagesView {
            packages: views(self.packages@),
        }
    }
}

impl Codec for ModulePackages {
    open spec fn wf(m: ModulePackagesView) -> bool {
        wf_table::<CPIndex<PackageInfo>>(LenWidth::U16, m.packages)
    }

    open spec fn oversize(m: ModulePackagesView) -> Option<nat> {
        oversize_table::<CPIndex<PackageInfo>>(LenWidth::U16, m.packages)
    }

    open spec fn encode(m: ModulePackagesView) -> Seq<u8> {
        encode_table::<CPIndex<PackageInfo>>(LenWidth::U16, m.packages)
    }

    open spec fn decode(s: Seq<u8>, pos: int) -> Decoded<ModulePackagesView> {
        match decode_table::<CPIndex<PackageInfo>>(s, pos, LenWidth::U16) {
            Err(e) => Err(e),
            Ok((packages, p1)) => Ok((ModulePackagesView { packages }, p1)),
        }
    }

    fn from_bytes(input: &[u8], pos: usize) -> (res: ReadResult<ModulePackages>) {
        let ghost decoded = Self::decode(input@, pos as int);
        let (packages, pos) = read_table(input, pos, LenWidth::U16)?;
        assert(decoded is Ok);
        Ok((ModulePackages { packages }, pos))
    }

    fn to_bytes(&self, out: &mut Vec<u8>) -> (res: WriteResult) {
        let ghost encoded = Self::encode(self@);
        let ghost over = Self::oversize(self@);
        write_table(&self.packages, LenWidth::U16, out)?;
        assert(over is None);
        assert(out@ =~= old(out)@ + encoded);
        Ok(())
    }

    proof fn lemma_fits(m: ModulePackagesView) {
        assert(Self::wf(m));
        lemma_table_fits::<CPIndex<PackageInfo>>(LenWidth::U16, m.packages);
        assert(Self::oversize(m) is None);
    }

    proof fn lemma_decode_encode(s: Seq<u8>, pos: int, m: ModulePackagesView) {
        assert(Self::wf(m));
        let e1 = encode_table::<CPIndex<PackageInfo>>(LenWidth::U16, m.packages);
        lemma_table_decode_encode::<CPIndex<PackageInfo>>(s, pos, LenWidth::U16, m.packages);
        assert(Self::decode(s, pos) == decoded(m, pos + Self::encode(m).len()));
    }

    proof fn lemma_encode_decode(s: Seq<u8>, pos: int) {
        if let Ok((m, next)) = Self::decode(s, pos) {
            let p1 = end_of(decode_table::<CPIndex<PackageInfo>>(s, pos, LenWidth::U16));
            lemma_table_encode_decode::<CPIndex<PackageInfo>>(s, pos, LenWidth::U16);
            assert(Self::wf(m));
            assert(Self::encode(m) == s.subrange(pos, next));
        }
    }
}

impl Attribute for ModulePackages {
    open spec fn attribute_name() -> Seq<char> {
        "ModulePackages"@
    }

    open spec fn parse(info: Seq<u8>) -> Option<ModulePackagesView> {
        parse_with::<ModulePackages>(info)
    }

    fn from_attributes(
        attributes: &Attributes,
        cp: &ConstantPool,
    ) -> (res: Option<ModulePackages>) {
        decode_named(attributes, cp, "ModulePackages")
    }
}

/// The `ModuleMainClass` attribute: the main class of a module.
#[derive(Debug, Clone, PartialEq, Eq, Hash)]
pub struct ModuleMainClass {
    /// The main class.
    pub main_class_index: CPIndex<ClassInfo>,
}

impl View for ModuleMainClass {
    type V = ModuleMainClass;

    open spec fn view(&self) -> ModuleMainClass {
        *self
    }
}

impl Codec for ModuleMainClass {
    open spec fn wf(m: ModuleMainClass) -> bool {
        true
    }

    open spec fn oversize(m: ModuleMainClass) -> Option<nat> {
        None
    }

    open spec fn encode(m: ModuleMainClass) -> Seq<u8> {
        CPIndex::<ClassInfo>::encode(m.main_class_index)
    }

    open spec fn decode(s: Seq<u8>, pos: int) -> Decoded<ModuleMainClass> {
        match CPIndex::<ClassInfo>::decode(s, pos) {
            Err(e) => Err(e),
            Ok((main_class_index, p1)) => Ok((ModuleMainClass { main_class_index }, p1)),
        }
    }

    fn from_bytes(input: &[u8], pos: usize) -> (res: ReadResult<ModuleMainClass>) {
        let ghost decoded = Self::decode(input@, pos as int);
        let (main_class_index, pos) = CPIndex::<ClassInfo>::from_bytes(input, pos)?;
        assert(decoded is Ok);
        Ok((ModuleMainClass { main_class_index }, pos))
    }

    fn to_bytes(&self, out: &mut Vec<u8>) -> (res: WriteResult) {
        let ghost encoded = Self::encode(self@);
        let ghost over = Self::oversize(self@);
        self.main_class_index.to_bytes(out)?;
        assert(over is None);
        assert(out@ =~= old(out)@ + encoded);
        Ok(())
    }

    proof fn lemma_fits(m: ModuleMainClass) {
        assert(Self::oversize(m) is None);
    }

    proof fn lemma_decode_encode(s: Seq<u8>, pos: int, m: ModuleMainClass) {
        let e1 = CPIndex::<ClassInfo>::encode(m.main_class_index);
        CPIndex::<ClassInfo>::lemma_decode_encode(s, pos, m.main_class_index);
        assert(Self::decode(s, pos) == decoded(m, pos + Self::encode(m).len()));
    }

    proof fn lemma_encode_decode(s: Seq<u8>, pos: int) {
        if let Ok((m, next)) = Self::decode(s, pos) {
            let p1 = end_of(CPIndex::<ClassInfo>::decode(s, pos));
            CPIndex::<ClassInfo>::lemma_encode_decode(s, pos);
            assert(Self::wf(m));
            assert(Self::encode(m) == s.subrange(pos, next));
        }
    }
}

impl Attribute for ModuleMainClass {
    open spec fn attribute_name() -> Seq<char> {
        "ModuleMainClass"@
    }

    open spec fn parse(info: Seq<u8>) -> Option<ModuleMainClass> {
        parse_with::<ModuleMainClass>(info)
    }

    fn from_attributes(
        attributes: &Attributes,
        cp: &ConstantPool,
    ) -> (res: Option<ModuleMainClass>) {
        decode_named(attributes, cp, "ModuleMainClass")
    }
}

} // verus!
