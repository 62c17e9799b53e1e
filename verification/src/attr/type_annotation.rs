//! Type annotations: annotations of the uses of types, each with the place
//! of the type that it annotates.
use crate::attr::{Attribute, decode_named, parse_with};
use crate::attr::annotation::{ElementValuePair, ElementValuePairView};
use crate::class::Attributes;
use crate::codec::{
    Codec, Decoded, LenWidth, after, decode_table, decoded, encode_table, end_of, extends, first_of,
    holds_at, lemma_holds_split, lemma_seq_fits, lemma_subrange_join, lemma_table_decode_encode,
    lemma_table_encode_decode, lemma_table_fits, oversize_table, read_table, u16_bytes, value_of,
    views, wf_seq, wf_table, write_table,
};
use crate::codec::expect::{decode_expect_u8, expect_u8};
use crate::error::{ReadError, ReadResult, WriteResult};
use crate::pool::{CPIndex, ConstantPool, UTF8Info};
use vstd::prelude::*;

verus! {

/// A range of instructions in which a local variable has a value, and the slot
/// of the variable.
#[derive(Debug, Clone, PartialEq, Eq, Hash)]
pub struct LocalVarTarget {
    /// The first instruction of the range.
    pub start_pc: u16,
    /// The length of the range.
    pub length: u16,
    /// The slot of the variable in the frame.
    pub index: u16,
}

impl View for LocalVarTarget {
    type V = LocalVarTarget;

    open spec fn view(&self) -> LocalVarTarget {
        *self
    }
}

impl Codec for LocalVarTarget {
    open spec fn wf(m: LocalVarTarget) -> bool {
        true
    }

    open spec fn oversize(m: LocalVarTarget) -> Option<nat> {
        None
    }

    open spec fn encode(m: LocalVarTarget) -> Seq<u8> {
        u16::encode(m.start_pc)
            + u16::encode(m.length)
            + u16::encode(m.index)
    }

    open spec fn decode(s: Seq<u8>, pos: int) -> Decoded<LocalVarTarget> {
        let start_pc = u16::decode(s, pos);
        let length = after(start_pc, u16::decode(s, end_of(start_pc)));
        let index = after(length, u16::decode(s, end_of(length)));
        match index {
            Err(e) => Err(e),
            Ok((_, end)) => Ok(
                (
                    LocalVarTarget {
                        start_pc: value_of(start_pc),
                        length: value_of(length),
                        index: value_of(index),
                    },
                    end,
                ),
            ),
        }
    }

    fn from_bytes(input: &[u8], pos: usize) -> (res: ReadResult<LocalVarTarget>) {
        let ghost decoded = Self::decode(input@, pos as int);
        let (start_pc, pos) = u16::from_bytes(input, pos)?;
        let (length, pos) = u16::from_bytes(input, pos)?;
        let (index, pos) = u16::from_bytes(input, pos)?;
        assert(decoded is Ok);
        Ok((LocalVarTarget { start_pc, length, index }, pos))
    }

    fn to_bytes(&self, out: &mut Vec<u8>) -> (res: WriteResult) {
        let ghost encoded = Self::encode(self@);
        let ghost over = Self::oversize(self@);
        self.start_pc.to_bytes(out)?;
        self.length.to_bytes(out)?;
        assert(out@ =~= old(out)@ + (u16::encode(self@.start_pc) + u16::encode(self@.length)));
        self.index.to_bytes(out)?;
        assert(over is None);
        assert(out@ =~= old(out)@ + encoded);
        Ok(())
    }

    proof fn lemma_fits(m: LocalVarTarget) {
        assert(Self::oversize(m) is None);
    }

    proof fn lemma_decode_encode(s: Seq<u8>, pos: int, m: LocalVarTarget) {
        let e1 = u16::encode(m.start_pc);
        let e2 = u16::encode(m.length);
        let e3 = u16::encode(m.index);
        lemma_holds_split(s, pos, e1 + e2, e3);
        lemma_holds_split(s, pos, e1, e2);
        u16::lemma_decode_encode(s, pos, m.start_pc);
        let p1 = pos + e1.len();
        u16::lemma_decode_encode(s, p1, m.length);
        let p2 = p1 + e2.len();
        u16::lemma_decode_encode(s, p2, m.index);
        assert(Self::decode(s, pos) == decoded(m, pos + Self::encode(m).len()));
    }

    proof fn lemma_encode_decode(s: Seq<u8>, pos: int) {
        if let Ok((m, next)) = Self::decode(s, pos) {
            let p1 = end_of(u16::decode(s, pos));
            u16::lemma_encode_decode(s, pos);
            let p2 = end_of(u16::decode(s, p1));
            u16::lemma_encode_decode(s, p1);
            lemma_subrange_join(s, pos, p1, p2);
            let p3 = end_of(u16::decode(s, p2));
            u16::lemma_encode_decode(s, p2);
            lemma_subrange_join(s, pos, p2, p3);
            assert(Self::wf(m));
            assert(Self::encode(m) == s.subrange(pos, next));
        }
    }
}

/// What a type annotation annotates. On the wire a target is a tag, the
/// target type, and then what the kind of the target holds. Where several
/// target types share a kind, the variant keeps the target type.
#[derive(Debug, Clone, PartialEq, Eq, Hash)]
#[allow(inconsistent_fields)]
pub enum TargetInfo {
    /// Target types `0x00` and `0x01`: a type parameter of a class or of a
    /// method.
    TypeParameter { target_type: u8, type_parameter_index: u8 },
    /// Target type `0x10`: a type in the `extends` or `implements` clause.
    SuperType(u16),
    /// Target types `0x11` and `0x12`: a bound of a type parameter.
    TypeParameterBound { target_type: u8, type_parameter_index: u8, bound_index: u8 },
    /// Target types `0x13` to `0x15`: the type of a field, the return type
    /// of a method, or the type of a receiver.
    Empty { target_type: u8 },
    /// Target type `0x16`: the type of a formal parameter.
    FormalParameter(u8),
    /// Target type `0x17`: a type in the `throws` clause.
    Throws(u16),
    /// Target types `0x40` and `0x41`: the type of a local variable or of a
    /// resource variable.
    LocalVar { target_type: u8, table: Vec<LocalVarTarget> },
    /// Target type `0x42`: the type of an exception parameter.
    Catch(u16),
    /// Target types `0x43` to `0x46`: a type in an `instanceof` or `new`
    /// expression or in a method reference.
    Offset { target_type: u8, offset: u16 },
    /// Target types `0x47` to `0x4B`: a type in a cast or a type argument.
    TypeArgument { target_type: u8, offset: u16, type_argument_index: u8 },
}

/// The model of a [`TargetInfo`].
#[allow(inconsistent_fields)]
pub enum TargetInfoView {
    TypeParameter { target_type: u8, type_parameter_index: u8 },
    SuperType(u16),
    TypeParameterBound { target_type: u8, type_parameter_index: u8, bound_index: u8 },
    Empty { target_type: u8 },
    FormalParameter(u8),
    Throws(u16),
    LocalVar { target_type: u8, table: Seq<LocalVarTarget> },
    Catch(u16),
    Offset { target_type: u8, offset: u16 },
    TypeArgument { target_type: u8, offset: u16, type_argument_index: u8 },
}

impl View for TargetInfo {
    type V = TargetInfoView;

    open spec fn view(&self) -> TargetInfoView {
        match self {
            TargetInfo::TypeParameter { target_type, type_parameter_index } => {
                TargetInfoView::TypeParameter {
                    target_type: *target_type,
                    type_parameter_index: *type_parameter_index,
                }
            },
            TargetInfo::SuperType(index) => TargetInfoView::SuperType(*index),
            TargetInfo::TypeParameterBound { target_type, type_parameter_index, bound_index } => {
                TargetInfoView::TypeParameterBound {
                    target_type: *target_type,
                    type_parameter_index: *type_parameter_index,
                    bound_index: *bound_index,
                }
            },
            TargetInfo::Empty { target_type } => TargetInfoView::Empty {
                target_type: *target_type,
            },
            TargetInfo::FormalParameter(index) => TargetInfoView::FormalParameter(*index),
            TargetInfo::Throws(index) => TargetInfoView::Throws(*index),
            TargetInfo::LocalVar { target_type, table } => TargetInfoView::LocalVar {
                target_type: *target_type,
                table: views(table@),
            },
            TargetInfo::Catch(index) => TargetInfoView::Catch(*index),
            TargetInfo::Offset { target_type, offset } => TargetInfoView::Offset {
                target_type: *target_type,
                offset: *offset,
            },
            TargetInfo::TypeArgument { target_type, offset, type_argument_index } => {
                TargetInfoView::TypeArgument {
                    target_type: *target_type,
                    offset: *offset,
                    type_argument_index: *type_argument_index,
                }
            },
        }
    }
}

/// The kinds of targets, one for each shape of what follows the target type.
pub enum TargetKind {
    TypeParameter,
    SuperType,
    TypeParameterBound,
    Empty,
    FormalParameter,
    Throws,
    LocalVar,
    Catch,
    Offset,
    TypeArgument,
}

/// The kind of target that a target type selects, if it selects one.
pub open spec fn target_kind(target_type: u8) -> Option<TargetKind> {
    if target_type <= 0x01 {
        Some(TargetKind::TypeParameter)
    } else if target_type == 0x10 {
        Some(TargetKind::SuperType)
    } else if 0x11 <= target_type <= 0x12 {
        Some(TargetKind::TypeParameterBound)
    } else if 0x13 <= target_type <= 0x15 {
        Some(TargetKind::Empty)
    } else if target_type == 0x16 {
        Some(TargetKind::FormalParameter)
    } else if target_type == 0x17 {
        Some(TargetKind::Throws)
    } else if 0x40 <= target_type <= 0x41 {
        Some(TargetKind::LocalVar)
    } else if target_type == 0x42 {
        Some(TargetKind::Catch)
    } else if 0x43 <= target_type <= 0x46 {
        Some(TargetKind::Offset)
    } else if 0x47 <= target_type <= 0x4B {
        Some(TargetKind::TypeArgument)
    } else {
        None
    }
}

impl TargetInfoView {
    /// The target type: the tag of the target.
    pub open spec fn tag(self) -> u8 {
        match self {
            TargetInfoView::TypeParameter { target_type, .. } => target_type,
            TargetInfoView::SuperType(_) => 0x10,
            TargetInfoView::TypeParameterBound { target_type, .. } => target_type,
            TargetInfoView::Empty { target_type } => target_type,
            TargetInfoView::FormalParameter(_) => 0x16,
            TargetInfoView::Throws(_) => 0x17,
            TargetInfoView::LocalVar { target_type, .. } => target_type,
            TargetInfoView::Catch(_) => 0x42,
            TargetInfoView::Offset { target_type, .. } => target_type,
            TargetInfoView::TypeArgument { target_type, .. } => target_type,
        }
    }

    /// The kind of the target.
    pub open spec fn kind(self) -> TargetKind {
        match self {
            TargetInfoView::TypeParameter { .. } => TargetKind::TypeParameter,
            TargetInfoView::SuperType(_) => TargetKind::SuperType,
            TargetInfoView::TypeParameterBound { .. } => TargetKind::TypeParameterBound,
            TargetInfoView::Empty { .. } => TargetKind::Empty,
            TargetInfoView::FormalParameter(_) => TargetKind::FormalParameter,
            TargetInfoView::Throws(_) => TargetKind::Throws,
            TargetInfoView::LocalVar { .. } => TargetKind::LocalVar,
            TargetInfoView::Catch(_) => TargetKind::Catch,
            TargetInfoView::Offset { .. } => TargetKind::Offset,
            TargetInfoView::TypeArgument { .. } => TargetKind::TypeArgument,
        }
    }

    /// What follows the target type on the wire.
    pub open spec fn body(self) -> Seq<u8> {
        match self {
            TargetInfoView::TypeParameter { type_parameter_index, .. } => seq![
                type_parameter_index,
            ],
            TargetInfoView::SuperType(index) => u16_bytes(index),
            TargetInfoView::TypeParameterBound { type_parameter_index, bound_index, .. } => seq![
                type_parameter_index,
                bound_index,
            ],
            TargetInfoView::Empty { .. } => Seq::empty(),
            TargetInfoView::FormalParameter(index) => seq![index],
            TargetInfoView::Throws(index) => u16_bytes(index),
            TargetInfoView::LocalVar { table, .. } => encode_table::<LocalVarTarget>(
                LenWidth::U16,
                table,
            ),
            TargetInfoView::Catch(index) => u16_bytes(index),
            TargetInfoView::Offset { offset, .. } => u16_bytes(offset),
            TargetInfoView::TypeArgument { offset, type_argument_index, .. } => u16_bytes(offset)
                + seq![type_argument_index],
        }
    }
}

impl TargetInfo {
    /// The target of the given kind that stands at `pos`, behind its target
    /// type.
    pub open spec fn decode_body(s: Seq<u8>, pos: int, target_type: u8, kind: TargetKind)
        -> Decoded<TargetInfoView> {
        match kind {
            TargetKind::TypeParameter => match u8::decode(s, pos) {
                Err(e) => Err(e),
                Ok((type_parameter_index, next)) => Ok(
                    (TargetInfoView::TypeParameter { target_type, type_parameter_index }, next),
                ),
            },
            TargetKind::SuperType => match u16::decode(s, pos) {
                Err(e) => Err(e),
                Ok((index, next)) => Ok((TargetInfoView::SuperType(index), next)),
            },
            TargetKind::TypeParameterBound => match u8::decode(s, pos) {
                Err(e) => Err(e),
                Ok((type_parameter_index, p)) => match u8::decode(s, p) {
                    Err(e) => Err(e),
                    Ok((bound_index, next)) => Ok(
                        (
                            TargetInfoView::TypeParameterBound {
                                target_type,
                                type_parameter_index,
                                bound_index,
                            },
                            next,
                        ),
                    ),
                },
            },
            TargetKind::Empty => Ok((TargetInfoView::Empty { target_type }, pos)),
            TargetKind::FormalParameter => match u8::decode(s, pos) {
                Err(e) => Err(e),
                Ok((index, next)) => Ok((TargetInfoView::FormalParameter(index), next)),
            },
            TargetKind::Throws => match u16::decode(s, pos) {
                Err(e) => Err(e),
                Ok((index, next)) => Ok((TargetInfoView::Throws(index), next)),
            },
            TargetKind::LocalVar => match decode_table::<LocalVarTarget>(s, pos, LenWidth::U16) {
                Err(e) => Err(e),
                Ok((table, next)) => Ok((TargetInfoView::LocalVar { target_type, table }, next)),
            },
            TargetKind::Catch => match u16::decode(s, pos) {
                Err(e) => Err(e),
                Ok((index, next)) => Ok((TargetInfoView::Catch(index), next)),
            },
            TargetKind::Offset => match u16::decode(s, pos) {
                Err(e) => Err(e),
                Ok((offset, next)) => Ok((TargetInfoView::Offset { target_type, offset }, next)),
            },
            TargetKind::TypeArgument => match u16::decode(s, pos) {
                Err(e) => Err(e),
                Ok((offset, p)) => match u8::decode(s, p) {
                    Err(e) => Err(e),
                    Ok((type_argument_index, next)) => Ok(
                        (
                            TargetInfoView::TypeArgument {
                                target_type,
                                offset,
                                type_argument_index,
                            },
                            next,
                        ),
                    ),
                },
            },
        }
    }
}

impl Codec for TargetInfo {
    open spec fn wf(m: TargetInfoView) -> bool {
        &&& target_kind(m.tag()) == Some(m.kind())
        &&& m matches TargetInfoView::LocalVar { table, .. } ==> table.len()
            <= LenWidth::U16.limit()
    }

    open spec fn oversize(m: TargetInfoView) -> Option<nat> {
        match m {
            TargetInfoView::LocalVar { table, .. } => oversize_table::<LocalVarTarget>(
                LenWidth::U16,
                table,
            ),
            _ => None,
        }
    }

    open spec fn encode(m: TargetInfoView) -> Seq<u8> {
        seq![m.tag()] + m.body()
    }

    open spec fn decode(s: Seq<u8>, pos: int) -> Decoded<TargetInfoView> {
        match u8::decode(s, pos) {
            Err(e) => Err(e),
            Ok((target_type, p)) => match target_kind(target_type) {
                None => Err(ReadError::UnknownTag(target_type, "TargetInfo")),
                Some(kind) => Self::decode_body(s, p, target_type, kind),
            },
        }
    }

    fn from_bytes(input: &[u8], pos: usize) -> (res: ReadResult<TargetInfo>) {
        let ghost decoded = Self::decode(input@, pos as int);
        let (target_type, pos) = u8::from_bytes(input, pos)?;
        if target_type <= 0x01 {
            let (type_parameter_index, next) = u8::from_bytes(input, pos)?;
            Ok((TargetInfo::TypeParameter { target_type, type_parameter_index }, next))
        } else if target_type == 0x10 {
            let (index, next) = u16::from_bytes(input, pos)?;
            Ok((TargetInfo::SuperType(index), next))
        } else if 0x11 <= target_type && target_type <= 0x12 {
            let (type_parameter_index, pos) = u8::from_bytes(input, pos)?;
            let (bound_index, next) = u8::from_bytes(input, pos)?;
            Ok(
                (
                    TargetInfo::TypeParameterBound {
                        target_type,
                        type_parameter_index,
                        bound_index,
                    },
                    next,
                ),
            )
        } else if 0x13 <= target_type && target_type <= 0x15 {
            Ok((TargetInfo::Empty { target_type }, pos))
        } else if target_type == 0x16 {
            let (index, next) = u8::from_bytes(input, pos)?;
            Ok((TargetInfo::FormalParameter(index), next))
        } else if target_type == 0x17 {
            let (index, next) = u16::from_bytes(input, pos)?;
            Ok((TargetInfo::Throws(index), next))
        } else if 0x40 <= target_type && target_type <= 0x41 {
            let (table, next) = read_table(input, pos, LenWidth::U16)?;
            Ok((TargetInfo::LocalVar { target_type, table }, next))
        } else if target_type == 0x42 {
            let (index, next) = u16::from_bytes(input, pos)?;
            Ok((TargetInfo::Catch(index), next))
        } else if 0x43 <= target_type && target_type <= 0x46 {
            let (offset, next) = u16::from_bytes(input, pos)?;
            Ok((TargetInfo::Offset { target_type, offset }, next))
        } else if 0x47 <= target_type && target_type <= 0x4B {
            let (offset, pos) = u16::from_bytes(input, pos)?;
            let (type_argument_index, next) = u8::from_bytes(input, pos)?;
            Ok((TargetInfo::TypeArgument { target_type, offset, type_argument_index }, next))
        } else {
            assert(decoded is Err);
            Err(ReadError::UnknownTag(target_type, "TargetInfo"))
        }
    }

    fn to_bytes(&self, out: &mut Vec<u8>) -> (res: WriteResult) {
        let ghost m = self@;
        match self {
            TargetInfo::TypeParameter { target_type, type_parameter_index } => {
                target_type.to_bytes(out)?;
                type_parameter_index.to_bytes(out)?;
            },
            TargetInfo::SuperType(index) => {
                0x10u8.to_bytes(out)?;
                index.to_bytes(out)?;
            },
            TargetInfo::TypeParameterBound { target_type, type_parameter_index, bound_index } => {
                target_type.to_bytes(out)?;
                type_parameter_index.to_bytes(out)?;
                bound_index.to_bytes(out)?;
            },
            TargetInfo::Empty { target_type } => {
                target_type.to_bytes(out)?;
            },
            TargetInfo::FormalParameter(index) => {
                0x16u8.to_bytes(out)?;
                index.to_bytes(out)?;
            },
            TargetInfo::Throws(index) => {
                0x17u8.to_bytes(out)?;
                index.to_bytes(out)?;
            },
            TargetInfo::LocalVar { target_type, table } => {
                target_type.to_bytes(out)?;
                write_table(table, LenWidth::U16, out)?;
            },
            TargetInfo::Catch(index) => {
                0x42u8.to_bytes(out)?;
                index.to_bytes(out)?;
            },
            TargetInfo::Offset { target_type, offset } => {
                target_type.to_bytes(out)?;
                offset.to_bytes(out)?;
            },
            TargetInfo::TypeArgument { target_type, offset, type_argument_index } => {
                target_type.to_bytes(out)?;
                offset.to_bytes(out)?;
                type_argument_index.to_bytes(out)?;
            },
        }
        assert(Self::oversize(m) is None);
        assert(out@ =~= old(out)@ + Self::encode(m));
        Ok(())
    }

    proof fn lemma_fits(m: TargetInfoView) {
        assert(Self::wf(m));
        if let TargetInfoView::LocalVar { table, .. } = m {
            lemma_seq_fits::<LocalVarTarget>(table);
        }
        assert(Self::oversize(m) is None);
    }

    proof fn lemma_decode_encode(s: Seq<u8>, pos: int, m: TargetInfoView) {
        assert(Self::wf(m));
        lemma_holds_split(s, pos, seq![m.tag()], m.body());
        u8::lemma_decode_encode(s, pos, m.tag());
        let p = pos + 1;
        match m {
            TargetInfoView::TypeParameter { type_parameter_index, .. } => {
                u8::lemma_decode_encode(s, p, type_parameter_index);
            },
            TargetInfoView::SuperType(index) => {
                u16::lemma_decode_encode(s, p, index);
            },
            TargetInfoView::TypeParameterBound { type_parameter_index, bound_index, .. } => {
                assert(m.body() =~= seq![type_parameter_index] + seq![bound_index]);
                lemma_holds_split(s, p, seq![type_parameter_index], seq![bound_index]);
                u8::lemma_decode_encode(s, p, type_parameter_index);
                u8::lemma_decode_encode(s, p + 1, bound_index);
            },
            TargetInfoView::Empty { .. } => {
                reveal(holds_at);
            },
            TargetInfoView::FormalParameter(index) => {
                u8::lemma_decode_encode(s, p, index);
            },
            TargetInfoView::Throws(index) => {
                u16::lemma_decode_encode(s, p, index);
            },
            TargetInfoView::LocalVar { table, .. } => {
                LocalVarTarget::lemma_wf_all(table);
                lemma_table_decode_encode::<LocalVarTarget>(s, p, LenWidth::U16, table);
            },
            TargetInfoView::Catch(index) => {
                u16::lemma_decode_encode(s, p, index);
            },
            TargetInfoView::Offset { offset, .. } => {
                u16::lemma_decode_encode(s, p, offset);
            },
            TargetInfoView::TypeArgument { offset, type_argument_index, .. } => {
                lemma_holds_split(s, p, u16_bytes(offset), seq![type_argument_index]);
                u16::lemma_decode_encode(s, p, offset);
                u8::lemma_decode_encode(s, p + 2, type_argument_index);
            },
        }
        assert(Self::decode(s, pos) == Decoded::<TargetInfoView>::Ok(
            (m, pos + Self::encode(m).len()),
        ));
    }

    proof fn lemma_encode_decode(s: Seq<u8>, pos: int) {
        if let Ok((m, next)) = Self::decode(s, pos) {
            u8::lemma_encode_decode(s, pos);
            let p = pos + 1;
            match m {
                TargetInfoView::TypeParameter { .. } => {
                    u8::lemma_encode_decode(s, p);
                },
                TargetInfoView::SuperType(_) => {
                    u16::lemma_encode_decode(s, p);
                },
                TargetInfoView::TypeParameterBound { type_parameter_index, bound_index, .. } => {
                    u8::lemma_encode_decode(s, p);
                    u8::lemma_encode_decode(s, p + 1);
                    lemma_subrange_join(s, p, p + 1, next);
                    assert(m.body() =~= seq![type_parameter_index] + seq![bound_index]);
                },
                TargetInfoView::Empty { .. } => {
                    assert(m.body() =~= s.subrange(p, next));
                },
                TargetInfoView::FormalParameter(_) => {
                    u8::lemma_encode_decode(s, p);
                },
                TargetInfoView::Throws(_) => {
                    u16::lemma_encode_decode(s, p);
                },
                TargetInfoView::LocalVar { .. } => {
                    lemma_table_encode_decode::<LocalVarTarget>(s, p, LenWidth::U16);
                },
                TargetInfoView::Catch(_) => {
                    u16::lemma_encode_decode(s, p);
                },
                TargetInfoView::Offset { .. } => {
                    u16::lemma_encode_decode(s, p);
                },
                TargetInfoView::TypeArgument { .. } => {
                    u16::lemma_encode_decode(s, p);
                    u8::lemma_encode_decode(s, p + 2);
                    lemma_subrange_join(s, p, p + 2, next);
                },
            }
            assert(m.body() == s.subrange(p, next));
            lemma_subrange_join(s, pos, p, next);
            assert(Self::wf(m));
            assert(Self::encode(m) == s.subrange(pos, next));
        }
    }
}

impl LocalVarTarget {
    /// Every range of a table is well-formed.
    pub proof fn lemma_wf_all(table: Seq<LocalVarTarget>)
        ensures
            wf_seq::<LocalVarTarget>(table),
    {
    }
}

/// A step of the path from an annotated type to the part that the
/// annotation applies to. On the wire a step is a tag and one more byte,
/// which is 0 for all steps but a type argument.
#[derive(Debug, Clone, PartialEq, Eq, Hash)]
pub enum TypePathSegment {
    /// Tag 0: deeper in an array type.
    Array,
    /// Tag 1: deeper in a nested type.
    NestedType,
    /// Tag 3: the bound of a wildcard type argument.
    WildcardBound,
    /// Tag 4: the type argument with the given index.
    TypeArgument(u8),
}

impl View for TypePathSegment {
    type V = TypePathSegment;

    open spec fn view(&self) -> TypePathSegment {
        *self
    }
}

impl TypePathSegment {
    /// The tag that selects the variant.
    pub open spec fn tag(self) -> u8 {
        match self {
            TypePathSegment::Array => 0,
            TypePathSegment::NestedType => 1,
            TypePathSegment::WildcardBound => 3,
            TypePathSegment::TypeArgument(_) => 4,
        }
    }

    /// The byte behind the tag.
    pub open spec fn argument(self) -> u8 {
        match self {
            TypePathSegment::TypeArgument(index) => index,
            _ => 0,
        }
    }
}

impl Codec for TypePathSegment {
    open spec fn wf(m: TypePathSegment) -> bool {
        true
    }

    open spec fn oversize(m: TypePathSegment) -> Option<nat> {
        None
    }

    open spec fn encode(m: TypePathSegment) -> Seq<u8> {
        seq![m.tag(), m.argument()]
    }

    open spec fn decode(s: Seq<u8>, pos: int) -> Decoded<TypePathSegment> {
        match u8::decode(s, pos) {
            Err(e) => Err(e),
            Ok((tag, p)) => if tag == 4 {
                match u8::decode(s, p) {
                    Err(e) => Err(e),
                    Ok((index, next)) => Ok((TypePathSegment::TypeArgument(index), next)),
                }
            } else if tag == 0 || tag == 1 || tag == 3 {
                match decode_expect_u8(s, p, 0) {
                    Err(e) => Err(e),
                    Ok((_, next)) => Ok(
                        (
                            if tag == 0 {
                                TypePathSegment::Array
                            } else if tag == 1 {
                                TypePathSegment::NestedType
                            } else {
                                TypePathSegment::WildcardBound
                            },
                            next,
                        ),
                    ),
                }
            } else {
                Err(ReadError::UnknownTag(tag, "TypePathSegment"))
            },
        }
    }

    fn from_bytes(input: &[u8], pos: usize) -> (res: ReadResult<TypePathSegment>) {
        let ghost decoded = Self::decode(input@, pos as int);
        let (tag, pos) = u8::from_bytes(input, pos)?;
        if tag == 4 {
            let (index, next) = u8::from_bytes(input, pos)?;
            Ok((TypePathSegment::TypeArgument(index), next))
        } else if tag == 0 {
            let (_, next) = expect_u8(input, pos, 0)?;
            Ok((TypePathSegment::Array, next))
        } else if tag == 1 {
            let (_, next) = expect_u8(input, pos, 0)?;
            Ok((TypePathSegment::NestedType, next))
        } else if tag == 3 {
            let (_, next) = expect_u8(input, pos, 0)?;
            Ok((TypePathSegment::WildcardBound, next))
        } else {
            assert(decoded is Err);
            Err(ReadError::UnknownTag(tag, "TypePathSegment"))
        }
    }

    fn to_bytes(&self, out: &mut Vec<u8>) -> (res: WriteResult) {
        match self {
            TypePathSegment::Array => {
                0u8.to_bytes(out)?;
                0u8.to_bytes(out)?;
            },
            TypePathSegment::NestedType => {
                1u8.to_bytes(out)?;
                0u8.to_bytes(out)?;
            },
            TypePathSegment::WildcardBound => {
                3u8.to_bytes(out)?;
                0u8.to_bytes(out)?;
            },
            TypePathSegment::TypeArgument(index) => {
                4u8.to_bytes(out)?;
                index.to_bytes(out)?;
            },
        }
        assert(Self::oversize(self@) is None);
        assert(out@ =~= old(out)@ + Self::encode(self@));
        Ok(())
    }

    proof fn lemma_fits(m: TypePathSegment) {
        assert(Self::wf(m));
        assert(Self::oversize(m) is None);
    }

    proof fn lemma_decode_encode(s: Seq<u8>, pos: int, m: TypePathSegment) {
        assert(Self::wf(m));
        assert(Self::encode(m) =~= seq![m.tag()] + seq![m.argument()]);
        lemma_holds_split(s, pos, seq![m.tag()], seq![m.argument()]);
        u8::lemma_decode_encode(s, pos, m.tag());
        u8::lemma_decode_encode(s, pos + 1, m.argument());
        assert(Self::decode(s, pos) == Decoded::<TypePathSegment>::Ok(
            (m, pos + Self::encode(m).len()),
        ));
    }

    proof fn lemma_encode_decode(s: Seq<u8>, pos: int) {
        if let Ok((m, next)) = Self::decode(s, pos) {
            u8::lemma_encode_decode(s, pos);
            u8::lemma_encode_decode(s, pos + 1);
            lemma_subrange_join(s, pos, pos + 1, next);
            assert(Self::encode(m) =~= seq![m.tag()] + seq![m.argument()]);
            assert(Self::wf(m));
            assert(Self::encode(m) == s.subrange(pos, next));
        }
    }
}

/// The path from an annotated type to the part of it that the annotation
/// applies to.
#[derive(Debug, Clone, PartialEq, Eq, Hash)]
pub struct TypePath {
    /// The steps of the path.
    pub data: Vec<TypePathSegment>,
}

/// The model of a [`TypePath`]: its fields as mathematical values.
pub struct TypePathView {
    pub data: Seq<TypePathSegment>,
}

impl View for TypePath {
    type V = TypePathView;

    open spec fn view(&self) -> TypePathView {
        TypePathView {
            data: views(self.data@),
        }
    }
}

impl Codec for TypePath {
    open spec fn wf(m: TypePathView) -> bool {
        wf_table::<TypePathSegment>(LenWidth::U8, m.data)
    }

    open spec fn oversize(m: TypePathView) -> Option<nat> {
        oversize_table::<TypePathSegment>(LenWidth::U8, m.data)
    }

    open spec fn encode(m: TypePathView) -> Seq<u8> {
        encode_table::<TypePathSegment>(LenWidth::U8, m.data)
    }

    open spec fn decode(s: Seq<u8>, pos: int) -> Decoded<TypePathView> {
        match decode_table::<TypePathSegment>(s, pos, LenWidth::U8) {
            Err(e) => Err(e),
            Ok((data, p1)) => Ok((TypePathView { data }, p1)),
        }
    }

    fn from_bytes(input: &[u8], pos: usize) -> (res: ReadResult<TypePath>) {
        let ghost decoded = Self::decode(input@, pos as int);
        let (data, pos) = read_table(input, pos, LenWidth::U8)?;
        assert(decoded is Ok);
        Ok((TypePath { data }, pos))
    }

    fn to_bytes(&self, out: &mut Vec<u8>) -> (res: WriteResult) {
        let ghost encoded = Self::encode(self@);
        let ghost over = Self::oversize(self@);
        write_table(&self.data, LenWidth::U8, out)?;
        assert(over is None);
        assert(out@ =~= old(out)@ + encoded);
        Ok(())
    }

    proof fn lemma_fits(m: TypePathView) {
        assert(Self::wf(m));
        lemma_table_fits::<TypePathSegment>(LenWidth::U8, m.data);
        assert(Self::oversize(m) is None);
    }

    proof fn lemma_decode_encode(s: Seq<u8>, pos: int, m: TypePathView) {
        assert(Self::wf(m));
        let e1 = encode_table::<TypePathSegment>(LenWidth::U8, m.data);
        lemma_table_decode_encode::<TypePathSegment>(s, pos, LenWidth::U8, m.data);
        assert(Self::decode(s, pos) == decoded(m, pos + Self::encode(m).len()));
    }

    proof fn lemma_encode_decode(s: Seq<u8>, pos: int) {
        if let Ok((m, next)) = Self::decode(s, pos) {
            let p1 = end_of(decode_table::<TypePathSegment>(s, pos, LenWidth::U8));
            lemma_table_encode_decode::<TypePathSegment>(s, pos, LenWidth::U8);
            assert(Self::wf(m));
            assert(Self::encode(m) == s.subrange(pos, next));
        }
    }
}

/// An annotation of a type: what it annotates, and the annotation.
#[derive(Debug, Clone, PartialEq, Eq, Hash)]
pub struct TypeAnnotation {
    /// The kind of the target and where it is.
    pub target_info: TargetInfo,
    /// The part of the type that is annotated.
    pub target_path: TypePath,
    /// The descriptor of the annotation type.
    pub type_index: CPIndex<UTF8Info>,
    /// The elements of the annotation, each with its value.
    pub element_value_pairs: Vec<ElementValuePair>,
}

/// The model of a [`TypeAnnotation`]: its fields as mathematical values.
pub struct TypeAnnotationView {
    pub target_info: TargetInfoView,
    pub target_path: TypePathView,
    pub type_index: CPIndex<UTF8Info>,
    pub element_value_pairs: Seq<ElementValuePairView>,
}

impl View for TypeAnnotation {
    type V = TypeAnnotationView;

    open spec fn view(&self) -> TypeAnnotationView {
        TypeAnnotationView {
            target_info: self.target_info@,
            target_path: self.target_path@,
            type_index: self.type_index,
            element_value_pairs: views(self.element_value_pairs@),
        }
    }
}

impl Codec for TypeAnnotation {
    open spec fn wf(m: TypeAnnotationView) -> bool {
        &&& TargetInfo::wf(m.target_info)
        &&& TypePath::wf(m.target_path)
        &&& wf_table::<ElementValuePair>(LenWidth::U16, m.element_value_pairs)
    }

    open spec fn oversize(m: TypeAnnotationView) -> Option<nat> {
        first_of(
            TargetInfo::oversize(m.target_info),
            first_of(
                TypePath::oversize(m.target_path),
                oversize_table::<ElementValuePair>(LenWidth::U16, m.element_value_pairs),
            ),
        )
    }

    open spec fn encode(m: TypeAnnotationView) -> Seq<u8> {
        TargetInfo::encode(m.target_info)
            + TypePath::encode(m.target_path)
            + CPIndex::<UTF8Info>::encode(m.type_index)
            + encode_table::<ElementValuePair>(LenWidth::U16, m.element_value_pairs)
    }

    open spec fn decode(s: Seq<u8>, pos: int) -> Decoded<TypeAnnotationView> {
        let target_info = TargetInfo::decode(s, pos);
        let target_path = after(target_info, TypePath::decode(s, end_of(target_info)));
        let type_index = after(target_path, CPIndex::<UTF8Info>::decode(s, end_of(target_path)));
        let element_value_pairs = after(
            type_index,
            decode_table::<ElementValuePair>(s, end_of(type_index), LenWidth::U16),
        );
        match element_value_pairs {
            Err(e) => Err(e),
            Ok((_, end)) => Ok(
                (
                    TypeAnnotationView {
                        target_info: value_of(target_info),
                        target_path: value_of(target_path),
                        type_index: value_of(type_index),
                        element_value_pairs: value_of(element_value_pairs),
                    },
                    end,
                ),
            ),
        }
    }

    fn from_bytes(input: &[u8], pos: usize) -> (res: ReadResult<TypeAnnotation>) {
        let ghost decoded = Self::decode(input@, pos as int);
        let (target_info, pos) = TargetInfo::from_bytes(input, pos)?;
        let (target_path, pos) = TypePath::from_bytes(input, pos)?;
        let (type_index, pos) = CPIndex::<UTF8Info>::from_bytes(input, pos)?;
        let (element_value_pairs, pos) = read_table(input, pos, LenWidth::U16)?;
        assert(decoded is Ok);
        Ok((TypeAnnotation { target_info, target_path, type_index, element_value_pairs }, pos))
    }

    fn to_bytes(&self, out: &mut Vec<u8>) -> (res: WriteResult) {
        let ghost encoded = Self::encode(self@);
        let ghost over = Self::oversize(self@);
        self.target_info.to_bytes(out)?;
        self.target_path.to_bytes(out)?;
        assert(out@ =~= old(out)@ + (
            TargetInfo::encode(self@.target_info)
            + TypePath::encode(self@.target_path)
        ));
        self.type_index.to_bytes(out)?;
        assert(out@ =~= old(out)@ + (
            TargetInfo::encode(self@.target_info)
            + TypePath::encode(self@.target_path)
            + CPIndex::<UTF8Info>::encode(self@.type_index)
        ));
        write_table(&self.element_value_pairs, LenWidth::U16, out)?;
        assert(over is None);
        assert(out@ =~= old(out)@ + encoded);
        Ok(())
    }

    proof fn lemma_fits(m: TypeAnnotationView) {
        assert(Self::wf(m));
        TargetInfo::lemma_fits(m.target_info);
        TypePath::lemma_fits(m.target_path);
        lemma_table_fits::<ElementValuePair>(LenWidth::U16, m.element_value_pairs);
        assert(Self::oversize(m) is None);
    }

    proof fn lemma_decode_encode(s: Seq<u8>, pos: int, m: TypeAnnotationView) {
        assert(Self::wf(m));
        let e1 = TargetInfo::encode(m.target_info);
        let e2 = TypePath::encode(m.target_path);
        let e3 = CPIndex::<UTF8Info>::encode(m.type_index);
        let e4 = encode_table::<ElementValuePair>(LenWidth::U16, m.element_value_pairs);
        lemma_holds_split(s, pos, e1 + e2 + e3, e4);
        lemma_holds_split(s, pos, e1 + e2, e3);
        lemma_holds_split(s, pos, e1, e2);
        TargetInfo::lemma_decode_encode(s, pos, m.target_info);
        let p1 = pos + e1.len();
        TypePath::lemma_decode_encode(s, p1, m.target_path);
        let p2 = p1 + e2.len();
        CPIndex::<UTF8Info>::lemma_decode_encode(s, p2, m.type_index);
        let p3 = p2 + e3.len();
        lemma_table_decode_encode::<ElementValuePair>(s, p3, LenWidth::U16, m.element_value_pairs);
        assert(Self::decode(s, pos) == decoded(m, pos + Self::encode(m).len()));
    }

    proof fn lemma_encode_decode(s: Seq<u8>, pos: int) {
        if let Ok((m, next)) = Self::decode(s, pos) {
            let p1 = end_of(TargetInfo::decode(s, pos));
            TargetInfo::lemma_encode_decode(s, pos);
            let p2 = end_of(TypePath::decode(s, p1));
            TypePath::lemma_encode_decode(s, p1);
            lemma_subrange_join(s, pos, p1, p2);
            let p3 = end_of(CPIndex::<UTF8Info>::decode(s, p2));
            CPIndex::<UTF8Info>::lemma_encode_decode(s, p2);
            lemma_subrange_join(s, pos, p2, p3);
            let p4 = end_of(decode_table::<ElementValuePair>(s, p3, LenWidth::U16));
            lemma_table_encode_decode::<ElementValuePair>(s, p3, LenWidth::U16);
            lemma_subrange_join(s, pos, p3, p4);
            assert(Self::wf(m));
            assert(Self::encode(m) == s.subrange(pos, next));
        }
    }
}

/// The `RuntimeVisibleTypeAnnotations` attribute: the type annotations that are
/// visible at run time.
#[derive(Debug, Clone, PartialEq, Eq, Hash)]
pub struct RuntimeVisibleTypeAnnotations {
    /// The annotations.
    pub table: Vec<TypeAnnotation>,
}

/// The model of a [`RuntimeVisibleTypeAnnotations`]: its fields as mathematical values.
pub struct RuntimeVisibleTypeAnnotationsView {
    pub table: Seq<TypeAnnotationView>,
}

impl View for RuntimeVisibleTypeAnnotations {
    type V = RuntimeVisibleTypeAnnotationsView;

    open spec fn view(&self) -> RuntimeVisibleTypeAnnotationsView {
        RuntimeVisibleTypeAnnotationsView {
            table: views(self.table@),
        }
    }
}

impl Codec for RuntimeVisibleTypeAnnotations {
    open spec fn wf(m: RuntimeVisibleTypeAnnotationsView) -> bool {
        wf_table::<TypeAnnotation>(LenWidth::U16, m.table)
    }

    open spec fn oversize(m: RuntimeVisibleTypeAnnotationsView) -> Option<nat> {
        oversize_table::<TypeAnnotation>(LenWidth::U16, m.table)
    }

    open spec fn encode(m: RuntimeVisibleTypeAnnotationsView) -> Seq<u8> {
        encode_table::<TypeAnnotation>(LenWidth::U16, m.table)
    }

    open spec fn decode(s: Seq<u8>, pos: int) -> Decoded<RuntimeVisibleTypeAnnotationsView> {
        match decode_table::<TypeAnnotation>(s, pos, LenWidth::U16) {
            Err(e) => Err(e),
            Ok((table, p1)) => Ok((RuntimeVisibleTypeAnnotationsView { table }, p1)),
        }
    }

    fn from_bytes(input: &[u8], pos: usize) -> (res: ReadResult<RuntimeVisibleTypeAnnotations>) {
        let ghost decoded = Self::decode(input@, pos as int);
        let (table, pos) = read_table(input, pos, LenWidth::U16)?;
        assert(decoded is Ok);
        Ok((RuntimeVisibleTypeAnnotations { table }, pos))
    }

    fn to_bytes(&self, out: &mut Vec<u8>) -> (res: WriteResult) {
        let ghost encoded = Self::encode(self@);
        let ghost over = Self::oversize(self@);
        write_table(&self.table, LenWidth::U16, out)?;
        assert(over is None);
        assert(out@ =~= old(out)@ + encoded);
        Ok(())
    }

    proof fn lemma_fits(m: RuntimeVisibleTypeAnnotationsView) {
        assert(Self::wf(m));
        lemma_table_fits::<TypeAnnotation>(LenWidth::U16, m.table);
        assert(Self::oversize(m) is None);
    }

    proof fn lemma_decode_encode(s: Seq<u8>, pos: int, m: RuntimeVisibleTypeAnnotationsView) {
        assert(Self::wf(m));
        let e1 = encode_table::<TypeAnnotation>(LenWidth::U16, m.table);
        lemma_table_decode_encode::<TypeAnnotation>(s, pos, LenWidth::U16, m.table);
        assert(Self::decode(s, pos) == decoded(m, pos + Self::encode(m).len()));
    }

    proof fn lemma_encode_decode(s: Seq<u8>, pos: int) {
        if let Ok((m, next)) = Self::decode(s, pos) {
            let p1 = end_of(decode_table::<TypeAnnotation>(s, pos, LenWidth::U16));
            lemma_table_encode_decode::<TypeAnnotation>(s, pos, LenWidth::U16);
            assert(Self::wf(m));
            assert(Self::encode(m) == s.subrange(pos, next));
        }
    }
}

impl Attribute for RuntimeVisibleTypeAnnotations {
    open spec fn attribute_name() -> Seq<char> {
        "RuntimeVisibleTypeAnnotations"@
    }

    open spec fn parse(info: Seq<u8>) -> Option<RuntimeVisibleTypeAnnotationsView> {
        parse_with::<RuntimeVisibleTypeAnnotations>(info)
    }

    fn from_attributes(
        attributes: &Attributes,
        cp: &ConstantPool,
    ) -> (res: Option<RuntimeVisibleTypeAnnotations>) {
        decode_named(attributes, cp, "RuntimeVisibleTypeAnnotations")
    }
}

/// The `RuntimeInvisibleTypeAnnotations` attribute: the type annotations that
/// are not visible at run time.
#[derive(Debug, Clone, PartialEq, Eq, Hash)]
pub struct RuntimeInvisibleTypeAnnotations {
    /// The annotations.
    pub table: Vec<TypeAnnotation>,
}

/// The model of a [`RuntimeInvisibleTypeAnnotations`]: its fields as mathematical values.
pub struct RuntimeInvisibleTypeAnnotationsView {
    pub table: Seq<TypeAnnotationView>,
}

impl View for RuntimeInvisibleTypeAnnotations {
    type V = RuntimeInvisibleTypeAnnotationsView;

    open spec fn view(&self) -> RuntimeInvisibleTypeAnnotationsView {
        RuntimeInvisibleTypeAnnotationsView {
            table: views(self.table@),
        }
    }
}

impl Codec for RuntimeInvisibleTypeAnnotations {
    open spec fn wf(m: RuntimeInvisibleTypeAnnotationsView) -> bool {
        wf_table::<TypeAnnotation>(LenWidth::U16, m.table)
    }

    open spec fn oversize(m: RuntimeInvisibleTypeAnnotationsView) -> Option<nat> {
        oversize_table::<TypeAnnotation>(LenWidth::U16, m.table)
    }

    open spec fn encode(m: RuntimeInvisibleTypeAnnotationsView) -> Seq<u8> {
        encode_table::<TypeAnnotation>(LenWidth::U16, m.table)
    }

    open spec fn decode(s: Seq<u8>, pos: int) -> Decoded<RuntimeInvisibleTypeAnnotationsView> {
        match decode_table::<TypeAnnotation>(s, pos, LenWidth::U16) {
            Err(e) => Err(e),
            Ok((table, p1)) => Ok((RuntimeInvisibleTypeAnnotationsView { table }, p1)),
        }
    }

    fn from_bytes(input: &[u8], pos: usize) -> (res: ReadResult<RuntimeInvisibleTypeAnnotations>) {
        let ghost decoded = Self::decode(input@, pos as int);
        let (table, pos) = read_table(input, pos, LenWidth::U16)?;
        assert(decoded is Ok);
        Ok((RuntimeInvisibleTypeAnnotations { table }, pos))
    }

    fn to_bytes(&self, out: &mut Vec<u8>) -> (res: WriteResult) {
        let ghost encoded = Self::encode(self@);
        let ghost over = Self::oversize(self@);
        write_table(&self.table, LenWidth::U16, out)?;
        assert(over is None);
        assert(out@ =~= old(out)@ + encoded);
        Ok(())
    }

    proof fn lemma_fits(m: RuntimeInvisibleTypeAnnotationsView) {
        assert(Self::wf(m));
        lemma_table_fits::<TypeAnnotation>(LenWidth::U16, m.table);
        assert(Self::oversize(m) is None);
    }

    proof fn lemma_decode_encode(s: Seq<u8>, pos: int, m: RuntimeInvisibleTypeAnnotationsView) {
        assert(Self::wf(m));
        let e1 = encode_table::<TypeAnnotation>(LenWidth::U16, m.table);
        lemma_table_decode_encode::<TypeAnnotation>(s, pos, LenWidth::U16, m.table);
        assert(Self::decode(s, pos) == decoded(m, pos + Self::encode(m).len()));
    }

    proof fn lemma_encode_decode(s: Seq<u8>, pos: int) {
        if let Ok((m, next)) = Self::decode(s, pos) {
            let p1 = end_of(decode_table::<TypeAnnotation>(s, pos, LenWidth::U16));
            lemma_table_encode_decode::<TypeAnnotation>(s, pos, LenWidth::U16);
            assert(Self::wf(m));
            assert(Self::encode(m) == s.subrange(pos, next));
        }
    }
}

impl Attribute for RuntimeInvisibleTypeAnnotations {
    open spec fn attribute_name() -> Seq<char> {
        "RuntimeInvisibleTypeAnnotations"@
    }

    open spec fn parse(info: Seq<u8>) -> Option<RuntimeInvisibleTypeAnnotationsView> {
        parse_with::<RuntimeInvisibleTypeAnnotations>(info)
    }

    fn from_attributes(
        attributes: &Attributes,
        cp: &ConstantPool,
    ) -> (res: Option<RuntimeInvisibleTypeAnnotations>) {
        decode_named(attributes, cp, "RuntimeInvisibleTypeAnnotations")
    }
}

} // verus!
