//! The `StackMapTable` attribute: what the verifier may assume of the
//! frame at the targets of jumps.
use crate::attr::{Attribute, decode_named, parse_with};
use crate::class::Attributes;
use crate::codec::{
    Codec, Decoded, LenWidth, decode_seq, decode_table, decoded, encode_seq, encode_table, end_of,
    first_of, lemma_holds_split, lemma_seq_decode_encode, lemma_seq_encode_decode, lemma_seq_fits,
    lemma_subrange_join, lemma_table_decode_encode, lemma_table_encode_decode, lemma_table_fits,
    oversize_table, read_seq, read_table, u16_bytes, views, wf_table, write_seq, write_table,
};
use crate::error::{ReadError, ReadResult, WriteError, WriteResult};
use crate::pool::{CPIndex, ClassInfo, ConstantPool};
use vstd::prelude::*;

verus! {

/// The tag of the verification type of a slot that holds nothing usable.
pub const ITEM_TOP: u8 = 0;

/// The tag of the verification type `int`.
pub const ITEM_INTEGER: u8 = 1;

/// The tag of the verification type `float`.
pub const ITEM_FLOAT: u8 = 2;

/// The tag of the verification type `double`.
pub const ITEM_DOUBLE: u8 = 3;

/// The tag of the verification type `long`.
pub const ITEM_LONG: u8 = 4;

/// The tag of the verification type of `null`.
pub const ITEM_NULL: u8 = 5;

/// The tag of the verification type of `this` before the constructor of the
/// superclass has run.
pub const ITEM_UNINITIALIZED_THIS: u8 = 6;

/// The tag of the verification type of an object of a given class.
pub const ITEM_OBJECT: u8 = 7;

/// The tag of the verification type of an object that a `new` instruction
/// has made and no constructor has initialised.
pub const ITEM_UNINITIALIZED: u8 = 8;

/// The type that the verifier knows of a local variable or of a slot of the
/// operand stack.
#[derive(Debug, Clone, PartialEq, Eq, Hash)]
pub enum VerificationTypeInfo {
    Top,
    Integer,
    Float,
    Double,
    Long,
    Null,
    UninitializedThis,
    /// An object of the given class.
    ObjectVariable(CPIndex<ClassInfo>),
    /// An object made by the `new` instruction at the given offset.
    Uninitialized(u16),
}

impl View for VerificationTypeInfo {
    type V = VerificationTypeInfo;

    open spec fn view(&self) -> VerificationTypeInfo {
        *self
    }
}

impl VerificationTypeInfo {
    /// The tag that selects the variant.
    pub open spec fn tag(self) -> u8 {
        match self {
            VerificationTypeInfo::Top => ITEM_TOP,
            VerificationTypeInfo::Integer => ITEM_INTEGER,
            VerificationTypeInfo::Float => ITEM_FLOAT,
            VerificationTypeInfo::Double => ITEM_DOUBLE,
            VerificationTypeInfo::Long => ITEM_LONG,
            VerificationTypeInfo::Null => ITEM_NULL,
            VerificationTypeInfo::UninitializedThis => ITEM_UNINITIALIZED_THIS,
            VerificationTypeInfo::ObjectVariable(_) => ITEM_OBJECT,
            VerificationTypeInfo::Uninitialized(_) => ITEM_UNINITIALIZED,
        }
    }
}

impl Codec for VerificationTypeInfo {
    open spec fn wf(m: VerificationTypeInfo) -> bool {
        true
    }

    open spec fn oversize(m: VerificationTypeInfo) -> Option<nat> {
        None
    }

    open spec fn encode(m: VerificationTypeInfo) -> Seq<u8> {
        match m {
            VerificationTypeInfo::ObjectVariable(class) => seq![m.tag()] + u16_bytes(class.index),
            VerificationTypeInfo::Uninitialized(offset) => seq![m.tag()] + u16_bytes(offset),
            _ => seq![m.tag()],
        }
    }

    open spec fn decode(s: Seq<u8>, pos: int) -> Decoded<VerificationTypeInfo> {
        match u8::decode(s, pos) {
            Err(e) => Err(e),
            Ok((tag, p)) => if tag == ITEM_TOP {
                Ok((VerificationTypeInfo::Top, p))
            } else if tag == ITEM_INTEGER {
                Ok((VerificationTypeInfo::Integer, p))
            } else if tag == ITEM_FLOAT {
                Ok((VerificationTypeInfo::Float, p))
            } else if tag == ITEM_DOUBLE {
                Ok((VerificationTypeInfo::Double, p))
            } else if tag == ITEM_LONG {
                Ok((VerificationTypeInfo::Long, p))
            } else if tag == ITEM_NULL {
                Ok((VerificationTypeInfo::Null, p))
            } else if tag == ITEM_UNINITIALIZED_THIS {
                Ok((VerificationTypeInfo::UninitializedThis, p))
            } else if tag == ITEM_OBJECT {
                match CPIndex::<ClassInfo>::decode(s, p) {
                    Err(e) => Err(e),
                    Ok((class, next)) => Ok((VerificationTypeInfo::ObjectVariable(class), next)),
                }
            } else if tag == ITEM_UNINITIALIZED {
                match u16::decode(s, p) {
                    Err(e) => Err(e),
                    Ok((offset, next)) => Ok((VerificationTypeInfo::Uninitialized(offset), next)),
                }
            } else {
                Err(ReadError::UnknownTag(tag, "VerificationTypeInfo"))
            },
        }
    }

    fn from_bytes(input: &[u8], pos: usize) -> (res: ReadResult<VerificationTypeInfo>) {
        let ghost decoded = Self::decode(input@, pos as int);
        let (tag, pos) = u8::from_bytes(input, pos)?;
        if tag == ITEM_TOP {
            Ok((VerificationTypeInfo::Top, pos))
        } else if tag == ITEM_INTEGER {
            Ok((VerificationTypeInfo::Integer, pos))
        } else if tag == ITEM_FLOAT {
            Ok((VerificationTypeInfo::Float, pos))
        } else if tag == ITEM_DOUBLE {
            Ok((VerificationTypeInfo::Double, pos))
        } else if tag == ITEM_LONG {
            Ok((VerificationTypeInfo::Long, pos))
        } else if tag == ITEM_NULL {
            Ok((VerificationTypeInfo::Null, pos))
        } else if tag == ITEM_UNINITIALIZED_THIS {
            Ok((VerificationTypeInfo::UninitializedThis, pos))
        } else if tag == ITEM_OBJECT {
            let (class, next) = CPIndex::from_bytes(input, pos)?;
            Ok((VerificationTypeInfo::ObjectVariable(class), next))
        } else if tag == ITEM_UNINITIALIZED {
            let (offset, next) = u16::from_bytes(input, pos)?;
            Ok((VerificationTypeInfo::Uninitialized(offset), next))
        } else {
            assert(decoded is Err);
            Err(ReadError::UnknownTag(tag, "VerificationTypeInfo"))
        }
    }

    fn to_bytes(&self, out: &mut Vec<u8>) -> (res: WriteResult) {
        match self {
            VerificationTypeInfo::Top => ITEM_TOP.to_bytes(out)?,
            VerificationTypeInfo::Integer => ITEM_INTEGER.to_bytes(out)?,
            VerificationTypeInfo::Float => ITEM_FLOAT.to_bytes(out)?,
            VerificationTypeInfo::Double => ITEM_DOUBLE.to_bytes(out)?,
            VerificationTypeInfo::Long => ITEM_LONG.to_bytes(out)?,
            VerificationTypeInfo::Null => ITEM_NULL.to_bytes(out)?,
            VerificationTypeInfo::UninitializedThis => ITEM_UNINITIALIZED_THIS.to_bytes(out)?,
            VerificationTypeInfo::ObjectVariable(class) => {
                ITEM_OBJECT.to_bytes(out)?;
                class.to_bytes(out)?;
            },
            VerificationTypeInfo::Uninitialized(offset) => {
                ITEM_UNINITIALIZED.to_bytes(out)?;
                offset.to_bytes(out)?;
            },
        }
        assert(Self::oversize(self@) is None);
        assert(out@ =~= old(out)@ + Self::encode(self@));
        Ok(())
    }

    proof fn lemma_fits(m: VerificationTypeInfo) {
        assert(Self::wf(m));
        assert(Self::oversize(m) is None);
    }

    proof fn lemma_decode_encode(s: Seq<u8>, pos: int, m: VerificationTypeInfo) {
        assert(Self::wf(m));
        match m {
            VerificationTypeInfo::ObjectVariable(class) => {
                lemma_holds_split(s, pos, seq![m.tag()], u16_bytes(class.index));
                u8::lemma_decode_encode(s, pos, m.tag());
                u16::lemma_decode_encode(s, pos + 1, class.index);
            },
            VerificationTypeInfo::Uninitialized(offset) => {
                lemma_holds_split(s, pos, seq![m.tag()], u16_bytes(offset));
                u8::lemma_decode_encode(s, pos, m.tag());
                u16::lemma_decode_encode(s, pos + 1, offset);
            },
            _ => {
                u8::lemma_decode_encode(s, pos, m.tag());
            },
        }
        assert(Self::decode(s, pos) == Decoded::<VerificationTypeInfo>::Ok(
            (m, pos + Self::encode(m).len()),
        ));
    }

    proof fn lemma_encode_decode(s: Seq<u8>, pos: int) {
        if let Ok((m, next)) = Self::decode(s, pos) {
            u8::lemma_encode_decode(s, pos);
            u16::lemma_encode_decode(s, pos + 1);
            if next == pos + 3 {
                lemma_subrange_join(s, pos, pos + 1, next);
            }
            assert(Self::encode(m) == s.subrange(pos, next));
        }
    }
}

/// A frame of the stack map table: the types of the local variables and of
/// the operand stack at one instruction, stated as a change to the frame
/// before it. The tag byte of a frame selects its kind and, for the short
/// kinds, holds a number as well.
#[derive(Debug, Clone, PartialEq, Eq, Hash)]
#[allow(inconsistent_fields)]
pub enum StackMapFrame {
    /// Tags 0 to 63: the same locals, an empty stack. The offset delta is the
    /// tag.
    SameFrame(u8),
    /// Tags 64 to 127: the same locals, one value on the stack. The offset
    /// delta is the tag less 64.
    SameLocals1Stack { offset_delta: u8, stack: VerificationTypeInfo },
    /// Tag 247: the same locals, one value on the stack.
    SameLocals1StackExtended { offset_delta: u16, stack: VerificationTypeInfo },
    /// Tags 248 to 250: the last locals are gone, the stack is empty. The
    /// number of locals that are gone is 251 less the tag.
    ChopFrame { offset_delta: u16, chopped: u8 },
    /// Tag 251: the same locals, an empty stack.
    SameFrameExtended(u16),
    /// Tags 252 to 254: more locals, an empty stack. The number of the new
    /// locals is the tag less 251.
    AppendFrame { offset_delta: u16, locals: Vec<VerificationTypeInfo> },
    /// Tag 255: all locals and the whole stack.
    FullFrame {
        offset_delta: u16,
        locals: Vec<VerificationTypeInfo>,
        stack: Vec<VerificationTypeInfo>,
    },
}

/// The model of a [`StackMapFrame`].
#[allow(inconsistent_fields)]
pub enum StackMapFrameView {
    SameFrame(u8),
    SameLocals1Stack { offset_delta: u8, stack: VerificationTypeInfo },
    SameLocals1StackExtended { offset_delta: u16, stack: VerificationTypeInfo },
    ChopFrame { offset_delta: u16, chopped: u8 },
    SameFrameExtended(u16),
    AppendFrame { offset_delta: u16, locals: Seq<VerificationTypeInfo> },
    FullFrame {
        offset_delta: u16,
        locals: Seq<VerificationTypeInfo>,
        stack: Seq<VerificationTypeInfo>,
    },
}

impl View for StackMapFrame {
    type V = StackMapFrameView;

    open spec fn view(&self) -> StackMapFrameView {
        match self {
            StackMapFrame::SameFrame(offset_delta) => StackMapFrameView::SameFrame(*offset_delta),
            StackMapFrame::SameLocals1Stack { offset_delta, stack } => {
                StackMapFrameView::SameLocals1Stack { offset_delta: *offset_delta, stack: *stack }
            },
            StackMapFrame::SameLocals1StackExtended { offset_delta, stack } => {
                StackMapFrameView::SameLocals1StackExtended {
                    offset_delta: *offset_delta,
                    stack: *stack,
                }
            },
            StackMapFrame::ChopFrame { offset_delta, chopped } => {
                StackMapFrameView::ChopFrame { offset_delta: *offset_delta, chopped: *chopped }
            },
            StackMapFrame::SameFrameExtended(offset_delta) => {
                StackMapFrameView::SameFrameExtended(*offset_delta)
            },
            StackMapFrame::AppendFrame { offset_delta, locals } => {
                StackMapFrameView::AppendFrame {
                    offset_delta: *offset_delta,
                    locals: views(locals@),
                }
            },
            StackMapFrame::FullFrame { offset_delta, locals, stack } => {
                StackMapFrameView::FullFrame {
                    offset_delta: *offset_delta,
                    locals: views(locals@),
                    stack: views(stack@),
                }
            },
        }
    }
}

impl StackMapFrameView {
    /// The tag byte of the frame, where the numbers that it holds fit.
    pub open spec fn tag(self) -> u8 {
        match self {
            StackMapFrameView::SameFrame(offset_delta) => offset_delta,
            StackMapFrameView::SameLocals1Stack { offset_delta, .. } => (64 + offset_delta) as u8,
            StackMapFrameView::SameLocals1StackExtended { .. } => 247,
            StackMapFrameView::ChopFrame { chopped, .. } => (251 - chopped) as u8,
            StackMapFrameView::SameFrameExtended(_) => 251,
            StackMapFrameView::AppendFrame { locals, .. } => (251 + locals.len()) as u8,
            StackMapFrameView::FullFrame { .. } => 255,
        }
    }
}

impl Codec for StackMapFrame {
    open spec fn wf(m: StackMapFrameView) -> bool {
        match m {
            StackMapFrameView::SameFrame(offset_delta) => offset_delta <= 63,
            StackMapFrameView::SameLocals1Stack { offset_delta, .. } => offset_delta <= 63,
            StackMapFrameView::SameLocals1StackExtended { .. } => true,
            StackMapFrameView::ChopFrame { chopped, .. } => 1 <= chopped <= 3,
            StackMapFrameView::SameFrameExtended(_) => true,
            StackMapFrameView::AppendFrame { locals, .. } => 1 <= locals.len() <= 3,
            StackMapFrameView::FullFrame { locals, stack, .. } => {
                &&& locals.len() <= LenWidth::U16.limit()
                &&& stack.len() <= LenWidth::U16.limit()
            },
        }
    }

    open spec fn oversize(m: StackMapFrameView) -> Option<nat> {
        match m {
            StackMapFrameView::SameFrame(offset_delta) => if offset_delta > 63 {
                Some(offset_delta as nat)
            } else {
                None
            },
            StackMapFrameView::SameLocals1Stack { offset_delta, .. } => if offset_delta > 63 {
                Some(offset_delta as nat)
            } else {
                None
            },
            StackMapFrameView::SameLocals1StackExtended { .. } => None,
            StackMapFrameView::ChopFrame { chopped, .. } => if chopped > 3 {
                Some(chopped as nat)
            } else {
                None
            },
            StackMapFrameView::SameFrameExtended(_) => None,
            StackMapFrameView::AppendFrame { locals, .. } => if locals.len() > 3 {
                Some(locals.len())
            } else {
                None
            },
            StackMapFrameView::FullFrame { locals, stack, .. } => first_of(
                oversize_table::<VerificationTypeInfo>(LenWidth::U16, locals),
                oversize_table::<VerificationTypeInfo>(LenWidth::U16, stack),
            ),
        }
    }

    open spec fn encode(m: StackMapFrameView) -> Seq<u8> {
        match m {
            StackMapFrameView::SameFrame(_) => seq![m.tag()],
            StackMapFrameView::SameLocals1Stack { stack, .. } => seq![m.tag()]
                + VerificationTypeInfo::encode(stack),
            StackMapFrameView::SameLocals1StackExtended { offset_delta, stack } => seq![m.tag()]
                + u16_bytes(offset_delta) + VerificationTypeInfo::encode(stack),
            StackMapFrameView::ChopFrame { offset_delta, .. } => seq![m.tag()] + u16_bytes(
                offset_delta,
            ),
            StackMapFrameView::SameFrameExtended(offset_delta) => seq![m.tag()] + u16_bytes(
                offset_delta,
            ),
            StackMapFrameView::AppendFrame { offset_delta, locals } => seq![m.tag()] + u16_bytes(
                offset_delta,
            ) + encode_seq::<VerificationTypeInfo>(locals),
            StackMapFrameView::FullFrame { offset_delta, locals, stack } => seq![m.tag()]
                + u16_bytes(offset_delta) + encode_table::<VerificationTypeInfo>(
                LenWidth::U16,
                locals,
            ) + encode_table::<VerificationTypeInfo>(LenWidth::U16, stack),
        }
    }

    open spec fn decode(s: Seq<u8>, pos: int) -> Decoded<StackMapFrameView> {
        match u8::decode(s, pos) {
            Err(e) => Err(e),
            Ok((tag, p)) => if tag <= 63 {
                Ok((StackMapFrameView::SameFrame(tag), p))
            } else if tag <= 127 {
                match VerificationTypeInfo::decode(s, p) {
                    Err(e) => Err(e),
                    Ok((stack, next)) => Ok(
                        (
                            StackMapFrameView::SameLocals1Stack {
                                offset_delta: (tag - 64) as u8,
                                stack,
                            },
                            next,
                        ),
                    ),
                }
            } else if tag <= 246 {
                Err(ReadError::UnknownTag(tag, "StackMapFrame"))
            } else {
                match u16::decode(s, p) {
                    Err(e) => Err(e),
                    Ok((offset_delta, q)) => Self::decode_rest(s, q, tag, offset_delta),
                }
            },
        }
    }

    fn from_bytes(input: &[u8], pos: usize) -> (res: ReadResult<StackMapFrame>) {
        let ghost decoded = Self::decode(input@, pos as int);
        let (tag, pos) = u8::from_bytes(input, pos)?;
        if tag <= 63 {
            return Ok((StackMapFrame::SameFrame(tag), pos));
        }
        if tag <= 127 {
            let (stack, next) = VerificationTypeInfo::from_bytes(input, pos)?;
            return Ok((StackMapFrame::SameLocals1Stack { offset_delta: tag - 64, stack }, next));
        }
        if tag <= 246 {
            assert(decoded is Err);
            return Err(ReadError::UnknownTag(tag, "StackMapFrame"));
        }
        let (offset_delta, pos) = u16::from_bytes(input, pos)?;
        if tag == 247 {
            let (stack, next) = VerificationTypeInfo::from_bytes(input, pos)?;
            Ok((StackMapFrame::SameLocals1StackExtended { offset_delta, stack }, next))
        } else if tag <= 250 {
            Ok((StackMapFrame::ChopFrame { offset_delta, chopped: 251 - tag }, pos))
        } else if tag == 251 {
            Ok((StackMapFrame::SameFrameExtended(offset_delta), pos))
        } else if tag <= 254 {
            let (locals, next) = read_seq(input, pos, (tag - 251) as usize)?;
            Ok((StackMapFrame::AppendFrame { offset_delta, locals }, next))
        } else {
            let (locals, pos) = read_table(input, pos, LenWidth::U16)?;
            let (stack, next) = read_table(input, pos, LenWidth::U16)?;
            Ok((StackMapFrame::FullFrame { offset_delta, locals, stack }, next))
        }
    }

    fn to_bytes(&self, out: &mut Vec<u8>) -> (res: WriteResult) {
        let ghost m = self@;
        match self {
            StackMapFrame::SameFrame(offset_delta) => {
                if *offset_delta > 63 {
                    return Err(WriteError::TooLarge(*offset_delta as usize));
                }
                offset_delta.to_bytes(out)?;
            },
            StackMapFrame::SameLocals1Stack { offset_delta, stack } => {
                if *offset_delta > 63 {
                    return Err(WriteError::TooLarge(*offset_delta as usize));
                }
                (64 + *offset_delta).to_bytes(out)?;
                stack.to_bytes(out)?;
            },
            StackMapFrame::SameLocals1StackExtended { offset_delta, stack } => {
                247u8.to_bytes(out)?;
                offset_delta.to_bytes(out)?;
                stack.to_bytes(out)?;
            },
            StackMapFrame::ChopFrame { offset_delta, chopped } => {
                if *chopped > 3 {
                    return Err(WriteError::TooLarge(*chopped as usize));
                }
                (251 - *chopped).to_bytes(out)?;
                offset_delta.to_bytes(out)?;
            },
            StackMapFrame::SameFrameExtended(offset_delta) => {
                251u8.to_bytes(out)?;
                offset_delta.to_bytes(out)?;
            },
            StackMapFrame::AppendFrame { offset_delta, locals } => {
                if locals.len() > 3 {
                    return Err(WriteError::TooLarge(locals.len()));
                }
                (251 + locals.len() as u8).to_bytes(out)?;
                offset_delta.to_bytes(out)?;
                proof {
                    lemma_seq_fits::<VerificationTypeInfo>(views(locals@));
                }
                write_seq(locals, out)?;
            },
            StackMapFrame::FullFrame { offset_delta, locals, stack } => {
                255u8.to_bytes(out)?;
                offset_delta.to_bytes(out)?;
                write_table(locals, LenWidth::U16, out)?;
                write_table(stack, LenWidth::U16, out)?;
            },
        }
        assert(Self::oversize(m) is None);
        assert(out@ =~= old(out)@ + Self::encode(m));
        Ok(())
    }

    proof fn lemma_fits(m: StackMapFrameView) {
        assert(Self::wf(m));
        if let StackMapFrameView::FullFrame { locals, stack, .. } = m {
            lemma_seq_fits::<VerificationTypeInfo>(locals);
            lemma_seq_fits::<VerificationTypeInfo>(stack);
        }
        assert(Self::oversize(m) is None);
    }

    proof fn lemma_decode_encode(s: Seq<u8>, pos: int, m: StackMapFrameView) {
        assert(Self::wf(m));
        let tag = seq![m.tag()];
        match m {
            StackMapFrameView::SameFrame(_) => {
                u8::lemma_decode_encode(s, pos, m.tag());
            },
            StackMapFrameView::SameLocals1Stack { stack, .. } => {
                lemma_holds_split(s, pos, tag, VerificationTypeInfo::encode(stack));
                u8::lemma_decode_encode(s, pos, m.tag());
                VerificationTypeInfo::lemma_decode_encode(s, pos + 1, stack);
            },
            StackMapFrameView::SameLocals1StackExtended { offset_delta, stack } => {
                let e2 = u16_bytes(offset_delta);
                lemma_holds_split(s, pos, tag + e2, VerificationTypeInfo::encode(stack));
                lemma_holds_split(s, pos, tag, e2);
                u8::lemma_decode_encode(s, pos, m.tag());
                u16::lemma_decode_encode(s, pos + 1, offset_delta);
                VerificationTypeInfo::lemma_decode_encode(s, pos + 3, stack);
            },
            StackMapFrameView::ChopFrame { offset_delta, .. } => {
                lemma_holds_split(s, pos, tag, u16_bytes(offset_delta));
                u8::lemma_decode_encode(s, pos, m.tag());
                u16::lemma_decode_encode(s, pos + 1, offset_delta);
            },
            StackMapFrameView::SameFrameExtended(offset_delta) => {
                lemma_holds_split(s, pos, tag, u16_bytes(offset_delta));
                u8::lemma_decode_encode(s, pos, m.tag());
                u16::lemma_decode_encode(s, pos + 1, offset_delta);
            },
            StackMapFrameView::AppendFrame { offset_delta, locals } => {
                let e2 = u16_bytes(offset_delta);
                lemma_holds_split(s, pos, tag + e2, encode_seq::<VerificationTypeInfo>(locals));
                lemma_holds_split(s, pos, tag, e2);
                u8::lemma_decode_encode(s, pos, m.tag());
                u16::lemma_decode_encode(s, pos + 1, offset_delta);
                lemma_seq_decode_encode::<VerificationTypeInfo>(s, pos + 3, locals);
            },
            StackMapFrameView::FullFrame { offset_delta, locals, stack } => {
                let e2 = u16_bytes(offset_delta);
                let e3 = encode_table::<VerificationTypeInfo>(LenWidth::U16, locals);
                let e4 = encode_table::<VerificationTypeInfo>(LenWidth::U16, stack);
                lemma_holds_split(s, pos, tag + e2 + e3, e4);
                lemma_holds_split(s, pos, tag + e2, e3);
                lemma_holds_split(s, pos, tag, e2);
                u8::lemma_decode_encode(s, pos, m.tag());
                u16::lemma_decode_encode(s, pos + 1, offset_delta);
                lemma_table_decode_encode::<VerificationTypeInfo>(
                    s,
                    pos + 3,
                    LenWidth::U16,
                    locals,
                );
                lemma_table_decode_encode::<VerificationTypeInfo>(
                    s,
                    pos + 3 + e3.len(),
                    LenWidth::U16,
                    stack,
                );
            },
        }
        assert(Self::decode(s, pos) == Decoded::<StackMapFrameView>::Ok(
            (m, pos + Self::encode(m).len()),
        ));
    }

    proof fn lemma_encode_decode(s: Seq<u8>, pos: int) {
        if let Ok((m, next)) = Self::decode(s, pos) {
            u8::lemma_encode_decode(s, pos);
            let tag = s[pos];
            let p = pos + 1;
            if 64 <= tag <= 127 {
                VerificationTypeInfo::lemma_encode_decode(s, p);
                lemma_subrange_join(s, pos, p, next);
            } else if tag >= 247 {
                u16::lemma_encode_decode(s, p);
                let q = p + 2;
                lemma_subrange_join(s, pos, p, q);
                if tag == 247 {
                    VerificationTypeInfo::lemma_encode_decode(s, q);
                } else if 252 <= tag <= 254 {
                    lemma_seq_encode_decode::<VerificationTypeInfo>(s, q, (tag - 251) as nat);
                } else if tag == 255 {
                    lemma_table_encode_decode::<VerificationTypeInfo>(s, q, LenWidth::U16);
                    let mid = end_of(decode_table::<VerificationTypeInfo>(s, q, LenWidth::U16));
                    lemma_table_encode_decode::<VerificationTypeInfo>(s, mid, LenWidth::U16);
                    lemma_subrange_join(s, pos, q, mid);
                    lemma_subrange_join(s, pos, mid, next);
                }
                if tag == 247 || 252 <= tag <= 254 {
                    lemma_subrange_join(s, pos, q, next);
                }
            }
            assert(Self::wf(m));
            assert(Self::encode(m) == s.subrange(pos, next));
        }
    }
}

impl StackMapFrame {
    /// What follows the offset delta of a frame with a tag from 247 on.
    pub open spec fn decode_rest(s: Seq<u8>, pos: int, tag: u8, offset_delta: u16) -> Decoded<
        StackMapFrameView,
    > {
        if tag == 247 {
            match VerificationTypeInfo::decode(s, pos) {
                Err(e) => Err(e),
                Ok((stack, next)) => Ok(
                    (StackMapFrameView::SameLocals1StackExtended { offset_delta, stack }, next),
                ),
            }
        } else if tag <= 250 {
            Ok((StackMapFrameView::ChopFrame { offset_delta, chopped: (251 - tag) as u8 }, pos))
        } else if tag == 251 {
            Ok((StackMapFrameView::SameFrameExtended(offset_delta), pos))
        } else if tag <= 254 {
            match decode_seq::<VerificationTypeInfo>(s, pos, (tag - 251) as nat) {
                Err(e) => Err(e),
                Ok((locals, next)) => Ok(
                    (StackMapFrameView::AppendFrame { offset_delta, locals }, next),
                ),
            }
        } else {
            match decode_table::<VerificationTypeInfo>(s, pos, LenWidth::U16) {
                Err(e) => Err(e),
                Ok((locals, mid)) => match decode_table::<VerificationTypeInfo>(
                    s,
                    mid,
                    LenWidth::U16,
                ) {
                    Err(e) => Err(e),
                    Ok((stack, next)) => Ok(
                        (StackMapFrameView::FullFrame { offset_delta, locals, stack }, next),
                    ),
                },
            }
        }
    }
}

/// The `StackMapTable` attribute of a `Code` attribute.
#[derive(Debug, Clone, PartialEq, Eq, Hash)]
pub struct StackMapTable {
    /// The frames, in the order of their instructions.
    pub table: Vec<StackMapFrame>,
}

/// The model of a [`StackMapTable`]: its fields as mathematical values.
pub struct StackMapTableView {
    pub table: Seq<StackMapFrameView>,
}

impl View for StackMapTable {
    type V = StackMapTableView;

    open spec fn view(&self) -> StackMapTableView {
        StackMapTableView {
            table: views(self.table@),
        }
    }
}

impl Codec for StackMapTable {
    open spec fn wf(m: StackMapTableView) -> bool {
        wf_table::<StackMapFrame>(LenWidth::U16, m.table)
    }

    open spec fn oversize(m: StackMapTableView) -> Option<nat> {
        oversize_table::<StackMapFrame>(LenWidth::U16, m.table)
    }

    open spec fn encode(m: StackMapTableView) -> Seq<u8> {
        encode_table::<StackMapFrame>(LenWidth::U16, m.table)
    }

    open spec fn decode(s: Seq<u8>, pos: int) -> Decoded<StackMapTableView> {
        match decode_table::<StackMapFrame>(s, pos, LenWidth::U16) {
            Err(e) => Err(e),
            Ok((table, p1)) => Ok((StackMapTableView { table }, p1)),
        }
    }

    fn from_bytes(input: &[u8], pos: usize) -> (res: ReadResult<StackMapTable>) {
        let ghost decoded = Self::decode(input@, pos as int);
        let (table, pos) = read_table(input, pos, LenWidth::U16)?;
        assert(decoded is Ok);
        Ok((StackMapTable { table }, pos))
    }

    fn to_bytes(&self, out: &mut Vec<u8>) -> (res: WriteResult) {
        let ghost encoded = Self::encode(self@);
        let ghost over = Self::oversize(self@);
        write_table(&self.table, LenWidth::U16, out)?;
        assert(over is None);
        assert(out@ =~= old(out)@ + encoded);
        Ok(())
    }

    proof fn lemma_fits(m: StackMapTableView) {
        assert(Self::wf(m));
        lemma_table_fits::<StackMapFrame>(LenWidth::U16, m.table);
        assert(Self::oversize(m) is None);
    }

    proof fn lemma_decode_encode(s: Seq<u8>, pos: int, m: StackMapTableView) {
        assert(Self::wf(m));
        let e1 = encode_table::<StackMapFrame>(LenWidth::U16, m.table);
        lemma_table_decode_encode::<StackMapFrame>(s, pos, LenWidth::U16, m.table);
        assert(Self::decode(s, pos) == decoded(m, pos + Self::encode(m).len()));
    }

    proof fn lemma_encode_decode(s: Seq<u8>, pos: int) {
        if let Ok((m, next)) = Self::decode(s, pos) {
            let p1 = end_of(decode_table::<StackMapFrame>(s, pos, LenWidth::U16));
            lemma_table_encode_decode::<StackMapFrame>(s, pos, LenWidth::U16);
            assert(Self::wf(m));
            assert(Self::encode(m) == s.subrange(pos, next));
        }
    }
}

impl Attribute for StackMapTable {
    open spec fn attribute_name() -> Seq<char> {
        "StackMapTable"@
    }

    open spec fn parse(info: Seq<u8>) -> Option<StackMapTableView> {
        parse_with::<StackMapTable>(info)
    }

    fn from_attributes(attributes: &Attributes, cp: &ConstantPool) -> (res: Option<StackMapTable>) {
        decode_named(attributes, cp, "StackMapTable")
    }
}

} // verus!
