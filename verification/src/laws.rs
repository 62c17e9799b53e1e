//! What holds of the format as a whole: the laws that relate decoding and
//! encoding, stated over the specifications that the contracts of the
//! functions use.
use crate::attr::annotation::{
    ElementValueView, TAG_ANNOTATION, TAG_ARRAY, TAG_ENUM, const_value, decode_annotation,
    decode_pairs, decode_value, decode_values,
};
use crate::attr::stack_map::{StackMapFrame, StackMapFrameView, VerificationTypeInfo};
use crate::class::{AttributeInfo, ClassFile, ClassFileView};
use crate::codec::{
    Codec, Decoded, LenWidth, be16, decode_blob, decode_len, decode_seq, decode_table,
    lemma_holds_first, lemma_seq_encode_decode, u16_bytes, u32_bytes,
};
use crate::error::ReadError;
use crate::ops::MAGIC;
use crate::pool::{
    CPEntry, CPEntryView, CPIndex, CPType, ConstantPool, decode_constant_pool, encode_constant_pool,
};
use vstd::prelude::*;

verus! {

/// Round trip, from bytes: where a class file can be decoded, what was decoded
/// can be encoded, and its encoding is the bytes that were read. So a class
/// file that takes up all of `bytes` is encoded to `bytes` again.
pub proof fn lemma_decode_then_encode(bytes: Seq<u8>)
    ensures
        ClassFile::decode(bytes, 0) matches Ok((class, end)) ==> {
            &&& ClassFile::wf(class)
            &&& ClassFile::oversize(class) is None
            &&& 0 <= end <= bytes.len()
            &&& ClassFile::encode(class) == bytes.subrange(0, end)
            &&& end == bytes.len() ==> ClassFile::encode(class) == bytes
        },
{
    ClassFile::lemma_encode_decode(bytes, 0);
    if let Ok((class, end)) = ClassFile::decode(bytes, 0) {
        ClassFile::lemma_fits(class);
        if end == bytes.len() {
            assert(bytes.subrange(0, end) =~= bytes);
        }
    }
}

/// Round trip, from a value: the encoding of a well-formed class file is
/// decoded to the same class file, and nothing of the encoding is left over.
pub proof fn lemma_encode_then_decode(class: ClassFileView)
    requires
        ClassFile::wf(class),
    ensures
        ClassFile::oversize(class) is None,
        ClassFile::decode(ClassFile::encode(class), 0) == Decoded::<ClassFileView>::Ok(
            (class, ClassFile::encode(class).len() as int),
        ),
{
    let bytes = ClassFile::encode(class);
    ClassFile::lemma_fits(class);
    lemma_holds_first(bytes, Seq::empty());
    assert(bytes + Seq::<u8>::empty() =~= bytes);
    ClassFile::lemma_decode_encode(bytes, 0, class);
}

/// Two well-formed values with the same encoding are the same value, and so
/// are two of which one encoding starts with the other: no encoding is the
/// beginning of another.
pub proof fn lemma_encode_injective<T: Codec>(a: T::V, b: T::V, rest: Seq<u8>)
    requires
        T::wf(a),
        T::wf(b),
        T::encode(a) + rest == T::encode(b),
    ensures
        a == b,
        rest.len() == 0,
{
    let whole = T::encode(b);
    lemma_holds_first(T::encode(a), rest);
    lemma_holds_first(whole, Seq::empty());
    assert(whole + Seq::<u8>::empty() =~= whole);
    T::lemma_decode_encode(whole, 0, a);
    T::lemma_decode_encode(whole, 0, b);
}

/// The encoding of every class file starts with the bytes `CA FE BA BE`.
pub proof fn lemma_magic_first(class: ClassFileView)
    ensures
        ClassFile::encode(class).len() >= 4,
        ClassFile::encode(class).subrange(0, 4) == seq![0xCAu8, 0xFEu8, 0xBAu8, 0xBEu8],
{
    let magic = u32_bytes(MAGIC);
    assert(magic =~= seq![0xCAu8, 0xFEu8, 0xBAu8, 0xBEu8]);
    assert(ClassFile::encode(class).subrange(0, 4) =~= magic);
}

/// The count field of an encoded constant pool holds the number of entries
/// plus one.
pub proof fn lemma_pool_count(entries: Seq<CPEntryView>)
    requires
        entries.len() + 1 <= 0xffff,
    ensures
        encode_constant_pool(entries).len() >= 2,
        be16(encode_constant_pool(entries), 0) == entries.len() + 1,
{
    let count = (entries.len() + 1) as u16;
    let encoded = encode_constant_pool(entries);
    assert(encoded[0] == u16_bytes(count)[0]);
    assert(encoded[1] == u16_bytes(count)[1]);
}

/// A constant pool that was decoded has one entry fewer than its count
/// field says.
pub proof fn lemma_pool_count_read(s: Seq<u8>, pos: int)
    ensures
        decode_constant_pool(s, pos) matches Ok((entries, _)) ==> entries.len() + 1 == be16(s, pos),
{
    if let Ok((entries, _)) = decode_constant_pool(s, pos) {
        lemma_seq_encode_decode::<CPEntry>(
            s,
            pos + 2,
            (be16(s, pos) - 1) as nat,
        );
    }
}

/// Looking an index up yields a view exactly if the index lies within the
/// pool and the entry that it names is of a kind that `T` admits.
pub proof fn lemma_index_sound<'a, T: CPType<'a>>(pool: &'a ConstantPool, index: CPIndex<T>)
    ensures
        pool.spec_index(index) is Some <==> {
            &&& 1 <= index.index <= pool.entries@.len()
            &&& T::admits(pool.entries@[index.index - 1].spec_tag())
        },
{
    if 1 <= index.index <= pool.entries@.len() {
        T::lemma_fetch_admits(&pool.entries@[index.index - 1]);
    }
}

/// An optional index is absent exactly where the wire holds 0, in both
/// directions: 0 is decoded to none, and none alone is encoded as 0.
pub proof fn lemma_zero_is_none<T>(s: Seq<u8>, pos: int, m: Option<CPIndex<T>>)
    ensures
        CPIndex::<T>::decode_non_zero(s, pos) matches Ok((v, _)) ==> (v is None <==> be16(s, pos)
            == 0),
        CPIndex::<T>::wf_non_zero(m) ==> (m is None <==> CPIndex::<T>::encode_non_zero(m)
            == u16_bytes(0)),
{
    if let Some(i) = m {
        if i.index != 0 {
            assert(u16_bytes(i.index)[0] != 0 || u16_bytes(i.index)[1] != 0);
            assert(u16_bytes(0)[0] == 0 && u16_bytes(0)[1] == 0);
        }
    }
}

/// An attribute passes through untouched, whatever its name: its payload is
/// the bytes behind its name and length, and its encoding is the bytes that
/// were read.
pub proof fn lemma_attribute_passthrough(s: Seq<u8>, pos: int)
    ensures
        AttributeInfo::decode(s, pos) matches Ok((attr, next)) ==> {
            &&& 0 <= pos && pos + 6 <= next <= s.len()
            &&& attr.attribute_name_index.index == be16(s, pos)
            &&& attr.info == s.subrange(pos + 6, next)
            &&& AttributeInfo::encode(attr) == s.subrange(pos, next)
        },
{
    AttributeInfo::lemma_encode_decode(s, pos);
    if let Ok((attr, next)) = AttributeInfo::decode(s, pos) {
        assert(decode_blob(s, pos + 2, LenWidth::U32) is Ok);
    }
}

/// Every tag byte selects at most one kind of frame: a frame that was
/// decoded has the tag that was read, the tag decides its variant, and the
/// tags from 128 to 246 select none.
pub proof fn lemma_frame_tags(s: Seq<u8>, pos: int)
    requires
        0 <= pos < s.len(),
    ensures
        128 <= s[pos] <= 246 <==> StackMapFrame::decode(s, pos) == Decoded::<
            StackMapFrameView,
        >::Err(ReadError::UnknownTag(s[pos], "StackMapFrame")),
        StackMapFrame::decode(s, pos) matches Ok((frame, _)) ==> {
            &&& frame.tag() == s[pos]
            &&& StackMapFrame::wf(frame)
            &&& s[pos] <= 63 <==> frame is SameFrame
            &&& 64 <= s[pos] <= 127 <==> frame is SameLocals1Stack
            &&& s[pos] == 247 <==> frame is SameLocals1StackExtended
            &&& 248 <= s[pos] <= 250 <==> frame is ChopFrame
            &&& s[pos] == 251 <==> frame is SameFrameExtended
            &&& 252 <= s[pos] <= 254 <==> frame is AppendFrame
            &&& s[pos] == 255 <==> frame is FullFrame
        },
{
    StackMapFrame::lemma_encode_decode(s, pos);
    if !(128 <= s[pos] <= 246) {
        lemma_frame_errors(s, pos);
    }
    if let Ok((frame, _)) = StackMapFrame::decode(s, pos) {
        if 252 <= s[pos] <= 254 {
            lemma_seq_encode_decode::<VerificationTypeInfo>(
                s,
                pos + 3,
                (s[pos] - 251) as nat,
            );
        }
    }
}

/// A frame with a tag that selects a kind does not fail for its tag: what
/// fails in it is the input's end or a verification type.
proof fn lemma_frame_errors(s: Seq<u8>, pos: int)
    requires
        0 <= pos < s.len(),
        !(128 <= s[pos] <= 246),
    ensures
        StackMapFrame::decode(s, pos) matches Err(ReadError::UnknownTag(_, context)) ==> context@
            != "StackMapFrame"@,
{
    reveal_strlit("StackMapFrame");
    reveal_strlit("VerificationTypeInfo");
    if let Err(ReadError::UnknownTag(tag, context)) = StackMapFrame::decode(s, pos) {
        let t = s[pos];
        if 64 <= t <= 127 || t == 247 {
            let at = if t == 247 {
                pos + 3
            } else {
                pos + 1
            };
            assert(VerificationTypeInfo::decode(s, at) is Err);
        } else if 252 <= t <= 254 {
            lemma_types_errors(s, pos + 3, (t - 251) as nat);
        } else if t == 255 {
            lemma_table_errors(s, pos + 3);
            if let Ok((_, mid)) = decode_table::<VerificationTypeInfo>(s, pos + 3, LenWidth::U16) {
                lemma_table_errors(s, mid);
            }
        }
        assert(context@ == "VerificationTypeInfo"@);
    }
}

/// A sequence of verification types fails for its tag only with the name of
/// the verification types.
proof fn lemma_types_errors(s: Seq<u8>, pos: int, count: nat)
    ensures
        decode_seq::<VerificationTypeInfo>(s, pos, count) matches Err(
            ReadError::UnknownTag(_, context),
        ) ==> context@ == "VerificationTypeInfo"@,
    decreases count,
{
    if count > 0 {
        if let Ok((_, next)) = VerificationTypeInfo::decode(s, pos) {
            lemma_types_errors(s, next, (count - 1) as nat);
        }
    }
}

/// A table of verification types fails for its tag only with the name of
/// the verification types.
proof fn lemma_table_errors(s: Seq<u8>, pos: int)
    ensures
        decode_table::<VerificationTypeInfo>(s, pos, LenWidth::U16) matches Err(
            ReadError::UnknownTag(_, context),
        ) ==> context@ == "VerificationTypeInfo"@,
{
    if let Ok((count, start)) = decode_len(s, pos, LenWidth::U16) {
        lemma_types_errors(s, start, count);
    }
}

/// Whether a byte is one of the thirteen tags of element values.
pub open spec fn is_value_tag(tag: u8) -> bool {
    ||| const_value(tag, 0) is Some
    ||| tag == TAG_ENUM
    ||| tag == TAG_ANNOTATION
    ||| tag == TAG_ARRAY
}

/// The thirteen tags are all there are: an element value that was decoded
/// has the tag that was read, which is one of them, and any other byte is an
/// unknown tag.
pub proof fn lemma_value_tags(s: Seq<u8>, pos: int)
    requires
        0 <= pos < s.len(),
    ensures
        !is_value_tag(s[pos]) <==> decode_value(s, pos) == Decoded::<ElementValueView>::Err(
            ReadError::UnknownTag(s[pos], "ElementValue"),
        ),
        decode_value(s, pos) matches Ok((value, _)) ==> value.tag() == s[pos] && is_value_tag(
            s[pos],
        ),
{
    lemma_value_errors(s, pos);
}

/// Where decoding an element value fails for a tag, the tag is none of the
/// thirteen, however deep in the value it stands.
proof fn lemma_value_errors(s: Seq<u8>, pos: int)
    ensures
        decode_value(s, pos) matches Err(ReadError::UnknownTag(tag, _)) ==> !is_value_tag(tag),
    decreases s.len() - pos, 0nat,
{
    if let Ok((tag, p)) = u8::decode(s, pos) {
        if tag == TAG_ANNOTATION {
            lemma_annotation_errors(s, p);
        } else if tag == TAG_ARRAY {
            if let Ok((count, q)) = u16::decode(s, p) {
                lemma_values_errors(s, q, count as nat);
            }
        }
    }
}

/// Where decoding a sequence of element values fails for a tag, the tag is
/// none of the thirteen.
proof fn lemma_values_errors(s: Seq<u8>, pos: int, count: nat)
    ensures
        decode_values(s, pos, count) matches Err(ReadError::UnknownTag(tag, _)) ==> !is_value_tag(
            tag,
        ),
    decreases s.len() - pos, count,
{
    if count > 0 {
        lemma_value_errors(s, pos);
        if let Ok((_, next)) = decode_value(s, pos) {
            if pos < next <= s.len() {
                lemma_values_errors(s, next, (count - 1) as nat);
            }
        }
    }
}

/// Where decoding an annotation fails for a tag, the tag is none of the
/// thirteen.
proof fn lemma_annotation_errors(s: Seq<u8>, pos: int)
    ensures
        decode_annotation(s, pos) matches Err(ReadError::UnknownTag(tag, _)) ==> !is_value_tag(
            tag,
        ),
    decreases s.len() - pos, 0nat,
{
    if let Ok((_, p)) = u16::decode(s, pos) {
        if let Ok((count, q)) = u16::decode(s, p) {
            lemma_pairs_errors(s, q, count as nat);
        }
    }
}

/// Where decoding the elements of an annotation fails for a tag, the tag is
/// none of the thirteen.
proof fn lemma_pairs_errors(s: Seq<u8>, pos: int, count: nat)
    ensures
        decode_pairs(s, pos, count) matches Err(ReadError::UnknownTag(tag, _)) ==> !is_value_tag(
            tag,
        ),
    decreases s.len() - pos, count,
{
    if count > 0 {
        if let Ok((_, p)) = u16::decode(s, pos) {
            lemma_value_errors(s, p);
            if let Ok((_, next)) = decode_value(s, p) {
                if pos < next <= s.len() {
                    lemma_pairs_errors(s, next, (count - 1) as nat);
                }
            }
        }
    }
}

} // verus!
