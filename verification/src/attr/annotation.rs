//! Annotations: the attributes that hold them and the values of their
//! elements, which nest.
use crate::attr::{Attribute, decode_named, parse_with};
use crate::class::Attributes;
use crate::codec::{
    Codec, Decoded, LenWidth, be16, decode_table, decoded, encode_table, end_of, extends, first_of,
    holds_at, lemma_extends_after, lemma_holds_split, lemma_subrange_join,
    lemma_table_decode_encode, lemma_table_encode_decode, lemma_table_fits, oversize_table, prepend,
    read_table, u16_bytes, views, wf_table, write_table,
};
use crate::error::{ReadError, ReadResult, WriteError, WriteResult};
use crate::pool::{CPIndex, ConstantPool, DoubleInfo, FloatInfo, IntegerInfo, LongInfo, UTF8Info};
use vstd::prelude::*;

verus! {

/// An annotation: its type and the values of its elements.
#[derive(Debug, PartialEq, Eq, Hash)]
pub struct Annotation {
    /// The descriptor of the annotation type.
    pub type_index: CPIndex<UTF8Info>,
    /// The elements of the annotation, each with its value.
    pub element_value_pairs: Vec<ElementValuePair>,
}

/// An element of an annotation and its value.
#[derive(Debug, PartialEq, Eq, Hash)]
pub struct ElementValuePair {
    /// The name of the element.
    pub element_name_index: CPIndex<UTF8Info>,
    /// The value of the element.
    pub value: ElementValue,
}

/// The value of an element of an annotation. On the wire a value is a tag,
/// an ASCII character that names its kind, and then what the kind holds.
#[derive(Debug, PartialEq, Eq, Hash)]
#[allow(inconsistent_fields)]
pub enum ElementValue {
    /// Tag `B`: a `byte`.
    Byte(CPIndex<IntegerInfo>),
    /// Tag `C`: a `char`.
    Char(CPIndex<IntegerInfo>),
    /// Tag `D`: a `double`.
    Double(CPIndex<DoubleInfo>),
    /// Tag `F`: a `float`.
    Float(CPIndex<FloatInfo>),
    /// Tag `I`: an `int`.
    Integer(CPIndex<IntegerInfo>),
    /// Tag `J`: a `long`.
    Long(CPIndex<LongInfo>),
    /// Tag `S`: a `short`.
    Short(CPIndex<IntegerInfo>),
    /// Tag `Z`: a `boolean`.
    Boolean(CPIndex<IntegerInfo>),
    /// Tag `s`: a string.
    String(CPIndex<UTF8Info>),
    /// Tag `e`: a constant of an enum type.
    Enum {
        /// The descriptor of the enum type.
        type_name_index: CPIndex<UTF8Info>,
        /// The simple name of the constant.
        const_name_index: CPIndex<UTF8Info>,
    },
    /// Tag `c`: a class, by its return descriptor.
    Class(CPIndex<UTF8Info>),
    /// Tag `@`: an annotation.
    Annotation(Annotation),
    /// Tag `[`: an array of values.
    Array(Vec<ElementValue>),
}

/// The model of an [`Annotation`].
pub struct AnnotationView {
    pub type_index: CPIndex<UTF8Info>,
    pub element_value_pairs: Seq<ElementValuePairView>,
}

/// The model of an [`ElementValuePair`].
pub struct ElementValuePairView {
    pub element_name_index: CPIndex<UTF8Info>,
    pub value: ElementValueView,
}

/// The model of an [`ElementValue`].
#[allow(inconsistent_fields)]
pub enum ElementValueView {
    Byte(CPIndex<IntegerInfo>),
    Char(CPIndex<IntegerInfo>),
    Double(CPIndex<DoubleInfo>),
    Float(CPIndex<FloatInfo>),
    Integer(CPIndex<IntegerInfo>),
    Long(CPIndex<LongInfo>),
    Short(CPIndex<IntegerInfo>),
    Boolean(CPIndex<IntegerInfo>),
    String(CPIndex<UTF8Info>),
    Enum { type_name_index: CPIndex<UTF8Info>, const_name_index: CPIndex<UTF8Info> },
    Class(CPIndex<UTF8Info>),
    Annotation(AnnotationView),
    Array(Seq<ElementValueView>),
}

/// The model of an element value.
pub open spec fn value_view(v: ElementValue) -> ElementValueView
    decreases v,
{
    match v {
        ElementValue::Byte(index) => ElementValueView::Byte(index),
        ElementValue::Char(index) => ElementValueView::Char(index),
        ElementValue::Double(index) => ElementValueView::Double(index),
        ElementValue::Float(index) => ElementValueView::Float(index),
        ElementValue::Integer(index) => ElementValueView::Integer(index),
        ElementValue::Long(index) => ElementValueView::Long(index),
        ElementValue::Short(index) => ElementValueView::Short(index),
        ElementValue::Boolean(index) => ElementValueView::Boolean(index),
        ElementValue::String(index) => ElementValueView::String(index),
        ElementValue::Enum { type_name_index, const_name_index } => ElementValueView::Enum {
            type_name_index,
            const_name_index,
        },
        ElementValue::Class(index) => ElementValueView::Class(index),
        ElementValue::Annotation(annotation) => ElementValueView::Annotation(
            annotation_view(annotation),
        ),
        ElementValue::Array(items) => ElementValueView::Array(
            Seq::new(
                items@.len(),
                |i: int|
                    if 0 <= i < items@.len() {
                        value_view(items@[i])
                    } else {
                        arbitrary()
                    },
            ),
        ),
    }
}

/// The model of an annotation.
pub open spec fn annotation_view(a: Annotation) -> AnnotationView
    decreases a,
{
    AnnotationView {
        type_index: a.type_index,
        element_value_pairs: Seq::new(
            a.element_value_pairs@.len(),
            |i: int|
                if 0 <= i < a.element_value_pairs@.len() {
                    pair_view(a.element_value_pairs@[i])
                } else {
                    arbitrary()
                },
        ),
    }
}

/// The model of an element with its value.
pub open spec fn pair_view(p: ElementValuePair) -> ElementValuePairView
    decreases p,
{
    ElementValuePairView {
        element_name_index: p.element_name_index,
        value: value_view(p.value),
    }
}

impl View for ElementValue {
    type V = ElementValueView;

    open spec fn view(&self) -> ElementValueView {
        value_view(*self)
    }
}

impl View for Annotation {
    type V = AnnotationView;

    open spec fn view(&self) -> AnnotationView {
        annotation_view(*self)
    }
}

impl View for ElementValuePair {
    type V = ElementValuePairView;

    open spec fn view(&self) -> ElementValuePairView {
        pair_view(*self)
    }
}

/// The model of an array of values is the models of its values.
pub proof fn lemma_array_view(items: Vec<ElementValue>)
    ensures
        value_view(ElementValue::Array(items)) == ElementValueView::Array(views(items@)),
{
    let array = value_view(ElementValue::Array(items))->Array_0;
    assert(array =~= views(items@));
}

/// The model of an annotation holds the models of its elements.
pub proof fn lemma_annotation_view(a: Annotation)
    ensures
        a@ == (AnnotationView {
            type_index: a.type_index,
            element_value_pairs: views(a.element_value_pairs@),
        }),
{
    assert(a@.element_value_pairs =~= views(a.element_value_pairs@));
}

/// The tag of a `byte` value.
pub const TAG_BYTE: u8 = 66;

/// The tag of a `char` value.
pub const TAG_CHAR: u8 = 67;

/// The tag of a `double` value.
pub const TAG_DOUBLE: u8 = 68;

/// The tag of a `float` value.
pub const TAG_FLOAT: u8 = 70;

/// The tag of an `int` value.
pub const TAG_INT: u8 = 73;

/// The tag of a `long` value.
pub const TAG_LONG: u8 = 74;

/// The tag of a `short` value.
pub const TAG_SHORT: u8 = 83;

/// The tag of a `boolean` value.
pub const TAG_BOOLEAN: u8 = 90;

/// The tag of a string value.
pub const TAG_STRING: u8 = 115;

/// The tag of an enum constant.
pub const TAG_ENUM: u8 = 101;

/// The tag of a class value.
pub const TAG_CLASS: u8 = 99;

/// The tag of a nested annotation.
pub const TAG_ANNOTATION: u8 = 64;

/// The tag of an array of values.
pub const TAG_ARRAY: u8 = 91;

impl ElementValueView {
    /// The tag that selects the variant.
    pub open spec fn tag(self) -> u8 {
        match self {
            ElementValueView::Byte(_) => TAG_BYTE,
            ElementValueView::Char(_) => TAG_CHAR,
            ElementValueView::Double(_) => TAG_DOUBLE,
            ElementValueView::Float(_) => TAG_FLOAT,
            ElementValueView::Integer(_) => TAG_INT,
            ElementValueView::Long(_) => TAG_LONG,
            ElementValueView::Short(_) => TAG_SHORT,
            ElementValueView::Boolean(_) => TAG_BOOLEAN,
            ElementValueView::String(_) => TAG_STRING,
            ElementValueView::Enum { .. } => TAG_ENUM,
            ElementValueView::Class(_) => TAG_CLASS,
            ElementValueView::Annotation(_) => TAG_ANNOTATION,
            ElementValueView::Array(_) => TAG_ARRAY,
        }
    }

    /// The index of a value that is a constant, a string or a class.
    pub open spec fn const_index(self) -> u16 {
        match self {
            ElementValueView::Byte(index) => index.index,
            ElementValueView::Char(index) => index.index,
            ElementValueView::Double(index) => index.index,
            ElementValueView::Float(index) => index.index,
            ElementValueView::Integer(index) => index.index,
            ElementValueView::Long(index) => index.index,
            ElementValueView::Short(index) => index.index,
            ElementValueView::Boolean(index) => index.index,
            ElementValueView::String(index) => index.index,
            ElementValueView::Class(index) => index.index,
            _ => 0,
        }
    }
}

/// The value with the given tag and index, for the tags of constants,
/// strings and classes.
pub open spec fn const_value(tag: u8, index: u16) -> Option<ElementValueView> {
    if tag == TAG_BYTE {
        Some(ElementValueView::Byte(CPIndex::at(index)))
    } else if tag == TAG_CHAR {
        Some(ElementValueView::Char(CPIndex::at(index)))
    } else if tag == TAG_DOUBLE {
        Some(ElementValueView::Double(CPIndex::at(index)))
    } else if tag == TAG_FLOAT {
        Some(ElementValueView::Float(CPIndex::at(index)))
    } else if tag == TAG_INT {
        Some(ElementValueView::Integer(CPIndex::at(index)))
    } else if tag == TAG_LONG {
        Some(ElementValueView::Long(CPIndex::at(index)))
    } else if tag == TAG_SHORT {
        Some(ElementValueView::Short(CPIndex::at(index)))
    } else if tag == TAG_BOOLEAN {
        Some(ElementValueView::Boolean(CPIndex::at(index)))
    } else if tag == TAG_STRING {
        Some(ElementValueView::String(CPIndex::at(index)))
    } else if tag == TAG_CLASS {
        Some(ElementValueView::Class(CPIndex::at(index)))
    } else {
        None
    }
}

// -- well-formedness ---------------------------------------------------------

/// Every count of the value fits in 16 bits.
pub open spec fn wf_value(m: ElementValueView) -> bool
    decreases m,
{
    match m {
        ElementValueView::Annotation(annotation) => wf_annotation(annotation),
        ElementValueView::Array(items) => {
            &&& items.len() <= 0xffff
            &&& forall|i: int| 0 <= i < items.len() ==> wf_value(#[trigger] items[i])
        },
        _ => true,
    }
}

/// Every count of the annotation fits in 16 bits.
pub open spec fn wf_annotation(m: AnnotationView) -> bool
    decreases m,
{
    &&& m.element_value_pairs.len() <= 0xffff
    &&& forall|i: int|
        0 <= i < m.element_value_pairs.len() ==> wf_value(
            (#[trigger] m.element_value_pairs[i]).value,
        )
}

// -- what does not fit -------------------------------------------------------

/// The first count of the value, in encoding order, that does not fit in 16
/// bits.
pub open spec fn oversize_value(m: ElementValueView) -> Option<nat>
    decreases m,
{
    match m {
        ElementValueView::Annotation(annotation) => oversize_annotation(annotation),
        ElementValueView::Array(items) => if items.len() > 0xffff {
            Some(items.len())
        } else {
            oversize_values(items)
        },
        _ => None,
    }
}

/// The first count of the values that does not fit in 16 bits.
pub open spec fn oversize_values(items: Seq<ElementValueView>) -> Option<nat>
    decreases items,
{
    if items.len() == 0 {
        None
    } else {
        first_of(oversize_value(items[0]), oversize_values(items.skip(1)))
    }
}

/// The first count of the annotation that does not fit in 16 bits.
pub open spec fn oversize_annotation(m: AnnotationView) -> Option<nat>
    decreases m,
{
    if m.element_value_pairs.len() > 0xffff {
        Some(m.element_value_pairs.len())
    } else {
        oversize_pairs(m.element_value_pairs)
    }
}

/// The first count of the values of the elements that does not fit in 16
/// bits.
pub open spec fn oversize_pairs(pairs: Seq<ElementValuePairView>) -> Option<nat>
    decreases pairs,
{
    if pairs.len() == 0 {
        None
    } else {
        first_of(oversize_value(pairs[0].value), oversize_pairs(pairs.skip(1)))
    }
}

// -- encoding ----------------------------------------------------------------

/// The wire format of a value: its tag, then an index, two indices, an
/// annotation, or a count and that many values.
pub open spec fn encode_value(m: ElementValueView) -> Seq<u8>
    decreases m,
{
    match m {
        ElementValueView::Enum { type_name_index, const_name_index } => seq![m.tag()]
            + u16_bytes(type_name_index.index) + u16_bytes(const_name_index.index),
        ElementValueView::Annotation(annotation) => seq![m.tag()] + encode_annotation(annotation),
        ElementValueView::Array(items) => seq![m.tag()] + u16_bytes(items.len() as u16)
            + encode_values(items),
        _ => seq![m.tag()] + u16_bytes(m.const_index()),
    }
}

/// The encodings of the values, one behind the other.
pub open spec fn encode_values(items: Seq<ElementValueView>) -> Seq<u8>
    decreases items,
{
    if items.len() == 0 {
        Seq::empty()
    } else {
        encode_value(items[0]) + encode_values(items.skip(1))
    }
}

/// The wire format of an annotation: its type, the number of its elements,
/// then the elements.
pub open spec fn encode_annotation(m: AnnotationView) -> Seq<u8>
    decreases m,
{
    u16_bytes(m.type_index.index) + u16_bytes(m.element_value_pairs.len() as u16) + encode_pairs(
        m.element_value_pairs,
    )
}

/// The wire format of an element with its value: the name, then the value.
pub open spec fn encode_pair(m: ElementValuePairView) -> Seq<u8>
    decreases m,
{
    u16_bytes(m.element_name_index.index) + encode_value(m.value)
}

/// The encodings of the elements, one behind the other.
pub open spec fn encode_pairs(pairs: Seq<ElementValuePairView>) -> Seq<u8>
    decreases pairs,
{
    if pairs.len() == 0 {
        Seq::empty()
    } else {
        encode_pair(pairs[0]) + encode_pairs(pairs.skip(1))
    }
}

// -- decoding ----------------------------------------------------------------

/// The value that stands at `pos`. A tag that is none of the thirteen is an
/// unknown tag.
pub open spec fn decode_value(s: Seq<u8>, pos: int) -> Decoded<ElementValueView>
    decreases s.len() - pos, 0nat,
{
    match u8::decode(s, pos) {
        Err(e) => Err(e),
        Ok((tag, p)) => if tag == TAG_ENUM {
            match u16::decode(s, p) {
                Err(e) => Err(e),
                Ok((enum_type, q)) => match u16::decode(s, q) {
                    Err(e) => Err(e),
                    Ok((enum_const, next)) => Ok(
                        (
                            ElementValueView::Enum {
                                type_name_index: CPIndex::at(enum_type),
                                const_name_index: CPIndex::at(enum_const),
                            },
                            next,
                        ),
                    ),
                },
            }
        } else if tag == TAG_ANNOTATION {
            match decode_annotation(s, p) {
                Err(e) => Err(e),
                Ok((annotation, next)) => Ok((ElementValueView::Annotation(annotation), next)),
            }
        } else if tag == TAG_ARRAY {
            match u16::decode(s, p) {
                Err(e) => Err(e),
                Ok((count, q)) => match decode_values(s, q, count as nat) {
                    Err(e) => Err(e),
                    Ok((items, next)) => Ok((ElementValueView::Array(items), next)),
                },
            }
        } else if const_value(tag, 0) is Some {
            match u16::decode(s, p) {
                Err(e) => Err(e),
                Ok((index, next)) => Ok((const_value(tag, index)->Some_0, next)),
            }
        } else {
            Err(ReadError::UnknownTag(tag, "ElementValue"))
        },
    }
}

/// The `count` values that stand one behind the other from `pos` on.
///
/// A value takes at least its tag byte; the test on `next` states this where
/// the definition needs it to be seen to end.
pub open spec fn decode_values(s: Seq<u8>, pos: int, count: nat) -> Decoded<
    Seq<ElementValueView>,
>
    decreases s.len() - pos, count,
{
    if count == 0 {
        Ok((Seq::empty(), pos))
    } else {
        match decode_value(s, pos) {
            Err(e) => Err(e),
            Ok((first, next)) => if pos < next <= s.len() {
                match decode_values(s, next, (count - 1) as nat) {
                    Err(e) => Err(e),
                    Ok((rest, end)) => Ok((seq![first] + rest, end)),
                }
            } else {
                Err(ReadError::UnexpectedEof)
            },
        }
    }
}

/// The annotation that stands at `pos`.
pub open spec fn decode_annotation(s: Seq<u8>, pos: int) -> Decoded<AnnotationView>
    decreases s.len() - pos, 0nat,
{
    match u16::decode(s, pos) {
        Err(e) => Err(e),
        Ok((type_index, p)) => match u16::decode(s, p) {
            Err(e) => Err(e),
            Ok((count, q)) => match decode_pairs(s, q, count as nat) {
                Err(e) => Err(e),
                Ok((element_value_pairs, next)) => Ok(
                    (
                        AnnotationView { type_index: CPIndex::at(type_index), element_value_pairs },
                        next,
                    ),
                ),
            },
        },
    }
}

/// The element with its value that stands at `pos`.
pub open spec fn decode_pair(s: Seq<u8>, pos: int) -> Decoded<ElementValuePairView>
    decreases s.len() - pos, 0nat,
{
    match u16::decode(s, pos) {
        Err(e) => Err(e),
        Ok((name, p)) => match decode_value(s, p) {
            Err(e) => Err(e),
            Ok((value, next)) => Ok(
                (ElementValuePairView { element_name_index: CPIndex::at(name), value }, next),
            ),
        },
    }
}

/// The `count` elements that stand one behind the other from `pos` on.
///
/// An element takes at least the two bytes of its name; the test on `next`
/// states this where the definition needs it to be seen to end.
pub open spec fn decode_pairs(s: Seq<u8>, pos: int, count: nat) -> Decoded<
    Seq<ElementValuePairView>,
>
    decreases s.len() - pos, count,
{
    if count == 0 {
        Ok((Seq::empty(), pos))
    } else {
        match u16::decode(s, pos) {
            Err(e) => Err(e),
            Ok((name, p)) => match decode_value(s, p) {
                Err(e) => Err(e),
                Ok((value, next)) => if pos < next <= s.len() {
                    match decode_pairs(s, next, (count - 1) as nat) {
                        Err(e) => Err(e),
                        Ok((rest, end)) => Ok(
                            (
                                seq![
                                    ElementValuePairView {
                                        element_name_index: CPIndex::at(name),
                                        value,
                                    },
                                ] + rest,
                                end,
                            ),
                        ),
                    }
                } else {
                    Err(ReadError::UnexpectedEof)
                },
            },
        }
    }
}

// -- reading -----------------------------------------------------------------

/// The value with the given tag, which is one of a constant, a string or a
/// class, and the given index.
fn const_element(tag: u8, index: u16) -> (res: ElementValue)
    requires
        const_value(tag, 0) is Some,
    ensures
        const_value(tag, index) == Some(res@),
{
    if tag == TAG_BYTE {
        ElementValue::Byte(CPIndex::new(index))
    } else if tag == TAG_CHAR {
        ElementValue::Char(CPIndex::new(index))
    } else if tag == TAG_DOUBLE {
        ElementValue::Double(CPIndex::new(index))
    } else if tag == TAG_FLOAT {
        ElementValue::Float(CPIndex::new(index))
    } else if tag == TAG_INT {
        ElementValue::Integer(CPIndex::new(index))
    } else if tag == TAG_LONG {
        ElementValue::Long(CPIndex::new(index))
    } else if tag == TAG_SHORT {
        ElementValue::Short(CPIndex::new(index))
    } else if tag == TAG_BOOLEAN {
        ElementValue::Boolean(CPIndex::new(index))
    } else if tag == TAG_STRING {
        ElementValue::String(CPIndex::new(index))
    } else {
        ElementValue::Class(CPIndex::new(index))
    }
}

/// Whether the tag is one of a constant, a string or a class.
fn is_const_tag(tag: u8) -> (res: bool)
    ensures
        res == const_value(tag, 0) is Some,
{
    tag == TAG_BYTE || tag == TAG_CHAR || tag == TAG_DOUBLE || tag == TAG_FLOAT || tag == TAG_INT
        || tag == TAG_LONG || tag == TAG_SHORT || tag == TAG_BOOLEAN || tag == TAG_STRING || tag
        == TAG_CLASS
}

/// Reads the value of an element.
pub fn read_value(input: &[u8], pos: usize) -> (res: ReadResult<ElementValue>)
    ensures
        match res {
            Ok((v, next)) => {
                &&& decode_value(input@, pos as int) == Decoded::<ElementValueView>::Ok(
                    (v@, next as int),
                )
                &&& pos < next <= input@.len()
            },
            Err(e) => decode_value(input@, pos as int) == Decoded::<ElementValueView>::Err(e),
        },
    decreases input@.len() - pos, 0nat,
{
    let (tag, p) = u8::from_bytes(input, pos)?;
    if tag == TAG_ENUM {
        let (enum_type, q) = u16::from_bytes(input, p)?;
        let (enum_const, next) = u16::from_bytes(input, q)?;
        Ok(
            (
                ElementValue::Enum {
                    type_name_index: CPIndex::new(enum_type),
                    const_name_index: CPIndex::new(enum_const),
                },
                next,
            ),
        )
    } else if tag == TAG_ANNOTATION {
        let (annotation, next) = read_annotation(input, p)?;
        Ok((ElementValue::Annotation(annotation), next))
    } else if tag == TAG_ARRAY {
        let (count, q) = u16::from_bytes(input, p)?;
        let (items, next) = read_values(input, q, count as usize)?;
        proof {
            lemma_array_view(items);
        }
        Ok((ElementValue::Array(items), next))
    } else if is_const_tag(tag) {
        let (index, next) = u16::from_bytes(input, p)?;
        Ok((const_element(tag, index), next))
    } else {
        Err(ReadError::UnknownTag(tag, "ElementValue"))
    }
}

/// Reads `count` values that stand one behind the other.
fn read_values(input: &[u8], pos: usize, count: usize) -> (res: ReadResult<Vec<ElementValue>>)
    requires
        pos <= input@.len(),
    ensures
        match res {
            Ok((v, next)) => {
                &&& decode_values(input@, pos as int, count as nat) == Decoded::<
                    Seq<ElementValueView>,
                >::Ok((views(v@), next as int))
                &&& pos <= next <= input@.len()
            },
            Err(e) => decode_values(input@, pos as int, count as nat) == Decoded::<
                Seq<ElementValueView>,
            >::Err(e),
        },
    decreases input@.len() - pos, 1nat,
{
    let mut items: Vec<ElementValue> = Vec::new();
    let mut cur: usize = pos;
    let mut i: usize = 0;
    assert(views(items@) + Seq::<ElementValueView>::empty() =~= Seq::<ElementValueView>::empty());
    while i < count
        invariant
            i <= count,
            pos <= cur <= input@.len(),
            decode_values(input@, pos as int, count as nat) == prepend(
                views(items@),
                decode_values(input@, cur as int, (count - i) as nat),
            ),
        decreases count - i,
    {
        let ghost before = views(items@);
        let (item, next) = read_value(input, cur)?;
        proof {
            assert(views(items@.push(item)) =~= before.push(item@));
            if let Ok((tail, end)) = decode_values(input@, next as int, (count - i - 1) as nat) {
                assert(before + (seq![item@] + tail) =~= before.push(item@) + tail);
            }
        }
        items.push(item);
        cur = next;
        i += 1;
    }
    assert(views(items@) + Seq::<ElementValueView>::empty() =~= views(items@));
    Ok((items, cur))
}

/// Reads an annotation.
pub fn read_annotation(input: &[u8], pos: usize) -> (res: ReadResult<Annotation>)
    ensures
        match res {
            Ok((v, next)) => {
                &&& decode_annotation(input@, pos as int) == Decoded::<AnnotationView>::Ok(
                    (v@, next as int),
                )
                &&& pos < next <= input@.len()
            },
            Err(e) => decode_annotation(input@, pos as int) == Decoded::<AnnotationView>::Err(e),
        },
    decreases input@.len() - pos, 0nat,
{
    let (type_index, p) = u16::from_bytes(input, pos)?;
    let (count, q) = u16::from_bytes(input, p)?;
    let (element_value_pairs, next) = read_pairs(input, q, count as usize)?;
    let annotation = Annotation { type_index: CPIndex::new(type_index), element_value_pairs };
    proof {
        lemma_annotation_view(annotation);
    }
    Ok((annotation, next))
}

/// Reads `count` elements with their values that stand one behind the
/// other.
fn read_pairs(input: &[u8], pos: usize, count: usize) -> (res: ReadResult<
    Vec<ElementValuePair>,
>)
    requires
        pos <= input@.len(),
    ensures
        match res {
            Ok((v, next)) => {
                &&& decode_pairs(input@, pos as int, count as nat) == Decoded::<
                    Seq<ElementValuePairView>,
                >::Ok((views(v@), next as int))
                &&& pos <= next <= input@.len()
            },
            Err(e) => decode_pairs(input@, pos as int, count as nat) == Decoded::<
                Seq<ElementValuePairView>,
            >::Err(e),
        },
    decreases input@.len() - pos, 1nat,
{
    let mut pairs: Vec<ElementValuePair> = Vec::new();
    let mut cur: usize = pos;
    let mut i: usize = 0;
    assert(views(pairs@) + Seq::<ElementValuePairView>::empty() =~= Seq::<
        ElementValuePairView,
    >::empty());
    while i < count
        invariant
            i <= count,
            pos <= cur <= input@.len(),
            decode_pairs(input@, pos as int, count as nat) == prepend(
                views(pairs@),
                decode_pairs(input@, cur as int, (count - i) as nat),
            ),
        decreases count - i,
    {
        let ghost before = views(pairs@);
        let (name, p) = u16::from_bytes(input, cur)?;
        let (value, next) = read_value(input, p)?;
        let pair = ElementValuePair { element_name_index: CPIndex::new(name), value };
        proof {
            assert(views(pairs@.push(pair)) =~= before.push(pair@));
            if let Ok((tail, end)) = decode_pairs(input@, next as int, (count - i - 1) as nat) {
                assert(before + (seq![pair@] + tail) =~= before.push(pair@) + tail);
            }
        }
        pairs.push(pair);
        cur = next;
        i += 1;
    }
    assert(views(pairs@) + Seq::<ElementValuePairView>::empty() =~= views(pairs@));
    Ok((pairs, cur))
}

// -- writing -----------------------------------------------------------------

/// Appends the value of an element. It fails with the first count that does
/// not fit in 16 bits; `out` may then hold a part of the encoding.
pub fn write_value(value: &ElementValue, out: &mut Vec<u8>) -> (res: WriteResult)
    ensures
        match res {
            Ok(()) => {
                &&& oversize_value(value@) is None
                &&& final(out)@ == old(out)@ + encode_value(value@)
            },
            Err(WriteError::TooLarge(n)) => {
                &&& oversize_value(value@) == Some(n as nat)
                &&& extends(final(out)@, old(out)@)
            },
        },
    decreases value,
{
    let ghost m = value@;
    match value {
        ElementValue::Byte(index) => write_const(TAG_BYTE, index.index, out),
        ElementValue::Char(index) => write_const(TAG_CHAR, index.index, out),
        ElementValue::Double(index) => write_const(TAG_DOUBLE, index.index, out),
        ElementValue::Float(index) => write_const(TAG_FLOAT, index.index, out),
        ElementValue::Integer(index) => write_const(TAG_INT, index.index, out),
        ElementValue::Long(index) => write_const(TAG_LONG, index.index, out),
        ElementValue::Short(index) => write_const(TAG_SHORT, index.index, out),
        ElementValue::Boolean(index) => write_const(TAG_BOOLEAN, index.index, out),
        ElementValue::String(index) => write_const(TAG_STRING, index.index, out),
        ElementValue::Class(index) => write_const(TAG_CLASS, index.index, out),
        ElementValue::Enum { type_name_index, const_name_index } => {
            TAG_ENUM.to_bytes(out)?;
            type_name_index.to_bytes(out)?;
            const_name_index.to_bytes(out)?;
            assert(out@ =~= old(out)@ + encode_value(m));
        },
        ElementValue::Annotation(annotation) => {
            TAG_ANNOTATION.to_bytes(out)?;
            let ghost mid = out@;
            let res = write_annotation(annotation, out);
            proof {
                if res is Ok {
                    assert(out@ =~= old(out)@ + encode_value(m));
                } else {
                    lemma_extends_after(old(out)@, mid, out@);
                }
            }
            return res;
        },
        ElementValue::Array(items) => {
            proof {
                lemma_array_view(*items);
            }
            if items.len() > 0xffff {
                return Err(WriteError::TooLarge(items.len()));
            }
            TAG_ARRAY.to_bytes(out)?;
            (items.len() as u16).to_bytes(out)?;
            let ghost head = out@;
            let ghost all = views(items@);
            let mut i: usize = 0;
            assert(all.skip(0) =~= all);
            assert(head =~= old(out)@ + (seq![TAG_ARRAY] + u16_bytes(items@.len() as u16)));
            while i < items.len()
                invariant
                    i <= items@.len() <= 0xffff,
                    all == views(items@),
                    value@ == ElementValueView::Array(all),
                    decreases_to!(value => items),
                    extends(out@, old(out)@),
                    oversize_values(all) == oversize_values(all.skip(i as int)),
                    head + encode_values(all) == out@ + encode_values(all.skip(i as int)),
                decreases items@.len() - i,
            {
                let ghost before = out@;
                let ghost rest = all.skip(i as int);
                assert(rest[0] == items@[i as int]@);
                assert(rest.skip(1) =~= all.skip(i + 1));
                assert(oversize_values(rest) == first_of(
                    oversize_value(rest[0]),
                    oversize_values(rest.skip(1)),
                ));
                match write_value(&items[i], out) {
                    Err(e) => {
                        proof {
                            lemma_extends_after(old(out)@, before, out@);
                        }
                        return Err(e);
                    },
                    Ok(()) => {
                        assert(before + (encode_value(rest[0]) + encode_values(rest.skip(1)))
                            =~= out@ + encode_values(all.skip(i + 1)));
                    },
                }
                i += 1;
            }
            assert(all.skip(i as int) =~= Seq::<ElementValueView>::empty());
            assert(out@ =~= head + encode_values(all));
            assert(out@ =~= old(out)@ + encode_value(m));
        },
    }
    Ok(())
}

/// Appends a value that is a tag and an index.
fn write_const(tag: u8, index: u16, out: &mut Vec<u8>)
    ensures
        final(out)@ == old(out)@ + (seq![tag] + u16_bytes(index)),
{
    let _ = tag.to_bytes(out);
    let _ = index.to_bytes(out);
    assert(out@ =~= old(out)@ + (seq![tag] + u16_bytes(index)));
}

/// Appends an annotation. It fails with the first count that does not fit in
/// 16 bits; `out` may then hold a part of the encoding.
pub fn write_annotation(annotation: &Annotation, out: &mut Vec<u8>) -> (res: WriteResult)
    ensures
        match res {
            Ok(()) => {
                &&& oversize_annotation(annotation@) is None
                &&& final(out)@ == old(out)@ + encode_annotation(annotation@)
            },
            Err(WriteError::TooLarge(n)) => {
                &&& oversize_annotation(annotation@) == Some(n as nat)
                &&& extends(final(out)@, old(out)@)
            },
        },
    decreases annotation,
{
    let ghost m = annotation@;
    proof {
        lemma_annotation_view(*annotation);
    }
    let pairs = &annotation.element_value_pairs;
    if pairs.len() > 0xffff {
        return Err(WriteError::TooLarge(pairs.len()));
    }
    annotation.type_index.to_bytes(out)?;
    (pairs.len() as u16).to_bytes(out)?;
    let ghost head = out@;
    let ghost all = views(pairs@);
    let mut i: usize = 0;
    assert(all.skip(0) =~= all);
    assert(head =~= old(out)@ + (u16_bytes(m.type_index.index) + u16_bytes(pairs@.len() as u16)));
    while i < pairs.len()
        invariant
            i <= pairs@.len() <= 0xffff,
            all == views(pairs@),
            annotation@.element_value_pairs == all,
            decreases_to!(annotation => pairs),
            extends(out@, old(out)@),
            oversize_pairs(all) == oversize_pairs(all.skip(i as int)),
            head + encode_pairs(all) == out@ + encode_pairs(all.skip(i as int)),
        decreases pairs@.len() - i,
    {
        let ghost before = out@;
        let ghost rest = all.skip(i as int);
        assert(rest[0] == pairs@[i as int]@);
        assert(rest.skip(1) =~= all.skip(i + 1));
        assert(oversize_pairs(rest) == first_of(
            oversize_value(rest[0].value),
            oversize_pairs(rest.skip(1)),
        ));
        let pair = &pairs[i];
        pair.element_name_index.to_bytes(out)?;
        let ghost named = out@;
        match write_value(&pair.value, out) {
            Err(e) => {
                proof {
                    lemma_extends_after(before, named, out@);
                    lemma_extends_after(old(out)@, before, out@);
                }
                return Err(e);
            },
            Ok(()) => {
                assert(before + (encode_pair(rest[0]) + encode_pairs(rest.skip(1))) =~= out@
                    + encode_pairs(all.skip(i + 1)));
            },
        }
        i += 1;
    }
    assert(all.skip(i as int) =~= Seq::<ElementValuePairView>::empty());
    assert(out@ =~= head + encode_pairs(all));
    assert(out@ =~= old(out)@ + encode_annotation(m));
    Ok(())
}

// -- copying -----------------------------------------------------------------

/// A copy of a value.
pub fn copy_value(value: &ElementValue) -> (res: ElementValue)
    ensures
        res@ == value@,
    decreases value,
{
    match value {
        ElementValue::Byte(index) => ElementValue::Byte(*index),
        ElementValue::Char(index) => ElementValue::Char(*index),
        ElementValue::Double(index) => ElementValue::Double(*index),
        ElementValue::Float(index) => ElementValue::Float(*index),
        ElementValue::Integer(index) => ElementValue::Integer(*index),
        ElementValue::Long(index) => ElementValue::Long(*index),
        ElementValue::Short(index) => ElementValue::Short(*index),
        ElementValue::Boolean(index) => ElementValue::Boolean(*index),
        ElementValue::String(index) => ElementValue::String(*index),
        ElementValue::Enum { type_name_index, const_name_index } => ElementValue::Enum {
            type_name_index: *type_name_index,
            const_name_index: *const_name_index,
        },
        ElementValue::Class(index) => ElementValue::Class(*index),
        ElementValue::Annotation(annotation) => ElementValue::Annotation(
            copy_annotation(annotation),
        ),
        ElementValue::Array(items) => {
            let mut copies: Vec<ElementValue> = Vec::new();
            let mut i: usize = 0;
            while i < items.len()
                invariant
                    i <= items@.len(),
                    decreases_to!(value => items),
                    views(copies@) =~= views(items@).take(i as int),
                decreases items@.len() - i,
            {
                let ghost before = views(copies@);
                let copy = copy_value(&items[i]);
                assert(views(copies@.push(copy)) =~= before.push(copy@));
                assert(views(items@).take(i + 1) =~= views(items@).take(i as int).push(
                    items@[i as int]@,
                ));
                copies.push(copy);
                i += 1;
            }
            proof {
                assert(views(copies@) =~= views(items@));
                lemma_array_view(copies);
                lemma_array_view(*items);
            }
            ElementValue::Array(copies)
        },
    }
}

/// A copy of an annotation.
pub fn copy_annotation(annotation: &Annotation) -> (res: Annotation)
    ensures
        res@ == annotation@,
    decreases annotation,
{
    let pairs = &annotation.element_value_pairs;
    let mut copies: Vec<ElementValuePair> = Vec::new();
    let mut i: usize = 0;
    while i < pairs.len()
        invariant
            i <= pairs@.len(),
            decreases_to!(annotation => pairs),
            views(copies@) =~= views(pairs@).take(i as int),
        decreases pairs@.len() - i,
    {
        let ghost before = views(copies@);
        let pair = &pairs[i];
        let value = copy_value(&pair.value);
        let copy = ElementValuePair { element_name_index: pair.element_name_index, value };
        assert(views(copies@.push(copy)) =~= before.push(copy@));
        assert(views(pairs@).take(i + 1) =~= views(pairs@).take(i as int).push(pairs@[i as int]@));
        copies.push(copy);
        i += 1;
    }
    let res = Annotation { type_index: annotation.type_index, element_value_pairs: copies };
    proof {
        assert(views(copies@) =~= views(pairs@));
        lemma_annotation_view(res);
        lemma_annotation_view(*annotation);
    }
    res
}

impl Clone for ElementValue {
    fn clone(&self) -> (res: Self)
        ensures
            res@ == self@,
    {
        copy_value(self)
    }
}

impl Clone for Annotation {
    fn clone(&self) -> (res: Self)
        ensures
            res@ == self@,
    {
        copy_annotation(self)
    }
}

impl Clone for ElementValuePair {
    fn clone(&self) -> (res: Self)
        ensures
            res@ == self@,
    {
        ElementValuePair {
            element_name_index: self.element_name_index,
            value: copy_value(&self.value),
        }
    }
}

// -- the codec and its laws --------------------------------------------------

/// A well-formed value holds no count that does not fit.
pub proof fn lemma_value_fits(m: ElementValueView)
    requires
        wf_value(m),
    ensures
        oversize_value(m) is None,
    decreases m,
{
    match m {
        ElementValueView::Annotation(annotation) => {
            assert(wf_annotation(annotation));
            lemma_pairs_fits(annotation.element_value_pairs);
            assert(oversize_annotation(annotation) is None);
        },
        ElementValueView::Array(items) => lemma_values_fits(items),
        _ => {},
    }
}

/// Well-formed values hold no count that does not fit.
pub proof fn lemma_values_fits(items: Seq<ElementValueView>)
    requires
        forall|i: int| 0 <= i < items.len() ==> wf_value(#[trigger] items[i]),
    ensures
        oversize_values(items) is None,
    decreases items,
{
    if items.len() > 0 {
        lemma_value_fits(items[0]);
        assert forall|i: int| 0 <= i < items.skip(1).len() implies wf_value(
            #[trigger] items.skip(1)[i],
        ) by {
            assert(items.skip(1)[i] == items[i + 1]);
        }
        lemma_values_fits(items.skip(1));
    }
}

/// Elements with well-formed values hold no count that does not fit.
pub proof fn lemma_pairs_fits(pairs: Seq<ElementValuePairView>)
    requires
        forall|i: int| 0 <= i < pairs.len() ==> wf_value((#[trigger] pairs[i]).value),
    ensures
        oversize_pairs(pairs) is None,
    decreases pairs,
{
    if pairs.len() > 0 {
        lemma_value_fits(pairs[0].value);
        assert forall|i: int| 0 <= i < pairs.skip(1).len() implies wf_value(
            (#[trigger] pairs.skip(1)[i]).value,
        ) by {
            assert(pairs.skip(1)[i] == pairs[i + 1]);
        }
        lemma_pairs_fits(pairs.skip(1));
    }
}

/// Decoding the encoding of a well-formed value yields the value.
pub proof fn lemma_value_decode_encode(s: Seq<u8>, pos: int, m: ElementValueView)
    requires
        wf_value(m),
        holds_at(s, pos, encode_value(m)),
    ensures
        decode_value(s, pos) == Decoded::<ElementValueView>::Ok((m, pos + encode_value(m).len())),
        encode_value(m).len() >= 1,
    decreases m,
{
    let tag = seq![m.tag()];
    match m {
        ElementValueView::Enum { type_name_index, const_name_index } => {
            let e2 = u16_bytes(type_name_index.index);
            let e3 = u16_bytes(const_name_index.index);
            lemma_holds_split(s, pos, tag + e2, e3);
            lemma_holds_split(s, pos, tag, e2);
            u8::lemma_decode_encode(s, pos, m.tag());
            u16::lemma_decode_encode(s, pos + 1, type_name_index.index);
            u16::lemma_decode_encode(s, pos + 3, const_name_index.index);
        },
        ElementValueView::Annotation(annotation) => {
            lemma_holds_split(s, pos, tag, encode_annotation(annotation));
            u8::lemma_decode_encode(s, pos, m.tag());
            lemma_annotation_decode_encode(s, pos + 1, annotation);
        },
        ElementValueView::Array(items) => {
            let e2 = u16_bytes(items.len() as u16);
            lemma_holds_split(s, pos, tag + e2, encode_values(items));
            lemma_holds_split(s, pos, tag, e2);
            u8::lemma_decode_encode(s, pos, m.tag());
            u16::lemma_decode_encode(s, pos + 1, items.len() as u16);
            lemma_values_decode_encode(s, pos + 3, items);
        },
        _ => {
            lemma_holds_split(s, pos, tag, u16_bytes(m.const_index()));
            u8::lemma_decode_encode(s, pos, m.tag());
            u16::lemma_decode_encode(s, pos + 1, m.const_index());
        },
    }
}

/// Decoding the encodings of well-formed values yields the values.
pub proof fn lemma_values_decode_encode(s: Seq<u8>, pos: int, items: Seq<ElementValueView>)
    requires
        forall|i: int| 0 <= i < items.len() ==> wf_value(#[trigger] items[i]),
        holds_at(s, pos, encode_values(items)),
    ensures
        decode_values(s, pos, items.len()) == Decoded::<Seq<ElementValueView>>::Ok(
            (items, pos + encode_values(items).len()),
        ),
    decreases items,
{
    if items.len() == 0 {
        assert(items =~= Seq::<ElementValueView>::empty());
    } else {
        let tail = items.skip(1);
        lemma_holds_split(s, pos, encode_value(items[0]), encode_values(tail));
        lemma_value_decode_encode(s, pos, items[0]);
        assert forall|i: int| 0 <= i < tail.len() implies wf_value(#[trigger] tail[i]) by {
            assert(tail[i] == items[i + 1]);
        }
        lemma_values_decode_encode(s, pos + encode_value(items[0]).len(), tail);
        assert(seq![items[0]] + tail =~= items);
        reveal(holds_at);
    }
}

/// Decoding the encoding of a well-formed annotation yields the annotation.
pub proof fn lemma_annotation_decode_encode(s: Seq<u8>, pos: int, m: AnnotationView)
    requires
        wf_annotation(m),
        holds_at(s, pos, encode_annotation(m)),
    ensures
        decode_annotation(s, pos) == Decoded::<AnnotationView>::Ok(
            (m, pos + encode_annotation(m).len()),
        ),
    decreases m,
{
    let e1 = u16_bytes(m.type_index.index);
    let e2 = u16_bytes(m.element_value_pairs.len() as u16);
    lemma_holds_split(s, pos, e1 + e2, encode_pairs(m.element_value_pairs));
    lemma_holds_split(s, pos, e1, e2);
    u16::lemma_decode_encode(s, pos, m.type_index.index);
    u16::lemma_decode_encode(s, pos + 2, m.element_value_pairs.len() as u16);
    lemma_pairs_decode_encode(s, pos + 4, m.element_value_pairs);
}

/// Decoding the encodings of elements with well-formed values yields the
/// elements.
pub proof fn lemma_pairs_decode_encode(s: Seq<u8>, pos: int, pairs: Seq<ElementValuePairView>)
    requires
        forall|i: int| 0 <= i < pairs.len() ==> wf_value((#[trigger] pairs[i]).value),
        holds_at(s, pos, encode_pairs(pairs)),
    ensures
        decode_pairs(s, pos, pairs.len()) == Decoded::<Seq<ElementValuePairView>>::Ok(
            (pairs, pos + encode_pairs(pairs).len()),
        ),
    decreases pairs,
{
    if pairs.len() == 0 {
        assert(pairs =~= Seq::<ElementValuePairView>::empty());
    } else {
        let tail = pairs.skip(1);
        let name = u16_bytes(pairs[0].element_name_index.index);
        lemma_holds_split(s, pos, encode_pair(pairs[0]), encode_pairs(tail));
        lemma_holds_split(s, pos, name, encode_value(pairs[0].value));
        u16::lemma_decode_encode(s, pos, pairs[0].element_name_index.index);
        lemma_value_decode_encode(s, pos + 2, pairs[0].value);
        assert forall|i: int| 0 <= i < tail.len() implies wf_value((#[trigger] tail[i]).value) by {
            assert(tail[i] == pairs[i + 1]);
        }
        lemma_pairs_decode_encode(s, pos + encode_pair(pairs[0]).len(), tail);
        assert(seq![pairs[0]] + tail =~= pairs);
        reveal(holds_at);
    }
}

/// A value that was decoded is well-formed, takes at least one byte, and its
/// encoding is the bytes that were read.
pub proof fn lemma_value_encode_decode(s: Seq<u8>, pos: int)
    ensures
        decode_value(s, pos) matches Ok((m, next)) ==> {
            &&& wf_value(m)
            &&& 0 <= pos < next <= s.len()
            &&& encode_value(m) == s.subrange(pos, next)
        },
    decreases s.len() - pos, 0nat,
{
    if let Ok((m, next)) = decode_value(s, pos) {
        u8::lemma_encode_decode(s, pos);
        let tag = s[pos];
        let p = pos + 1;
        if tag == TAG_ANNOTATION {
            lemma_annotation_encode_decode(s, p);
            lemma_subrange_join(s, pos, p, next);
        } else {
            u16::lemma_encode_decode(s, p);
            let q = p + 2;
            lemma_subrange_join(s, pos, p, q);
            if tag == TAG_ENUM {
                u16::lemma_encode_decode(s, q);
                lemma_subrange_join(s, pos, q, next);
            } else if tag == TAG_ARRAY {
                lemma_values_encode_decode(s, q, be16(s, p) as nat);
                lemma_subrange_join(s, pos, q, next);
            }
        }
    }
}

/// The values that were decoded are well-formed, as many as were asked for,
/// and their encodings are the bytes that were read.
pub proof fn lemma_values_encode_decode(s: Seq<u8>, pos: int, count: nat)
    requires
        0 <= pos <= s.len(),
    ensures
        decode_values(s, pos, count) matches Ok((items, end)) ==> {
            &&& items.len() == count
            &&& forall|i: int| 0 <= i < items.len() ==> wf_value(#[trigger] items[i])
            &&& pos <= end <= s.len()
            &&& encode_values(items) == s.subrange(pos, end)
        },
    decreases s.len() - pos, count,
{
    if count == 0 {
        assert(encode_values(Seq::<ElementValueView>::empty()) =~= s.subrange(pos, pos));
    } else {
        lemma_value_encode_decode(s, pos);
        if let Ok((first, next)) = decode_value(s, pos) {
            lemma_values_encode_decode(s, next, (count - 1) as nat);
            if let Ok((rest, end)) = decode_values(s, next, (count - 1) as nat) {
                let items = seq![first] + rest;
                assert(items.skip(1) =~= rest);
                lemma_subrange_join(s, pos, next, end);
            }
        }
    }
}

/// An annotation that was decoded is well-formed, and its encoding is the
/// bytes that were read.
pub proof fn lemma_annotation_encode_decode(s: Seq<u8>, pos: int)
    ensures
        decode_annotation(s, pos) matches Ok((m, next)) ==> {
            &&& wf_annotation(m)
            &&& 0 <= pos < next <= s.len()
            &&& encode_annotation(m) == s.subrange(pos, next)
        },
    decreases s.len() - pos, 0nat,
{
    if let Ok((m, next)) = decode_annotation(s, pos) {
        u16::lemma_encode_decode(s, pos);
        u16::lemma_encode_decode(s, pos + 2);
        lemma_pairs_encode_decode(s, pos + 4, be16(s, pos + 2) as nat);
        lemma_subrange_join(s, pos, pos + 2, pos + 4);
        lemma_subrange_join(s, pos, pos + 4, next);
    }
}

/// The elements that were decoded have well-formed values, are as many as
/// were asked for, and their encodings are the bytes that were read.
pub proof fn lemma_pairs_encode_decode(s: Seq<u8>, pos: int, count: nat)
    requires
        0 <= pos <= s.len(),
    ensures
        decode_pairs(s, pos, count) matches Ok((pairs, end)) ==> {
            &&& pairs.len() == count
            &&& forall|i: int| 0 <= i < pairs.len() ==> wf_value((#[trigger] pairs[i]).value)
            &&& pos <= end <= s.len()
            &&& encode_pairs(pairs) == s.subrange(pos, end)
        },
    decreases s.len() - pos, count,
{
    if count == 0 {
        assert(encode_pairs(Seq::<ElementValuePairView>::empty()) =~= s.subrange(pos, pos));
    } else {
        u16::lemma_encode_decode(s, pos);
        if let Ok((name, p)) = u16::decode(s, pos) {
            lemma_value_encode_decode(s, p);
            if let Ok((value, next)) = decode_value(s, p) {
                lemma_pairs_encode_decode(s, next, (count - 1) as nat);
                if let Ok((rest, end)) = decode_pairs(s, next, (count - 1) as nat) {
                    let first = ElementValuePairView {
                        element_name_index: CPIndex::at(name),
                        value,
                    };
                    let pairs = seq![first] + rest;
                    assert(pairs.skip(1) =~= rest);
                    lemma_subrange_join(s, pos, p, next);
                    assert(encode_pair(first) == s.subrange(pos, next));
                    lemma_subrange_join(s, pos, next, end);
                    assert forall|i: int| 0 <= i < pairs.len() implies wf_value(
                        (#[trigger] pairs[i]).value,
                    ) by {
                        if i > 0 {
                            assert(pairs[i] == rest[i - 1]);
                        }
                    }
                }
            }
        }
    }
}

impl Codec for ElementValue {
    open spec fn wf(m: ElementValueView) -> bool {
        wf_value(m)
    }

    open spec fn oversize(m: ElementValueView) -> Option<nat> {
        oversize_value(m)
    }

    open spec fn encode(m: ElementValueView) -> Seq<u8> {
        encode_value(m)
    }

    open spec fn decode(s: Seq<u8>, pos: int) -> Decoded<ElementValueView> {
        decode_value(s, pos)
    }

    fn from_bytes(input: &[u8], pos: usize) -> (res: ReadResult<ElementValue>) {
        let ghost decoded = Self::decode(input@, pos as int);
        read_value(input, pos)
    }

    fn to_bytes(&self, out: &mut Vec<u8>) -> (res: WriteResult) {
        let ghost encoded = Self::encode(self@);
        let ghost over = Self::oversize(self@);
        write_value(self, out)
    }

    proof fn lemma_fits(m: ElementValueView) {
        assert(Self::wf(m));
        lemma_value_fits(m);
        assert(Self::oversize(m) is None);
    }

    proof fn lemma_decode_encode(s: Seq<u8>, pos: int, m: ElementValueView) {
        assert(Self::wf(m));
        lemma_value_decode_encode(s, pos, m);
        assert(Self::decode(s, pos) == Decoded::<ElementValueView>::Ok(
            (m, pos + Self::encode(m).len()),
        ));
    }

    proof fn lemma_encode_decode(s: Seq<u8>, pos: int) {
        lemma_value_encode_decode(s, pos);
        if let Ok((m, next)) = Self::decode(s, pos) {
            assert(Self::wf(m) && Self::encode(m) == s.subrange(pos, next));
        }
    }
}

impl Codec for Annotation {
    open spec fn wf(m: AnnotationView) -> bool {
        wf_annotation(m)
    }

    open spec fn oversize(m: AnnotationView) -> Option<nat> {
        oversize_annotation(m)
    }

    open spec fn encode(m: AnnotationView) -> Seq<u8> {
        encode_annotation(m)
    }

    open spec fn decode(s: Seq<u8>, pos: int) -> Decoded<AnnotationView> {
        decode_annotation(s, pos)
    }

    fn from_bytes(input: &[u8], pos: usize) -> (res: ReadResult<Annotation>) {
        let ghost decoded = Self::decode(input@, pos as int);
        read_annotation(input, pos)
    }

    fn to_bytes(&self, out: &mut Vec<u8>) -> (res: WriteResult) {
        let ghost encoded = Self::encode(self@);
        let ghost over = Self::oversize(self@);
        write_annotation(self, out)
    }

    proof fn lemma_fits(m: AnnotationView) {
        assert(Self::wf(m));
        lemma_pairs_fits(m.element_value_pairs);
        assert(Self::oversize(m) is None);
    }

    proof fn lemma_decode_encode(s: Seq<u8>, pos: int, m: AnnotationView) {
        assert(Self::wf(m));
        lemma_annotation_decode_encode(s, pos, m);
        assert(Self::decode(s, pos) == Decoded::<AnnotationView>::Ok(
            (m, pos + Self::encode(m).len()),
        ));
    }

    proof fn lemma_encode_decode(s: Seq<u8>, pos: int) {
        lemma_annotation_encode_decode(s, pos);
        if let Ok((m, next)) = Self::decode(s, pos) {
            assert(Self::wf(m) && Self::encode(m) == s.subrange(pos, next));
        }
    }
}

impl Codec for ElementValuePair {
    open spec fn wf(m: ElementValuePairView) -> bool {
        wf_value(m.value)
    }

    open spec fn oversize(m: ElementValuePairView) -> Option<nat> {
        oversize_value(m.value)
    }

    open spec fn encode(m: ElementValuePairView) -> Seq<u8> {
        encode_pair(m)
    }

    open spec fn decode(s: Seq<u8>, pos: int) -> Decoded<ElementValuePairView> {
        decode_pair(s, pos)
    }

    fn from_bytes(input: &[u8], pos: usize) -> (res: ReadResult<ElementValuePair>) {
        let ghost decoded = Self::decode(input@, pos as int);
        let (name, p) = u16::from_bytes(input, pos)?;
        let (value, next) = read_value(input, p)?;
        Ok((ElementValuePair { element_name_index: CPIndex::new(name), value }, next))
    }

    fn to_bytes(&self, out: &mut Vec<u8>) -> (res: WriteResult) {
        let ghost over = Self::oversize(self@);
        self.element_name_index.to_bytes(out)?;
        let ghost named = out@;
        let res = write_value(&self.value, out);
        proof {
            if res is Ok {
                assert(out@ =~= old(out)@ + Self::encode(self@));
            } else {
                lemma_extends_after(old(out)@, named, out@);
            }
        }
        res
    }

    proof fn lemma_fits(m: ElementValuePairView) {
        assert(Self::wf(m));
        lemma_value_fits(m.value);
        assert(Self::oversize(m) is None);
    }

    proof fn lemma_decode_encode(s: Seq<u8>, pos: int, m: ElementValuePairView) {
        assert(Self::wf(m));
        lemma_holds_split(s, pos, u16_bytes(m.element_name_index.index), encode_value(m.value));
        u16::lemma_decode_encode(s, pos, m.element_name_index.index);
        lemma_value_decode_encode(s, pos + 2, m.value);
        assert(Self::decode(s, pos) == Decoded::<ElementValuePairView>::Ok(
            (m, pos + Self::encode(m).len()),
        ));
    }

    proof fn lemma_encode_decode(s: Seq<u8>, pos: int) {
        if let Ok((m, next)) = Self::decode(s, pos) {
            u16::lemma_encode_decode(s, pos);
            lemma_value_encode_decode(s, pos + 2);
            lemma_subrange_join(s, pos, pos + 2, next);
            assert(Self::wf(m) && Self::encode(m) == s.subrange(pos, next));
        }
    }
}

/// The `RuntimeVisibleAnnotations` attribute: the annotations that are visible
/// at run time.
#[derive(Debug, Clone, PartialEq, Eq, Hash)]
pub struct RuntimeVisibleAnnotations {
    /// The annotations.
    pub table: Vec<Annotation>,
}

/// The model of a [`RuntimeVisibleAnnotations`]: its fields as mathematical values.
pub struct RuntimeVisibleAnnotationsView {
    pub table: Seq<AnnotationView>,
}

impl View for RuntimeVisibleAnnotations {
    type V = RuntimeVisibleAnnotationsView;

    open spec fn view(&self) -> RuntimeVisibleAnnotationsView {
        RuntimeVisibleAnnotationsView {
            table: views(self.table@),
        }
    }
}

impl Codec for RuntimeVisibleAnnotations {
    open spec fn wf(m: RuntimeVisibleAnnotationsView) -> bool {
        wf_table::<Annotation>(LenWidth::U16, m.table)
    }

    open spec fn oversize(m: RuntimeVisibleAnnotationsView) -> Option<nat> {
        oversize_table::<Annotation>(LenWidth::U16, m.table)
    }

    open spec fn encode(m: RuntimeVisibleAnnotationsView) -> Seq<u8> {
        encode_table::<Annotation>(LenWidth::U16, m.table)
    }

    open spec fn decode(s: Seq<u8>, pos: int) -> Decoded<RuntimeVisibleAnnotationsView> {
        match decode_table::<Annotation>(s, pos, LenWidth::U16) {
            Err(e) => Err(e),
            Ok((table, p1)) => Ok((RuntimeVisibleAnnotationsView { table }, p1)),
        }
    }

    fn from_bytes(input: &[u8], pos: usize) -> (res: ReadResult<RuntimeVisibleAnnotations>) {
        let ghost decoded = Self::decode(input@, pos as int);
        let (table, pos) = read_table(input, pos, LenWidth::U16)?;
        assert(decoded is Ok);
        Ok((RuntimeVisibleAnnotations { table }, pos))
    }

    fn to_bytes(&self, out: &mut Vec<u8>) -> (res: WriteResult) {
        let ghost encoded = Self::encode(self@);
        let ghost over = Self::oversize(self@);
        write_table(&self.table, LenWidth::U16, out)?;
        assert(over is None);
        assert(out@ =~= old(out)@ + encoded);
        Ok(())
    }

    proof fn lemma_fits(m: RuntimeVisibleAnnotationsView) {
        assert(Self::wf(m));
        lemma_table_fits::<Annotation>(LenWidth::U16, m.table);
        assert(Self::oversize(m) is None);
    }

    proof fn lemma_decode_encode(s: Seq<u8>, pos: int, m: RuntimeVisibleAnnotationsView) {
        assert(Self::wf(m));
        let e1 = encode_table::<Annotation>(LenWidth::U16, m.table);
        lemma_table_decode_encode::<Annotation>(s, pos, LenWidth::U16, m.table);
        assert(Self::decode(s, pos) == decoded(m, pos + Self::encode(m).len()));
    }

    proof fn lemma_encode_decode(s: Seq<u8>, pos: int) {
        if let Ok((m, next)) = Self::decode(s, pos) {
            let p1 = end_of(decode_table::<Annotation>(s, pos, LenWidth::U16));
            lemma_table_encode_decode::<Annotation>(s, pos, LenWidth::U16);
            assert(Self::wf(m));
            assert(Self::encode(m) == s.subrange(pos, next));
        }
    }
}

impl Attribute for RuntimeVisibleAnnotations {
    open spec fn attribute_name() -> Seq<char> {
        "RuntimeVisibleAnnotations"@
    }

    open spec fn parse(info: Seq<u8>) -> Option<RuntimeVisibleAnnotationsView> {
        parse_with::<RuntimeVisibleAnnotations>(info)
    }

    fn from_attributes(
        attributes: &Attributes,
        cp: &ConstantPool,
    ) -> (res: Option<RuntimeVisibleAnnotations>) {
        decode_named(attributes, cp, "RuntimeVisibleAnnotations")
    }
}

/// The `RuntimeInvisibleAnnotations` attribute: the annotations that are not
/// visible at run time.
#[derive(Debug, Clone, PartialEq, Eq, Hash)]
pub struct RuntimeInvisibleAnnotations {
    /// The annotations.
    pub table: Vec<Annotation>,
}

/// The model of a [`RuntimeInvisibleAnnotations`]: its fields as mathematical values.
pub struct RuntimeInvisibleAnnotationsView {
    pub table: Seq<AnnotationView>,
}

impl View for RuntimeInvisibleAnnotations {
    type V = RuntimeInvisibleAnnotationsView;

    open spec fn view(&self) -> RuntimeInvisibleAnnotationsView {
        RuntimeInvisibleAnnotationsView {
            table: views(self.table@),
        }
    }
}

impl Codec for RuntimeInvisibleAnnotations {
    open spec fn wf(m: RuntimeInvisibleAnnotationsView) -> bool {
        wf_table::<Annotation>(LenWidth::U16, m.table)
    }

    open spec fn oversize(m: RuntimeInvisibleAnnotationsView) -> Option<nat> {
        oversize_table::<Annotation>(LenWidth::U16, m.table)
    }

    open spec fn encode(m: RuntimeInvisibleAnnotationsView) -> Seq<u8> {
        encode_table::<Annotation>(LenWidth::U16, m.table)
    }

    open spec fn decode(s: Seq<u8>, pos: int) -> Decoded<RuntimeInvisibleAnnotationsView> {
        match decode_table::<Annotation>(s, pos, LenWidth::U16) {
            Err(e) => Err(e),
            Ok((table, p1)) => Ok((RuntimeInvisibleAnnotationsView { table }, p1)),
        }
    }

    fn from_bytes(input: &[u8], pos: usize) -> (res: ReadResult<RuntimeInvisibleAnnotations>) {
        let ghost decoded = Self::decode(input@, pos as int);
        let (table, pos) = read_table(input, pos, LenWidth::U16)?;
        assert(decoded is Ok);
        Ok((RuntimeInvisibleAnnotations { table }, pos))
    }

    fn to_bytes(&self, out: &mut Vec<u8>) -> (res: WriteResult) {
        let ghost encoded = Self::encode(self@);
        let ghost over = Self::oversize(self@);
        write_table(&self.table, LenWidth::U16, out)?;
        assert(over is None);
        assert(out@ =~= old(out)@ + encoded);
        Ok(())
    }

    proof fn lemma_fits(m: RuntimeInvisibleAnnotationsView) {
        assert(Self::wf(m));
        lemma_table_fits::<Annotation>(LenWidth::U16, m.table);
        assert(Self::oversize(m) is None);
    }

    proof fn lemma_decode_encode(s: Seq<u8>, pos: int, m: RuntimeInvisibleAnnotationsView) {
        assert(Self::wf(m));
        let e1 = encode_table::<Annotation>(LenWidth::U16, m.table);
        lemma_table_decode_encode::<Annotation>(s, pos, LenWidth::U16, m.table);
        assert(Self::decode(s, pos) == decoded(m, pos + Self::encode(m).len()));
    }

    proof fn lemma_encode_decode(s: Seq<u8>, pos: int) {
        if let Ok((m, next)) = Self::decode(s, pos) {
            let p1 = end_of(decode_table::<Annotation>(s, pos, LenWidth::U16));
            lemma_table_encode_decode::<Annotation>(s, pos, LenWidth::U16);
            assert(Self::wf(m));
            assert(Self::encode(m) == s.subrange(pos, next));
        }
    }
}

impl Attribute for RuntimeInvisibleAnnotations {
    open spec fn attribute_name() -> Seq<char> {
        "RuntimeInvisibleAnnotations"@
    }

    open spec fn parse(info: Seq<u8>) -> Option<RuntimeInvisibleAnnotationsView> {
        parse_with::<RuntimeInvisibleAnnotations>(info)
    }

    fn from_attributes(
        attributes: &Attributes,
        cp: &ConstantPool,
    ) -> (res: Option<RuntimeInvisibleAnnotations>) {
        decode_named(attributes, cp, "RuntimeInvisibleAnnotations")
    }
}

/// The annotations of one formal parameter.
#[derive(Debug, Clone, PartialEq, Eq, Hash)]
pub struct ParameterAnnotations {
    /// The annotations.
    pub annotations: Vec<Annotation>,
}

/// The model of a [`ParameterAnnotations`]: its fields as mathematical values.
pub struct ParameterAnnotationsView {
    pub annotations: Seq<AnnotationView>,
}

impl View for ParameterAnnotations {
    type V = ParameterAnnotationsView;

    open spec fn view(&self) -> ParameterAnnotationsView {
        ParameterAnnotationsView {
            annotations: views(self.annotations@),
        }
    }
}

impl Codec for ParameterAnnotations {
    open spec fn wf(m: ParameterAnnotationsView) -> bool {
        wf_table::<Annotation>(LenWidth::U16, m.annotations)
    }

    open spec fn oversize(m: ParameterAnnotationsView) -> Option<nat> {
        oversize_table::<Annotation>(LenWidth::U16, m.annotations)
    }

    open spec fn encode(m: ParameterAnnotationsView) -> Seq<u8> {
        encode_table::<Annotation>(LenWidth::U16, m.annotations)
    }

    open spec fn decode(s: Seq<u8>, pos: int) -> Decoded<ParameterAnnotationsView> {
        match decode_table::<Annotation>(s, pos, LenWidth::U16) {
            Err(e) => Err(e),
            Ok((annotations, p1)) => Ok((ParameterAnnotationsView { annotations }, p1)),
        }
    }

    fn from_bytes(input: &[u8], pos: usize) -> (res: ReadResult<ParameterAnnotations>) {
        let ghost decoded = Self::decode(input@, pos as int);
        let (annotations, pos) = read_table(input, pos, LenWidth::U16)?;
        assert(decoded is Ok);
        Ok((ParameterAnnotations { annotations }, pos))
    }

    fn to_bytes(&self, out: &mut Vec<u8>) -> (res: WriteResult) {
        let ghost encoded = Self::encode(self@);
        let ghost over = Self::oversize(self@);
        write_table(&self.annotations, LenWidth::U16, out)?;
        assert(over is None);
        assert(out@ =~= old(out)@ + encoded);
        Ok(())
    }

    proof fn lemma_fits(m: ParameterAnnotationsView) {
        assert(Self::wf(m));
        lemma_table_fits::<Annotation>(LenWidth::U16, m.annotations);
        assert(Self::oversize(m) is None);
    }

    proof fn lemma_decode_encode(s: Seq<u8>, pos: int, m: ParameterAnnotationsView) {
        assert(Self::wf(m));
        let e1 = encode_table::<Annotation>(LenWidth::U16, m.annotations);
        lemma_table_decode_encode::<Annotation>(s, pos, LenWidth::U16, m.annotations);
        assert(Self::decode(s, pos) == decoded(m, pos + Self::encode(m).len()));
    }

    proof fn lemma_encode_decode(s: Seq<u8>, pos: int) {
        if let Ok((m, next)) = Self::decode(s, pos) {
            let p1 = end_of(decode_table::<Annotation>(s, pos, LenWidth::U16));
            lemma_table_encode_decode::<Annotation>(s, pos, LenWidth::U16);
            assert(Self::wf(m));
            assert(Self::encode(m) == s.subrange(pos, next));
        }
    }
}

/// The `RuntimeVisibleParameterAnnotations` attribute: the annotations of the
/// formal parameters that are visible at run time.
#[derive(Debug, Clone, PartialEq, Eq, Hash)]
pub struct RuntimeVisibleParameterAnnotations {
    /// The annotations, parameter by parameter.
    pub table: Vec<ParameterAnnotations>,
}

/// The model of a [`RuntimeVisibleParameterAnnotations`]: its fields as mathematical values.
pub struct RuntimeVisibleParameterAnnotationsView {
    pub table: Seq<ParameterAnnotationsView>,
}

impl View for RuntimeVisibleParameterAnnotations {
    type V = RuntimeVisibleParameterAnnotationsView;

    open spec fn view(&self) -> RuntimeVisibleParameterAnnotationsView {
        RuntimeVisibleParameterAnnotationsView {
            table: views(self.table@),
        }
    }
}

impl Codec for RuntimeVisibleParameterAnnotations {
    open spec fn wf(m: RuntimeVisibleParameterAnnotationsView) -> bool {
        wf_table::<ParameterAnnotations>(LenWidth::U8, m.table)
    }

    open spec fn oversize(m: RuntimeVisibleParameterAnnotationsView) -> Option<nat> {
        oversize_table::<ParameterAnnotations>(LenWidth::U8, m.table)
    }

    open spec fn encode(m: RuntimeVisibleParameterAnnotationsView) -> Seq<u8> {
        encode_table::<ParameterAnnotations>(LenWidth::U8, m.table)
    }

    open spec fn decode(s: Seq<u8>, pos: int) -> Decoded<RuntimeVisibleParameterAnnotationsView> {
        match decode_table::<ParameterAnnotations>(s, pos, LenWidth::U8) {
            Err(e) => Err(e),
            Ok((table, p1)) => Ok((RuntimeVisibleParameterAnnotationsView { table }, p1)),
        }
    }

    fn from_bytes(
        input: &[u8],
        pos: usize,
    ) -> (res: ReadResult<RuntimeVisibleParameterAnnotations>) {
        let ghost decoded = Self::decode(input@, pos as int);
        let (table, pos) = read_table(input, pos, LenWidth::U8)?;
        assert(decoded is Ok);
        Ok((RuntimeVisibleParameterAnnotations { table }, pos))
    }

    fn to_bytes(&self, out: &mut Vec<u8>) -> (res: WriteResult) {
        let ghost encoded = Self::encode(self@);
        let ghost over = Self::oversize(self@);
        write_table(&self.table, LenWidth::U8, out)?;
        assert(over is None);
        assert(out@ =~= old(out)@ + encoded);
        Ok(())
    }

    proof fn lemma_fits(m: RuntimeVisibleParameterAnnotationsView) {
        assert(Self::wf(m));
        lemma_table_fits::<ParameterAnnotations>(LenWidth::U8, m.table);
        assert(Self::oversize(m) is None);
    }

    proof fn lemma_decode_encode(s: Seq<u8>, pos: int, m: RuntimeVisibleParameterAnnotationsView) {
        assert(Self::wf(m));
        let e1 = encode_table::<ParameterAnnotations>(LenWidth::U8, m.table);
        lemma_table_decode_encode::<ParameterAnnotations>(s, pos, LenWidth::U8, m.table);
        assert(Self::decode(s, pos) == decoded(m, pos + Self::encode(m).len()));
    }

    proof fn lemma_encode_decode(s: Seq<u8>, pos: int) {
        if let Ok((m, next)) = Self::decode(s, pos) {
            let p1 = end_of(decode_table::<ParameterAnnotations>(s, pos, LenWidth::U8));
            lemma_table_encode_decode::<ParameterAnnotations>(s, pos, LenWidth::U8);
            assert(Self::wf(m));
            assert(Self::encode(m) == s.subrange(pos, next));
        }
    }
}

impl Attribute for RuntimeVisibleParameterAnnotations {
    open spec fn attribute_name() -> Seq<char> {
        "RuntimeVisibleParameterAnnotations"@
    }

    open spec fn parse(info: Seq<u8>) -> Option<RuntimeVisibleParameterAnnotationsView> {
        parse_with::<RuntimeVisibleParameterAnnotations>(info)
    }

    fn from_attributes(
        attributes: &Attributes,
        cp: &ConstantPool,
    ) -> (res: Option<RuntimeVisibleParameterAnnotations>) {
        decode_named(attributes, cp, "RuntimeVisibleParameterAnnotations")
    }
}

/// The `RuntimeInvisibleParameterAnnotations` attribute: the annotations of the
/// formal parameters that are not visible at run time.
#[derive(Debug, Clone, PartialEq, Eq, Hash)]
pub struct RuntimeInvisibleParameterAnnotations {
    /// The annotations, parameter by parameter.
    pub table: Vec<ParameterAnnotations>,
}

/// The model of a [`RuntimeInvisibleParameterAnnotations`]: its fields as mathematical values.
pub struct RuntimeInvisibleParameterAnnotationsView {
    pub table: Seq<ParameterAnnotationsView>,
}

impl View for RuntimeInvisibleParameterAnnotations {
    type V = RuntimeInvisibleParameterAnnotationsView;

    open spec fn view(&self) -> RuntimeInvisibleParameterAnnotationsView {
        RuntimeInvisibleParameterAnnotationsView {
            table: views(self.table@),
        }
    }
}

impl Codec for RuntimeInvisibleParameterAnnotations {
    open spec fn wf(m: RuntimeInvisibleParameterAnnotationsView) -> bool {
        wf_table::<ParameterAnnotations>(LenWidth::U8, m.table)
    }

    open spec fn oversize(m: RuntimeInvisibleParameterAnnotationsView) -> Option<nat> {
        oversize_table::<ParameterAnnotations>(LenWidth::U8, m.table)
    }

    open spec fn encode(m: RuntimeInvisibleParameterAnnotationsView) -> Seq<u8> {
        encode_table::<ParameterAnnotations>(LenWidth::U8, m.table)
    }

    open spec fn decode(s: Seq<u8>, pos: int) -> Decoded<RuntimeInvisibleParameterAnnotationsView> {
        match decode_table::<ParameterAnnotations>(s, pos, LenWidth::U8) {
            Err(e) => Err(e),
            Ok((table, p1)) => Ok((RuntimeInvisibleParameterAnnotationsView { table }, p1)),
        }
    }

    fn from_bytes(
        input: &[u8],
        pos: usize,
    ) -> (res: ReadResult<RuntimeInvisibleParameterAnnotations>) {
        let ghost decoded = Self::decode(input@, pos as int);
        let (table, pos) = read_table(input, pos, LenWidth::U8)?;
        assert(decoded is Ok);
        Ok((RuntimeInvisibleParameterAnnotations { table }, pos))
    }

    fn to_bytes(&self, out: &mut Vec<u8>) -> (res: WriteResult) {
        let ghost encoded = Self::encode(self@);
        let ghost over = Self::oversize(self@);
        write_table(&self.table, LenWidth::U8, out)?;
        assert(over is None);
        assert(out@ =~= old(out)@ + encoded);
        Ok(())
    }

    proof fn lemma_fits(m: RuntimeInvisibleParameterAnnotationsView) {
        assert(Self::wf(m));
        lemma_table_fits::<ParameterAnnotations>(LenWidth::U8, m.table);
        assert(Self::oversize(m) is None);
    }

    proof fn lemma_decode_encode(
        s: Seq<u8>,
        pos: int,
        m: RuntimeInvisibleParameterAnnotationsView,
    ) {
        assert(Self::wf(m));
        let e1 = encode_table::<ParameterAnnotations>(LenWidth::U8, m.table);
        lemma_table_decode_encode::<ParameterAnnotations>(s, pos, LenWidth::U8, m.table);
        assert(Self::decode(s, pos) == decoded(m, pos + Self::encode(m).len()));
    }

    proof fn lemma_encode_decode(s: Seq<u8>, pos: int) {
        if let Ok((m, next)) = Self::decode(s, pos) {
            let p1 = end_of(decode_table::<ParameterAnnotations>(s, pos, LenWidth::U8));
            lemma_table_encode_decode::<ParameterAnnotations>(s, pos, LenWidth::U8);
            assert(Self::wf(m));
            assert(Self::encode(m) == s.subrange(pos, next));
        }
    }
}

impl Attribute for RuntimeInvisibleParameterAnnotations {
    open spec fn attribute_name() -> Seq<char> {
        "RuntimeInvisibleParameterAnnotations"@
    }

    open spec fn parse(info: Seq<u8>) -> Option<RuntimeInvisibleParameterAnnotationsView> {
        parse_with::<RuntimeInvisibleParameterAnnotations>(info)
    }

    fn from_attributes(
        attributes: &Attributes,
        cp: &ConstantPool,
    ) -> (res: Option<RuntimeInvisibleParameterAnnotations>) {
        decode_named(attributes, cp, "RuntimeInvisibleParameterAnnotations")
    }
}

/// The `AnnotationDefault` attribute: the default value of an element of an
/// annotation type.
#[derive(Debug, Clone, PartialEq, Eq, Hash)]
pub struct AnnotationDefault {
    /// The default value.
    pub default_value: ElementValue,
}

/// The model of an [`AnnotationDefault`]: its fields as mathematical values.
pub struct AnnotationDefaultView {
    pub default_value: ElementValueView,
}

impl View for AnnotationDefault {
    type V = AnnotationDefaultView;

    open spec fn view(&self) -> AnnotationDefaultView {
        AnnotationDefaultView {
            default_value: self.default_value@,
        }
    }
}

impl Codec for AnnotationDefault {
    open spec fn wf(m: AnnotationDefaultView) -> bool {
        ElementValue::wf(m.default_value)
    }

    open spec fn oversize(m: AnnotationDefaultView) -> Option<nat> {
        ElementValue::oversize(m.default_value)
    }

    open spec fn encode(m: AnnotationDefaultView) -> Seq<u8> {
        ElementValue::encode(m.default_value)
    }

    open spec fn decode(s: Seq<u8>, pos: int) -> Decoded<AnnotationDefaultView> {
        match ElementValue::decode(s, pos) {
            Err(e) => Err(e),
            Ok((default_value, p1)) => Ok((AnnotationDefaultView { default_value }, p1)),
        }
    }

    fn from_bytes(input: &[u8], pos: usize) -> (res: ReadResult<AnnotationDefault>) {
        let ghost decoded = Self::decode(input@, pos as int);
        let (default_value, pos) = ElementValue::from_bytes(input, pos)?;
        assert(decoded is Ok);
        Ok((AnnotationDefault { default_value }, pos))
    }

    fn to_bytes(&self, out: &mut Vec<u8>) -> (res: WriteResult) {
        let ghost encoded = Self::encode(self@);
        let ghost over = Self::oversize(self@);
        self.default_value.to_bytes(out)?;
        assert(over is None);
        assert(out@ =~= old(out)@ + encoded);
        Ok(())
    }

    proof fn lemma_fits(m: AnnotationDefaultView) {
        assert(Self::wf(m));
        ElementValue::lemma_fits(m.default_value);
        assert(Self::oversize(m) is None);
    }

    proof fn lemma_decode_encode(s: Seq<u8>, pos: int, m: AnnotationDefaultView) {
        assert(Self::wf(m));
        let e1 = ElementValue::encode(m.default_value);
        ElementValue::lemma_decode_encode(s, pos, m.default_value);
        assert(Self::decode(s, pos) == decoded(m, pos + Self::encode(m).len()));
    }

    proof fn lemma_encode_decode(s: Seq<u8>, pos: int) {
        if let Ok((m, next)) = Self::decode(s, pos) {
            let p1 = end_of(ElementValue::decode(s, pos));
            ElementValue::lemma_encode_decode(s, pos);
            assert(Self::wf(m));
            assert(Self::encode(m) == s.subrange(pos, next));
        }
    }
}

impl Attribute for AnnotationDefault {
    open spec fn attribute_name() -> Seq<char> {
        "AnnotationDefault"@
    }

    open spec fn parse(info: Seq<u8>) -> Option<AnnotationDefaultView> {
        parse_with::<AnnotationDefault>(info)
    }

    fn from_attributes(
        attributes: &Attributes,
        cp: &ConstantPool,
    ) -> (res: Option<AnnotationDefault>) {
        decode_named(attributes, cp, "AnnotationDefault")
    }
}

} // verus!
