//! Typed attributes: the structures that the payloads of the named
//! attributes hold, each decoded on demand.
use crate::class::Attributes;
use crate::codec::{Codec, decoded};
use crate::pool::ConstantPool;
use vstd::prelude::*;

pub mod annotation;
pub mod bootstrap;
pub mod code;
pub mod constant;
pub mod members;
pub mod module;
pub mod stack_map;
pub mod type_annotation;

verus! {

/// A typed attribute: a structure that is decoded on demand from the payload
/// of the attribute with its name.
pub trait Attribute: Sized + View {
    /// The name under which the attribute stands in a class file.
    spec fn attribute_name() -> Seq<char>;

    /// The attribute that a payload holds, if it holds one.
    spec fn parse(info: Seq<u8>) -> Option<Self::V>;

    /// Looks for the first attribute with the name of `Self` and decodes its
    /// payload. The result is `None` if there is no such attribute or if its
    /// payload does not hold a `Self`.
    fn from_attributes(attributes: &Attributes, cp: &ConstantPool) -> (res: Option<Self>)
        ensures
            match attributes.spec_named(cp, Self::attribute_name()) {
                None => res is None,
                Some(attr) => match res {
                    Some(v) => Self::parse(attr.info@) == Some(v@),
                    None => Self::parse(attr.info@) is None,
                },
            },
    ;
}

/// The value that a payload starts with, if it starts with one. Bytes behind
/// the value are not looked at.
pub open spec fn parse_with<A: Codec>(info: Seq<u8>) -> Option<A::V> {
    match A::decode(info, 0) {
        Ok((m, _)) => Some(m),
        Err(_) => None,
    }
}

/// Looks for the first attribute with the given name and decodes the value
/// that its payload starts with.
pub fn decode_named<A: Codec>(attributes: &Attributes, cp: &ConstantPool, name: &str) -> (res:
    Option<A>)
    ensures
        match attributes.spec_named(cp, name@) {
            None => res is None,
            Some(attr) => match res {
                Some(v) => parse_with::<A>(attr.info@) == Some(v@),
                None => parse_with::<A>(attr.info@) is None,
            },
        },
{
    match attributes.named(cp, name) {
        None => None,
        Some(attr) => match A::from_bytes(attr.info.as_slice(), 0) {
            Ok((v, _)) => Some(v),
            Err(_) => None,
        },
    }
}

impl Attributes {
    /// The typed attribute `T` among these attributes, if there is one and
    /// its payload can be decoded.
    pub fn get<T: Attribute>(&self, cp: &ConstantPool) -> (res: Option<T>)
        ensures
            match self.spec_named(cp, T::attribute_name()) {
                None => res is None,
                Some(attr) => match res {
                    Some(v) => T::parse(attr.info@) == Some(v@),
                    None => T::parse(attr.info@) is None,
                },
            },
    {
        T::from_attributes(self, cp)
    }
}

} // verus!
