//! The boundary to the `mutf8` crate, which converts strings in modified
//! UTF-8 to standard UTF-8.
use vstd::prelude::*;

verus! {

/// What `mutf8::mstr::to_utf8` yields for a string with the given bytes: the
/// characters of the string, or nothing if the conversion fails.
pub uninterp spec fn mstr_to_utf8(bytes: Seq<u8>) -> Option<Seq<char>>;

/// Calls `mutf8::mstr::to_utf8` on the given bytes. Nothing is proved of the
/// conversion; the contract only names its result: the text that the crate
/// yields, or `None` where it reports an error.
#[verifier::external_body]
pub(crate) fn decode_mutf8(bytes: &[u8]) -> (res: Option<String>)
    ensures
        match res {
            Some(text) => mstr_to_utf8(bytes@) == Some(text@),
            None => mstr_to_utf8(bytes@) is None,
        },
{
    match ::mutf8::mstr::from_mutf8(bytes).to_utf8() {
        Ok(text) => Some(text.into_owned()),
        Err(_) => None,
    }
}

} // verus!
