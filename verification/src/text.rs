//! Conversions between bytes and text. The standard library decides what is
//! text; the contracts here restate its documentation over `vstd::utf8`.

use vstd::prelude::*;
use vstd::string::StringSliceAdditionalSpecFns;
use vstd::utf8::{encode_scalar, valid_utf8};

verus! {

/// Calls `std::str::from_utf8`. The standard library documents that it
/// succeeds exactly on well-formed UTF-8 and that the string it returns is a
/// view of the same bytes; nothing of this is proved here.
#[verifier::external_body]
pub(crate) fn as_text(bytes: &[u8]) -> (text: Option<&str>)
    ensures
        text.is_some() <==> valid_utf8(bytes@),
        text.is_some() ==> text.unwrap().spec_bytes() == bytes@,
{
    std::str::from_utf8(bytes).ok()
}

/// Calls `char::encode_utf8`. The standard library documents that it writes
/// the UTF-8 encoding of the character; nothing of this is proved here.
#[verifier::external_body]
pub(crate) fn char_bytes(c: char) -> (out: Vec<u8>)
    ensures
        out@ == encode_scalar(c as u32),
{
    let mut buffer = [0u8; 4];
    c.encode_utf8(&mut buffer).as_bytes().to_vec()
}

/// Whether `bytes` can be decoded as text.
pub fn is_text(bytes: &[u8]) -> (yes: bool)
    ensures
        yes == valid_utf8(bytes@),
{
    as_text(bytes).is_some()
}

} // verus!
