//! The transport encoding of the text fields: standard padded
//! base64, called through the base64 crate.

use vstd::prelude::*;

use crate::text::is_base64_byte;

verus! {

/// What standard padded base64 decoding returns on a byte string:
/// the decoded bytes, or nothing when the input is not canonical
/// base64.  The result is a function of the input alone.
pub uninterp spec fn b64_decode_spec(s: Seq<u8>) -> Option<Seq<u8>>;

/// The canonical padded base64 encoding of a byte string.
pub uninterp spec fn b64_encode_spec(b: Seq<u8>) -> Seq<u8>;

#[verifier::external_type_specification]
#[verifier::external_body]
pub struct ExDecodeError(base64::DecodeError);

/// Relies on the base64 crate's standard engine `decode`: it succeeds
/// exactly on canonical padded base64, and its result depends on the
/// input bytes alone.
#[verifier::external_body]
pub fn b64_decode(s: &[u8]) -> (r: Result<Vec<u8>, base64::DecodeError>)
    ensures
        match r {
            Ok(v) => b64_decode_spec(s@) == Some(v@),
            Err(_) => b64_decode_spec(s@) == None::<Seq<u8>>,
        },
{
    base64::Engine::decode(&base64::prelude::BASE64_STANDARD, s)
}

/// Relies on the base64 crate's standard engine `encode`: canonical
/// padded output drawn from the base64 alphabet, which `decode` reads
/// back to the input bytes.  The length bound keeps the engine's
/// output-size arithmetic from overflowing.
#[verifier::external_body]
pub fn b64_encode(b: &[u8]) -> (r: Vec<u8>)
    requires
        b@.len() <= 0x1000_0000,
    ensures
        r@ == b64_encode_spec(b@),
        b64_decode_spec(r@) == Some(b@),
        forall|i: int| 0 <= i < r@.len() ==> is_base64_byte(r@[i]),
{
    base64::Engine::encode(&base64::prelude::BASE64_STANDARD, b).into_bytes()
}

} // verus!
