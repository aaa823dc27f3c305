use base64::engine::general_purpose;
use base64::Engine;
use vstd::prelude::*;

verus! {

#[verifier::external_type_specification]
#[verifier::external_body]
pub struct ExDecodeError(base64::DecodeError);

/// What base64's standard engine decodes from `s`, or `None` where `s` is not base64.
pub uninterp spec fn base64_decoded(s: Seq<char>) -> Option<Seq<u8>>;

/// What base64's standard engine encodes `b` as.
pub uninterp spec fn base64_encoded(b: Seq<u8>) -> Seq<char>;

/// Relies on `base64::engine::general_purpose::STANDARD.decode`: a function of the text alone.
/// That engine requires canonical padding and rejects nonzero trailing bits, so it accepts only
/// what its own encoder writes: re-encoding the bytes gives the text back.
#[verifier::external_body]
pub fn base64_decode(s: &str) -> (r: Result<Vec<u8>, base64::DecodeError>)
    ensures
        r is Ok <==> base64_decoded(s@) is Some,
        r matches Ok(v) ==> base64_decoded(s@) == Some(v@),
        r matches Ok(v) ==> base64_encoded(v@) == s@,
{
    general_purpose::STANDARD.decode(s)
}

/// Relies on `base64::engine::general_purpose::STANDARD.encode`: a function of the bytes alone,
/// padded to four characters for every three bytes or part of three.
#[verifier::external_body]
pub fn base64_encode(bytes: &[u8]) -> (r: String)
    ensures
        r@ == base64_encoded(bytes@),
        r@.len() == 4 * ((bytes@.len() + 2) / 3),
{
    general_purpose::STANDARD.encode(bytes)
}

} // verus!
