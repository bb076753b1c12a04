//! Text encodings at the transport boundary: group ids and identities are
//! opaque byte strings inside the library and URL-safe text outside it.

use vstd::prelude::*;

verus! {

/// The URL-safe, unpadded base64 image of a byte string; the encoding is a
/// pure function of the bytes.
pub uninterp spec fn b64url_of(bytes: Seq<u8>) -> Seq<char>;

/// Relies on base64's `URL_SAFE_NO_PAD` engine: `encode` returns the
/// URL-safe, unpadded base64 text of the input, a function of the input
/// bytes alone.
#[verifier::external_body]
pub fn encode_base64url(b: &[u8]) -> (r: String)
    ensures
        r@ == b64url_of(b@),
{
    base64::Engine::encode(&base64::prelude::BASE64_URL_SAFE_NO_PAD, b)
}

/// Whether a byte string is valid UTF-8 text.
pub uninterp spec fn is_utf8(bytes: Seq<u8>) -> bool;

/// Relies on `core::str::from_utf8`: it returns `Ok` exactly when the bytes
/// are valid UTF-8.
#[verifier::external_body]
pub fn utf8_valid(b: &[u8]) -> (r: bool)
    ensures
        r == is_utf8(b@),
{
    core::str::from_utf8(b).is_ok()
}

} // verus!
