//! Byte-string encodings that the base relies on: URL-safe unpadded base64
//! for identities, and hex-encoded SHA-256 digests for on-disk names.

use base64::Engine;
use vstd::prelude::*;

verus! {

/// The URL-safe, unpadded base64 encoding of a byte sequence, as produced by
/// the base64 crate's `URL_SAFE_NO_PAD` engine.
pub uninterp spec fn b64_encode(bytes: Seq<u8>) -> Seq<char>;

/// The lower-case hex encoding of the SHA-256 digest of a byte sequence, as
/// produced by the sha256 crate.
pub uninterp spec fn sha256_hex(bytes: Seq<u8>) -> Seq<char>;

/// Relies on base64's `Engine::encode` with the `URL_SAFE_NO_PAD` engine: the
/// encoding is a function of the input bytes alone.
#[verifier::external_body]
pub fn b64_of_bytes(b: &Vec<u8>) -> (r: String)
    ensures
        r@ == b64_encode(b@),
{
    base64::engine::general_purpose::URL_SAFE_NO_PAD.encode(b)
}

/// Relies on base64's `Engine::decode` with the `URL_SAFE_NO_PAD` engine.
/// That engine requires absent padding and rejects non-zero trailing bits, so
/// it accepts exactly the canonical encodings; decoding an encoding returns
/// the encoded bytes.
#[verifier::external_body]
pub fn b64_to_bytes(s: &str) -> (r: Option<Vec<u8>>)
    ensures
        match r {
            Some(v) => s@ == b64_encode(v@) && forall|b: Seq<u8>| s@ == b64_encode(b) ==> v@ == b,
            None => forall|b: Seq<u8>| s@ != b64_encode(b),
        },
{
    base64::engine::general_purpose::URL_SAFE_NO_PAD.decode(s).ok()
}

/// Relies on sha256's `digest`: the digest is a function of the input bytes
/// alone.
#[verifier::external_body]
pub fn sha256_of_bytes(b: &Vec<u8>) -> (r: String)
    ensures
        r@ == sha256_hex(b@),
{
    sha256::digest(b.as_slice())
}

} // verus!
