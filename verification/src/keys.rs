//! RSA key handling. A node's identity is an RSA keypair; the private key
//! travels as PKCS#8 DER bytes and the public key's DER encoding is the node
//! id. The rsa crate does the arithmetic; nothing about the keys themselves
//! is stated here beyond what each call converts.

use rsa::pkcs8::{DecodePrivateKey, EncodePrivateKey, EncodePublicKey};
use vstd::prelude::*;

verus! {

#[verifier::external_type_specification]
#[verifier::external_body]
pub struct ExRsaPrivateKey(rsa::RsaPrivateKey);

/// Relies on rsa's `RsaPrivateKey::new`, drawing randomness from rand's
/// `thread_rng`. The key is random, so nothing is stated of it.
#[verifier::external_body]
pub fn rsa_generate(bits: usize) -> (r: Option<rsa::RsaPrivateKey>) {
    rsa::RsaPrivateKey::new(&mut rand::thread_rng(), bits).ok()
}

/// Relies on pkcs8's `EncodePrivateKey::to_pkcs8_der` for rsa keys: the
/// PKCS#8 DER encoding of the private key.
#[verifier::external_body]
pub fn rsa_priv_to_pkcs8_der(key: &rsa::RsaPrivateKey) -> (r: Option<Vec<u8>>) {
    match key.to_pkcs8_der() {
        Ok(doc) => Some(doc.as_bytes().to_vec()),
        Err(_) => None,
    }
}

/// Relies on pkcs8's `DecodePrivateKey::from_pkcs8_der` for rsa keys: reads
/// a private key back from its PKCS#8 DER encoding.
#[verifier::external_body]
pub fn rsa_priv_from_pkcs8_der(der: &Vec<u8>) -> (r: Option<rsa::RsaPrivateKey>) {
    rsa::RsaPrivateKey::from_pkcs8_der(der.as_slice()).ok()
}

/// Relies on rsa's `RsaPrivateKey::to_public_key` and pkcs8's
/// `EncodePublicKey::to_public_key_der`: the DER encoding of the public key
/// that belongs to the given private key.
#[verifier::external_body]
pub fn rsa_pub_der(key: &rsa::RsaPrivateKey) -> (r: Option<Vec<u8>>) {
    match key.to_public_key().to_public_key_der() {
        Ok(doc) => Some(doc.as_ref().to_vec()),
        Err(_) => None,
    }
}

} // verus!
