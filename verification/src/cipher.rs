//! The link's cipher calls: stream sealing with ChaCha20-Poly1305, and the
//! RSA exchange that carries the stream keys during the handshake.

use chacha20poly1305::aead::Aead;
use chacha20poly1305::{ChaCha20Poly1305, KeyInit};
use rsa::pkcs8::{DecodePrivateKey, DecodePublicKey};
use vstd::prelude::*;

verus! {

/// The ChaCha20-Poly1305 ciphertext (with its tag) of a plaintext under a
/// 32-byte key and a 12-byte nonce: a function of exactly these inputs.
pub uninterp spec fn chacha_sealed(key: Seq<u8>, nonce: Seq<u8>, pt: Seq<u8>) -> Seq<u8>;

/// What RSA PKCS#1 v1.5 decryption with the private key given as PKCS#8 DER
/// bytes makes of a ciphertext; None when the key bytes do not decode or the
/// padding check fails. A function of exactly these inputs.
pub uninterp spec fn rsa_pkcs1_decrypted(priv_der: Seq<u8>, ct: Seq<u8>) -> Option<Seq<u8>>;

/// Relies on chacha20poly1305's `Aead::encrypt`: sealing is deterministic in
/// key, nonce and plaintext, and succeeds for every plaintext a link can
/// carry (the algorithm's plaintext bound is far above 4 GiB).
#[verifier::external_body]
pub fn chacha_seal(key: &Vec<u8>, nonce: &Vec<u8>, pt: &Vec<u8>) -> (r: Option<Vec<u8>>)
    ensures
        r matches Some(ct) ==> key@.len() == 32 && nonce@.len() == 12 && ct@ == chacha_sealed(
            key@,
            nonce@,
            pt@,
        ),
        (key@.len() == 32 && nonce@.len() == 12 && pt@.len() <= 0x100000000) ==> r is Some,
{
    let key = chacha20poly1305::Key::try_from(key.as_slice()).ok()?;
    let nonce = chacha20poly1305::Nonce::try_from(nonce.as_slice()).ok()?;
    let cipher = ChaCha20Poly1305::new(&key);
    cipher.encrypt(&nonce, pt.as_slice()).ok()
}

/// Relies on chacha20poly1305's `Aead::decrypt`: opening succeeds exactly on
/// a sealed text (the tag check), and returns what was sealed.
#[verifier::external_body]
pub fn chacha_open(key: &Vec<u8>, nonce: &Vec<u8>, ct: &Vec<u8>) -> (r: Option<Vec<u8>>)
    ensures
        r matches Some(pt) ==> key@.len() == 32 && nonce@.len() == 12 && ct@ == chacha_sealed(
            key@,
            nonce@,
            pt@,
        ),
        (r is None && key@.len() == 32 && nonce@.len() == 12) ==> forall|pt: Seq<u8>|
            ct@ != chacha_sealed(key@, nonce@, pt),
{
    let key = chacha20poly1305::Key::try_from(key.as_slice()).ok()?;
    let nonce = chacha20poly1305::Nonce::try_from(nonce.as_slice()).ok()?;
    let cipher = ChaCha20Poly1305::new(&key);
    cipher.decrypt(&nonce, ct.as_slice()).ok()
}

/// Relies on rsa's `RsaPublicKey::encrypt` with PKCS#1 v1.5 padding, the
/// public key read from DER. The padding draws randomness, so nothing is
/// stated of the ciphertext.
#[verifier::external_body]
pub fn rsa_encrypt_pkcs1v15(pub_der: &Vec<u8>, pt: &Vec<u8>) -> (r: Option<Vec<u8>>) {
    let key = rsa::RsaPublicKey::from_public_key_der(pub_der.as_slice()).ok()?;
    key.encrypt(&mut rand::thread_rng(), rsa::Pkcs1v15Encrypt, pt.as_slice()).ok()
}

/// Relies on rsa's `RsaPrivateKey::decrypt` with PKCS#1 v1.5 padding, the
/// private key read from PKCS#8 DER: decryption is a function of the key
/// bytes and the ciphertext alone.
#[verifier::external_body]
pub fn rsa_decrypt_pkcs1v15(priv_der: &Vec<u8>, ct: &Vec<u8>) -> (r: Option<Vec<u8>>)
    ensures
        match r {
            Some(pt) => rsa_pkcs1_decrypted(priv_der@, ct@) == Some(pt@),
            None => rsa_pkcs1_decrypted(priv_der@, ct@) is None,
        },
{
    let key = rsa::RsaPrivateKey::from_pkcs8_der(priv_der.as_slice()).ok()?;
    key.decrypt(rsa::Pkcs1v15Encrypt, ct.as_slice()).ok()
}

} // verus!
