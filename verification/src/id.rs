//! Node identities. A node's id is the DER encoding of its RSA public key;
//! for 2048-bit keys that encoding is 294 bytes long.

use vstd::prelude::*;

use crate::encodings::{b64_encode, b64_of_bytes, b64_to_bytes, sha256_hex, sha256_of_bytes};

verus! {

/// The id of a member of the network: the DER-encoded public key, always
/// `BYTE_SIZE` bytes long.
pub struct SpiderId<const BYTE_SIZE: usize> {
    pub bytes: Vec<u8>,
}

/// The id used by the network: a 2048-bit RSA public key, whose DER encoding
/// takes 294 bytes.
pub type SpiderId2048 = SpiderId<294>;

impl<const BYTE_SIZE: usize> View for SpiderId<BYTE_SIZE> {
    type V = Seq<u8>;

    open spec fn view(&self) -> Seq<u8> {
        self.bytes@
    }
}

/// Compare two byte vectors for equality of their contents.
pub fn bytes_eq(a: &Vec<u8>, b: &Vec<u8>) -> (r: bool)
    ensures
        r == (a@ == b@),
{
    if a.len() != b.len() {
        return false;
    }
    let mut i: usize = 0;
    while i < a.len()
        invariant
            i <= a.len(),
            a@.len() == b@.len(),
            forall|j: int| 0 <= j < i ==> a@[j] == b@[j],
        decreases a.len() - i,
    {
        if a[i] != b[i] {
            return false;
        }
        i = i + 1;
    }
    proof {
        assert(a@ =~= b@);
    }
    true
}

/// Copy a byte vector.
pub fn bytes_clone(a: &Vec<u8>) -> (r: Vec<u8>)
    ensures
        r@ == a@,
{
    let mut out: Vec<u8> = Vec::new();
    let mut i: usize = 0;
    while i < a.len()
        invariant
            i <= a.len(),
            out@ == a@.subrange(0, i as int),
        decreases a.len() - i,
    {
        out.push(a[i]);
        i = i + 1;
    }
    proof {
        assert(out@ =~= a@);
    }
    out
}

impl<const BYTE_SIZE: usize> SpiderId<BYTE_SIZE> {
    /// True when the id holds exactly `BYTE_SIZE` bytes.
    pub open spec fn wf(&self) -> bool {
        self@.len() == BYTE_SIZE
    }

    /// Build an id from its bytes.
    pub fn from_bytes(bytes: Vec<u8>) -> (r: Self)
        ensures
            r@ == bytes@,
    {
        SpiderId { bytes }
    }

    /// Take the bytes of the id back out.
    pub fn to_bytes(self) -> (r: Vec<u8>)
        ensures
            r@ == self@,
    {
        self.bytes
    }

    /// Borrow the bytes of the id.
    pub fn as_bytes(&self) -> (r: &Vec<u8>)
        ensures
            r@ == self@,
    {
        &self.bytes
    }

    /// The base64 encoding of the id's bytes.
    pub fn to_base64(&self) -> (r: String)
        ensures
            r@ == b64_encode(self@),
    {
        b64_of_bytes(&self.bytes)
    }

    /// Decode an id from base64. Returns the id whose encoding is `s`, and
    /// None when `s` encodes no byte sequence of the id's exact size.
    pub fn from_base64(s: &str) -> (r: Option<Self>)
        ensures
            match r {
                Some(id) => s@ == b64_encode(id@) && id@.len() == BYTE_SIZE && forall|b: Seq<u8>|
                    s@ == b64_encode(b) ==> id@ == b,
                None => forall|b: Seq<u8>| b.len() == BYTE_SIZE ==> s@ != b64_encode(b),
            },
    {
        match b64_to_bytes(s) {
            Some(bytes) => {
                if bytes.len() == BYTE_SIZE {
                    Some(SpiderId { bytes })
                } else {
                    None
                }
            },
            None => None,
        }
    }

    /// The hex-encoded SHA-256 digest of the id's bytes; used as a directory
    /// name for a peripheral's datasets.
    pub fn sha256(&self) -> (r: String)
        ensures
            r@ == sha256_hex(self@),
    {
        sha256_of_bytes(&self.bytes)
    }
}

impl<const BYTE_SIZE: usize> Clone for SpiderId<BYTE_SIZE> {
    fn clone(&self) -> (r: Self)
        ensures
            r@ == self@,
    {
        SpiderId { bytes: bytes_clone(&self.bytes) }
    }
}

impl<const BYTE_SIZE: usize> PartialEq for SpiderId<BYTE_SIZE> {
    fn eq(&self, other: &Self) -> (r: bool) {
        bytes_eq(&self.bytes, &other.bytes)
    }
}

impl<const BYTE_SIZE: usize> vstd::std_specs::cmp::PartialEqSpecImpl for SpiderId<BYTE_SIZE> {
    open spec fn obeys_eq_spec() -> bool {
        true
    }

    open spec fn eq_spec(&self, other: &SpiderId<BYTE_SIZE>) -> bool {
        self@ == other@
    }
}

} // verus!
