//! Members of the network. A member is either a peer (another base) or a
//! peripheral (a device or app paired to this base); a relation pairs that
//! role with the member's id, and a self relation adds the private key for
//! the local side.

use vstd::prelude::*;

use crate::encodings::{b64_encode, b64_of_bytes, b64_to_bytes, sha256_hex, sha256_of_bytes};
use crate::id::{bytes_clone, bytes_eq, SpiderId2048};
use crate::keys::{rsa_generate, rsa_priv_from_pkcs8_der, rsa_priv_to_pkcs8_der, rsa_pub_der};

verus! {

/// The role one member of a link fills.
#[derive(Clone, Copy, PartialEq, Eq, Structural, Debug)]
pub enum Role {
    /// A peripheral: a process or device trusted by its base, which may use
    /// any of the services the base provides.
    Peripheral,
    /// A peer: another base. Only events may cross between peers.
    Peer,
}

/// The one-byte tag that the base64 encoding of a relation appends to the
/// id's bytes.
pub open spec fn role_tag(role: Role) -> u8 {
    match role {
        Role::Peripheral => 1,
        Role::Peer => 0,
    }
}

/// A relation: the role and id of a member of the network, typically the
/// remote side of a link.
pub struct Relation {
    /// The role this member fills.
    pub role: Role,
    /// The id of the member.
    pub id: SpiderId2048,
}

/// The mathematical value of a [`Relation`].
pub struct RelV {
    pub role: Role,
    pub id: Seq<u8>,
}

impl View for Relation {
    type V = RelV;

    open spec fn view(&self) -> RelV {
        RelV { role: self.role, id: self.id@ }
    }
}

/// The bytes whose base64 encoding represents a relation: the id's bytes,
/// then the role tag.
pub open spec fn rel_bytes(r: RelV) -> Seq<u8> {
    r.id.push(role_tag(r.role))
}

impl Clone for Relation {
    fn clone(&self) -> (r: Self)
        ensures
            r@ == self@,
    {
        Relation { role: self.role, id: self.id.clone() }
    }
}

impl PartialEq for Relation {
    fn eq(&self, other: &Self) -> (r: bool) {
        self.role == other.role && self.id.eq(&other.id)
    }
}

impl vstd::std_specs::cmp::PartialEqSpecImpl for Relation {
    open spec fn obeys_eq_spec() -> bool {
        true
    }

    open spec fn eq_spec(&self, other: &Relation) -> bool {
        self@ == other@
    }
}

impl Relation {
    /// True when this relation is a peripheral.
    pub fn is_peripheral(&self) -> (r: bool)
        ensures
            r == (self@.role == Role::Peripheral),
    {
        match self.role {
            Role::Peripheral => true,
            Role::Peer => false,
        }
    }

    /// True when this relation is a peer.
    pub fn is_peer(&self) -> (r: bool)
        ensures
            r == (self@.role == Role::Peer),
    {
        match self.role {
            Role::Peer => true,
            Role::Peripheral => false,
        }
    }

    /// The base64 encoding of this relation: the id's bytes with the role
    /// tag appended, encoded URL-safe without padding.
    pub fn to_base64(&self) -> (r: String)
        ensures
            r@ == b64_encode(rel_bytes(self@)),
    {
        let mut bytes = bytes_clone(&self.id.bytes);
        let tag: u8 = match self.role {
            Role::Peripheral => 1,
            Role::Peer => 0,
        };
        bytes.push(tag);
        let r = b64_of_bytes(&bytes);
        proof {
            assert(bytes@ =~= rel_bytes(self@));
        }
        r
    }

    /// Decode a relation from its base64 encoding. Returns the relation
    /// whose encoding is `s`, and None when `s` encodes no relation: a
    /// node's id is exactly 294 bytes, so anything but a 295-byte decode
    /// ending in a role tag is rejected.
    pub fn from_base64(s: String) -> (r: Option<Relation>)
        ensures
            match r {
                Some(rel) => rel@.id.len() == 294 && s@ == b64_encode(rel_bytes(rel@)),
                None => forall|rv: RelV|
                    rv.id.len() == 294 ==> s@ != b64_encode(rel_bytes(rv)),
            },
            forall|rv: RelV|
                rv.id.len() == 294 && s@ == b64_encode(rel_bytes(rv)) ==> (r matches Some(rel)
                    && rel@ == rv),
    {
        proof {
            assert forall|rv: RelV| true implies rel_bytes(rv).len() == rv.id.len() + 1
                && rel_bytes(rv).drop_last() =~= rv.id && rel_bytes(rv).last() == role_tag(
                rv.role,
            ) by {}
        }
        match b64_to_bytes(s.as_str()) {
            Some(mut v) => {
                let ghost full = v@;
                if v.len() != 295 {
                    return None;
                }
                let tag = match v.pop() {
                    Some(t) => t,
                    None => {
                        return None;
                    },
                };
                let role = if tag == 0 {
                    Role::Peer
                } else if tag == 1 {
                    Role::Peripheral
                } else {
                    return None;
                };
                let rel = Relation { role, id: SpiderId2048::from_bytes(v) };
                proof {
                    assert(rel_bytes(rel@) =~= full);
                }
                Some(rel)
            },
            None => None,
        }
    }

    /// Decode an id from base64 and pair it with the peripheral role. The id
    /// must decode to exactly 294 bytes.
    pub fn peripheral_from_base_64(s: &str) -> (r: Option<Relation>)
        ensures
            match r {
                Some(rel) => rel@.role == Role::Peripheral && s@ == b64_encode(rel@.id)
                    && rel@.id.len() == 294,
                None => forall|b: Seq<u8>| b.len() == 294 ==> s@ != b64_encode(b),
            },
    {
        match SpiderId2048::from_base64(s) {
            Some(id) => Some(Relation { role: Role::Peripheral, id }),
            None => None,
        }
    }

    /// Decode an id from base64 and pair it with the peer role. The id must
    /// decode to exactly 294 bytes.
    pub fn peer_from_base_64(s: &str) -> (r: Option<Relation>)
        ensures
            match r {
                Some(rel) => rel@.role == Role::Peer && s@ == b64_encode(rel@.id) && rel@.id.len()
                    == 294,
                None => forall|b: Seq<u8>| b.len() == 294 ==> s@ != b64_encode(b),
            },
    {
        match SpiderId2048::from_base64(s) {
            Some(id) => Some(Relation { role: Role::Peer, id }),
            None => None,
        }
    }

    /// The hex-encoded SHA-256 digest of the relation's bytes (the id with
    /// the role tag appended).
    pub fn sha256(&self) -> (r: String)
        ensures
            r@ == sha256_hex(rel_bytes(self@)),
    {
        let mut bytes = bytes_clone(&self.id.bytes);
        let tag: u8 = match self.role {
            Role::Peripheral => 1,
            Role::Peer => 0,
        };
        bytes.push(tag);
        let r = sha256_of_bytes(&bytes);
        proof {
            assert(bytes@ =~= rel_bytes(self@));
        }
        r
    }
}

/// Law: decoding an encoded relation gives the relation back, for every
/// relation whose id has a node id's exact size.
pub fn base64_round_trip(r: &Relation) -> (out: Relation)
    requires
        r@.id.len() == 294,
    ensures
        out@ == r@,
{
    let s = r.to_base64();
    match Relation::from_base64(s) {
        Some(rel) => rel,
        None => vstd::pervasive::unreached(),
    }
}

/// The local side of a connection: a relation together with the private key
/// that corresponds to its id.
pub struct SelfRelation {
    /// The private key, as PKCS#8 DER bytes.
    pub priv_key_der: Vec<u8>,
    /// The relation of the local node.
    pub relation: Relation,
}

/// The mathematical value of a [`SelfRelation`].
pub struct SelfRelV {
    pub priv_key_der: Seq<u8>,
    pub relation: RelV,
}

impl View for SelfRelation {
    type V = SelfRelV;

    open spec fn view(&self) -> SelfRelV {
        SelfRelV { priv_key_der: self.priv_key_der@, relation: self.relation@ }
    }
}

impl Clone for SelfRelation {
    fn clone(&self) -> (r: Self)
        ensures
            r@ == self@,
    {
        SelfRelation { priv_key_der: bytes_clone(&self.priv_key_der), relation: self.relation.clone() }
    }
}

impl SelfRelation {
    /// Build a self relation from a private key and a role: the private key
    /// is stored as PKCS#8 DER and the id is the public key's DER encoding.
    /// None when the rsa crate cannot encode the key.
    pub fn from_key(key: &rsa::RsaPrivateKey, role: Role) -> (r: Option<Self>)
        ensures
            r matches Some(sr) ==> sr@.relation.role == role,
    {
        let priv_bytes = match rsa_priv_to_pkcs8_der(key) {
            Some(b) => b,
            None => {
                return None;
            },
        };
        let pub_bytes = match rsa_pub_der(key) {
            Some(b) => b,
            None => {
                return None;
            },
        };
        Some(
            SelfRelation {
                priv_key_der: priv_bytes,
                relation: Relation { role, id: SpiderId2048::from_bytes(pub_bytes) },
            },
        )
    }

    /// Build a self relation from the PKCS#8 DER bytes of a private key.
    pub fn from_der(bytes: &Vec<u8>, role: Role) -> (r: Option<Self>)
        ensures
            r matches Some(sr) ==> sr@.relation.role == role,
    {
        match rsa_priv_from_pkcs8_der(bytes) {
            Some(key) => Self::from_key(&key, role),
            None => None,
        }
    }

    /// Generate a fresh 2048-bit identity with the given role.
    pub fn generate_key(role: Role) -> (r: Option<Self>)
        ensures
            r matches Some(sr) ==> sr@.relation.role == role,
    {
        match rsa_generate(2048) {
            Some(key) => Self::from_key(&key, role),
            None => None,
        }
    }

    /// The private key of this self relation; None when the stored bytes do
    /// not decode.
    pub fn private_key(&self) -> (r: Option<rsa::RsaPrivateKey>) {
        rsa_priv_from_pkcs8_der(&self.priv_key_der)
    }
}

} // verus!
