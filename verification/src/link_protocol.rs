//! The link handshake's decisions: what a listener makes of the first frame,
//! how the stream keys travel, and how an introduction is checked. The
//! sockets, the JSON framing of the wire, and the cipher calls around these
//! decisions live with the host; each decision here takes the decrypted
//! payloads as plain bytes.

use vstd::prelude::*;
use vstd::string::StringExecFns;

use crate::id::SpiderId2048;
use crate::message::KeyRequest;
use crate::relation::{Relation, RelV};
use crate::text::string_clone;

verus! {

broadcast use vstd::std_specs::vec::group_vec_axioms;

/// The bytes of the key-request literal.
pub open spec fn key_request_bytes() -> Seq<u8> {
    seq![75u8, 69u8, 89u8, 95u8, 82u8, 69u8, 81u8, 85u8, 69u8, 83u8, 84u8]
}

/// The payload a key request sends: the literal ASCII `KEY_REQUEST`.
pub fn key_request_payload() -> (r: Vec<u8>)
    ensures
        r@ == key_request_bytes(),
{
    let mut v: Vec<u8> = Vec::new();
    v.push(75);
    v.push(69);
    v.push(89);
    v.push(95);
    v.push(82);
    v.push(69);
    v.push(81);
    v.push(85);
    v.push(69);
    v.push(83);
    v.push(84);
    proof {
        assert(v@ =~= key_request_bytes());
    }
    v
}

/// Whether a first frame is the key-request literal.
#[verifier::loop_isolation(false)]
pub fn is_key_request(payload: &Vec<u8>) -> (r: bool)
    ensures
        r == (payload@ == key_request_bytes()),
{
    let lit = key_request_payload();
    crate::id::bytes_eq(payload, &lit)
}

/// What a listener does with the first frame of a new connection.
pub enum FirstFrameStep {
    /// The frame was the key-request literal and a broadcast name is set:
    /// answer with the base's key and name, then close.
    RespondKeyRequest(KeyRequest),
    /// The frame was the key-request literal but no broadcast name is set:
    /// close without answering.
    CloseSilently,
    /// The frame carries the connector's encrypted stream keys: decrypt it
    /// and go on with the handshake.
    DecryptConfig,
}

/// Decide a listener's first step: a key request is answered exactly when a
/// broadcast name is set, with the base's own id and that name; any other
/// payload is the connector's encrypted stream keys.
pub fn listener_first_frame(
    payload: &Vec<u8>,
    broadcast_name: &Option<String>,
    own_id: &SpiderId2048,
) -> (r: FirstFrameStep)
    ensures
        payload@ == key_request_bytes() ==> (match broadcast_name {
            Some(name) => r matches FirstFrameStep::RespondKeyRequest(kr) && kr@.key == own_id@
                && kr@.name == name@,
            None => r is CloseSilently,
        }),
        payload@ != key_request_bytes() ==> r is DecryptConfig,
{
    if is_key_request(payload) {
        match broadcast_name {
            Some(name) => FirstFrameStep::RespondKeyRequest(
                KeyRequest { key: own_id.clone(), name: string_clone(name) },
            ),
            None => FirstFrameStep::CloseSilently,
        }
    } else {
        FirstFrameStep::DecryptConfig
    }
}

/// The bytes a side sends as its stream configuration: its own key, then its
/// own nonce, to be encrypted with the counterparty's public key.
#[verifier::loop_isolation(false)]
pub fn stream_config_bytes(key: &Vec<u8>, nonce: &Vec<u8>) -> (r: Vec<u8>)
    ensures
        r@ == key@ + nonce@,
{
    let mut out = crate::id::bytes_clone(key);
    let mut tail = crate::id::bytes_clone(nonce);
    out.append(&mut tail);
    proof {
        assert(out@ =~= key@ + nonce@);
    }
    out
}

/// Read a decrypted stream configuration: the first 32 bytes are the
/// counterparty's key, the next 12 its nonce; a shorter payload is no
/// configuration and closes the link.
#[verifier::loop_isolation(false)]
pub fn read_stream_config(dec: &Vec<u8>) -> (r: Option<(Vec<u8>, Vec<u8>)>)
    ensures
        match r {
            Some(kn) => dec@.len() >= 44 && kn.0@ == dec@.subrange(0, 32) && kn.1@
                == dec@.subrange(32, 44),
            None => dec@.len() < 44,
        },
{
    if dec.len() < 44 {
        return None;
    }
    let mut key: Vec<u8> = Vec::new();
    let mut i: usize = 0;
    while i < 32
        invariant
            i <= 32,
            dec@.len() >= 44,
            key@ == dec@.subrange(0, i as int),
        decreases 32 - i,
    {
        key.push(dec[i]);
        proof {
            assert(key@ =~= dec@.subrange(0, (i + 1) as int));
        }
        i = i + 1;
    }
    let mut nonce: Vec<u8> = Vec::new();
    let mut j: usize = 32;
    while j < 44
        invariant
            32 <= j <= 44,
            dec@.len() >= 44,
            nonce@ == dec@.subrange(32, j as int),
        decreases 44 - j,
    {
        nonce.push(dec[j]);
        proof {
            assert(nonce@ =~= dec@.subrange(32, (j + 1) as int));
        }
        j = j + 1;
    }
    Some((key, nonce))
}

/// Check an arriving introduction against the expected remote, when one was
/// named: a mismatch shuts the link down; with no expectation the arriving
/// relation is taken as the remote.
pub fn check_introduction(expected: &Option<Relation>, got: Relation) -> (r: Option<Relation>)
    ensures
        match expected {
            Some(e) => if e@ == got@ {
                r matches Some(rel) && rel@ == got@
            } else {
                r is None
            },
            None => r matches Some(rel) && rel@ == got@,
        },
{
    match expected {
        Some(e) => {
            if e.eq(&got) {
                Some(got)
            } else {
                None
            }
        },
        None => Some(got),
    }
}

} // verus!
