//! The local-network probe texts: what a peripheral broadcasts, what a base
//! answers, and how the answer is read. The sockets live outside the
//! library.

use vstd::prelude::*;
use vstd::string::{StrSliceExecFns, StringExecFns};

use crate::dataset_data::{parse_usize, parse_usize_spec};
use crate::text::dec_str;

verus! {

/// The probe a peripheral broadcasts on the local network.
pub fn beacon_probe_text() -> (r: &'static str)
    ensures
        r@ == "SPIDER_PROBE"@,
{
    "SPIDER_PROBE"
}

/// The answer a base sends back: its reply marker, a colon, and the port to
/// connect to; the asker pairs it with the answer's source address.
pub fn beacon_reply_for(port: u16) -> (r: String)
    ensures
        r@ == "SPIDER_REPLY:"@ + dec_str(port as nat),
{
    proof {
        reveal_strlit("SPIDER_REPLY:");
    }
    let mut s: String = String::from_str("SPIDER_REPLY:");
    let digits = crate::text::u64_to_string(port as u64);
    s.append(digits.as_str());
    s
}

/// Read a base's answer: exactly the reply marker followed by a port
/// number. Anything else is no answer.
pub fn parse_beacon_reply(msg: &str) -> (r: Option<u16>)
    ensures
        match r {
            Some(port) => msg@.len() >= 13 && msg@.subrange(0, 13) == "SPIDER_REPLY:"@
                && parse_usize_spec(msg@.skip(13)) == Some(port as usize),
            None => !(msg@.len() >= 13 && msg@.subrange(0, 13) == "SPIDER_REPLY:"@ && (
            parse_usize_spec(msg@.skip(13)) matches Some(v) && v <= 65535)),
        },
{
    proof {
        reveal_strlit("SPIDER_REPLY:");
    }
    let n = msg.unicode_len();
    if n < 13 {
        return None;
    }
    let head = msg.substring_char(0, 13);
    let marker: String = String::from_str("SPIDER_REPLY:");
    if !crate::text::str_eq(&marker, head) {
        proof {
            assert(head@ == msg@.subrange(0, 13));
        }
        return None;
    }
    let rest = msg.substring_char(13, n);
    proof {
        assert(rest@ =~= msg@.skip(13));
    }
    match parse_usize(rest) {
        Some(v) => {
            if v <= 65535 {
                Some(v as u16)
            } else {
                None
            }
        },
        None => None,
    }
}

} // verus!
