//! The keyfile a base writes for a freshly installed peripheral: the base's
//! id, and a code that lets the peripheral approve itself. Writing and
//! reading the file happens outside the library.

use vstd::prelude::*;

use crate::id::SpiderId2048;

verus! {

/// The connection parameters a peripheral needs once: the base's id and an
/// optional permission code.
pub struct Keyfile {
    /// The base's id.
    pub id: SpiderId2048,
    /// A code that approves the peripheral automatically, when set.
    pub permission_code: Option<String>,
}

impl Keyfile {
    /// Build a keyfile from the base's id and an optional permission code.
    pub fn new(id: SpiderId2048, permission_code: Option<String>) -> (r: Self)
        ensures
            r.id@ == id@,
            match (r.permission_code, permission_code) {
                (Some(a), Some(b)) => a@ == b@,
                (None, None) => true,
                _ => false,
            },
    {
        Keyfile { id, permission_code }
    }
}

} // verus!
