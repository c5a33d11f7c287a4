//! The base's configuration values and their defaults. Reading the
//! configuration file happens outside the library.

use vstd::prelude::*;
use vstd::string::StringExecFns;

use crate::text::string_clone;

verus! {

/// The base's configuration.
pub struct SpiderConfig {
    /// Where the base listens for links.
    pub listen_addr: String,
    /// Where the log goes.
    pub log_path: String,
    /// Where durable state lives.
    pub state_data_path: String,
    /// Where to write the base's own public key on start, when set.
    pub keyfile_path: Option<String>,
    /// Where datasets live; unset means the default directory.
    pub dataset_path: Option<String>,
}

/// The default listen address.
pub fn default_listen_addr() -> (r: String)
    ensures
        r@ == "0.0.0.0:1930"@,
{
    proof {
        reveal_strlit("0.0.0.0:1930");
    }
    String::from_str("0.0.0.0:1930")
}

/// The default log path.
pub fn default_log_path() -> (r: String)
    ensures
        r@ == "spider.log"@,
{
    proof {
        reveal_strlit("spider.log");
    }
    String::from_str("spider.log")
}

/// The default state path.
pub fn default_state_data_path() -> (r: String)
    ensures
        r@ == "state.dat"@,
{
    proof {
        reveal_strlit("state.dat");
    }
    String::from_str("state.dat")
}

impl SpiderConfig {
    /// The configuration every field of which is its default.
    pub fn new_default() -> (r: Self)
        ensures
            r.listen_addr@ == "0.0.0.0:1930"@,
            r.log_path@ == "spider.log"@,
            r.state_data_path@ == "state.dat"@,
            r.keyfile_path is None,
            r.dataset_path is None,
    {
        SpiderConfig {
            listen_addr: default_listen_addr(),
            log_path: default_log_path(),
            state_data_path: default_state_data_path(),
            keyfile_path: None,
            dataset_path: None,
        }
    }

    /// The dataset directory: the configured one, or `datasets`.
    pub fn dataset_path(&self) -> (r: String)
        ensures
            match self.dataset_path {
                Some(p) => r@ == p@,
                None => r@ == "datasets"@,
            },
    {
        proof {
            reveal_strlit("datasets");
        }
        match &self.dataset_path {
            Some(p) => string_clone(p),
            None => String::from_str("datasets"),
        }
    }
}

} // verus!
