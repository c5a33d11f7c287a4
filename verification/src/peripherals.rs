//! Installed peripherals: their manifests, the name of a package taken from
//! its source address, how a service is launched, and log rotation. Cloning,
//! spawning and files happen outside the library.

use vstd::prelude::*;
use vstd::string::{StrSliceExecFns, StringExecFns};

use crate::text::{string_clone, str_eq, string_eq};

verus! {

broadcast use vstd::std_specs::vec::group_vec_axioms;

/// How a peripheral is built before launch.
pub enum BuildConfig {
    /// Nothing to build.
    NoBuild,
    /// Build with cargo.
    Cargo,
}

/// How a peripheral is launched.
pub enum LaunchConfig {
    /// Run the executable at this path inside the service directory.
    Exe(String),
    /// Run this file with python.
    Python(String),
    /// Run with cargo.
    Cargo,
}

/// A peripheral's manifest: how to build it and how to launch it.
pub struct PeripheralManifest {
    pub build: Option<BuildConfig>,
    pub launch: LaunchConfig,
}

impl PeripheralManifest {
    /// How the peripheral is built, when its manifest says.
    pub fn build(&self) -> (r: &Option<BuildConfig>)
        ensures
            r == &self.build,
    {
        &self.build
    }

    /// How the peripheral is launched.
    pub fn launch(&self) -> (r: &LaunchConfig)
        ensures
            r == &self.launch,
    {
        &self.launch
    }

    /// Read a manifest from its fields as the manifest file gives them: the
    /// build is `cargo` or absent; the launch method is `exe` or `python`
    /// with a path, or `cargo`. Anything else is no manifest.
    pub fn from_parts(build: Option<&String>, method: &String, path: Option<String>) -> (r: Option<
        Self,
    >)
        ensures
            match r {
                Some(m) => {
                    &&& (match m.build {
                        Some(BuildConfig::Cargo) => build matches Some(b) && b@ == "cargo"@,
                        Some(BuildConfig::NoBuild) => false,
                        None => !(build matches Some(b) && b@ == "cargo"@),
                    })
                    &&& (match m.launch {
                        LaunchConfig::Exe(p) => method@ == "exe"@ && (path matches Some(q) && p@
                            == q@),
                        LaunchConfig::Python(p) => method@ == "python"@ && (path matches Some(q)
                            && p@ == q@),
                        LaunchConfig::Cargo => method@ == "cargo"@,
                    })
                },
                None => (method@ != "exe"@ && method@ != "python"@ && method@ != "cargo"@) || ((
                method@ == "exe"@ || method@ == "python"@) && path is None),
            },
    {
        proof {
            reveal_strlit("cargo");
            reveal_strlit("exe");
            reveal_strlit("python");
        }
        let build_config: Option<BuildConfig> = match build {
            Some(b) => if str_eq(b, "cargo") {
                Some(BuildConfig::Cargo)
            } else {
                None
            },
            None => None,
        };
        let launch: LaunchConfig = if str_eq(method, "exe") {
            match path {
                Some(p) => LaunchConfig::Exe(p),
                None => {
                    return None;
                },
            }
        } else if str_eq(method, "python") {
            match path {
                Some(p) => LaunchConfig::Python(p),
                None => {
                    return None;
                },
            }
        } else if str_eq(method, "cargo") {
            LaunchConfig::Cargo
        } else {
            return None;
        };
        Some(PeripheralManifest { build: build_config, launch })
    }
}

/// The program and arguments that launch a peripheral: an executable runs
/// itself, a python service runs under `python`, a cargo service runs under
/// `cargo run`; the host runs the command inside the service directory.
pub fn launch_invocation(manifest: &PeripheralManifest) -> (r: (String, Vec<String>))
    ensures
        match manifest.launch {
            LaunchConfig::Exe(p) => r.0@ == p@ && r.1@.len() == 0,
            LaunchConfig::Python(p) => r.0@ == "python"@ && r.1@.len() == 1 && r.1@[0]@ == p@,
            LaunchConfig::Cargo => r.0@ == "cargo"@ && r.1@.len() == 1 && r.1@[0]@ == "run"@,
        },
{
    proof {
        reveal_strlit("python");
        reveal_strlit("cargo");
        reveal_strlit("run");
    }
    match &manifest.launch {
        LaunchConfig::Exe(p) => (string_clone(p), Vec::new()),
        LaunchConfig::Python(p) => {
            let mut args: Vec<String> = Vec::new();
            args.push(string_clone(p));
            (String::from_str("python"), args)
        },
        LaunchConfig::Cargo => {
            let mut args: Vec<String> = Vec::new();
            args.push(String::from_str("run"));
            (String::from_str("cargo"), args)
        },
    }
}

/// The package name in a source address: what stands after the last slash,
/// with a final `.git` taken off. An address with no slash names no package.
pub open spec fn spec_package_name(url: Seq<char>) -> Option<Seq<char>> {
    if exists|i: int| 0 <= i < url.len() && url[i] == '/' {
        let cut = last_slash(url);
        let seg = url.skip(cut + 1);
        if seg.len() >= 4 && seg.skip(seg.len() - 4) =~= seq!['.', 'g', 'i', 't'] {
            Some(seg.subrange(0, seg.len() - 4))
        } else {
            Some(seg)
        }
    } else {
        None
    }
}

/// The position of the last slash.
pub open spec fn last_slash(url: Seq<char>) -> int
    decreases url.len(),
{
    if url.len() == 0 {
        -1
    } else if url.last() == '/' {
        url.len() - 1
    } else {
        last_slash(url.drop_last())
    }
}

/// The last slash is a slash, and nothing after it is one.
proof fn lemma_last_slash(url: Seq<char>)
    requires
        exists|i: int| 0 <= i < url.len() && url[i] == '/',
    ensures
        0 <= last_slash(url) < url.len(),
        url[last_slash(url)] == '/',
        forall|j: int| last_slash(url) < j < url.len() ==> url[j] != '/',
    decreases url.len(),
{
    if url.last() == '/' {
    } else {
        let i = choose|i: int| 0 <= i < url.len() && url[i] == '/';
        assert(url.drop_last()[i] == '/');
        lemma_last_slash(url.drop_last());
        assert forall|j: int| last_slash(url) < j < url.len() implies url[j] != '/' by {
            if j < url.len() - 1 {
                assert(url.drop_last()[j] == url[j]);
            }
        }
    }
}

/// The package name in a source address.
#[verifier::loop_isolation(false)]
pub fn package_name_of(url: &String) -> (r: Option<String>)
    ensures
        match r {
            Some(name) => spec_package_name(url@) == Some(name@),
            None => spec_package_name(url@) is None,
        },
{
    let s = url.as_str();
    let n = s.unicode_len();
    let mut cut: usize = 0;
    let mut found = false;
    let mut i: usize = 0;
    while i < n
        invariant
            i <= n,
            n == url@.len(),
            found ==> cut < i && url@[cut as int] == '/' && (forall|j: int|
                cut < j < i ==> url@[j] != '/'),
            !found ==> forall|j: int| 0 <= j < i ==> url@[j] != '/',
        decreases n - i,
    {
        if s.get_char(i) == '/' {
            cut = i;
            found = true;
        }
        i = i + 1;
    }
    if !found {
        proof {
            assert forall|j: int| 0 <= j < url@.len() implies url@[j] != '/' by {}
        }
        return None;
    }
    proof {
        lemma_last_slash(url@);
        assert(last_slash(url@) == cut as int) by {
            let ls = last_slash(url@);
            if ls < cut {
                assert(url@[cut as int] == '/');
            } else if ls > cut {
                assert(url@[ls] == '/');
            }
        }
    }
    let seg = s.substring_char(cut + 1, n);
    let seg_len = n - cut - 1;
    proof {
        assert(seg@ =~= url@.skip(cut + 1));
    }
    let has_git_suffix = if seg_len >= 4 {
        proof {
            reveal_strlit(".git");
        }
        let tail = seg.substring_char(seg_len - 4, seg_len);
        let dotgit: String = String::from_str(".git");
        let r = crate::text::str_eq(&dotgit, tail);
        proof {
            if r {
                assert(seg@.skip(seg@.len() - 4) =~= tail@);
            } else {
                if seg@.skip(seg@.len() - 4) =~= seq!['.', 'g', 'i', 't'] {
                    assert(tail@ =~= seq!['.', 'g', 'i', 't']);
                    assert(dotgit@ =~= seq!['.', 'g', 'i', 't']);
                }
            }
        }
        r
    } else {
        false
    };
    if has_git_suffix {
        let name = seg.substring_char(0, seg_len - 4);
        proof {
            assert(name@ =~= url@.skip(cut + 1).subrange(0, url@.skip(cut + 1).len() - 4));
        }
        Some(name.to_owned())
    } else {
        Some(seg.to_owned())
    }
}

/// The index the rotated log keeps from: at or after the middle, past the
/// first newline and any newlines that follow it.
pub open spec fn rotate_cut(s: Seq<char>, i: int) -> int
    recommends
        0 <= i <= s.len(),
    decreases s.len() - i,
{
    if i >= s.len() {
        s.len() as int
    } else if s[i] != '\n' {
        rotate_cut(s, i + 1)
    } else {
        rotate_skip_newlines(s, i)
    }
}

/// The index past a run of newlines.
pub open spec fn rotate_skip_newlines(s: Seq<char>, i: int) -> int
    recommends
        0 <= i <= s.len(),
    decreases s.len() - i,
{
    if i >= s.len() {
        s.len() as int
    } else if s[i] == '\n' {
        rotate_skip_newlines(s, i + 1)
    } else {
        i
    }
}

/// Rotate an overgrown log: drop the first half, then drop up to and
/// including the next newline run, and keep the rest.
#[verifier::loop_isolation(false)]
pub fn rotate_log_content(s: &String) -> (r: String)
    ensures
        r@ == s@.skip(rotate_cut(s@, s@.len() as int / 2)),
{
    let str = s.as_str();
    let n = str.unicode_len();
    let half = n / 2;
    let mut i: usize = half;
    while i < n && str.get_char(i) != '\n'
        invariant
            half <= i <= n,
            n == s@.len(),
            rotate_cut(s@, half as int) == rotate_cut(s@, i as int),
        decreases n - i,
    {
        i = i + 1;
    }
    while i < n && str.get_char(i) == '\n'
        invariant
            half <= i <= n,
            n == s@.len(),
            rotate_cut(s@, half as int) == (if i < n && s@[i as int] == '\n' {
                rotate_skip_newlines(s@, i as int)
            } else {
                i as int
            }),
        decreases n - i,
    {
        i = i + 1;
    }
    let kept = str.substring_char(i, n);
    proof {
        assert(kept@ =~= s@.skip(rotate_cut(s@, s@.len() as int / 2)));
    }
    kept.to_owned()
}

} // verus!
