//! The base's durable state: its key, its name, chord snapshots, the saved
//! directory, and the installed services. Serializing to disk happens
//! outside the library; what is saved and reloaded is decided here.

use vstd::prelude::*;
use vstd::string::StringExecFns;

use crate::directory::DirectoryEntry;
use crate::relation::{Relation, RelV};
use crate::router::{dir_keys, dir_of};
use crate::text::{string_clone, string_eq, strs_view};

verus! {

broadcast use vstd::std_specs::vec::group_vec_axioms;

/// One chord membership's snapshot: its addresses and the peers seen lately.
pub struct ChordState {
    /// Where the chord node listens.
    pub listen_addr: String,
    /// The node's public address.
    pub pub_addr: String,
    /// The address advertised for reaching this base.
    pub advert_addr: String,
    /// Recently seen peer addresses.
    pub addrs: Vec<String>,
}

impl ChordState {
    /// A snapshot with no peers seen yet.
    pub fn new(listen_addr: String, pub_addr: String, advert_addr: String) -> (r: Self)
        ensures
            r.listen_addr@ == listen_addr@,
            r.pub_addr@ == pub_addr@,
            r.advert_addr@ == advert_addr@,
            r.addrs@.len() == 0,
    {
        ChordState { listen_addr, pub_addr, advert_addr, addrs: Vec::new() }
    }

    /// Record more recently seen peer addresses.
    #[verifier::loop_isolation(false)]
    pub fn add_addrs(&mut self, addrs: Vec<String>)
        ensures
            strs_view(final(self).addrs@) == strs_view(old(self).addrs@) + strs_view(addrs@),
            final(self).listen_addr == old(self).listen_addr,
            final(self).pub_addr == old(self).pub_addr,
            final(self).advert_addr == old(self).advert_addr,
    {
        let ghost addrsv = strs_view(addrs@);
        let mut addrs = addrs;
        let n = addrs.len();
        let mut i: usize = 0;
        proof {
            assert(strs_view(self.addrs@) =~= strs_view(old(self).addrs@) + addrsv.subrange(0, 0));
        }
        while i < n
            invariant
                i <= n,
                n == addrsv.len(),
                addrs@.len() == n - i,
                forall|j: int| 0 <= j < n - i ==> addrs@[j]@ == addrsv[j + i],
                strs_view(self.addrs@) == strs_view(old(self).addrs@) + addrsv.subrange(
                    0,
                    i as int,
                ),
                self.listen_addr == old(self).listen_addr,
                self.pub_addr == old(self).pub_addr,
                self.advert_addr == old(self).advert_addr,
            decreases n - i,
        {
            let ghost prev = addrs@;
            let a = addrs.remove(0);
            let ghost av = a@;
            let ghost pre = self.addrs@;
            self.addrs.push(a);
            proof {
                assert forall|j: int| 0 <= j < n - (i + 1) implies addrs@[j]@ == addrsv[j + i
                    + 1] by {
                    assert(addrs@[j] == prev[j + 1]);
                }
                assert(self.addrs@[pre.len() as int]@ == av);
                assert(prev[0]@ == addrsv[i as int]);
                assert(strs_view(pre).len() == pre.len());
                let target = strs_view(old(self).addrs@) + addrsv.subrange(0, (i + 1) as int);
                assert forall|j: int|
                    0 <= j < self.addrs@.len() implies strs_view(self.addrs@)[j] == target[j] by {
                    if j < pre.len() {
                        assert(self.addrs@[j] == pre[j]);
                        assert(strs_view(pre)[j] == pre[j]@);
                    }
                }
                assert(strs_view(self.addrs@) =~= target);
            }
            i = i + 1;
        }
        proof {
            assert(addrsv.subrange(0, n as int) =~= addrsv);
        }
    }
}

/// The base's durable state.
pub struct StateDataInner {
    /// The private key, as PKCS#8 DER bytes.
    pub key_der: Vec<u8>,
    /// Installed peripheral services, each with whether it should run.
    pub peripheral_services: Vec<(String, bool)>,
    /// The base's self-chosen name.
    pub name: Option<String>,
    /// The chord memberships, by name.
    pub chords: Vec<(String, ChordState)>,
    /// The saved directory entries.
    pub directory: Vec<DirectoryEntry>,
}

impl StateDataInner {
    /// A fresh state around a private key: no services, no name, no chords,
    /// an empty directory.
    pub fn new(key_der: Vec<u8>) -> (r: Self)
        ensures
            r.key_der@ == key_der@,
            r.peripheral_services@.len() == 0,
            r.name is None,
            r.chords@.len() == 0,
            r.directory@.len() == 0,
    {
        StateDataInner {
            key_der,
            peripheral_services: Vec::new(),
            name: None,
            chords: Vec::new(),
            directory: Vec::new(),
        }
    }

    /// The base's name; an unnamed base reads `NoName`.
    pub fn name_or_default(&self) -> (r: String)
        ensures
            match self.name {
                Some(n) => r@ == n@,
                None => r@ == "NoName"@,
            },
    {
        proof {
            reveal_strlit("NoName");
        }
        match &self.name {
            Some(n) => string_clone(n),
            None => String::from_str("NoName"),
        }
    }
}

/// What the base saves of its directory: the entries, in table order.
#[verifier::loop_isolation(false)]
pub fn directory_to_entries(directory: &Vec<(Relation, DirectoryEntry)>) -> (r: Vec<
    DirectoryEntry,
>)
    ensures
        r@.len() == directory@.len(),
        forall|j: int| 0 <= j < r@.len() ==> r@[j]@ == directory@[j].1@,
{
    let mut out: Vec<DirectoryEntry> = Vec::new();
    let mut i: usize = 0;
    while i < directory.len()
        invariant
            i <= directory@.len(),
            out@.len() == i,
            forall|j: int| 0 <= j < i ==> out@[j]@ == directory@[j].1@,
        decreases directory@.len() - i,
    {
        out.push(directory[i].1.clone());
        i = i + 1;
    }
    out
}

/// Rebuild the directory table from saved entries: each entry is keyed by
/// its own relation.
#[verifier::loop_isolation(false)]
pub fn directory_from_entries(entries: &Vec<DirectoryEntry>) -> (r: Vec<
    (Relation, DirectoryEntry),
>)
    ensures
        r@.len() == entries@.len(),
        forall|j: int|
            0 <= j < r@.len() ==> (#[trigger] r@[j]).0@ == entries@[j]@.relation && r@[j].1@
                == entries@[j]@,
{
    let mut out: Vec<(Relation, DirectoryEntry)> = Vec::new();
    let mut i: usize = 0;
    while i < entries.len()
        invariant
            i <= entries@.len(),
            out@.len() == i,
            forall|j: int|
                0 <= j < i ==> (#[trigger] out@[j]).0@ == entries@[j]@.relation && out@[j].1@
                    == entries@[j]@,
        decreases entries@.len() - i,
    {
        let rel = entries[i].relation().clone();
        out.push((rel, entries[i].clone()));
        i = i + 1;
    }
    out
}

/// Law: saving the directory and loading it back gives the same directory.
/// Saving keeps the entries; loading keys each entry by its own relation; so
/// for a well-formed table (unique keys, each entry on its key's relation)
/// every lookup reads the same entry afterwards.
pub proof fn lemma_directory_round_trip(
    directory: Seq<(Relation, DirectoryEntry)>,
    reloaded: Seq<(Relation, DirectoryEntry)>,
)
    requires
        forall|i: int, j: int|
            0 <= i < j < directory.len() ==> dir_keys(directory)[i] != dir_keys(directory)[j],
        forall|i: int|
            0 <= i < directory.len() ==> (#[trigger] directory[i]).1@.relation == directory[i].0@,
        reloaded.len() == directory.len(),
        forall|i: int|
            0 <= i < reloaded.len() ==> (#[trigger] reloaded[i]).0@ == directory[i].1@.relation
                && reloaded[i].1@ == directory[i].1@,
    ensures
        forall|q: RelV| dir_of(reloaded, q) == dir_of(directory, q),
    decreases directory.len(),
{
    if directory.len() == 0 {
    } else {
        assert forall|x: int, y: int|
            0 <= x < y < directory.skip(1).len() implies dir_keys(directory.skip(1))[x] != dir_keys(
            directory.skip(1),
        )[y] by {
            assert(directory.skip(1)[x] == directory[x + 1]);
            assert(directory.skip(1)[y] == directory[y + 1]);
            assert(dir_keys(directory)[x + 1] == directory[x + 1].0@);
            assert(dir_keys(directory)[y + 1] == directory[y + 1].0@);
        }
        assert forall|i: int|
            0 <= i < directory.skip(1).len() implies (#[trigger] directory.skip(1)[i]).1@.relation
            == directory.skip(1)[i].0@ by {
            assert(directory.skip(1)[i] == directory[i + 1]);
        }
        assert forall|i: int|
            0 <= i < reloaded.skip(1).len() implies (#[trigger] reloaded.skip(1)[i]).0@
            == directory.skip(1)[i].1@.relation && reloaded.skip(1)[i].1@ == directory.skip(
            1,
        )[i].1@ by {
            assert(reloaded.skip(1)[i] == reloaded[i + 1]);
            assert(directory.skip(1)[i] == directory[i + 1]);
        }
        lemma_directory_round_trip(directory.skip(1), reloaded.skip(1));
        assert(reloaded[0].0@ == directory[0].0@);
        assert(reloaded[0].1@ == directory[0].1@);
        assert forall|q: RelV| true implies dir_of(reloaded, q) == dir_of(directory, q) by {
            if directory[0].0@ == q {
            } else {
                assert(dir_of(reloaded, q) == dir_of(reloaded.skip(1), q));
                assert(dir_of(directory, q) == dir_of(directory.skip(1), q));
            }
        }
    }
}

} // verus!
