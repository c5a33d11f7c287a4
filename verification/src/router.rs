//! The router's state and decisions: which links live, which inbound links
//! wait for approval, which outbound destinations buffer sends, who hears
//! which events, and the directory.
//!
//! The sockets and timers live outside the library: every function here is a
//! decision from state and a plain event to new state and actions.

use vstd::prelude::*;

use crate::chord_cache::{drop_addr, ChordAddrCache};
use crate::directory::{prop_of, DirectoryEntry, DirEntryV};
use crate::message::{msgs_view, Message, MessageV, rels_view};
use crate::relation::{Relation, RelV, Role};
use crate::text::{str_eq, string_eq, strs_view};

verus! {

broadcast use vstd::std_specs::vec::group_vec_axioms;

/// Retries of a pending destination wait at least this many seconds apart.
pub const RETRY_INTERVAL_SECS: u64 = 10;

/// How long a freshly set approval code stays valid, in seconds.
pub const APPROVAL_CODE_VALIDITY_SECS: u64 = 300;

/// A pending destination is dropped after this many unsuccessful attempts.
pub const MAX_PENDING_ATTEMPTS: u8 = 10;

/// What the router decides for a new inbound link.
#[derive(Clone, Copy, PartialEq, Eq, Structural, Debug)]
pub enum LinkDecision {
    /// The relation is in the directory and not blocked: the link is
    /// approved at once.
    Approved,
    /// The relation is unknown: the link waits for approval.
    Pending,
    /// The relation is blocked: the link closes at once.
    Blocked,
}

/// Sends buffered for a destination that has no link yet.
pub struct PendingSends {
    /// When the last connection attempt was made, in seconds; zero means
    /// long ago.
    pub last_attempt: u64,
    /// How many attempts were made.
    pub attempts: u8,
    /// The messages waiting for the link.
    pub backlog: Vec<Message>,
}

/// What one upkeep step asks the surroundings to do for a pending
/// destination.
#[derive(Clone, Copy, PartialEq, Eq, Structural, Debug)]
pub enum PendingStep {
    /// The link exists now: the returned backlog goes out on it and the
    /// entry is gone.
    Flush,
    /// Too many attempts: the entry is gone and its backlog dropped.
    GaveUp,
    /// Too soon to retry.
    Wait,
    /// Ask every configured chord to resolve the destination's address.
    Resolve,
    /// The destination has no pending entry.
    Absent,
}

/// The relations of a sequence of directory rows.
pub open spec fn dir_keys(s: Seq<(Relation, DirectoryEntry)>) -> Seq<RelV> {
    Seq::new(s.len(), |i: int| s[i].0@)
}

/// The entry stored for a relation; the first row wins.
pub open spec fn dir_of(s: Seq<(Relation, DirectoryEntry)>, r: RelV) -> Option<DirEntryV>
    decreases s.len(),
{
    if s.len() == 0 {
        None
    } else if s[0].0@ == r {
        Some(s[0].1@)
    } else {
        dir_of(s.skip(1), r)
    }
}

/// The relations of a vector of relations.
pub open spec fn rel_set(s: Seq<Relation>) -> Seq<RelV> {
    Seq::new(s.len(), |i: int| s[i]@)
}

/// The names of the event-subscriber rows.
pub open spec fn sub_names(s: Seq<(String, Vec<Relation>)>) -> Seq<Seq<char>> {
    Seq::new(s.len(), |i: int| s[i].0@)
}

/// The subscribers recorded for an event name; the first row wins.
pub open spec fn subs_of(s: Seq<(String, Vec<Relation>)>, name: Seq<char>) -> Option<Seq<RelV>>
    decreases s.len(),
{
    if s.len() == 0 {
        None
    } else if s[0].0@ == name {
        Some(rel_set(s[0].1@))
    } else {
        subs_of(s.skip(1), name)
    }
}

/// The relations of the pending rows.
pub open spec fn pending_keys(s: Seq<(Relation, PendingSends)>) -> Seq<RelV> {
    Seq::new(s.len(), |i: int| s[i].0@)
}

/// The router's state. The live link handles themselves (sockets and tasks)
/// live outside; the router holds which relations they serve.
pub struct RouterState {
    /// Valid approval codes with their expiry times, in seconds.
    pub approval_codes: Vec<(String, u64)>,
    /// Relations of inbound links waiting for approval.
    pub incoming_links: Vec<Relation>,
    /// Relations with a live link.
    pub links: Vec<Relation>,
    /// Destinations whose sends wait for a link.
    pub pending_links: Vec<(Relation, PendingSends)>,
    /// Who hears each event name; every row has at least one subscriber.
    pub event_subscribers: Vec<(String, Vec<Relation>)>,
    /// Who hears directory changes.
    pub directory_subscribers: Vec<Relation>,
    /// Who hears recent chord addresses, and how many each wants.
    pub chord_subscribers: Vec<(Relation, usize)>,
    /// The recently seen chord peer addresses, most recent first.
    pub chord_addrs: ChordAddrCache,
    /// What the base knows of other members.
    pub directory: Vec<(Relation, DirectoryEntry)>,
    /// Whether the next interface subscription approves its link: open
    /// exactly when the directory was empty at startup, and consumed by the
    /// first approval.
    pub should_approve_ui: bool,
}

impl RouterState {
    /// The router's invariants: unique keys throughout; a relation never
    /// waits for approval while its link lives; every linked relation is in
    /// the directory; every event row has a subscriber.
    pub open spec fn wf(&self) -> bool {
        &&& forall|i: int, j: int|
            0 <= i < j < self.links@.len() ==> rel_set(self.links@)[i] != rel_set(self.links@)[j]
        &&& forall|i: int, j: int|
            0 <= i < j < self.incoming_links@.len() ==> rel_set(self.incoming_links@)[i] != rel_set(
                self.incoming_links@,
            )[j]
        &&& forall|i: int, j: int|
            0 <= i < j < self.pending_links@.len() ==> pending_keys(self.pending_links@)[i]
                != pending_keys(self.pending_links@)[j]
        &&& forall|i: int, j: int|
            0 <= i < j < self.directory@.len() ==> dir_keys(self.directory@)[i] != dir_keys(
                self.directory@,
            )[j]
        &&& forall|i: int, j: int|
            0 <= i < j < self.event_subscribers@.len() ==> sub_names(self.event_subscribers@)[i]
                != sub_names(self.event_subscribers@)[j]
        &&& forall|i: int|
            0 <= i < self.directory@.len() ==> (#[trigger] self.directory@[i]).1@.relation
                == self.directory@[i].0@
        &&& forall|i: int, j: int|
            0 <= i < self.incoming_links@.len() && 0 <= j < self.links@.len() ==> rel_set(
                self.incoming_links@,
            )[i] != rel_set(self.links@)[j]
        &&& forall|i: int|
            0 <= i < self.links@.len() ==> dir_of(self.directory@, rel_set(self.links@)[i])
                is Some
        &&& forall|i: int|
            0 <= i < self.event_subscribers@.len() ==> (
            #[trigger] self.event_subscribers@[i]).1@.len() > 0
        &&& forall|i: int, x: int, y: int|
            0 <= i < self.event_subscribers@.len() && 0 <= x < y
                < self.event_subscribers@[i].1@.len() ==> #[trigger] rel_set(
                self.event_subscribers@[i].1@,
            )[x] != #[trigger] rel_set(self.event_subscribers@[i].1@)[y]
    }

    /// A fresh router: nothing connected, nothing known.
    pub fn new() -> (r: Self)
        ensures
            r.wf(),
            r.links@.len() == 0,
            r.incoming_links@.len() == 0,
            r.pending_links@.len() == 0,
            r.event_subscribers@.len() == 0,
            r.directory@.len() == 0,
            !r.should_approve_ui,
            r.chord_addrs.wf(),
            r.chord_addrs.rows@.len() == 0,
            r.chord_addrs.cap > 0,
    {
        RouterState {
            approval_codes: Vec::new(),
            incoming_links: Vec::new(),
            links: Vec::new(),
            pending_links: Vec::new(),
            event_subscribers: Vec::new(),
            directory_subscribers: Vec::new(),
            chord_subscribers: Vec::new(),
            chord_addrs: ChordAddrCache::new(),
            directory: Vec::new(),
            should_approve_ui: false,
        }
    }

    /// Open the one-time interface approval when the directory is empty; the
    /// router does this once, at startup.
    pub fn init_should_approve_ui(&mut self)
        ensures
            *final(self) == (RouterState {
                should_approve_ui: old(self).directory@.len() == 0 || old(
                    self,
                ).should_approve_ui,
                ..*old(self)
            }),
    {
        if self.directory.len() == 0 {
            self.should_approve_ui = true;
        }
    }

    /// Consume the one-time interface approval: true the first time it is
    /// taken, false afterwards and when it was never open.
    pub fn try_consume_ui_approval(&mut self) -> (r: bool)
        ensures
            r == old(self).should_approve_ui,
            *final(self) == (RouterState { should_approve_ui: false, ..*old(self) }),
    {
        let was = self.should_approve_ui;
        self.should_approve_ui = false;
        was
    }

    /// The position of a relation in a relation list.
    #[verifier::loop_isolation(false)]
    fn find_rel(v: &Vec<Relation>, rel: &Relation) -> (r: Option<usize>)
        ensures
            match r {
                Some(i) => i < v@.len() && rel_set(v@)[i as int] == rel@,
                None => forall|j: int| 0 <= j < v@.len() ==> rel_set(v@)[j] != rel@,
            },
    {
        let mut i: usize = 0;
        while i < v.len()
            invariant
                i <= v@.len(),
                forall|j: int| 0 <= j < i ==> rel_set(v@)[j] != rel@,
            decreases v@.len() - i,
        {
            if v[i].eq(rel) {
                return Some(i);
            }
            i = i + 1;
        }
        None
    }

    /// Whether a relation has a live link.
    pub fn has_link(&self, rel: &Relation) -> (r: bool)
        ensures
            r == rel_set(self.links@).contains(rel@),
    {
        match Self::find_rel(&self.links, rel) {
            Some(i) => {
                proof {
                    assert(rel_set(self.links@)[i as int] == rel@);
                }
                true
            },
            None => false,
        }
    }

    /// The position of a relation's directory row.
    #[verifier::loop_isolation(false)]
    fn find_dir(&self, rel: &Relation) -> (r: Option<usize>)
        ensures
            match r {
                Some(i) => i < self.directory@.len() && self.directory@[i as int].0@ == rel@
                    && dir_of(self.directory@, rel@) == Some(self.directory@[i as int].1@),
                None => dir_of(self.directory@, rel@) is None,
            },
    {
        let mut i: usize = 0;
        while i < self.directory.len()
            invariant
                i <= self.directory@.len(),
                forall|j: int| 0 <= j < i ==> dir_keys(self.directory@)[j] != rel@,
            decreases self.directory@.len() - i,
        {
            if self.directory[i].0.eq(rel) {
                proof {
                    lemma_dir_of_found(self.directory@, rel@, i as int);
                }
                return Some(i);
            }
            i = i + 1;
        }
        proof {
            lemma_dir_of_absent(self.directory@, rel@);
        }
        None
    }

    /// The directory entry for a relation, if one is there.
    pub fn directory_entry(&self, rel: &Relation) -> (r: Option<&DirectoryEntry>)
        ensures
            match r {
                Some(e) => dir_of(self.directory@, rel@) == Some(e@),
                None => dir_of(self.directory@, rel@) is None,
            },
    {
        match self.find_dir(rel) {
            Some(i) => Some(&self.directory[i].1),
            None => None,
        }
    }

    /// Decide a new inbound link: a blocked relation closes at once, a known
    /// one is approved, an unknown one waits for approval. A blocked
    /// relation never comes out approved.
    pub fn authorize_inbound(&self, rel: &Relation) -> (r: LinkDecision)
        ensures
            r == (match dir_of(self.directory@, rel@) {
                Some(e) => if prop_of(e.properties, "blocked"@) == Some("true"@) {
                    LinkDecision::Blocked
                } else {
                    LinkDecision::Approved
                },
                None => LinkDecision::Pending,
            }),
    {
        proof {
            reveal_strlit("blocked");
            reveal_strlit("true");
        }
        match self.directory_entry(rel) {
            Some(entry) => {
                match entry.get("blocked") {
                    Some(value) => {
                        if str_eq(value, "true") {
                            LinkDecision::Blocked
                        } else {
                            LinkDecision::Approved
                        }
                    },
                    None => LinkDecision::Approved,
                }
            },
            None => LinkDecision::Pending,
        }
    }

    /// Record an inbound link waiting for approval. Only a relation the
    /// directory does not know may wait, so a waiting relation never has a
    /// live link.
    pub fn register_incoming(&mut self, rel: Relation)
        requires
            old(self).wf(),
            dir_of(old(self).directory@, rel@) is None,
        ensures
            final(self).wf(),
            rel_set(final(self).incoming_links@).contains(rel@),
            final(self).links == old(self).links,
            final(self).directory == old(self).directory,
            final(self).pending_links == old(self).pending_links,
            final(self).event_subscribers == old(self).event_subscribers,
    {
        match Self::find_rel(&self.incoming_links, &rel) {
            Some(i) => {
                proof {
                    assert(rel_set(self.incoming_links@)[i as int] == rel@);
                }
            },
            None => {
                let ghost pre = self.incoming_links@;
                let ghost rv = rel@;
                self.incoming_links.push(rel);
                proof {
                    assert(rel_set(self.incoming_links@) =~= rel_set(pre).push(rv));
                    assert(rel_set(self.incoming_links@)[pre.len() as int] == rv);
                    assert forall|i: int, j: int|
                        0 <= i < j < self.incoming_links@.len() implies rel_set(
                        self.incoming_links@,
                    )[i] != rel_set(self.incoming_links@)[j] by {}
                    assert forall|i: int, j: int|
                        0 <= i < self.incoming_links@.len() && 0 <= j
                            < self.links@.len() implies rel_set(self.incoming_links@)[i]
                        != rel_set(self.links@)[j] by {
                        if i == pre.len() {
                            assert(dir_of(self.directory@, rel_set(self.links@)[j]) is Some);
                        }
                    }
                }
            },
        }
    }

    /// Drop an inbound link's waiting record: it was approved, denied, or
    /// its socket closed.
    pub fn remove_incoming(&mut self, rel: &Relation)
        requires
            old(self).wf(),
        ensures
            final(self).wf(),
            !rel_set(final(self).incoming_links@).contains(rel@),
            final(self).links == old(self).links,
            final(self).directory == old(self).directory,
            final(self).pending_links == old(self).pending_links,
            final(self).event_subscribers == old(self).event_subscribers,
            final(self).should_approve_ui == old(self).should_approve_ui,
    {
        match Self::find_rel(&self.incoming_links, rel) {
            Some(i) => {
                let ghost pre = self.incoming_links@;
                self.incoming_links.remove(i);
                proof {
                    assert(rel_set(self.incoming_links@) =~= rel_set(pre).remove(i as int));
                    assert forall|j: int|
                        0 <= j < self.incoming_links@.len() implies rel_set(
                        self.incoming_links@,
                    )[j] != rel@ by {
                        if j < i {
                            assert(rel_set(pre)[j] == rel_set(self.incoming_links@)[j]);
                        } else {
                            assert(rel_set(pre)[j + 1] == rel_set(self.incoming_links@)[j]);
                        }
                    }
                }
            },
            None => {
                proof {
                    assert forall|j: int|
                        0 <= j < self.incoming_links@.len() implies rel_set(
                        self.incoming_links@,
                    )[j] != rel@ by {}
                }
            },
        }
    }
}

/// A found directory row is the one `dir_of` reads.
pub proof fn lemma_dir_of_found(s: Seq<(Relation, DirectoryEntry)>, r: RelV, i: int)
    requires
        0 <= i < s.len(),
        s[i].0@ == r,
        forall|j: int| 0 <= j < i ==> dir_keys(s)[j] != r,
    ensures
        dir_of(s, r) == Some(s[i].1@),
    decreases i,
{
    if i > 0 {
        assert(dir_keys(s)[0] == s[0].0@);
        assert forall|j: int| 0 <= j < i - 1 implies dir_keys(s.skip(1))[j] != r by {
            assert(s.skip(1)[j] == s[j + 1]);
            assert(dir_keys(s)[j + 1] == s[j + 1].0@);
        }
        assert(s.skip(1)[i - 1] == s[i]);
        lemma_dir_of_found(s.skip(1), r, i - 1);
    }
}

/// When no row has the relation, `dir_of` reads nothing.
pub proof fn lemma_dir_of_absent(s: Seq<(Relation, DirectoryEntry)>, r: RelV)
    requires
        forall|j: int| 0 <= j < s.len() ==> dir_keys(s)[j] != r,
    ensures
        dir_of(s, r) is None,
    decreases s.len(),
{
    if s.len() > 0 {
        assert(dir_keys(s)[0] == s[0].0@);
        assert forall|j: int| 0 <= j < s.skip(1).len() implies dir_keys(s.skip(1))[j] != r by {
            assert(s.skip(1)[j] == s[j + 1]);
            assert(dir_keys(s)[j + 1] == s[j + 1].0@);
        }
        lemma_dir_of_absent(s.skip(1), r);
    }
}

/// The recipients of an event among its subscribers: those with a live
/// link, never relaying from one peer to another.
pub open spec fn recips(subs: Seq<RelV>, from_peer: bool, links: Seq<RelV>) -> Seq<RelV>
    decreases subs.len(),
{
    if subs.len() == 0 {
        Seq::empty()
    } else {
        let head = recips(subs.subrange(0, subs.len() - 1), from_peer, links);
        let s = subs.last();
        if links.contains(s) && !(from_peer && s.role == Role::Peer) {
            head.push(s)
        } else {
            head
        }
    }
}

/// Who an event's sends reach, walking the extra recipients in order: one
/// already reached is skipped, one with a live link joins the sends, and one
/// without a link is buffered instead.
pub open spec fn sends_after(links: Seq<RelV>, acc: Seq<RelV>, exts: Seq<RelV>) -> Seq<RelV>
    decreases exts.len(),
{
    if exts.len() == 0 {
        acc
    } else {
        let e = exts[0];
        let acc2 = if acc.contains(e) {
            acc
        } else if links.contains(e) {
            acc.push(e)
        } else {
            acc
        };
        sends_after(links, acc2, exts.skip(1))
    }
}

/// The approval codes still valid at a time.
pub open spec fn keep_codes(s: Seq<(Seq<char>, u64)>, now: u64) -> Seq<(Seq<char>, u64)>
    decreases s.len(),
{
    if s.len() == 0 {
        Seq::empty()
    } else {
        let head = keep_codes(s.subrange(0, s.len() - 1), now);
        if s.last().1 > now {
            head.push(s.last())
        } else {
            head
        }
    }
}

/// The mathematical values of the approval-code rows.
pub open spec fn codes_view(s: Seq<(String, u64)>) -> Seq<(Seq<char>, u64)> {
    Seq::new(s.len(), |i: int| (s[i].0@, s[i].1))
}

/// The pending row stored for a relation; the first row wins.
pub open spec fn pending_of(s: Seq<(Relation, PendingSends)>, r: RelV) -> Option<
    (u64, u8, Seq<MessageV>),
>
    decreases s.len(),
{
    if s.len() == 0 {
        None
    } else if s[0].0@ == r {
        Some((s[0].1.last_attempt, s[0].1.attempts, msgs_view(s[0].1.backlog@)))
    } else {
        pending_of(s.skip(1), r)
    }
}

impl RouterState {
    /// The position of a relation's pending row.
    #[verifier::loop_isolation(false)]
    fn find_pending(&self, rel: &Relation) -> (r: Option<usize>)
        ensures
            match r {
                Some(i) => i < self.pending_links@.len() && self.pending_links@[i as int].0@
                    == rel@ && pending_of(self.pending_links@, rel@) == Some(
                    (
                        self.pending_links@[i as int].1.last_attempt,
                        self.pending_links@[i as int].1.attempts,
                        msgs_view(self.pending_links@[i as int].1.backlog@),
                    ),
                ),
                None => pending_of(self.pending_links@, rel@) is None,
            },
    {
        let mut i: usize = 0;
        while i < self.pending_links.len()
            invariant
                i <= self.pending_links@.len(),
                forall|j: int| 0 <= j < i ==> pending_keys(self.pending_links@)[j] != rel@,
            decreases self.pending_links@.len() - i,
        {
            if self.pending_links[i].0.eq(rel) {
                proof {
                    lemma_pending_of_found(self.pending_links@, rel@, i as int);
                }
                return Some(i);
            }
            i = i + 1;
        }
        proof {
            lemma_pending_of_absent(self.pending_links@, rel@);
        }
        None
    }

    /// Install a live link for a relation that waits for none: it leaves the
    /// waiting list, joins the directory when absent, and its buffered sends
    /// come back for delivery.
    pub fn approved_link_install(&mut self, rel: Relation) -> (r: (Vec<Message>, bool))
        requires
            old(self).wf(),
        ensures
            final(self).wf(),
            rel_set(final(self).links@).contains(rel@),
            !rel_set(final(self).incoming_links@).contains(rel@),
            pending_of(final(self).pending_links@, rel@) is None,
            dir_of(final(self).directory@, rel@) is Some,
            r.1 == (dir_of(old(self).directory@, rel@) is None),
            match pending_of(old(self).pending_links@, rel@) {
                Some(p) => msgs_view(r.0@) == p.2,
                None => r.0@.len() == 0,
            },
            final(self).event_subscribers == old(self).event_subscribers,
            final(self).should_approve_ui == old(self).should_approve_ui,
    {
        self.remove_incoming(&rel);
        let added = self.add_identity(&rel);
        let backlog = self.take_pending_backlog(&rel);
        self.insert_link(rel);
        (backlog, added)
    }

    /// Record a live link. The relation must be in the directory and not
    /// waiting for approval, so the router's invariants hold on.
    pub fn insert_link(&mut self, rel: Relation)
        requires
            old(self).wf(),
            dir_of(old(self).directory@, rel@) is Some,
            !rel_set(old(self).incoming_links@).contains(rel@),
        ensures
            final(self).wf(),
            rel_set(final(self).links@).contains(rel@),
            forall|q: RelV|
                rel_set(final(self).links@).contains(q) == (rel_set(old(self).links@).contains(q)
                    || q == rel@),
            final(self).incoming_links == old(self).incoming_links,
            final(self).pending_links == old(self).pending_links,
            final(self).directory == old(self).directory,
            final(self).event_subscribers == old(self).event_subscribers,
            final(self).should_approve_ui == old(self).should_approve_ui,
    {
        match Self::find_rel(&self.links, &rel) {
            Some(i) => {
                proof {
                    assert(rel_set(self.links@)[i as int] == rel@);
                    assert forall|q: RelV|
                        rel_set(self.links@).contains(q) == (rel_set(old(self).links@).contains(q)
                            || q == rel@) by {}
                }
            },
            None => {
                let ghost pre = self.links@;
                let ghost rv = rel@;
                self.links.push(rel);
                proof {
                    assert(rel_set(self.links@) =~= rel_set(pre).push(rv));
                    assert(rel_set(self.links@)[pre.len() as int] == rv);
                    assert forall|q: RelV|
                        rel_set(self.links@).contains(q) == (rel_set(pre).contains(q) || q
                            == rv) by {
                        if rel_set(self.links@).contains(q) {
                            let k = choose|k: int|
                                0 <= k < rel_set(self.links@).len() && rel_set(self.links@)[k]
                                    == q;
                            if k < pre.len() {
                                assert(rel_set(pre)[k] == q);
                            }
                        } else {
                            if rel_set(pre).contains(q) {
                                let k = choose|k: int|
                                    0 <= k < rel_set(pre).len() && rel_set(pre)[k] == q;
                                assert(rel_set(self.links@)[k] == q);
                            }
                        }
                    }
                    assert forall|i: int, j: int|
                        0 <= i < self.incoming_links@.len() && 0 <= j
                            < self.links@.len() implies rel_set(self.incoming_links@)[i]
                        != rel_set(self.links@)[j] by {
                        if j == pre.len() {
                            assert(!rel_set(self.incoming_links@).contains(rv));
                            assert(rel_set(self.incoming_links@)[i] != rv);
                        }
                    }
                }
            },
        }
    }

    /// Drop a live link's record: the link closed or failed.
    pub fn remove_link(&mut self, rel: &Relation)
        requires
            old(self).wf(),
        ensures
            final(self).wf(),
            !rel_set(final(self).links@).contains(rel@),
            forall|q: RelV|
                q != rel@ ==> rel_set(final(self).links@).contains(q) == rel_set(
                    old(self).links@,
                ).contains(q),
            final(self).incoming_links == old(self).incoming_links,
            final(self).pending_links == old(self).pending_links,
            final(self).directory == old(self).directory,
            final(self).event_subscribers == old(self).event_subscribers,
    {
        match Self::find_rel(&self.links, rel) {
            Some(i) => {
                let ghost pre = self.links@;
                self.links.remove(i);
                proof {
                    assert(rel_set(self.links@) =~= rel_set(pre).remove(i as int));
                    lemma_rel_set_remove(pre, i as int, rel@);
                }
            },
            None => {
                proof {
                    assert forall|j: int|
                        0 <= j < self.links@.len() implies rel_set(self.links@)[j] != rel@ by {}
                    assert(!rel_set(self.links@).contains(rel@));
                }
            },
        }
    }

    /// Add a blank directory entry for a relation when it has none. True
    /// when an entry was added.
    pub fn add_identity(&mut self, rel: &Relation) -> (added: bool)
        requires
            old(self).wf(),
        ensures
            final(self).wf(),
            added == (dir_of(old(self).directory@, rel@) is None),
            dir_of(final(self).directory@, rel@) is Some,
            added ==> (dir_of(final(self).directory@, rel@) matches Some(e) && e.properties
                == Seq::<(Seq<char>, Seq<char>)>::empty() && e.relation == rel@),
            !added ==> final(self).directory == old(self).directory,
            forall|q: RelV|
                q != rel@ ==> dir_of(final(self).directory@, q) == dir_of(
                    old(self).directory@,
                    q,
                ),
            final(self).links == old(self).links,
            final(self).incoming_links == old(self).incoming_links,
            final(self).pending_links == old(self).pending_links,
            final(self).event_subscribers == old(self).event_subscribers,
            final(self).should_approve_ui == old(self).should_approve_ui,
    {
        match self.find_dir(rel) {
            Some(_) => false,
            None => {
                let entry = DirectoryEntry::new(rel.clone());
                let ghost pre = self.directory@;
                let ghost rv = rel@;
                self.directory.push((rel.clone(), entry));
                proof {
                    lemma_dir_no_key(pre, rv);
                    lemma_dir_push(pre, self.directory@.last(), rv);
                    assert(self.directory@ =~= pre.push(self.directory@.last()));
                    assert forall|i: int|
                        0 <= i < self.links@.len() implies dir_of(
                        self.directory@,
                        rel_set(self.links@)[i],
                    ) is Some by {
                        if rel_set(self.links@)[i] != rv {
                            assert(dir_of(self.directory@, rel_set(self.links@)[i]) == dir_of(
                                pre,
                                rel_set(self.links@)[i],
                            ));
                        }
                    }
                }
                true
            },
        }
    }

    /// Remove a relation's directory entry. True when one was there.
    pub fn remove_identity(&mut self, rel: &Relation) -> (removed: bool)
        requires
            old(self).wf(),
            !rel_set(old(self).links@).contains(rel@),
        ensures
            final(self).wf(),
            removed == (dir_of(old(self).directory@, rel@) is Some),
            dir_of(final(self).directory@, rel@) is None,
            forall|q: RelV|
                q != rel@ ==> dir_of(final(self).directory@, q) == dir_of(
                    old(self).directory@,
                    q,
                ),
            final(self).links == old(self).links,
            final(self).incoming_links == old(self).incoming_links,
            final(self).pending_links == old(self).pending_links,
            final(self).event_subscribers == old(self).event_subscribers,
    {
        match self.find_dir(rel) {
            Some(i) => {
                let ghost pre = self.directory@;
                self.directory.remove(i);
                proof {
                    lemma_dir_remove(pre, i as int, rel@);
                    assert(self.directory@ =~= pre.remove(i as int));
                    assert forall|k: int|
                        0 <= k < self.links@.len() implies dir_of(
                        self.directory@,
                        rel_set(self.links@)[k],
                    ) is Some by {
                        assert(rel_set(self.links@)[k] != rel@);
                        assert(dir_of(self.directory@, rel_set(self.links@)[k]) == dir_of(
                            pre,
                            rel_set(self.links@)[k],
                        ));
                    }
                }
                true
            },
            None => false,
        }
    }

    /// Clear a relation from the directory and drop its link: after this, no
    /// link serves the relation.
    pub fn clear_directory_entry(&mut self, rel: &Relation) -> (r: (bool, bool))
        requires
            old(self).wf(),
        ensures
            final(self).wf(),
            !rel_set(final(self).links@).contains(rel@),
            dir_of(final(self).directory@, rel@) is None,
            r.0 == (dir_of(old(self).directory@, rel@) is Some),
            r.1 == rel_set(old(self).links@).contains(rel@),
    {
        let had_link = self.has_link(rel);
        self.remove_link(rel);
        let removed = self.remove_identity(rel);
        (removed, had_link)
    }
}

/// Removing one row of a relation list that holds it once removes exactly
/// that relation.
pub proof fn lemma_rel_set_remove(pre: Seq<Relation>, i: int, r: RelV)
    requires
        0 <= i < pre.len(),
        rel_set(pre)[i] == r,
        forall|x: int, y: int| 0 <= x < y < pre.len() ==> rel_set(pre)[x] != rel_set(pre)[y],
    ensures
        !rel_set(pre.remove(i)).contains(r),
        forall|q: RelV|
            q != r ==> rel_set(pre.remove(i)).contains(q) == rel_set(pre).contains(q),
        forall|x: int, y: int|
            0 <= x < y < pre.remove(i).len() ==> rel_set(pre.remove(i))[x] != rel_set(
                pre.remove(i),
            )[y],
{
    let t = pre.remove(i);
    assert forall|j: int| 0 <= j < t.len() implies rel_set(t)[j] == (if j < i {
        rel_set(pre)[j]
    } else {
        rel_set(pre)[j + 1]
    }) by {
        if j < i {
            assert(t[j] == pre[j]);
        } else {
            assert(t[j] == pre[j + 1]);
        }
    }
    assert forall|j: int| 0 <= j < t.len() implies rel_set(t)[j] != r by {}
    assert forall|q: RelV| q != r implies rel_set(t).contains(q) == rel_set(pre).contains(q) by {
        if rel_set(t).contains(q) {
            let k = choose|k: int| 0 <= k < t.len() && rel_set(t)[k] == q;
            if k < i {
                assert(rel_set(pre)[k] == q);
            } else {
                assert(rel_set(pre)[k + 1] == q);
            }
        }
        if rel_set(pre).contains(q) {
            let k = choose|k: int| 0 <= k < pre.len() && rel_set(pre)[k] == q;
            if k < i {
                assert(rel_set(t)[k] == q);
            } else if k > i {
                assert(rel_set(t)[k - 1] == q);
            }
        }
    }
}

/// Pushing a fresh directory row reads back as written.
pub proof fn lemma_dir_push(pre: Seq<(Relation, DirectoryEntry)>, row: (Relation, DirectoryEntry), r: RelV)
    requires
        row.0@ == r,
        forall|j: int| 0 <= j < pre.len() ==> dir_keys(pre)[j] != r,
    ensures
        dir_of(pre.push(row), r) == Some(row.1@),
        forall|q: RelV| q != r ==> dir_of(pre.push(row), q) == dir_of(pre, q),
        forall|x: int, y: int|
            (0 <= x < y < pre.push(row).len() && (forall|a: int, b: int|
                0 <= a < b < pre.len() ==> dir_keys(pre)[a] != dir_keys(pre)[b])) ==> dir_keys(
                pre.push(row),
            )[x] != dir_keys(pre.push(row))[y],
    decreases pre.len(),
{
    let t = pre.push(row);
    if pre.len() == 0 {
        assert(t[0] == row);
        assert forall|q: RelV| q != r implies dir_of(t, q) == dir_of(pre, q) by {
            assert(dir_of(t, q) == dir_of(t.skip(1), q));
            assert(t.skip(1).len() == 0);
        }
    } else {
        assert(t[0] == pre[0]);
        assert(t.skip(1) =~= pre.skip(1).push(row));
        assert(dir_keys(pre)[0] == pre[0].0@);
        assert forall|j: int| 0 <= j < pre.skip(1).len() implies dir_keys(pre.skip(1))[j] != r by {
            assert(pre.skip(1)[j] == pre[j + 1]);
            assert(dir_keys(pre)[j + 1] == pre[j + 1].0@);
        }
        lemma_dir_push(pre.skip(1), row, r);
        assert(dir_of(t, r) == dir_of(t.skip(1), r));
        assert forall|q: RelV| q != r implies dir_of(t, q) == dir_of(pre, q) by {
            if t[0].0@ != q {
                assert(dir_of(t, q) == dir_of(t.skip(1), q));
                assert(dir_of(pre, q) == dir_of(pre.skip(1), q));
            }
        }
    }
    assert forall|x: int, y: int|
        (0 <= x < y < t.len() && (forall|a: int, b: int|
            0 <= a < b < pre.len() ==> dir_keys(pre)[a] != dir_keys(pre)[b])) implies dir_keys(
        t,
    )[x] != dir_keys(t)[y] by {
        if y < pre.len() {
            assert(t[x] == pre[x]);
            assert(t[y] == pre[y]);
            assert(dir_keys(pre)[x] == pre[x].0@);
            assert(dir_keys(pre)[y] == pre[y].0@);
        } else {
            assert(t[x] == pre[x]);
            assert(dir_keys(pre)[x] == pre[x].0@);
            assert(dir_keys(t)[y] == r);
        }
    }
}

/// Removing a directory row removes exactly its relation.
pub proof fn lemma_dir_remove(pre: Seq<(Relation, DirectoryEntry)>, i: int, r: RelV)
    requires
        0 <= i < pre.len(),
        pre[i].0@ == r,
        forall|x: int, y: int| 0 <= x < y < pre.len() ==> dir_keys(pre)[x] != dir_keys(pre)[y],
    ensures
        dir_of(pre.remove(i), r) is None,
        forall|q: RelV| q != r ==> dir_of(pre.remove(i), q) == dir_of(pre, q),
        forall|x: int, y: int|
            0 <= x < y < pre.remove(i).len() ==> dir_keys(pre.remove(i))[x] != dir_keys(
                pre.remove(i),
            )[y],
    decreases pre.len(),
{
    let t = pre.remove(i);
    assert forall|j: int| 0 <= j < t.len() implies dir_keys(t)[j] == (if j < i {
        dir_keys(pre)[j]
    } else {
        dir_keys(pre)[j + 1]
    }) && t[j] == (if j < i {
        pre[j]
    } else {
        pre[j + 1]
    }) by {
        if j < i {
            assert(t[j] == pre[j]);
        } else {
            assert(t[j] == pre[j + 1]);
        }
    }
    assert forall|j: int| 0 <= j < t.len() implies dir_keys(t)[j] != r by {
        assert(dir_keys(pre)[i] == r);
    }
    lemma_dir_of_absent(t, r);
    assert forall|q: RelV| q != r implies dir_of(t, q) == dir_of(pre, q) by {
        lemma_dir_membership(pre, q);
        lemma_dir_membership(t, q);
        if exists|k: int| 0 <= k < pre.len() && pre[k].0@ == q {
            let k = choose|k: int| 0 <= k < pre.len() && pre[k].0@ == q;
            assert(dir_keys(pre)[k] == q);
            assert forall|j: int| 0 <= j < k implies dir_keys(pre)[j] != q by {}
            lemma_dir_of_found(pre, q, k);
            if k < i {
                assert(t[k] == pre[k]);
                assert forall|j: int| 0 <= j < k implies dir_keys(t)[j] != q by {}
                lemma_dir_of_found(t, q, k);
            } else {
                assert(k > i);
                assert(t[k - 1] == pre[k]);
                assert forall|j: int| 0 <= j < k - 1 implies dir_keys(t)[j] != q by {}
                lemma_dir_of_found(t, q, k - 1);
            }
        } else {
            assert forall|j: int| 0 <= j < pre.len() implies dir_keys(pre)[j] != q by {
                assert(dir_keys(pre)[j] == pre[j].0@);
            }
            lemma_dir_of_absent(pre, q);
            assert forall|j: int| 0 <= j < t.len() implies dir_keys(t)[j] != q by {}
            lemma_dir_of_absent(t, q);
        }
    }
}

/// `dir_of` finds a row exactly when one bears the relation.
pub proof fn lemma_dir_membership(s: Seq<(Relation, DirectoryEntry)>, r: RelV)
    ensures
        (dir_of(s, r) is Some) == (exists|k: int| 0 <= k < s.len() && s[k].0@ == r),
    decreases s.len(),
{
    if s.len() > 0 {
        lemma_dir_membership(s.skip(1), r);
        if s[0].0@ == r {
        } else {
            if exists|k: int| 0 <= k < s.skip(1).len() && s.skip(1)[k].0@ == r {
                let k = choose|k: int| 0 <= k < s.skip(1).len() && s.skip(1)[k].0@ == r;
                assert(s[k + 1].0@ == r);
            } else {
                if exists|k: int| 0 <= k < s.len() && s[k].0@ == r {
                    let k = choose|k: int| 0 <= k < s.len() && s[k].0@ == r;
                    assert(k > 0);
                    assert(s.skip(1)[k - 1].0@ == r);
                }
            }
        }
    }
}

/// A found pending row is the one `pending_of` reads.
pub proof fn lemma_pending_of_found(s: Seq<(Relation, PendingSends)>, r: RelV, i: int)
    requires
        0 <= i < s.len(),
        s[i].0@ == r,
        forall|j: int| 0 <= j < i ==> pending_keys(s)[j] != r,
    ensures
        pending_of(s, r) == Some(
            (s[i].1.last_attempt, s[i].1.attempts, msgs_view(s[i].1.backlog@)),
        ),
    decreases i,
{
    if i > 0 {
        assert(pending_keys(s)[0] == s[0].0@);
        assert forall|j: int| 0 <= j < i - 1 implies pending_keys(s.skip(1))[j] != r by {
            assert(s.skip(1)[j] == s[j + 1]);
            assert(pending_keys(s)[j + 1] == s[j + 1].0@);
        }
        assert(s.skip(1)[i - 1] == s[i]);
        lemma_pending_of_found(s.skip(1), r, i - 1);
    }
}

/// When no row has the relation, `pending_of` reads nothing.
pub proof fn lemma_pending_of_absent(s: Seq<(Relation, PendingSends)>, r: RelV)
    requires
        forall|j: int| 0 <= j < s.len() ==> pending_keys(s)[j] != r,
    ensures
        pending_of(s, r) is None,
    decreases s.len(),
{
    if s.len() > 0 {
        assert(pending_keys(s)[0] == s[0].0@);
        assert forall|j: int| 0 <= j < s.skip(1).len() implies pending_keys(s.skip(1))[j] != r by {
            assert(s.skip(1)[j] == s[j + 1]);
            assert(pending_keys(s)[j + 1] == s[j + 1].0@);
        }
        lemma_pending_of_absent(s.skip(1), r);
    }
}

impl RouterState {
    /// Take the buffered sends of a destination, dropping its pending row.
    pub fn take_pending_backlog(&mut self, rel: &Relation) -> (r: Vec<Message>)
        requires
            old(self).wf(),
        ensures
            final(self).wf(),
            pending_of(final(self).pending_links@, rel@) is None,
            match pending_of(old(self).pending_links@, rel@) {
                Some(p) => msgs_view(r@) == p.2,
                None => r@.len() == 0,
            },
            forall|q: RelV|
                q != rel@ ==> pending_of(final(self).pending_links@, q) == pending_of(
                    old(self).pending_links@,
                    q,
                ),
            final(self).links == old(self).links,
            final(self).incoming_links == old(self).incoming_links,
            final(self).directory == old(self).directory,
            final(self).event_subscribers == old(self).event_subscribers,
            final(self).should_approve_ui == old(self).should_approve_ui,
    {
        match self.find_pending(rel) {
            Some(i) => {
                let ghost pre = self.pending_links@;
                let row = self.pending_links.remove(i);
                proof {
                    lemma_pending_remove(pre, i as int, rel@);
                }
                row.1.backlog
            },
            None => {
                proof {
                    assert forall|q: RelV|
                        q != rel@ implies pending_of(self.pending_links@, q) == pending_of(
                        old(self).pending_links@,
                        q,
                    ) by {}
                }
                Vec::new()
            },
        }
    }

    /// Buffer one message for a destination without a link. A fresh row
    /// starts with no attempts and a last-attempt time of long ago; adding to
    /// an existing row resets its attempt count, giving the destination a
    /// fresh run of retries.
    pub fn buffer_pending(&mut self, rel: &Relation, msg: Message)
        requires
            old(self).wf(),
        ensures
            final(self).wf(),
            pending_of(final(self).pending_links@, rel@) == Some(
                match pending_of(old(self).pending_links@, rel@) {
                    Some(p) => (p.0, 0u8, p.2.push(msg@)),
                    None => (0u64, 0u8, seq![msg@]),
                },
            ),
            forall|q: RelV|
                q != rel@ ==> pending_of(final(self).pending_links@, q) == pending_of(
                    old(self).pending_links@,
                    q,
                ),
            final(self).links == old(self).links,
            final(self).incoming_links == old(self).incoming_links,
            final(self).directory == old(self).directory,
            final(self).event_subscribers == old(self).event_subscribers,
    {
        match self.find_pending(rel) {
            Some(i) => {
                let ghost pre = self.pending_links@;
                let ghost mv = msg@;
                let row = &mut self.pending_links[i];
                let ghost pb = row.1.backlog@;
                row.1.backlog.push(msg);
                row.1.attempts = 0;
                proof {
                    assert(msgs_view(self.pending_links@[i as int].1.backlog@) =~= msgs_view(
                        pb,
                    ).push(mv));
                    assert(self.pending_links@ =~= pre.update(
                        i as int,
                        (pre[i as int].0, self.pending_links@[i as int].1),
                    ));
                    lemma_pending_update(pre, i as int, self.pending_links@[i as int].1, rel@);
                }
            },
            None => {
                let ghost pre = self.pending_links@;
                let ghost mv = msg@;
                let mut backlog: Vec<Message> = Vec::new();
                backlog.push(msg);
                let row = PendingSends { last_attempt: 0, attempts: 0, backlog };
                self.pending_links.push((rel.clone(), row));
                proof {
                    assert(msgs_view(self.pending_links@.last().1.backlog@) =~= seq![mv]);
                    lemma_pending_no_key(pre, rel@);
                    lemma_pending_push(pre, self.pending_links@.last(), rel@);
                    assert(self.pending_links@ =~= pre.push(self.pending_links@.last()));
                }
            },
        }
    }

    /// One upkeep step for a pending destination. When its link now lives,
    /// the backlog comes back for delivery and the row is gone. A row that
    /// has seen too many attempts is dropped. Otherwise, when enough time
    /// has passed, one more attempt is counted and the chords are asked to
    /// resolve the destination.
    pub fn process_pending_link(&mut self, rel: &Relation, now: u64) -> (r: (
        PendingStep,
        Vec<Message>,
    ))
        requires
            old(self).wf(),
        ensures
            final(self).wf(),
            match pending_of(old(self).pending_links@, rel@) {
                Some(p) => {
                    if rel_set(old(self).links@).contains(rel@) {
                        r.0 == PendingStep::Flush && msgs_view(r.1@) == p.2 && pending_of(
                            final(self).pending_links@,
                            rel@,
                        ) is None
                    } else if p.1 >= MAX_PENDING_ATTEMPTS {
                        r.0 == PendingStep::GaveUp && pending_of(
                            final(self).pending_links@,
                            rel@,
                        ) is None
                    } else if now < p.0 + RETRY_INTERVAL_SECS {
                        r.0 == PendingStep::Wait && pending_of(final(self).pending_links@, rel@)
                            == Some(p)
                    } else {
                        r.0 == PendingStep::Resolve && pending_of(final(self).pending_links@, rel@)
                            == Some((now, (p.1 + 1) as u8, p.2))
                    }
                },
                None => r.0 == PendingStep::Absent && final(self).pending_links == old(
                    self,
                ).pending_links,
            },
            forall|q: RelV|
                q != rel@ ==> pending_of(final(self).pending_links@, q) == pending_of(
                    old(self).pending_links@,
                    q,
                ),
            final(self).links == old(self).links,
            final(self).incoming_links == old(self).incoming_links,
            final(self).directory == old(self).directory,
            final(self).event_subscribers == old(self).event_subscribers,
    {
        match self.find_pending(rel) {
            Some(i) => {
                if self.has_link(rel) {
                    let backlog = self.take_pending_backlog(rel);
                    (PendingStep::Flush, backlog)
                } else {
                    let attempts = self.pending_links[i].1.attempts;
                    let last = self.pending_links[i].1.last_attempt;
                    if attempts >= MAX_PENDING_ATTEMPTS {
                        let ghost pre = self.pending_links@;
                        self.pending_links.remove(i);
                        proof {
                            lemma_pending_remove(pre, i as int, rel@);
                        }
                        (PendingStep::GaveUp, Vec::new())
                    } else if last > u64::MAX - RETRY_INTERVAL_SECS || now < last
                        + RETRY_INTERVAL_SECS {
                        (PendingStep::Wait, Vec::new())
                    } else {
                        let ghost pre = self.pending_links@;
                        let row = &mut self.pending_links[i];
                        row.1.last_attempt = now;
                        row.1.attempts = attempts + 1;
                        proof {
                            assert(self.pending_links@ =~= pre.update(
                                i as int,
                                (pre[i as int].0, self.pending_links@[i as int].1),
                            ));
                            lemma_pending_update(
                                pre,
                                i as int,
                                self.pending_links@[i as int].1,
                                rel@,
                            );
                        }
                        (PendingStep::Resolve, Vec::new())
                    }
                }
            },
            None => {
                proof {
                    assert forall|q: RelV|
                        q != rel@ implies pending_of(self.pending_links@, q) == pending_of(
                        old(self).pending_links@,
                        q,
                    ) by {}
                }
                (PendingStep::Absent, Vec::new())
            },
        }
    }

    /// The destinations with buffered sends, for the upkeep walk.
    #[verifier::loop_isolation(false)]
    pub fn pending_relations(&self) -> (r: Vec<Relation>)
        ensures
            rel_set(r@) == pending_keys(self.pending_links@),
    {
        let mut out: Vec<Relation> = Vec::new();
        let mut i: usize = 0;
        while i < self.pending_links.len()
            invariant
                i <= self.pending_links@.len(),
                out@.len() == i,
                forall|j: int| 0 <= j < i ==> out@[j]@ == self.pending_links@[j].0@,
            decreases self.pending_links@.len() - i,
        {
            out.push(self.pending_links[i].0.clone());
            i = i + 1;
        }
        proof {
            assert(rel_set(out@) =~= pending_keys(self.pending_links@));
        }
        out
    }

    /// The position of an event row.
    #[verifier::loop_isolation(false)]
    fn find_subs(&self, name: &String) -> (r: Option<usize>)
        ensures
            match r {
                Some(i) => i < self.event_subscribers@.len()
                    && self.event_subscribers@[i as int].0@ == name@ && subs_of(
                    self.event_subscribers@,
                    name@,
                ) == Some(rel_set(self.event_subscribers@[i as int].1@)),
                None => subs_of(self.event_subscribers@, name@) is None,
            },
    {
        let mut i: usize = 0;
        while i < self.event_subscribers.len()
            invariant
                i <= self.event_subscribers@.len(),
                forall|j: int| 0 <= j < i ==> sub_names(self.event_subscribers@)[j] != name@,
            decreases self.event_subscribers@.len() - i,
        {
            if string_eq(&self.event_subscribers[i].0, name) {
                proof {
                    lemma_subs_found(self.event_subscribers@, name@, i as int);
                }
                return Some(i);
            }
            i = i + 1;
        }
        proof {
            lemma_subs_absent(self.event_subscribers@, name@);
        }
        None
    }

    /// Record a subscriber for an event name. Peers may not subscribe; their
    /// requests leave the state as it was.
    pub fn subscribe_event(&mut self, rel: &Relation, name: String)
        requires
            old(self).wf(),
        ensures
            final(self).wf(),
            rel@.role == Role::Peer ==> *final(self) == *old(self),
            rel@.role != Role::Peer ==> subs_of(final(self).event_subscribers@, name@) == Some(
                match subs_of(old(self).event_subscribers@, name@) {
                    Some(subs) => if subs.contains(rel@) {
                        subs
                    } else {
                        subs.push(rel@)
                    },
                    None => seq![rel@],
                },
            ),
            forall|n: Seq<char>|
                n != name@ ==> subs_of(final(self).event_subscribers@, n) == subs_of(
                    old(self).event_subscribers@,
                    n,
                ),
            final(self).links == old(self).links,
            final(self).incoming_links == old(self).incoming_links,
            final(self).pending_links == old(self).pending_links,
            final(self).directory == old(self).directory,
    {
        if rel.is_peer() {
            return ;
        }
        match self.find_subs(&name) {
            Some(i) => {
                let ghost pre = self.event_subscribers@;
                let present = match Self::find_rel(&self.event_subscribers[i].1, rel) {
                    Some(k) => {
                        proof {
                            assert(rel_set(self.event_subscribers@[i as int].1@)[k as int]
                                == rel@);
                        }
                        true
                    },
                    None => false,
                };
                if !present {
                    let ghost rv = rel@;
                    let row = &mut self.event_subscribers[i];
                    let ghost prow = row.1@;
                    row.1.push(rel.clone());
                    proof {
                        assert(rel_set(self.event_subscribers@[i as int].1@) =~= rel_set(
                            prow,
                        ).push(rv));
                        assert(self.event_subscribers@ =~= pre.update(
                            i as int,
                            (pre[i as int].0, self.event_subscribers@[i as int].1),
                        ));
                        lemma_subs_update(
                            pre,
                            i as int,
                            self.event_subscribers@[i as int].1,
                            name@,
                        );
                    }
                }
            },
            None => {
                let ghost pre = self.event_subscribers@;
                let ghost rv = rel@;
                let mut subs: Vec<Relation> = Vec::new();
                subs.push(rel.clone());
                self.event_subscribers.push((name, subs));
                proof {
                    assert(rel_set(self.event_subscribers@.last().1@) =~= seq![rv]);
                    lemma_subs_no_key(pre, self.event_subscribers@.last().0@);
                    lemma_subs_push(pre, self.event_subscribers@.last());
                    assert(self.event_subscribers@ =~= pre.push(self.event_subscribers@.last()));
                }
            },
        }
    }

    /// Drop a subscriber from an event name; a row left with no subscriber
    /// is removed whole, so every row kept has one.
    pub fn unsubscribe_event(&mut self, rel: &Relation, name: &String)
        requires
            old(self).wf(),
        ensures
            final(self).wf(),
            rel@.role == Role::Peer ==> *final(self) == *old(self),
            forall|n: Seq<char>|
                n != name@ ==> subs_of(final(self).event_subscribers@, n) == subs_of(
                    old(self).event_subscribers@,
                    n,
                ),
            rel@.role != Role::Peer ==> (match subs_of(final(self).event_subscribers@, name@) {
                Some(subs) => subs.len() > 0 && !subs.contains(rel@),
                None => true,
            }),
            final(self).links == old(self).links,
            final(self).incoming_links == old(self).incoming_links,
            final(self).pending_links == old(self).pending_links,
            final(self).directory == old(self).directory,
    {
        if rel.is_peer() {
            return ;
        }
        match self.find_subs(name) {
            Some(i) => {
                let ghost pre = self.event_subscribers@;
                match Self::find_rel(&self.event_subscribers[i].1, rel) {
                    Some(k) => {
                        let row = &mut self.event_subscribers[i];
                        let ghost prow = row.1@;
                        row.1.remove(k);
                        proof {
                            assert(rel_set(prow)[k as int] == rel@);
                            assert forall|x: int, y: int|
                                0 <= x < y < prow.len() implies rel_set(prow)[x] != rel_set(
                                prow,
                            )[y] by {}
                            lemma_rel_set_remove(prow, k as int, rel@);
                            assert(rel_set(self.event_subscribers@[i as int].1@) =~= rel_set(
                                prow,
                            ).remove(k as int));
                            assert(self.event_subscribers@ =~= pre.update(
                                i as int,
                                (pre[i as int].0, self.event_subscribers@[i as int].1),
                            ));
                            lemma_subs_update(
                                pre,
                                i as int,
                                self.event_subscribers@[i as int].1,
                                name@,
                            );
                            assert(!rel_set(self.event_subscribers@[i as int].1@).contains(rel@));
                        }
                        if self.event_subscribers[i].1.len() == 0 {
                            let ghost mid = self.event_subscribers@;
                            self.event_subscribers.remove(i);
                            proof {
                                assert(mid[i as int].0@ == name@);
                                lemma_subs_remove(mid, i as int, name@);
                            }
                        }
                    },
                    None => {
                        proof {
                            assert(!rel_set(self.event_subscribers@[i as int].1@).contains(rel@));
                            assert forall|n: Seq<char>|
                                n != name@ implies subs_of(self.event_subscribers@, n) == subs_of(
                                old(self).event_subscribers@,
                                n,
                            ) by {}
                        }
                    },
                }
            },
            None => {},
        }
    }

    /// The subscribers an event reaches: those with a live link, never from
    /// one peer to another.
    #[verifier::loop_isolation(false)]
    pub fn event_recipients(&self, name: &String, from: &Relation) -> (r: Vec<Relation>)
        ensures
            rel_set(r@) == (match subs_of(self.event_subscribers@, name@) {
                Some(subs) => recips(subs, from@.role == Role::Peer, rel_set(self.links@)),
                None => Seq::<RelV>::empty(),
            }),
    {
        let from_peer = from.is_peer();
        let mut out: Vec<Relation> = Vec::new();
        proof {
            assert(rel_set(out@) =~= Seq::<RelV>::empty());
        }
        match self.find_subs(name) {
            Some(i) => {
                let row = &self.event_subscribers[i];
                let ghost subs = rel_set(row.1@);
                let mut k: usize = 0;
                proof {
                    assert(rel_set(out@) =~= recips(
                        subs.subrange(0, 0),
                        from_peer,
                        rel_set(self.links@),
                    ));
                }
                while k < row.1.len()
                    invariant
                        k <= row.1@.len(),
                        rel_set(out@) == recips(
                            subs.subrange(0, k as int),
                            from_peer,
                            rel_set(self.links@),
                        ),
                    decreases row.1@.len() - k,
                {
                    let sub = &row.1[k];
                    let deliver = self.has_link(sub) && !(from_peer && sub.is_peer());
                    proof {
                        let next = subs.subrange(0, k as int + 1);
                        assert(next.subrange(0, next.len() - 1) =~= subs.subrange(0, k as int));
                        assert(next.last() == sub@);
                    }
                    if deliver {
                        let ghost pre = out@;
                        out.push(sub.clone());
                        proof {
                            assert(rel_set(out@) =~= rel_set(pre).push(sub@));
                        }
                    }
                    k = k + 1;
                }
                proof {
                    assert(subs.subrange(0, subs.len() as int) =~= subs);
                }
                out
            },
            None => out,
        }
    }

    /// Record a valid approval code with its expiry time: presenting it
    /// again refreshes the expiry in place, and a fresh code goes to the
    /// end; every other code stands as it was.
    #[verifier::loop_isolation(false)]
    pub fn set_approval_code(&mut self, code: String, expiry: u64)
        ensures
            final(self).links == old(self).links,
            final(self).incoming_links == old(self).incoming_links,
            final(self).pending_links == old(self).pending_links,
            final(self).directory == old(self).directory,
            final(self).event_subscribers == old(self).event_subscribers,
            final(self).directory_subscribers == old(self).directory_subscribers,
            final(self).should_approve_ui == old(self).should_approve_ui,
            (exists|i: int|
                {
                    &&& 0 <= i < codes_view(old(self).approval_codes@).len()
                    &&& (#[trigger] codes_view(old(self).approval_codes@)[i]).0 == code@
                    &&& codes_view(final(self).approval_codes@) == codes_view(
                        old(self).approval_codes@,
                    ).update(i, (code@, expiry))
                }) || ((forall|j: int|
                0 <= j < codes_view(old(self).approval_codes@).len() ==> (#[trigger] codes_view(
                    old(self).approval_codes@,
                )[j]).0 != code@) && codes_view(final(self).approval_codes@) == codes_view(
                old(self).approval_codes@,
            ).push((code@, expiry))),
    {
        let ghost pre = self.approval_codes@;
        let mut i: usize = 0;
        while i < self.approval_codes.len()
            invariant
                i <= self.approval_codes@.len(),
                self.approval_codes@ == pre,
                *self == *old(self),
                forall|j: int| 0 <= j < i ==> codes_view(pre)[j].0 != code@,
            decreases self.approval_codes@.len() - i,
        {
            if string_eq(&self.approval_codes[i].0, &code) {
                let row = &mut self.approval_codes[i];
                row.1 = expiry;
                row.0 = code;
                proof {
                    assert(codes_view(pre)[i as int].0 == code@);
                    assert(codes_view(self.approval_codes@) =~= codes_view(pre).update(
                        i as int,
                        (code@, expiry),
                    ));
                }
                return ;
            }
            i = i + 1;
        }
        self.approval_codes.push((code, expiry));
        proof {
            assert(codes_view(self.approval_codes@) =~= codes_view(pre).push((code@, expiry)));
        }
    }

    /// Record a freshly presented approval code: it stays valid for the
    /// standard validity period from now. Every other code stands as it was.
    pub fn register_approval_code(&mut self, code: String, now: u64)
        requires
            now + APPROVAL_CODE_VALIDITY_SECS <= u64::MAX,
        ensures
            final(self).links == old(self).links,
            final(self).incoming_links == old(self).incoming_links,
            final(self).pending_links == old(self).pending_links,
            final(self).directory == old(self).directory,
            final(self).event_subscribers == old(self).event_subscribers,
            final(self).directory_subscribers == old(self).directory_subscribers,
            final(self).should_approve_ui == old(self).should_approve_ui,
            (exists|i: int|
                {
                    &&& 0 <= i < codes_view(old(self).approval_codes@).len()
                    &&& (#[trigger] codes_view(old(self).approval_codes@)[i]).0 == code@
                    &&& codes_view(final(self).approval_codes@) == codes_view(
                        old(self).approval_codes@,
                    ).update(i, (code@, (now + APPROVAL_CODE_VALIDITY_SECS) as u64))
                }) || ((forall|j: int|
                0 <= j < codes_view(old(self).approval_codes@).len() ==> (#[trigger] codes_view(
                    old(self).approval_codes@,
                )[j]).0 != code@) && codes_view(final(self).approval_codes@) == codes_view(
                old(self).approval_codes@,
            ).push((code@, (now + APPROVAL_CODE_VALIDITY_SECS) as u64))),
    {
        self.set_approval_code(code, now + APPROVAL_CODE_VALIDITY_SECS)
    }

    /// The valid codes themselves, for starting a pending session.
    #[verifier::loop_isolation(false)]
    pub fn approval_code_list(&self) -> (r: Vec<String>)
        ensures
            strs_view(r@).len() == codes_view(self.approval_codes@).len(),
            forall|i: int|
                0 <= i < r@.len() ==> strs_view(r@)[i] == codes_view(self.approval_codes@)[i].0,
    {
        let mut out: Vec<String> = Vec::new();
        let mut i: usize = 0;
        while i < self.approval_codes.len()
            invariant
                i <= self.approval_codes@.len(),
                out@.len() == i,
                forall|j: int| 0 <= j < i ==> out@[j]@ == self.approval_codes@[j].0@,
            decreases self.approval_codes@.len() - i,
        {
            out.push(self.approval_codes[i].0.clone());
            i = i + 1;
        }
        out
    }

    /// Drop every approval code whose expiry has passed.
    #[verifier::loop_isolation(false)]
    pub fn clean_approval_codes(&mut self, now: u64)
        ensures
            codes_view(final(self).approval_codes@) == keep_codes(
                codes_view(old(self).approval_codes@),
                now,
            ),
            final(self).links == old(self).links,
            final(self).incoming_links == old(self).incoming_links,
            final(self).pending_links == old(self).pending_links,
            final(self).directory == old(self).directory,
            final(self).event_subscribers == old(self).event_subscribers,
            final(self).should_approve_ui == old(self).should_approve_ui,
    {
        let ghost cv = codes_view(self.approval_codes@);
        let mut kept: Vec<(String, u64)> = Vec::new();
        let mut i: usize = 0;
        proof {
            assert(codes_view(kept@) =~= keep_codes(cv.subrange(0, 0), now));
        }
        while i < self.approval_codes.len()
            invariant
                i <= self.approval_codes@.len(),
                cv == codes_view(self.approval_codes@),
                codes_view(kept@) == keep_codes(cv.subrange(0, i as int), now),
            decreases self.approval_codes@.len() - i,
        {
            proof {
                let next = cv.subrange(0, i as int + 1);
                assert(next.subrange(0, next.len() - 1) =~= cv.subrange(0, i as int));
                assert(next.last() == cv[i as int]);
            }
            if self.approval_codes[i].1 > now {
                let ghost pre = kept@;
                kept.push((self.approval_codes[i].0.clone(), self.approval_codes[i].1));
                proof {
                    assert(codes_view(kept@) =~= codes_view(pre).push(cv[i as int]));
                }
            }
            i = i + 1;
        }
        proof {
            assert(cv.subrange(0, cv.len() as int) =~= cv);
        }
        self.approval_codes = kept;
    }

    /// Record a subscriber to directory changes.
    pub fn subscribe_directory(&mut self, rel: Relation)
        ensures
            rel_set(final(self).directory_subscribers@).contains(rel@),
            final(self).links == old(self).links,
            final(self).directory == old(self).directory,
            final(self).incoming_links == old(self).incoming_links,
            final(self).pending_links == old(self).pending_links,
            final(self).event_subscribers == old(self).event_subscribers,
    {
        match Self::find_rel(&self.directory_subscribers, &rel) {
            Some(i) => {
                proof {
                    assert(rel_set(self.directory_subscribers@)[i as int] == rel@);
                }
            },
            None => {
                let ghost pre = self.directory_subscribers@;
                let ghost rv = rel@;
                self.directory_subscribers.push(rel);
                proof {
                    assert(rel_set(self.directory_subscribers@) =~= rel_set(pre).push(rv));
                    assert(rel_set(self.directory_subscribers@)[pre.len() as int] == rv);
                }
            },
        }
    }

    /// Drop a subscriber to directory changes.
    pub fn unsubscribe_directory(&mut self, rel: &Relation)
        ensures
            !rel_set(final(self).directory_subscribers@).contains(rel@),
            final(self).links == old(self).links,
            final(self).directory == old(self).directory,
            final(self).incoming_links == old(self).incoming_links,
            final(self).pending_links == old(self).pending_links,
            final(self).event_subscribers == old(self).event_subscribers,
    {
        let mut out: Vec<Relation> = Vec::new();
        let n = self.directory_subscribers.len();
        let mut i: usize = 0;
        while i < n
            invariant
                i <= n,
                n == self.directory_subscribers@.len(),
                self.directory_subscribers == old(self).directory_subscribers,
                forall|j: int| 0 <= j < out@.len() ==> rel_set(out@)[j] != rel@,
                *self == *old(self),
            decreases n - i,
        {
            if !self.directory_subscribers[i].eq(rel) {
                let ghost pre = out@;
                out.push(self.directory_subscribers[i].clone());
                proof {
                    assert(rel_set(out@) =~= rel_set(pre).push(
                        old(self).directory_subscribers@[i as int]@,
                    ));
                }
            }
            i = i + 1;
        }
        self.directory_subscribers = out;
        proof {
            assert forall|j: int|
                0 <= j < rel_set(self.directory_subscribers@).len() implies rel_set(
                self.directory_subscribers@,
            )[j] != rel@ by {}
        }
    }

    /// The subscribers to directory changes.
    #[verifier::loop_isolation(false)]
    pub fn directory_subscriber_list(&self) -> (r: Vec<Relation>)
        ensures
            rel_set(r@) == rel_set(self.directory_subscribers@),
    {
        let mut out: Vec<Relation> = Vec::new();
        let mut i: usize = 0;
        while i < self.directory_subscribers.len()
            invariant
                i <= self.directory_subscribers@.len(),
                out@.len() == i,
                forall|j: int| 0 <= j < i ==> out@[j]@ == self.directory_subscribers@[j]@,
            decreases self.directory_subscribers@.len() - i,
        {
            out.push(self.directory_subscribers[i].clone());
            i = i + 1;
        }
        proof {
            assert(rel_set(out@) =~= rel_set(self.directory_subscribers@));
        }
        out
    }
}

/// A found event row is the one `subs_of` reads.
proof fn lemma_subs_found(s: Seq<(String, Vec<Relation>)>, name: Seq<char>, i: int)
    requires
        0 <= i < s.len(),
        s[i].0@ == name,
        forall|j: int| 0 <= j < i ==> sub_names(s)[j] != name,
    ensures
        subs_of(s, name) == Some(rel_set(s[i].1@)),
    decreases i,
{
    if i > 0 {
        assert(sub_names(s)[0] == s[0].0@);
        assert forall|j: int| 0 <= j < i - 1 implies sub_names(s.skip(1))[j] != name by {
            assert(s.skip(1)[j] == s[j + 1]);
            assert(sub_names(s)[j + 1] == s[j + 1].0@);
        }
        assert(s.skip(1)[i - 1] == s[i]);
        lemma_subs_found(s.skip(1), name, i - 1);
    }
}

/// When no row has the name, `subs_of` reads nothing.
proof fn lemma_subs_absent(s: Seq<(String, Vec<Relation>)>, name: Seq<char>)
    requires
        forall|j: int| 0 <= j < s.len() ==> sub_names(s)[j] != name,
    ensures
        subs_of(s, name) is None,
    decreases s.len(),
{
    if s.len() > 0 {
        assert(sub_names(s)[0] == s[0].0@);
        assert forall|j: int| 0 <= j < s.skip(1).len() implies sub_names(s.skip(1))[j] != name by {
            assert(s.skip(1)[j] == s[j + 1]);
            assert(sub_names(s)[j + 1] == s[j + 1].0@);
        }
        lemma_subs_absent(s.skip(1), name);
    }
}

/// Updating one event row changes `subs_of` for its name alone.
proof fn lemma_subs_update(s: Seq<(String, Vec<Relation>)>, i: int, row: Vec<Relation>, name: Seq<char>)
    requires
        forall|x: int, y: int| 0 <= x < y < s.len() ==> sub_names(s)[x] != sub_names(s)[y],
        0 <= i < s.len(),
        s[i].0@ == name,
    ensures
        subs_of(s.update(i, (s[i].0, row)), name) == Some(rel_set(row@)),
        forall|n: Seq<char>|
            n != name ==> subs_of(s.update(i, (s[i].0, row)), n) == subs_of(s, n),
        forall|x: int, y: int|
            0 <= x < y < s.update(i, (s[i].0, row)).len() ==> sub_names(
                s.update(i, (s[i].0, row)),
            )[x] != sub_names(s.update(i, (s[i].0, row)))[y],
    decreases s.len(),
{
    let t = s.update(i, (s[i].0, row));
    assert forall|x: int, y: int| 0 <= x < y < t.len() implies sub_names(t)[x] != sub_names(
        t,
    )[y] by {
        assert(sub_names(t)[x] == sub_names(s)[x]);
        assert(sub_names(t)[y] == sub_names(s)[y]);
    }
    if i == 0 {
        assert(t[0] == (s[0].0, row));
        assert(t.skip(1) =~= s.skip(1));
        assert forall|n: Seq<char>| n != name implies subs_of(t, n) == subs_of(s, n) by {
            assert(subs_of(t, n) == subs_of(t.skip(1), n));
            assert(subs_of(s, n) == subs_of(s.skip(1), n));
        }
    } else {
        assert(t[0] == s[0]);
        assert(t.skip(1) =~= s.skip(1).update(i - 1, (s[i].0, row)));
        assert(sub_names(s)[0] == s[0].0@);
        assert forall|x: int, y: int| 0 <= x < y < s.skip(1).len() implies sub_names(
            s.skip(1),
        )[x] != sub_names(s.skip(1))[y] by {
            assert(s.skip(1)[x] == s[x + 1]);
            assert(s.skip(1)[y] == s[y + 1]);
            assert(sub_names(s)[x + 1] == s[x + 1].0@);
            assert(sub_names(s)[y + 1] == s[y + 1].0@);
        }
        assert(s.skip(1)[i - 1] == s[i]);
        lemma_subs_update(s.skip(1), i - 1, row, name);
        assert(sub_names(s)[0] == s[0].0@);
        assert(sub_names(s)[i] == s[i].0@);
        assert(s[0].0@ != name);
        assert(subs_of(t, name) == subs_of(t.skip(1), name));
        assert forall|n: Seq<char>| n != name implies subs_of(t, n) == subs_of(s, n) by {
            if t[0].0@ != n {
                assert(subs_of(t, n) == subs_of(t.skip(1), n));
                assert(subs_of(s, n) == subs_of(s.skip(1), n));
            }
        }
    }
}

/// Pushing a fresh event row reads back as written.
proof fn lemma_subs_push(s: Seq<(String, Vec<Relation>)>, row: (String, Vec<Relation>))
    requires
        forall|j: int| 0 <= j < s.len() ==> sub_names(s)[j] != row.0@,
    ensures
        subs_of(s.push(row), row.0@) == Some(rel_set(row.1@)),
        forall|n: Seq<char>| n != row.0@ ==> subs_of(s.push(row), n) == subs_of(s, n),
        (forall|a: int, b: int| 0 <= a < b < s.len() ==> sub_names(s)[a] != sub_names(s)[b])
            ==> forall|x: int, y: int|
            0 <= x < y < s.push(row).len() ==> sub_names(s.push(row))[x] != sub_names(
                s.push(row),
            )[y],
    decreases s.len(),
{
    let t = s.push(row);
    if s.len() == 0 {
        assert(t[0] == row);
        assert forall|n: Seq<char>| n != row.0@ implies subs_of(t, n) == subs_of(s, n) by {
            assert(subs_of(t, n) == subs_of(t.skip(1), n));
            assert(t.skip(1).len() == 0);
        }
    } else {
        assert(t[0] == s[0]);
        assert(t.skip(1) =~= s.skip(1).push(row));
        assert(sub_names(s)[0] == s[0].0@);
        assert forall|j: int| 0 <= j < s.skip(1).len() implies sub_names(s.skip(1))[j]
            != row.0@ by {
            assert(s.skip(1)[j] == s[j + 1]);
            assert(sub_names(s)[j + 1] == s[j + 1].0@);
        }
        lemma_subs_push(s.skip(1), row);
        assert(s[0].0@ != row.0@);
        assert(subs_of(t, row.0@) == subs_of(t.skip(1), row.0@));
        assert forall|n: Seq<char>| n != row.0@ implies subs_of(t, n) == subs_of(s, n) by {
            if t[0].0@ != n {
                assert(subs_of(t, n) == subs_of(t.skip(1), n));
                assert(subs_of(s, n) == subs_of(s.skip(1), n));
            }
        }
    }
    if forall|a: int, b: int| 0 <= a < b < s.len() ==> sub_names(s)[a] != sub_names(s)[b] {
        assert forall|x: int, y: int| 0 <= x < y < t.len() implies sub_names(t)[x] != sub_names(
            t,
        )[y] by {
            if y < s.len() {
                assert(sub_names(t)[x] == sub_names(s)[x]);
                assert(sub_names(t)[y] == sub_names(s)[y]);
            } else {
                assert(sub_names(t)[x] == sub_names(s)[x]);
                assert(sub_names(t)[y] == row.0@);
            }
        }
    }
}

/// Removing an event row removes exactly its name.
proof fn lemma_subs_remove(s: Seq<(String, Vec<Relation>)>, i: int, name: Seq<char>)
    requires
        forall|x: int, y: int| 0 <= x < y < s.len() ==> sub_names(s)[x] != sub_names(s)[y],
        0 <= i < s.len(),
        s[i].0@ == name,
    ensures
        subs_of(s.remove(i), name) is None,
        forall|n: Seq<char>| n != name ==> subs_of(s.remove(i), n) == subs_of(s, n),
        forall|x: int, y: int|
            0 <= x < y < s.remove(i).len() ==> sub_names(s.remove(i))[x] != sub_names(
                s.remove(i),
            )[y],
{
    let t = s.remove(i);
    assert forall|j: int| 0 <= j < t.len() implies sub_names(t)[j] == (if j < i {
        sub_names(s)[j]
    } else {
        sub_names(s)[j + 1]
    }) && t[j] == (if j < i {
        s[j]
    } else {
        s[j + 1]
    }) by {
        if j < i {
            assert(t[j] == s[j]);
        } else {
            assert(t[j] == s[j + 1]);
        }
    }
    assert forall|j: int| 0 <= j < t.len() implies sub_names(t)[j] != name by {
        assert(sub_names(s)[i] == name);
    }
    lemma_subs_absent(t, name);
    assert forall|n: Seq<char>| n != name implies subs_of(t, n) == subs_of(s, n) by {
        lemma_subs_membership(s, n);
        lemma_subs_membership(t, n);
        if exists|k: int| 0 <= k < s.len() && s[k].0@ == n {
            let k = choose|k: int| 0 <= k < s.len() && s[k].0@ == n;
            assert(sub_names(s)[k] == n);
            assert forall|j: int| 0 <= j < k implies sub_names(s)[j] != n by {}
            lemma_subs_found(s, n, k);
            if k < i {
                assert(t[k] == s[k]);
                assert forall|j: int| 0 <= j < k implies sub_names(t)[j] != n by {}
                lemma_subs_found(t, n, k);
            } else {
                assert(k > i);
                assert(t[k - 1] == s[k]);
                assert forall|j: int| 0 <= j < k - 1 implies sub_names(t)[j] != n by {}
                lemma_subs_found(t, n, k - 1);
            }
        } else {
            assert forall|j: int| 0 <= j < s.len() implies sub_names(s)[j] != n by {
                assert(sub_names(s)[j] == s[j].0@);
            }
            lemma_subs_absent(s, n);
            assert forall|j: int| 0 <= j < t.len() implies sub_names(t)[j] != n by {}
            lemma_subs_absent(t, n);
        }
    }
}

/// `subs_of` finds a row exactly when one bears the name.
proof fn lemma_subs_membership(s: Seq<(String, Vec<Relation>)>, n: Seq<char>)
    ensures
        (subs_of(s, n) is Some) == (exists|k: int| 0 <= k < s.len() && s[k].0@ == n),
    decreases s.len(),
{
    if s.len() > 0 {
        lemma_subs_membership(s.skip(1), n);
        if s[0].0@ == n {
        } else {
            if exists|k: int| 0 <= k < s.skip(1).len() && s.skip(1)[k].0@ == n {
                let k = choose|k: int| 0 <= k < s.skip(1).len() && s.skip(1)[k].0@ == n;
                assert(s[k + 1].0@ == n);
            } else {
                if exists|k: int| 0 <= k < s.len() && s[k].0@ == n {
                    let k = choose|k: int| 0 <= k < s.len() && s[k].0@ == n;
                    assert(k > 0);
                    assert(s.skip(1)[k - 1].0@ == n);
                }
            }
        }
    }
}

/// Updating one pending row changes `pending_of` for its relation alone.
proof fn lemma_pending_update(s: Seq<(Relation, PendingSends)>, i: int, row: PendingSends, r: RelV)
    requires
        forall|x: int, y: int| 0 <= x < y < s.len() ==> pending_keys(s)[x] != pending_keys(s)[y],
        0 <= i < s.len(),
        s[i].0@ == r,
    ensures
        pending_of(s.update(i, (s[i].0, row)), r) == Some(
            (row.last_attempt, row.attempts, msgs_view(row.backlog@)),
        ),
        forall|q: RelV|
            q != r ==> pending_of(s.update(i, (s[i].0, row)), q) == pending_of(s, q),
        forall|x: int, y: int|
            0 <= x < y < s.update(i, (s[i].0, row)).len() ==> pending_keys(
                s.update(i, (s[i].0, row)),
            )[x] != pending_keys(s.update(i, (s[i].0, row)))[y],
    decreases s.len(),
{
    let t = s.update(i, (s[i].0, row));
    assert forall|x: int, y: int| 0 <= x < y < t.len() implies pending_keys(t)[x] != pending_keys(
        t,
    )[y] by {
        assert(pending_keys(t)[x] == pending_keys(s)[x]);
        assert(pending_keys(t)[y] == pending_keys(s)[y]);
    }
    if i == 0 {
        assert(t[0] == (s[0].0, row));
        assert(t.skip(1) =~= s.skip(1));
        assert forall|q: RelV| q != r implies pending_of(t, q) == pending_of(s, q) by {
            assert(pending_of(t, q) == pending_of(t.skip(1), q));
            assert(pending_of(s, q) == pending_of(s.skip(1), q));
        }
    } else {
        assert(t[0] == s[0]);
        assert(t.skip(1) =~= s.skip(1).update(i - 1, (s[i].0, row)));
        assert(pending_keys(s)[0] == s[0].0@);
        assert forall|x: int, y: int| 0 <= x < y < s.skip(1).len() implies pending_keys(
            s.skip(1),
        )[x] != pending_keys(s.skip(1))[y] by {
            assert(s.skip(1)[x] == s[x + 1]);
            assert(s.skip(1)[y] == s[y + 1]);
            assert(pending_keys(s)[x + 1] == s[x + 1].0@);
            assert(pending_keys(s)[y + 1] == s[y + 1].0@);
        }
        assert(s.skip(1)[i - 1] == s[i]);
        lemma_pending_update(s.skip(1), i - 1, row, r);
        assert(pending_keys(s)[0] == s[0].0@);
        assert(pending_keys(s)[i] == s[i].0@);
        assert(s[0].0@ != r);
        assert(pending_of(t, r) == pending_of(t.skip(1), r));
        assert forall|q: RelV| q != r implies pending_of(t, q) == pending_of(s, q) by {
            if t[0].0@ != q {
                assert(pending_of(t, q) == pending_of(t.skip(1), q));
                assert(pending_of(s, q) == pending_of(s.skip(1), q));
            }
        }
    }
}

/// Pushing a fresh pending row reads back as written.
proof fn lemma_pending_push(s: Seq<(Relation, PendingSends)>, row: (Relation, PendingSends), r: RelV)
    requires
        row.0@ == r,
        forall|j: int| 0 <= j < s.len() ==> pending_keys(s)[j] != r,
    ensures
        pending_of(s.push(row), r) == Some(
            (row.1.last_attempt, row.1.attempts, msgs_view(row.1.backlog@)),
        ),
        forall|q: RelV| q != r ==> pending_of(s.push(row), q) == pending_of(s, q),
        (forall|a: int, b: int|
            0 <= a < b < s.len() ==> pending_keys(s)[a] != pending_keys(s)[b]) ==> forall|
            x: int,
            y: int,
        |
            0 <= x < y < s.push(row).len() ==> pending_keys(s.push(row))[x] != pending_keys(
                s.push(row),
            )[y],
    decreases s.len(),
{
    let t = s.push(row);
    if s.len() == 0 {
        assert(t[0] == row);
        assert forall|q: RelV| q != r implies pending_of(t, q) == pending_of(s, q) by {
            assert(pending_of(t, q) == pending_of(t.skip(1), q));
            assert(t.skip(1).len() == 0);
        }
    } else {
        assert(t[0] == s[0]);
        assert(t.skip(1) =~= s.skip(1).push(row));
        assert(pending_keys(s)[0] == s[0].0@);
        assert forall|j: int| 0 <= j < s.skip(1).len() implies pending_keys(s.skip(1))[j] != r by {
            assert(s.skip(1)[j] == s[j + 1]);
            assert(pending_keys(s)[j + 1] == s[j + 1].0@);
        }
        lemma_pending_push(s.skip(1), row, r);
        assert(s[0].0@ != r);
        assert(pending_of(t, r) == pending_of(t.skip(1), r));
        assert forall|q: RelV| q != r implies pending_of(t, q) == pending_of(s, q) by {
            if t[0].0@ != q {
                assert(pending_of(t, q) == pending_of(t.skip(1), q));
                assert(pending_of(s, q) == pending_of(s.skip(1), q));
            }
        }
    }
    if forall|a: int, b: int| 0 <= a < b < s.len() ==> pending_keys(s)[a] != pending_keys(s)[b] {
        assert forall|x: int, y: int| 0 <= x < y < t.len() implies pending_keys(t)[x]
            != pending_keys(t)[y] by {
            if y < s.len() {
                assert(pending_keys(t)[x] == pending_keys(s)[x]);
                assert(pending_keys(t)[y] == pending_keys(s)[y]);
            } else {
                assert(pending_keys(t)[x] == pending_keys(s)[x]);
                assert(pending_keys(t)[y] == r);
            }
        }
    }
}

/// Removing a pending row removes exactly its relation.
proof fn lemma_pending_remove(s: Seq<(Relation, PendingSends)>, i: int, r: RelV)
    requires
        forall|x: int, y: int| 0 <= x < y < s.len() ==> pending_keys(s)[x] != pending_keys(s)[y],
        0 <= i < s.len(),
        s[i].0@ == r,
    ensures
        pending_of(s.remove(i), r) is None,
        forall|q: RelV| q != r ==> pending_of(s.remove(i), q) == pending_of(s, q),
        forall|x: int, y: int|
            0 <= x < y < s.remove(i).len() ==> pending_keys(s.remove(i))[x] != pending_keys(
                s.remove(i),
            )[y],
{
    let t = s.remove(i);
    assert forall|j: int| 0 <= j < t.len() implies pending_keys(t)[j] == (if j < i {
        pending_keys(s)[j]
    } else {
        pending_keys(s)[j + 1]
    }) && t[j] == (if j < i {
        s[j]
    } else {
        s[j + 1]
    }) by {
        if j < i {
            assert(t[j] == s[j]);
        } else {
            assert(t[j] == s[j + 1]);
        }
    }
    assert forall|j: int| 0 <= j < t.len() implies pending_keys(t)[j] != r by {
        assert(pending_keys(s)[i] == r);
    }
    lemma_pending_of_absent(t, r);
    assert forall|q: RelV| q != r implies pending_of(t, q) == pending_of(s, q) by {
        lemma_pending_membership(s, q);
        lemma_pending_membership(t, q);
        if exists|k: int| 0 <= k < s.len() && s[k].0@ == q {
            let k = choose|k: int| 0 <= k < s.len() && s[k].0@ == q;
            assert(pending_keys(s)[k] == q);
            assert forall|j: int| 0 <= j < k implies pending_keys(s)[j] != q by {}
            lemma_pending_of_found(s, q, k);
            if k < i {
                assert(t[k] == s[k]);
                assert forall|j: int| 0 <= j < k implies pending_keys(t)[j] != q by {}
                lemma_pending_of_found(t, q, k);
            } else {
                assert(k > i);
                assert(t[k - 1] == s[k]);
                assert forall|j: int| 0 <= j < k - 1 implies pending_keys(t)[j] != q by {}
                lemma_pending_of_found(t, q, k - 1);
            }
        } else {
            assert forall|j: int| 0 <= j < s.len() implies pending_keys(s)[j] != q by {
                assert(pending_keys(s)[j] == s[j].0@);
            }
            lemma_pending_of_absent(s, q);
            assert forall|j: int| 0 <= j < t.len() implies pending_keys(t)[j] != q by {}
            lemma_pending_of_absent(t, q);
        }
    }
}

/// `pending_of` finds a row exactly when one bears the relation.
proof fn lemma_pending_membership(s: Seq<(Relation, PendingSends)>, r: RelV)
    ensures
        (pending_of(s, r) is Some) == (exists|k: int| 0 <= k < s.len() && s[k].0@ == r),
    decreases s.len(),
{
    if s.len() > 0 {
        lemma_pending_membership(s.skip(1), r);
        if s[0].0@ == r {
        } else {
            if exists|k: int| 0 <= k < s.skip(1).len() && s.skip(1)[k].0@ == r {
                let k = choose|k: int| 0 <= k < s.skip(1).len() && s.skip(1)[k].0@ == r;
                assert(s[k + 1].0@ == r);
            } else {
                if exists|k: int| 0 <= k < s.len() && s[k].0@ == r {
                    let k = choose|k: int| 0 <= k < s.len() && s[k].0@ == r;
                    assert(k > 0);
                    assert(s.skip(1)[k - 1].0@ == r);
                }
            }
        }
    }
}

/// With no row for the relation, every key differs from it.
pub proof fn lemma_dir_no_key(s: Seq<(Relation, DirectoryEntry)>, r: RelV)
    requires
        dir_of(s, r) is None,
    ensures
        forall|j: int| 0 <= j < s.len() ==> dir_keys(s)[j] != r,
{
    lemma_dir_membership(s, r);
    assert forall|j: int| 0 <= j < s.len() implies dir_keys(s)[j] != r by {
        assert(dir_keys(s)[j] == s[j].0@);
        if s[j].0@ == r {
            assert(exists|k: int| 0 <= k < s.len() && s[k].0@ == r);
        }
    }
}

/// With no row for the relation, every pending key differs from it.
pub proof fn lemma_pending_no_key(s: Seq<(Relation, PendingSends)>, r: RelV)
    requires
        pending_of(s, r) is None,
    ensures
        forall|j: int| 0 <= j < s.len() ==> pending_keys(s)[j] != r,
{
    lemma_pending_membership(s, r);
    assert forall|j: int| 0 <= j < s.len() implies pending_keys(s)[j] != r by {
        assert(pending_keys(s)[j] == s[j].0@);
        if s[j].0@ == r {
            assert(exists|k: int| 0 <= k < s.len() && s[k].0@ == r);
        }
    }
}

/// With no row for the name, every row's name differs from it.
proof fn lemma_subs_no_key(s: Seq<(String, Vec<Relation>)>, n: Seq<char>)
    requires
        subs_of(s, n) is None,
    ensures
        forall|j: int| 0 <= j < s.len() ==> sub_names(s)[j] != n,
{
    lemma_subs_membership(s, n);
    assert forall|j: int| 0 <= j < s.len() implies sub_names(s)[j] != n by {
        assert(sub_names(s)[j] == s[j].0@);
        if s[j].0@ == n {
            assert(exists|k: int| 0 <= k < s.len() && s[k].0@ == n);
        }
    }
}

impl RouterState {
    /// Update one property of a relation's directory entry, creating a blank
    /// entry when the relation has none. Returns true when the stored value
    /// moved. Callers restrict which keys a writer may touch.
    fn set_identity_property(&mut self, rel: &Relation, key: String, value: String) -> (changed:
        bool)
        requires
            old(self).wf(),
            dir_of(old(self).directory@, rel@) matches Some(e) ==> props_wf_of(e),
        ensures
            final(self).wf(),
            dir_of(final(self).directory@, rel@) matches Some(e) && prop_of(e.properties, key@)
                == Some(value@) && props_wf_of(e),
            changed == !(match dir_of(old(self).directory@, rel@) {
                Some(e) => prop_of(e.properties, key@) == Some(value@),
                None => false,
            }),
            forall|q: RelV|
                q != rel@ ==> dir_of(final(self).directory@, q) == dir_of(
                    old(self).directory@,
                    q,
                ),
            final(self).links == old(self).links,
            final(self).incoming_links == old(self).incoming_links,
            final(self).pending_links == old(self).pending_links,
            final(self).event_subscribers == old(self).event_subscribers,
    {
        self.add_identity(rel);
        match self.find_dir(rel) {
            Some(i) => {
                let already = match self.directory[i].1.get(key.as_str()) {
                    Some(v) => crate::text::string_eq(v, &value),
                    None => false,
                };
                if already {
                    proof {
                        assert forall|q: RelV|
                            q != rel@ implies dir_of(self.directory@, q) == dir_of(
                            old(self).directory@,
                            q,
                        ) by {}
                    }
                    false
                } else {
                    let ghost pre = self.directory@;
                    let row = &mut self.directory[i];
                    row.1.set(key, value);
                    proof {
                        assert(self.directory@ =~= pre.update(
                            i as int,
                            (pre[i as int].0, self.directory@[i as int].1),
                        ));
                        lemma_dir_update(pre, i as int, self.directory@[i as int].1, rel@);
                    }
                    true
                }
            },
            None => vstd::pervasive::unreached(),
        }
    }

    /// Update a property the remote itself may set: only its self-chosen
    /// name. Returns true when the directory moved.
    pub fn set_identity_self(&mut self, rel: &Relation, key: String, value: String) -> (changed:
        bool)
        requires
            old(self).wf(),
            dir_of(old(self).directory@, rel@) matches Some(e) ==> props_wf_of(e),
        ensures
            final(self).wf(),
            key@ != "name"@ ==> *final(self) == *old(self) && !changed,
            key@ == "name"@ ==> (dir_of(final(self).directory@, rel@) matches Some(e) && prop_of(
                e.properties,
                key@,
            ) == Some(value@)),
            key@ == "name"@ ==> changed == !(match dir_of(old(self).directory@, rel@) {
                Some(e) => prop_of(e.properties, key@) == Some(value@),
                None => false,
            }),
            forall|q: RelV|
                q != rel@ ==> dir_of(final(self).directory@, q) == dir_of(
                    old(self).directory@,
                    q,
                ),
    {
        proof {
            reveal_strlit("name");
        }
        if !crate::text::str_eq(&key, "name") {
            return false;
        }
        self.set_identity_property(rel, key, value)
    }

    /// Update a property the base itself may set: the nickname the operator
    /// gave the relation, or its block flag. Returns true when the directory
    /// moved.
    pub fn set_identity_system(&mut self, rel: &Relation, key: String, value: String) -> (changed:
        bool)
        requires
            old(self).wf(),
            dir_of(old(self).directory@, rel@) matches Some(e) ==> props_wf_of(e),
        ensures
            final(self).wf(),
            (key@ != "nickname"@ && key@ != "blocked"@) ==> *final(self) == *old(self) && !changed,
            (key@ == "nickname"@ || key@ == "blocked"@) ==> (dir_of(
                final(self).directory@,
                rel@,
            ) matches Some(e) && prop_of(e.properties, key@) == Some(value@)),
            (key@ == "nickname"@ || key@ == "blocked"@) ==> changed == !(match dir_of(
                old(self).directory@,
                rel@,
            ) {
                Some(e) => prop_of(e.properties, key@) == Some(value@),
                None => false,
            }),
            forall|q: RelV|
                q != rel@ ==> dir_of(final(self).directory@, q) == dir_of(
                    old(self).directory@,
                    q,
                ),
    {
        proof {
            reveal_strlit("nickname");
            reveal_strlit("blocked");
        }
        if !crate::text::str_eq(&key, "nickname") && !crate::text::str_eq(&key, "blocked") {
            return false;
        }
        self.set_identity_property(rel, key, value)
    }

    /// Route an event: it goes to every reachable subscriber, then to each
    /// requested extra recipient, over its link when one lives and into the
    /// pending buffer otherwise. Returns who gets the event now.
    #[verifier::loop_isolation(false)]
    pub fn handle_send_event(
        &mut self,
        from: &Relation,
        name: &String,
        externals: &Vec<Relation>,
        event: Message,
    ) -> (sends: Vec<Relation>)
        requires
            old(self).wf(),
        ensures
            final(self).wf(),
            final(self).links == old(self).links,
            final(self).directory == old(self).directory,
            final(self).event_subscribers == old(self).event_subscribers,
            rel_set(sends@) == sends_after(
                rel_set(old(self).links@),
                match subs_of(old(self).event_subscribers@, name@) {
                    Some(subs) => recips(subs, from@.role == Role::Peer, rel_set(old(self).links@)),
                    None => Seq::<RelV>::empty(),
                },
                rel_set(externals@),
            ),
            forall|k: int|
                0 <= k < externals@.len() ==> rel_set(old(self).links@).contains(
                    externals@[k]@,
                ) || (pending_of(final(self).pending_links@, externals@[k]@) matches Some(p)
                    && p.1 == 0 && p.2.len() > 0 && p.2.last() == event@),
    {
        let recipients = self.event_recipients(name, from);
        let mut sends: Vec<Relation> = Vec::new();
        let mut i: usize = 0;
        proof {
            assert(rel_set(sends@) =~= Seq::<RelV>::empty());
            assert(rel_set(sends@) =~= rel_set(recipients@).subrange(0, 0));
        }
        while i < recipients.len()
            invariant
                i <= recipients@.len(),
                rel_set(sends@) == rel_set(recipients@).subrange(0, i as int),
                forall|j: int|
                    0 <= j < sends@.len() ==> rel_set(old(self).links@).contains(
                        rel_set(sends@)[j],
                    ),
                *self == *old(self),
            decreases recipients@.len() - i,
        {
            let ghost pres = sends@;
            sends.push(recipients[i].clone());
            proof {
                assert(rel_set(sends@) =~= rel_set(pres).push(recipients@[i as int]@));
                lemma_recips_linked(
                    match subs_of(self.event_subscribers@, name@) {
                        Some(subs) => subs,
                        None => Seq::<RelV>::empty(),
                    },
                    from@.role == Role::Peer,
                    rel_set(self.links@),
                );
                assert(rel_set(recipients@)[i as int] == recipients@[i as int]@);
                assert(rel_set(self.links@).contains(recipients@[i as int]@));
            }
            i = i + 1;
        }
        proof {
            assert(rel_set(recipients@).subrange(0, recipients@.len() as int) =~= rel_set(
                recipients@,
            ));
        }
        let ghost base = rel_set(sends@);
        let ghost extsv = rel_set(externals@);
        let ghost target = sends_after(rel_set(old(self).links@), base, extsv);
        let mut k: usize = 0;
        proof {
            assert(extsv.skip(0) =~= extsv);
        }
        while k < externals.len()
            invariant
                k <= externals@.len(),
                self.wf(),
                self.links == old(self).links,
                self.directory == old(self).directory,
                self.event_subscribers == old(self).event_subscribers,
                sends_after(rel_set(old(self).links@), rel_set(sends@), extsv.skip(k as int))
                    == target,
                forall|j: int|
                    0 <= j < sends@.len() ==> rel_set(old(self).links@).contains(
                        rel_set(sends@)[j],
                    ),
                forall|j: int|
                    0 <= j < k ==> rel_set(old(self).links@).contains(externals@[j]@)
                        || (pending_of(self.pending_links@, externals@[j]@) matches Some(p) && p.1
                            == 0 && p.2.len() > 0 && p.2.last() == event@),
            decreases externals@.len() - k,
        {
            proof {
                assert(extsv.skip(k as int)[0] == extsv[k as int]);
                assert(extsv.skip(k as int).skip(1) =~= extsv.skip(k as int + 1));
            }
            let ext = &externals[k];
            let mut already = false;
            let mut m: usize = 0;
            while m < sends.len()
                invariant
                    m <= sends@.len(),
                    already ==> rel_set(sends@).contains(ext@),
                    !already ==> forall|j: int| 0 <= j < m ==> rel_set(sends@)[j] != ext@,
                decreases sends@.len() - m,
            {
                if sends[m].eq(ext) {
                    proof {
                        assert(rel_set(sends@)[m as int] == ext@);
                    }
                    already = true;
                }
                m = m + 1;
            }
            proof {
                if !already {
                    assert(!rel_set(sends@).contains(ext@));
                }
            }
            if !already {
                if self.has_link(ext) {
                    let ghost pres = sends@;
                    sends.push(ext.clone());
                    proof {
                        assert(rel_set(sends@) =~= rel_set(pres).push(externals@[k as int]@));
                    }
                } else {
                    self.buffer_pending(ext, event.clone());
                    proof {
                        assert forall|j: int|
                            0 <= j < k + 1 implies rel_set(old(self).links@).contains(
                            externals@[j]@,
                        ) || (pending_of(self.pending_links@, externals@[j]@) matches Some(p)
                            && p.1 == 0 && p.2.len() > 0 && p.2.last() == event@) by {
                            if j < k {
                                if !rel_set(old(self).links@).contains(externals@[j]@) {
                                    if externals@[j]@ != externals@[k as int]@ {
                                    }
                                }
                            }
                        }
                    }
                }
            }
            k = k + 1;
        }
        proof {
            assert(extsv.skip(extsv.len() as int).len() == 0);
        }
        sends
    }
}

/// Whether a directory entry's properties are well-formed.
pub open spec fn props_wf_of(e: DirEntryV) -> bool {
    crate::directory::props_wf(e.properties)
}

/// Every recipient of an event has a live link.
proof fn lemma_recips_linked(subs: Seq<RelV>, from_peer: bool, links: Seq<RelV>)
    ensures
        forall|j: int|
            0 <= j < recips(subs, from_peer, links).len() ==> links.contains(
                #[trigger] recips(subs, from_peer, links)[j],
            ),
    decreases subs.len(),
{
    if subs.len() > 0 {
        lemma_recips_linked(subs.subrange(0, subs.len() - 1), from_peer, links);
        let head = recips(subs.subrange(0, subs.len() - 1), from_peer, links);
        let full = recips(subs, from_peer, links);
        assert forall|j: int| 0 <= j < full.len() implies links.contains(full[j]) by {
            if links.contains(subs.last()) && !(from_peer && subs.last().role == Role::Peer) {
                if j < head.len() {
                    assert(full[j] == head[j]);
                } else {
                    assert(full[j] == subs.last());
                }
            } else {
                assert(full[j] == head[j]);
            }
        }
    }
}

/// Updating one directory row changes `dir_of` for its relation alone.
pub proof fn lemma_dir_update(s: Seq<(Relation, DirectoryEntry)>, i: int, row: DirectoryEntry, r: RelV)
    requires
        forall|x: int, y: int| 0 <= x < y < s.len() ==> dir_keys(s)[x] != dir_keys(s)[y],
        0 <= i < s.len(),
        s[i].0@ == r,
    ensures
        dir_of(s.update(i, (s[i].0, row)), r) == Some(row@),
        forall|q: RelV| q != r ==> dir_of(s.update(i, (s[i].0, row)), q) == dir_of(s, q),
        forall|x: int, y: int|
            0 <= x < y < s.update(i, (s[i].0, row)).len() ==> dir_keys(
                s.update(i, (s[i].0, row)),
            )[x] != dir_keys(s.update(i, (s[i].0, row)))[y],
    decreases s.len(),
{
    let t = s.update(i, (s[i].0, row));
    assert forall|x: int, y: int| 0 <= x < y < t.len() implies dir_keys(t)[x] != dir_keys(
        t,
    )[y] by {
        assert(dir_keys(t)[x] == dir_keys(s)[x]);
        assert(dir_keys(t)[y] == dir_keys(s)[y]);
    }
    if i == 0 {
        assert(t[0] == (s[0].0, row));
        assert(t.skip(1) =~= s.skip(1));
        assert forall|q: RelV| q != r implies dir_of(t, q) == dir_of(s, q) by {
            assert(dir_of(t, q) == dir_of(t.skip(1), q));
            assert(dir_of(s, q) == dir_of(s.skip(1), q));
        }
    } else {
        assert(t[0] == s[0]);
        assert(t.skip(1) =~= s.skip(1).update(i - 1, (s[i].0, row)));
        assert(dir_keys(s)[0] == s[0].0@);
        assert forall|x: int, y: int| 0 <= x < y < s.skip(1).len() implies dir_keys(s.skip(1))[x]
            != dir_keys(s.skip(1))[y] by {
            assert(s.skip(1)[x] == s[x + 1]);
            assert(s.skip(1)[y] == s[y + 1]);
            assert(dir_keys(s)[x + 1] == s[x + 1].0@);
            assert(dir_keys(s)[y + 1] == s[y + 1].0@);
        }
        assert(s.skip(1)[i - 1] == s[i]);
        lemma_dir_update(s.skip(1), i - 1, row, r);
        assert(dir_keys(s)[i] == s[i].0@);
        assert(s[0].0@ != r);
        assert(dir_of(t, r) == dir_of(t.skip(1), r));
        assert forall|q: RelV| q != r implies dir_of(t, q) == dir_of(s, q) by {
            if t[0].0@ != q {
                assert(dir_of(t, q) == dir_of(t.skip(1), q));
                assert(dir_of(s, q) == dir_of(s.skip(1), q));
            }
        }
    }
}

impl RouterState {
    /// Install the saved directory into a fresh router: each entry is keyed
    /// by its own relation, a relation seen twice keeps its first entry.
    /// Used once at startup, before any link exists: afterwards every
    /// relation resolves to the first saved entry that bears it.
    #[verifier::loop_isolation(false)]
    pub fn load_directory(&mut self, entries: Vec<DirectoryEntry>)
        requires
            old(self).wf(),
            old(self).directory@.len() == 0,
            old(self).links@.len() == 0,
        ensures
            final(self).wf(),
            final(self).links == old(self).links,
            final(self).incoming_links == old(self).incoming_links,
            final(self).pending_links == old(self).pending_links,
            final(self).event_subscribers == old(self).event_subscribers,
            final(self).should_approve_ui == old(self).should_approve_ui,
            forall|r: RelV|
                dir_of(final(self).directory@, r) == first_entry(entries_view(entries@), r),
    {
        let ghost full = entries_view(entries@);
        let mut entries = entries;
        let total = entries.len();
        let ghost n = full.len();
        proof {
            assert(n == total);
        }
        let mut i: usize = 0;
        proof {
            assert forall|r: RelV| dir_of(self.directory@, r) == first_entry(
                full.take(0),
                r,
            ) by {
                assert(full.take(0).len() == 0);
            }
        }
        while entries.len() > 0
            invariant
                self.wf(),
                self.links == old(self).links,
                self.incoming_links == old(self).incoming_links,
                self.pending_links == old(self).pending_links,
                self.event_subscribers == old(self).event_subscribers,
                self.should_approve_ui == old(self).should_approve_ui,
                i + entries@.len() == n,
                i <= n,
                n == total,
                forall|j: int| 0 <= j < entries@.len() ==> (#[trigger] entries@[j])@ == full[j + i],
                forall|r: RelV|
                    dir_of(self.directory@, r) == first_entry(full.take(i as int), r),
            decreases entries@.len(),
        {
            let ghost prev_entries = entries@;
            let entry = entries.remove(0);
            let ghost ev = entry@;
            proof {
                assert(prev_entries[0]@ == full[i as int]);
                assert forall|j: int|
                    0 <= j < entries@.len() implies (#[trigger] entries@[j])@ == full[j + i
                    + 1] by {
                    assert(entries@[j] == prev_entries[j + 1]);
                }
            }
            let rel = entry.relation().clone();
            match self.find_dir(&rel) {
                Some(_) => {
                    proof {
                        assert forall|r: RelV| dir_of(self.directory@, r) == first_entry(
                            full.take(i as int + 1),
                            r,
                        ) by {
                            lemma_first_entry_push(full.take(i as int), ev, r);
                            assert(full.take(i as int).push(ev) =~= full.take(i as int + 1));
                        }
                    }
                },
                None => {
                    let ghost pre = self.directory@;
                    let ghost rv = rel@;
                    self.directory.push((rel, entry));
                    proof {
                        lemma_dir_no_key(pre, rv);
                        lemma_dir_push(pre, self.directory@.last(), rv);
                        assert(self.directory@ =~= pre.push(self.directory@.last()));
                        assert forall|k: int|
                            0 <= k < self.links@.len() implies dir_of(
                            self.directory@,
                            rel_set(self.links@)[k],
                        ) is Some by {}
                        assert(rv == ev.relation);
                        assert forall|r: RelV| dir_of(self.directory@, r) == first_entry(
                            full.take(i as int + 1),
                            r,
                        ) by {
                            lemma_first_entry_push(full.take(i as int), ev, r);
                            assert(full.take(i as int).push(ev) =~= full.take(i as int + 1));
                        }
                    }
                },
            }
            i = i + 1;
        }
        proof {
            assert(full.take(n as int) =~= full);
        }
    }

    /// The event the router re-emits    /// The event the router re-emits for one arriving from a link: the
    /// sender field is the link's authenticated relation, whatever source
    /// the message claimed.
    pub fn inbound_event_to_emit(link_rel: &Relation, name: String, data: crate::dataset_data::DatasetData) -> (r:
        Message)
        ensures
            r@ == MessageV::Router(
                crate::message::RouterMsgV::Event(name@, link_rel@, data@),
            ),
    {
        Message::Router(crate::message::RouterMessage::Event(name, link_rel.clone(), data))
    }

    /// Record who hears recent chord addresses, and how many each wants.
    #[verifier::loop_isolation(false)]
    pub fn subscribe_chord(&mut self, rel: &Relation, limit: usize)
        ensures
            final(self).links == old(self).links,
            final(self).incoming_links == old(self).incoming_links,
            final(self).pending_links == old(self).pending_links,
            final(self).directory == old(self).directory,
            final(self).event_subscribers == old(self).event_subscribers,
            chord_sub_of(final(self).chord_subscribers@, rel@) == Some(limit),
            forall|q: RelV|
                q != rel@ ==> chord_sub_of(final(self).chord_subscribers@, q) == chord_sub_of(
                    old(self).chord_subscribers@,
                    q,
                ),
    {
        let ghost pre = self.chord_subscribers@;
        let mut i: usize = 0;
        while i < self.chord_subscribers.len()
            invariant
                i <= self.chord_subscribers@.len(),
                self.chord_subscribers@ == pre,
                *self == *old(self),
                forall|j: int| 0 <= j < i ==> pre[j].0@ != rel@,
            decreases self.chord_subscribers@.len() - i,
        {
            if self.chord_subscribers[i].0.eq(rel) {
                let row = &mut self.chord_subscribers[i];
                row.1 = limit;
                proof {
                    assert(self.chord_subscribers@ =~= pre.update(
                        i as int,
                        (pre[i as int].0, limit),
                    ));
                    lemma_chord_sub_update(pre, i as int, limit, rel@);
                }
                return ;
            }
            i = i + 1;
        }
        self.chord_subscribers.push((rel.clone(), limit));
        proof {
            assert(self.chord_subscribers@ =~= pre.push(self.chord_subscribers@.last()));
            lemma_chord_sub_push(pre, self.chord_subscribers@.last(), rel@);
        }
    }

    /// Forget a chord-address subscriber.
    #[verifier::loop_isolation(false)]
    pub fn unsubscribe_chord(&mut self, rel: &Relation)
        ensures
            final(self).links == old(self).links,
            final(self).incoming_links == old(self).incoming_links,
            final(self).pending_links == old(self).pending_links,
            final(self).directory == old(self).directory,
            final(self).event_subscribers == old(self).event_subscribers,
            chord_sub_of(final(self).chord_subscribers@, rel@) is None,
    {
        let mut out: Vec<(Relation, usize)> = Vec::new();
        let n = self.chord_subscribers.len();
        let mut i: usize = 0;
        while i < n
            invariant
                i <= n,
                n == self.chord_subscribers@.len(),
                *self == *old(self),
                forall|j: int| 0 <= j < out@.len() ==> (#[trigger] out@[j]).0@ != rel@,
            decreases n - i,
        {
            if !self.chord_subscribers[i].0.eq(rel) {
                out.push(
                    (self.chord_subscribers[i].0.clone(), self.chord_subscribers[i].1),
                );
            }
            i = i + 1;
        }
        self.chord_subscribers = out;
        proof {
            lemma_chord_sub_no_key(self.chord_subscribers@, rel@);
        }
    }

    /// Record a chord peer address as the most recent one seen: it moves to
    /// the front of the cache, shedding any earlier occurrence, and a full
    /// cache drops its oldest address. Nothing else changes.
    pub fn record_chord_addr(&mut self, addr: String)
        requires
            old(self).chord_addrs.wf(),
            old(self).chord_addrs.cap > 0,
        ensures
            final(self).chord_addrs.wf(),
            final(self).chord_addrs.cap == old(self).chord_addrs.cap,
            strs_view(final(self).chord_addrs.rows@) == (seq![addr@] + drop_addr(
                strs_view(old(self).chord_addrs.rows@),
                addr@,
            )).take(
                if 1 + drop_addr(strs_view(old(self).chord_addrs.rows@), addr@).len() <= old(
                    self,
                ).chord_addrs.cap {
                    (1 + drop_addr(strs_view(old(self).chord_addrs.rows@), addr@).len()) as int
                } else {
                    old(self).chord_addrs.cap as int
                },
            ),
            *final(self) == (RouterState { chord_addrs: final(self).chord_addrs, ..*old(self) }),
    {
        self.chord_addrs.push(addr);
    }

    /// What one chord-address subscriber is sent: the most recent addresses,
    /// at most as many as it asked for; a relation that never subscribed is
    /// sent nothing.
    #[verifier::loop_isolation(false)]
    pub fn chord_addrs_for(&self, rel: &Relation) -> (r: Option<Vec<String>>)
        ensures
            match chord_sub_of(self.chord_subscribers@, rel@) {
                Some(limit) => (r matches Some(v) && strs_view(v@) == strs_view(
                    self.chord_addrs.rows@,
                ).take(
                    if limit <= self.chord_addrs.rows@.len() {
                        limit as int
                    } else {
                        self.chord_addrs.rows@.len() as int
                    },
                )),
                None => r is None,
            },
    {
        let ghost subs = self.chord_subscribers@;
        let mut i: usize = 0;
        while i < self.chord_subscribers.len()
            invariant
                i <= subs.len(),
                forall|j: int| 0 <= j < i ==> subs[j].0@ != rel@,
            decreases subs.len() - i,
        {
            if self.chord_subscribers[i].0.eq(rel) {
                proof {
                    lemma_chord_sub_found(subs, rel@, i as int);
                }
                return Some(self.chord_addrs.recent(self.chord_subscribers[i].1));
            }
            i = i + 1;
        }
        proof {
            lemma_chord_sub_no_key(subs, rel@);
        }
        None
    }
}

/// The limit recorded for a chord-address subscriber; the first row wins.
pub open spec fn chord_sub_of(s: Seq<(Relation, usize)>, r: RelV) -> Option<usize>
    decreases s.len(),
{
    if s.len() == 0 {
        None
    } else if s[0].0@ == r {
        Some(s[0].1)
    } else {
        chord_sub_of(s.skip(1), r)
    }
}

proof fn lemma_chord_sub_update(s: Seq<(Relation, usize)>, i: int, limit: usize, r: RelV)
    requires
        0 <= i < s.len(),
        s[i].0@ == r,
        forall|j: int| 0 <= j < i ==> s[j].0@ != r,
    ensures
        chord_sub_of(s.update(i, (s[i].0, limit)), r) == Some(limit),
        forall|q: RelV| q != r ==> chord_sub_of(s.update(i, (s[i].0, limit)), q) == chord_sub_of(
            s,
            q,
        ),
    decreases s.len(),
{
    let t = s.update(i, (s[i].0, limit));
    if i == 0 {
        assert(t[0] == (s[0].0, limit));
        assert(t.skip(1) =~= s.skip(1));
        assert forall|q: RelV| q != r implies chord_sub_of(t, q) == chord_sub_of(s, q) by {
            assert(chord_sub_of(t, q) == chord_sub_of(t.skip(1), q));
            assert(chord_sub_of(s, q) == chord_sub_of(s.skip(1), q));
        }
    } else {
        assert(t[0] == s[0]);
        assert(t.skip(1) =~= s.skip(1).update(i - 1, (s[i].0, limit)));
        assert forall|j: int| 0 <= j < i - 1 implies s.skip(1)[j].0@ != r by {
            assert(s.skip(1)[j] == s[j + 1]);
        }
        assert(s.skip(1)[i - 1] == s[i]);
        lemma_chord_sub_update(s.skip(1), i - 1, limit, r);
        assert(s[0].0@ != r);
        assert(chord_sub_of(t, r) == chord_sub_of(t.skip(1), r));
        assert forall|q: RelV| q != r implies chord_sub_of(t, q) == chord_sub_of(s, q) by {
            if t[0].0@ != q {
                assert(chord_sub_of(t, q) == chord_sub_of(t.skip(1), q));
                assert(chord_sub_of(s, q) == chord_sub_of(s.skip(1), q));
            }
        }
    }
}

proof fn lemma_chord_sub_push(s: Seq<(Relation, usize)>, row: (Relation, usize), r: RelV)
    requires
        row.0@ == r,
        forall|j: int| 0 <= j < s.len() ==> s[j].0@ != r,
    ensures
        chord_sub_of(s.push(row), r) == Some(row.1),
        forall|q: RelV| q != r ==> chord_sub_of(s.push(row), q) == chord_sub_of(s, q),
    decreases s.len(),
{
    let t = s.push(row);
    if s.len() == 0 {
        assert(t[0] == row);
        assert forall|q: RelV| q != r implies chord_sub_of(t, q) == chord_sub_of(s, q) by {
            assert(chord_sub_of(t, q) == chord_sub_of(t.skip(1), q));
            assert(t.skip(1).len() == 0);
        }
    } else {
        assert(t[0] == s[0]);
        assert(t.skip(1) =~= s.skip(1).push(row));
        assert forall|j: int| 0 <= j < s.skip(1).len() implies s.skip(1)[j].0@ != r by {
            assert(s.skip(1)[j] == s[j + 1]);
        }
        lemma_chord_sub_push(s.skip(1), row, r);
        assert(s[0].0@ != r);
        assert(chord_sub_of(t, r) == chord_sub_of(t.skip(1), r));
        assert forall|q: RelV| q != r implies chord_sub_of(t, q) == chord_sub_of(s, q) by {
            if t[0].0@ != q {
                assert(chord_sub_of(t, q) == chord_sub_of(t.skip(1), q));
                assert(chord_sub_of(s, q) == chord_sub_of(s.skip(1), q));
            }
        }
    }
}

proof fn lemma_chord_sub_found(s: Seq<(Relation, usize)>, r: RelV, i: int)
    requires
        0 <= i < s.len(),
        s[i].0@ == r,
        forall|j: int| 0 <= j < i ==> s[j].0@ != r,
    ensures
        chord_sub_of(s, r) == Some(s[i].1),
    decreases i,
{
    if i > 0 {
        assert forall|j: int| 0 <= j < i - 1 implies s.skip(1)[j].0@ != r by {
            assert(s.skip(1)[j] == s[j + 1]);
        }
        assert(s.skip(1)[i - 1] == s[i]);
        lemma_chord_sub_found(s.skip(1), r, i - 1);
    }
}

proof fn lemma_chord_sub_no_key(s: Seq<(Relation, usize)>, r: RelV)
    requires
        forall|j: int| 0 <= j < s.len() ==> (#[trigger] s[j]).0@ != r,
    ensures
        chord_sub_of(s, r) is None,
    decreases s.len(),
{
    if s.len() > 0 {
        assert forall|j: int| 0 <= j < s.skip(1).len() implies (#[trigger] s.skip(1)[j]).0@
            != r by {
            assert(s.skip(1)[j] == s[j + 1]);
        }
        lemma_chord_sub_no_key(s.skip(1), r);
    }
}

/// The chord ports a base may allocate: the next unused one in its window,
/// from 1932 up to but not including 1950.
pub fn next_chord_port(used: &Vec<u16>) -> (r: Option<u16>)
    ensures
        match r {
            Some(p) => 1932 <= p < 1950 && !used@.contains(p) && forall|q: u16|
                1932 <= q < p ==> used@.contains(q),
            None => forall|q: u16| 1932 <= q < 1950 ==> used@.contains(q),
        },
{
    let mut candidate: u16 = 1932;
    while candidate < 1950
        invariant
            1932 <= candidate <= 1950,
            forall|q: u16| 1932 <= q < candidate ==> used@.contains(q),
        decreases 1950 - candidate,
    {
        let mut taken = false;
        let mut i: usize = 0;
        while i < used.len()
            invariant
                i <= used@.len(),
                taken ==> used@.contains(candidate),
                !taken ==> forall|j: int| 0 <= j < i ==> used@[j] != candidate,
            decreases used@.len() - i,
        {
            if used[i] == candidate {
                taken = true;
            }
            i = i + 1;
        }
        if !taken {
            proof {
                assert(!used@.contains(candidate));
            }
            return Some(candidate);
        }
        candidate = candidate + 1;
    }
    None
}

/// The mathematical values of saved directory entries.
pub open spec fn entries_view(s: Seq<DirectoryEntry>) -> Seq<DirEntryV> {
    Seq::new(s.len(), |i: int| s[i]@)
}

/// The first saved entry bearing a relation.
pub open spec fn first_entry(s: Seq<DirEntryV>, r: RelV) -> Option<DirEntryV>
    decreases s.len(),
{
    if s.len() == 0 {
        None
    } else if s[0].relation == r {
        Some(s[0])
    } else {
        first_entry(s.skip(1), r)
    }
}

/// Appending a saved entry changes `first_entry` only for its own relation,
/// and only when none earlier bore it.
pub proof fn lemma_first_entry_push(s: Seq<DirEntryV>, e: DirEntryV, r: RelV)
    ensures
        first_entry(s.push(e), r) == (if first_entry(s, r) is Some {
            first_entry(s, r)
        } else if e.relation == r {
            Some(e)
        } else {
            None::<DirEntryV>
        }),
    decreases s.len(),
{
    let t = s.push(e);
    if s.len() == 0 {
        assert(t[0] == e);
        if e.relation != r {
            assert(first_entry(t, r) == first_entry(t.skip(1), r));
            assert(t.skip(1).len() == 0);
        }
    } else {
        assert(t[0] == s[0]);
        assert(t.skip(1) =~= s.skip(1).push(e));
        lemma_first_entry_push(s.skip(1), e, r);
        if s[0].relation != r {
            assert(first_entry(t, r) == first_entry(t.skip(1), r));
            assert(first_entry(s, r) == first_entry(s.skip(1), r));
        }
    }
}

/// Law: what the base saves of a well-formed directory reads back whole.
/// Saving keeps the entries in table order; the loader takes the first entry
/// per relation; so every lookup in the reloaded table reads what the saved
/// table held.
pub proof fn lemma_saved_directory_reads_back(
    directory: Seq<(Relation, DirectoryEntry)>,
    entries: Seq<DirEntryV>,
)
    requires
        forall|i: int, j: int|
            0 <= i < j < directory.len() ==> dir_keys(directory)[i] != dir_keys(directory)[j],
        forall|i: int|
            0 <= i < directory.len() ==> (#[trigger] directory[i]).1@.relation == directory[i].0@,
        entries.len() == directory.len(),
        forall|i: int| 0 <= i < entries.len() ==> entries[i] == directory[i].1@,
    ensures
        forall|r: RelV| first_entry(entries, r) == dir_of(directory, r),
    decreases directory.len(),
{
    if directory.len() > 0 {
        assert forall|x: int, y: int|
            0 <= x < y < directory.skip(1).len() implies dir_keys(directory.skip(1))[x]
            != dir_keys(directory.skip(1))[y] by {
            assert(directory.skip(1)[x] == directory[x + 1]);
            assert(directory.skip(1)[y] == directory[y + 1]);
            assert(dir_keys(directory)[x + 1] == directory[x + 1].0@);
            assert(dir_keys(directory)[y + 1] == directory[y + 1].0@);
        }
        assert forall|i: int|
            0 <= i < directory.skip(1).len() implies (#[trigger] directory.skip(
            1,
        )[i]).1@.relation == directory.skip(1)[i].0@ by {
            assert(directory.skip(1)[i] == directory[i + 1]);
        }
        assert forall|i: int| 0 <= i < entries.skip(1).len() implies entries.skip(1)[i]
            == directory.skip(1)[i].1@ by {
            assert(entries.skip(1)[i] == entries[i + 1]);
            assert(directory.skip(1)[i] == directory[i + 1]);
        }
        lemma_saved_directory_reads_back(directory.skip(1), entries.skip(1));
        assert(entries[0] == directory[0].1@);
        assert(entries[0].relation == directory[0].0@);
        assert forall|r: RelV| true implies first_entry(entries, r) == dir_of(directory, r) by {
            if entries[0].relation != r {
                assert(first_entry(entries, r) == first_entry(entries.skip(1), r));
                assert(dir_of(directory, r) == dir_of(directory.skip(1), r));
            }
        }
    }
}

} // verus!
