//! A peripheral client's saved state and its builder: identity, pairing, and
//! the strategies for finding its base. Connecting, saving and loading
//! happen outside the library; the decisions live here.

use vstd::prelude::*;

use crate::relation::{Relation, Role, SelfRelation};
use crate::text::string_clone;

verus! {

broadcast use vstd::std_specs::vec::group_vec_axioms;

/// A client's saved state.
pub struct SpiderClientState {
    /// The client's own identity.
    pub self_relation: SelfRelation,
    /// The base the client is paired with, when any.
    pub host_relation: Option<Relation>,
    /// A code that approves the client automatically, when set.
    pub permission_code: Option<String>,
    /// Whether the client reconnects on its own.
    pub auto_reconnect: bool,
    /// How many times connecting has been tried.
    pub connection_attempts: u8,
    /// Whether the last known address is tried.
    pub last_addr_enable: bool,
    /// The last known address when it was routable from anywhere.
    pub last_addr_global: Option<String>,
    /// The last known address when it was local.
    pub last_addr_local: Option<String>,
    /// Whether the local-network probe is tried.
    pub beacon_enable: bool,
    /// Whether a chord lookup is tried.
    pub chord_enable: bool,
    /// Recent chord addresses to ask.
    pub chord_addrs: Vec<String>,
    /// Whether the fixed address list is tried.
    pub fixed_addr_enable: bool,
    /// The fixed addresses to try.
    pub fixed_addrs: Vec<String>,
}

impl SpiderClientState {
    /// A fresh client state with a newly generated identity: reconnection by
    /// last address, probe and chord start enabled, the fixed list disabled.
    /// None when the key generation fails.
    pub fn new() -> (r: Option<Self>)
        ensures
            r matches Some(st) ==> {
                &&& st.self_relation@.relation.role == Role::Peripheral
                &&& st.host_relation is None
                &&& st.permission_code is None
                &&& st.auto_reconnect == false
                &&& st.connection_attempts == 0
                &&& st.last_addr_enable
                &&& st.last_addr_global is None
                &&& st.last_addr_local is None
                &&& st.beacon_enable
                &&& st.chord_enable
                &&& st.chord_addrs@.len() == 0
                &&& !st.fixed_addr_enable
                &&& st.fixed_addrs@.len() == 0
            },
    {
        let self_relation = match SelfRelation::generate_key(Role::Peripheral) {
            Some(sr) => sr,
            None => {
                return None;
            },
        };
        Some(
            SpiderClientState {
                self_relation,
                host_relation: None,
                permission_code: None,
                auto_reconnect: false,
                connection_attempts: 0,
                last_addr_enable: true,
                last_addr_global: None,
                last_addr_local: None,
                beacon_enable: true,
                chord_enable: true,
                chord_addrs: Vec::new(),
                fixed_addr_enable: false,
                fixed_addrs: Vec::new(),
            },
        )
    }

    /// Record the last known address, already classified: a global address
    /// lands in the global slot, a local one in the local slot; clearing
    /// empties both. Whether an address is globally routable is decided
    /// outside the library.
    pub fn set_last_addr_classified(&mut self, set: Option<String>, global: bool)
        ensures
            match set {
                Some(addr) => if global {
                    *final(self) == (SpiderClientState {
                        last_addr_global: Some(addr),
                        ..*old(self)
                    })
                } else {
                    *final(self) == (SpiderClientState {
                        last_addr_local: Some(addr),
                        ..*old(self)
                    })
                },
                None => *final(self) == (SpiderClientState {
                    last_addr_global: None,
                    last_addr_local: None,
                    ..*old(self)
                }),
            },
    {
        match set {
            Some(addr) => {
                if global {
                    self.last_addr_global = Some(addr);
                } else {
                    self.last_addr_local = Some(addr);
                }
            },
            None => {
                self.last_addr_global = None;
                self.last_addr_local = None;
            },
        }
    }
}

/// A settings bundle that can be loaded, changed, saved, and used to start a
/// connection; loading and saving happen outside the library.
pub struct SpiderClientBuilder {
    /// Where the state is saved, when anywhere.
    pub state_path: Option<String>,
    /// The state itself.
    pub state: SpiderClientState,
}

impl SpiderClientBuilder {
    /// A builder around a given state, with no save path.
    pub fn new(state: SpiderClientState) -> (r: Self)
        ensures
            r.state_path is None,
            r.state == state,
    {
        SpiderClientBuilder { state_path: None, state }
    }

    /// Set where the state is saved.
    pub fn set_state_path(&mut self, path: String)
        ensures
            final(self).state_path matches Some(p) && p@ == path@,
            final(self).state == old(self).state,
    {
        self.state_path = Some(path);
    }

    /// The client's own relation.
    pub fn self_relation(&self) -> (r: &Relation)
        ensures
            r@ == self.state.self_relation@.relation,
    {
        &self.state.self_relation.relation
    }

    /// Whether the client is paired with a base.
    pub fn has_host_relation(&self) -> (r: bool)
        ensures
            r == (self.state.host_relation is Some),
    {
        match &self.state.host_relation {
            Some(_) => true,
            None => false,
        }
    }

    /// Pair the client with a base.
    pub fn set_host_relation(&mut self, relation: Relation)
        ensures
            final(self).state.host_relation matches Some(h) && h@ == relation@,
            final(self).state_path == old(self).state_path,
    {
        self.state.host_relation = Some(relation);
    }

    /// Unpair the client from any base.
    pub fn clear_host_relation(&mut self)
        ensures
            *final(self) == (SpiderClientBuilder {
                state: SpiderClientState { host_relation: None, ..old(self).state },
                ..*old(self)
            }),
    {
        self.state.host_relation = None;
    }

    /// Record the code that lets the client approve itself.
    pub fn set_permission_code(&mut self, code: Option<String>)
        ensures
            *final(self) == (SpiderClientBuilder {
                state: SpiderClientState { permission_code: code, ..old(self).state },
                ..*old(self)
            }),
    {
        self.state.permission_code = code;
    }

    /// Turn the last-known-address strategy on or off.
    pub fn enable_last_addr(&mut self, set: bool)
        ensures
            *final(self) == (SpiderClientBuilder {
                state: SpiderClientState { last_addr_enable: set, ..old(self).state },
                ..*old(self)
            }),
    {
        self.state.last_addr_enable = set;
    }

    /// Record the last known address, already classified as global or local.
    pub fn set_last_addr(&mut self, set: Option<String>, global: bool)
        ensures
            match set {
                Some(addr) => if global {
                    *final(self) == (SpiderClientBuilder {
                        state: SpiderClientState {
                            last_addr_global: Some(addr),
                            ..old(self).state
                        },
                        ..*old(self)
                    })
                } else {
                    *final(self) == (SpiderClientBuilder {
                        state: SpiderClientState {
                            last_addr_local: Some(addr),
                            ..old(self).state
                        },
                        ..*old(self)
                    })
                },
                None => *final(self) == (SpiderClientBuilder {
                    state: SpiderClientState {
                        last_addr_global: None,
                        last_addr_local: None,
                        ..old(self).state
                    },
                    ..*old(self)
                }),
            },
    {
        self.state.set_last_addr_classified(set, global);
    }

    /// Turn the local-network probe strategy on or off.
    pub fn enable_beacon(&mut self, set: bool)
        ensures
            *final(self) == (SpiderClientBuilder {
                state: SpiderClientState { beacon_enable: set, ..old(self).state },
                ..*old(self)
            }),
    {
        self.state.beacon_enable = set;
    }

    /// Turn the chord-lookup strategy on or off.
    pub fn enable_chord(&mut self, set: bool)
        ensures
            *final(self) == (SpiderClientBuilder {
                state: SpiderClientState { chord_enable: set, ..old(self).state },
                ..*old(self)
            }),
    {
        self.state.chord_enable = set;
    }

    /// Replace the recent chord addresses.
    pub fn set_chord_addrs(&mut self, set: Vec<String>)
        ensures
            *final(self) == (SpiderClientBuilder {
                state: SpiderClientState { chord_addrs: set, ..old(self).state },
                ..*old(self)
            }),
    {
        self.state.chord_addrs = set;
    }

    /// Turn the fixed-address strategy on or off.
    pub fn enable_fixed_addrs(&mut self, set: bool)
        ensures
            *final(self) == (SpiderClientBuilder {
                state: SpiderClientState { fixed_addr_enable: set, ..old(self).state },
                ..*old(self)
            }),
    {
        self.state.fixed_addr_enable = set;
    }

    /// Replace the fixed addresses.
    pub fn set_fixed_addrs(&mut self, addrs: Vec<String>)
        ensures
            *final(self) == (SpiderClientBuilder {
                state: SpiderClientState { fixed_addrs: addrs, ..old(self).state },
                ..*old(self)
            }),
    {
        self.state.fixed_addrs = addrs;
    }
}

/// One way to look for the base.
pub enum ConnectSource {
    /// The last known local address.
    LastLocal(String),
    /// The last known global address.
    LastGlobal(String),
    /// A probe on the local network.
    Beacon,
    /// A lookup through the chord node at this address.
    ChordLookup(String),
    /// A fixed address.
    Fixed(String),
}

/// The mathematical value of a connection source.
pub enum ConnectSourceV {
    LastLocal(Seq<char>),
    LastGlobal(Seq<char>),
    Beacon,
    ChordLookup(Seq<char>),
    Fixed(Seq<char>),
}

impl View for ConnectSource {
    type V = ConnectSourceV;

    open spec fn view(&self) -> ConnectSourceV {
        match self {
            ConnectSource::LastLocal(s) => ConnectSourceV::LastLocal(s@),
            ConnectSource::LastGlobal(s) => ConnectSourceV::LastGlobal(s@),
            ConnectSource::Beacon => ConnectSourceV::Beacon,
            ConnectSource::ChordLookup(s) => ConnectSourceV::ChordLookup(s@),
            ConnectSource::Fixed(s) => ConnectSourceV::Fixed(s@),
        }
    }
}

/// The mathematical values of a plan.
pub open spec fn plan_view(s: Seq<ConnectSource>) -> Seq<ConnectSourceV> {
    Seq::new(s.len(), |i: int| s[i]@)
}

/// The attempts one reconnection makes, in order: the last known local and
/// global addresses, then the local-network probe, then a lookup through
/// each recent chord address, then each fixed address — each step only when
/// its strategy is on.
pub open spec fn spec_connect_plan(st: SpiderClientState) -> Seq<ConnectSourceV> {
    (if st.last_addr_enable && st.last_addr_local is Some {
        seq![ConnectSourceV::LastLocal(st.last_addr_local->0@)]
    } else {
        Seq::empty()
    }) + (if st.last_addr_enable && st.last_addr_global is Some {
        seq![ConnectSourceV::LastGlobal(st.last_addr_global->0@)]
    } else {
        Seq::empty()
    }) + (if st.beacon_enable {
        seq![ConnectSourceV::Beacon]
    } else {
        Seq::empty()
    }) + (if st.chord_enable {
        Seq::new(st.chord_addrs@.len(), |i: int| ConnectSourceV::ChordLookup(st.chord_addrs@[i]@))
    } else {
        Seq::empty()
    }) + (if st.fixed_addr_enable {
        Seq::new(st.fixed_addrs@.len(), |i: int| ConnectSourceV::Fixed(st.fixed_addrs@[i]@))
    } else {
        Seq::empty()
    })
}

/// The attempts one reconnection makes, in order.
#[verifier::loop_isolation(false)]
#[verifier::rlimit(60)]
pub fn connect_attempt_plan(st: &SpiderClientState) -> (r: Vec<ConnectSource>)
    ensures
        plan_view(r@) == spec_connect_plan(*st),
{
    let mut out: Vec<ConnectSource> = Vec::new();
    if st.last_addr_enable {
        match &st.last_addr_local {
            Some(a) => {
                out.push(ConnectSource::LastLocal(string_clone(a)));
            },
            None => {},
        }
        match &st.last_addr_global {
            Some(a) => {
                out.push(ConnectSource::LastGlobal(string_clone(a)));
            },
            None => {},
        }
    }
    if st.beacon_enable {
        out.push(ConnectSource::Beacon);
    }
    let ghost head = plan_view(out@);
    if st.chord_enable {
        let mut i: usize = 0;
        while i < st.chord_addrs.len()
            invariant
                i <= st.chord_addrs@.len(),
                plan_view(out@) == head + Seq::new(
                    i as nat,
                    |j: int| ConnectSourceV::ChordLookup(st.chord_addrs@[j]@),
                ),
            decreases st.chord_addrs@.len() - i,
        {
            let ghost pre = out@;
            out.push(ConnectSource::ChordLookup(string_clone(&st.chord_addrs[i])));
            proof {
                assert(plan_view(pre).len() == pre.len());
                assert(pre.len() == head.len() + i);
                let target = head + Seq::new(
                    (i + 1) as nat,
                    |j: int| ConnectSourceV::ChordLookup(st.chord_addrs@[j]@),
                );
                assert forall|j: int|
                    0 <= j < out@.len() implies plan_view(out@)[j] == target[j] by {
                    if j < pre.len() {
                        assert(out@[j] == pre[j]);
                        assert(plan_view(pre)[j] == pre[j]@);
                    }
                }
                assert(plan_view(out@) =~= target);
            }
            i = i + 1;
        }
    }
    let ghost head2 = plan_view(out@);
    if st.fixed_addr_enable {
        let mut i: usize = 0;
        while i < st.fixed_addrs.len()
            invariant
                i <= st.fixed_addrs@.len(),
                plan_view(out@) == head2 + Seq::new(
                    i as nat,
                    |j: int| ConnectSourceV::Fixed(st.fixed_addrs@[j]@),
                ),
            decreases st.fixed_addrs@.len() - i,
        {
            let ghost pre = out@;
            out.push(ConnectSource::Fixed(string_clone(&st.fixed_addrs[i])));
            proof {
                assert(plan_view(pre).len() == pre.len());
                assert(pre.len() == head2.len() + i);
                let target = head2 + Seq::new(
                    (i + 1) as nat,
                    |j: int| ConnectSourceV::Fixed(st.fixed_addrs@[j]@),
                );
                assert forall|j: int|
                    0 <= j < out@.len() implies plan_view(out@)[j] == target[j] by {
                    if j < pre.len() {
                        assert(out@[j] == pre[j]);
                        assert(plan_view(pre)[j] == pre[j]@);
                    }
                }
                assert(plan_view(out@) =~= target);
            }
            i = i + 1;
        }
    }
    proof {
        assert(plan_view(out@) =~= spec_connect_plan(*st));
    }
    out
}

} // verus!
