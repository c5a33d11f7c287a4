//! The interface engine's bookkeeping: how many elements bind each dataset,
//! which peripherals subscribed to the interface, and the settings page's
//! action registry.

use vstd::prelude::*;
use vstd::string::{StrSliceExecFns, StringExecFns};

use crate::dataset::{AbsoluteDatasetPath, AbsPathV};
use crate::message::{rels_view, ui_pages_clone, upds_clone, UiMessage, UiMsgV, upds_view};
use crate::relation::{Relation, RelV, Role};
use crate::ui::manager::{apply_changes_spec, updates_view};
use crate::ui::page::PageV;
use crate::ui::summary::walk_subtree;
use crate::text::string_eq;

verus! {

broadcast use vstd::std_specs::vec::group_vec_axioms;

/// What a count movement asks the dataset store to do.
#[derive(Clone, Copy, PartialEq, Eq, Structural, Debug)]
pub enum UiSubscriptionAction {
    /// Nothing: the path stays watched or stays unwatched.
    Keep,
    /// The path gained its first binding: start watching it.
    Subscribe,
    /// The path lost its last binding: stop watching it.
    Unsubscribe,
}

/// The paths of the count rows.
pub open spec fn count_paths(s: Seq<(AbsoluteDatasetPath, i64)>) -> Seq<AbsPathV> {
    Seq::new(s.len(), |i: int| s[i].0@)
}

/// The count stored for a path; zero when absent.
pub open spec fn count_of(s: Seq<(AbsoluteDatasetPath, i64)>, p: AbsPathV) -> int
    decreases s.len(),
{
    if s.len() == 0 {
        0
    } else if s[0].0@ == p {
        s[0].1 as int
    } else {
        count_of(s.skip(1), p)
    }
}

/// How many elements of the held pages bind each dataset path. A path whose
/// count falls to zero leaves the table at once: a stored count is always
/// positive.
pub struct UiDatasetCounts {
    pub rows: Vec<(AbsoluteDatasetPath, i64)>,
}

impl UiDatasetCounts {
    /// Paths are unique, and every stored count is positive: a count of zero
    /// means the path is not stored at all.
    pub open spec fn wf(&self) -> bool {
        &&& forall|i: int, j: int|
            0 <= i < j < self.rows@.len() ==> count_paths(self.rows@)[i] != count_paths(
                self.rows@,
            )[j]
        &&& forall|i: int| 0 <= i < self.rows@.len() ==> (#[trigger] self.rows@[i]).1 > 0
    }

    /// An empty table.
    pub fn new() -> (r: Self)
        ensures
            r.wf(),
            r.rows@.len() == 0,
    {
        UiDatasetCounts { rows: Vec::new() }
    }

    /// The position of a path's row.
    #[verifier::loop_isolation(false)]
    fn find(&self, path: &AbsoluteDatasetPath) -> (r: Option<usize>)
        ensures
            match r {
                Some(i) => i < self.rows@.len() && self.rows@[i as int].0@ == path@ && forall|
                    j: int,
                |
                    0 <= j < i ==> count_paths(self.rows@)[j] != path@,
                None => forall|j: int|
                    0 <= j < self.rows@.len() ==> count_paths(self.rows@)[j] != path@,
            },
    {
        let mut i: usize = 0;
        while i < self.rows.len()
            invariant
                i <= self.rows@.len(),
                forall|j: int| 0 <= j < i ==> count_paths(self.rows@)[j] != path@,
            decreases self.rows@.len() - i,
        {
            if self.rows[i].0.eq(path) {
                return Some(i);
            }
            i = i + 1;
        }
        None
    }

    /// Apply one net movement to a path's count. The first positive movement
    /// starts a watch; a count that reaches zero or less ends it and drops
    /// the row, so a vanished binding never lingers at zero.
    #[verifier::loop_isolation(false)]
    pub fn apply_delta(&mut self, path: &AbsoluteDatasetPath, delta: i64) -> (r:
        UiSubscriptionAction)
        requires
            old(self).wf(),
        ensures
            final(self).wf(),
            r == (if count_of(old(self).rows@, path@) == 0 {
                if delta > 0 {
                    UiSubscriptionAction::Subscribe
                } else {
                    UiSubscriptionAction::Keep
                }
            } else {
                if count_of(old(self).rows@, path@) + delta <= 0 {
                    UiSubscriptionAction::Unsubscribe
                } else {
                    UiSubscriptionAction::Keep
                }
            }),
            count_of(final(self).rows@, path@) == (if count_of(old(self).rows@, path@) == 0 {
                if delta > 0 {
                    delta as int
                } else {
                    0
                }
            } else {
                let moved = crate::ui::summary::sat_add(count_of(old(self).rows@, path@), delta as int);
                if moved <= 0 {
                    0
                } else {
                    moved
                }
            }),
            forall|q: AbsPathV|
                q != path@ ==> count_of(final(self).rows@, q) == count_of(old(self).rows@, q),
    {
        match self.find(path) {
            Some(i) => {
                proof {
                    lemma_count_found(self.rows@, path@, i as int);
                }
                let v = self.rows[i].1;
                let nv: i64 = if delta >= 0 {
                    if v > i64::MAX - delta {
                        i64::MAX
                    } else {
                        v + delta
                    }
                } else {
                    if v < i64::MIN - delta {
                        i64::MIN
                    } else {
                        v + delta
                    }
                };
                if nv <= 0 {
                    let ghost pre = self.rows@;
                    self.rows.remove(i);
                    proof {
                        lemma_count_remove(pre, i as int, path@);
                        assert forall|x: int, y: int|
                            0 <= x < y < self.rows@.len() implies count_paths(self.rows@)[x]
                            != count_paths(self.rows@)[y] by {
                            if y < i {
                                assert(count_paths(pre)[x] == count_paths(self.rows@)[x]);
                                assert(count_paths(pre)[y] == count_paths(self.rows@)[y]);
                            } else if x < i {
                                assert(count_paths(pre)[x] == count_paths(self.rows@)[x]);
                                assert(count_paths(pre)[y + 1] == count_paths(self.rows@)[y]);
                            } else {
                                assert(count_paths(pre)[x + 1] == count_paths(self.rows@)[x]);
                                assert(count_paths(pre)[y + 1] == count_paths(self.rows@)[y]);
                            }
                        }
                        assert forall|j: int|
                            0 <= j < self.rows@.len() implies (#[trigger] self.rows@[j]).1 > 0 by {
                            if j < i {
                                assert(self.rows@[j] == pre[j]);
                            } else {
                                assert(self.rows@[j] == pre[j + 1]);
                            }
                        }
                        assert(v > 0);
                        if v < i64::MAX {
                        }
                    }
                    UiSubscriptionAction::Unsubscribe
                } else {
                    let ghost pre = self.rows@;
                    let row = &mut self.rows[i];
                    row.1 = nv;
                    proof {
                        assert(self.rows@ =~= pre.update(
                            i as int,
                            (pre[i as int].0, self.rows@[i as int].1),
                        ));
                        lemma_count_update(pre, i as int, nv, path@);
                        assert forall|x: int, y: int|
                            0 <= x < y < self.rows@.len() implies count_paths(self.rows@)[x]
                            != count_paths(self.rows@)[y] by {
                            assert(count_paths(self.rows@)[x] == count_paths(pre)[x]);
                            assert(count_paths(self.rows@)[y] == count_paths(pre)[y]);
                        }
                        assert forall|j: int|
                            0 <= j < self.rows@.len() implies (#[trigger] self.rows@[j]).1 > 0 by {
                            if j != i {
                                assert(self.rows@[j] == pre[j]);
                            }
                        }
                        assert(v > 0);
                    }
                    UiSubscriptionAction::Keep
                }
            },
            None => {
                proof {
                    lemma_count_absent(self.rows@, path@);
                }
                if delta > 0 {
                    let ghost pre = self.rows@;
                    self.rows.push((path.clone(), delta));
                    proof {
                        assert forall|j: int|
                            0 <= j < pre.len() implies pre[j].0@ != path@ by {
                            assert(count_paths(pre)[j] == pre[j].0@);
                        }
                        assert(self.rows@ =~= pre.push(self.rows@.last()));
                        lemma_count_push(pre, self.rows@.last(), path@);
                        assert forall|x: int, y: int|
                            0 <= x < y < self.rows@.len() implies count_paths(self.rows@)[x]
                            != count_paths(self.rows@)[y] by {
                            if y < pre.len() {
                                assert(count_paths(pre)[x] == count_paths(self.rows@)[x]);
                                assert(count_paths(pre)[y] == count_paths(self.rows@)[y]);
                            } else {
                                assert(count_paths(self.rows@)[y] == path@);
                                assert(count_paths(self.rows@)[x] == count_paths(pre)[x]);
                            }
                        }
                        assert forall|j: int|
                            0 <= j < self.rows@.len() implies (#[trigger] self.rows@[j]).1 > 0 by {
                            if j < pre.len() {
                                assert(self.rows@[j] == pre[j]);
                            }
                        }
                    }
                    UiSubscriptionAction::Subscribe
                } else {
                    UiSubscriptionAction::Keep
                }
            },
        }
    }

    /// The watched paths, for replaying datasets to a new interface.
    #[verifier::loop_isolation(false)]
    pub fn watched_paths(&self) -> (r: Vec<AbsoluteDatasetPath>)
        ensures
            r@.len() == self.rows@.len(),
            forall|j: int| 0 <= j < r@.len() ==> r@[j]@ == self.rows@[j].0@,
    {
        let mut out: Vec<AbsoluteDatasetPath> = Vec::new();
        let mut i: usize = 0;
        while i < self.rows.len()
            invariant
                i <= self.rows@.len(),
                out@.len() == i,
                forall|j: int| 0 <= j < i ==> out@[j]@ == self.rows@[j].0@,
            decreases self.rows@.len() - i,
        {
            out.push(self.rows[i].0.clone());
            i = i + 1;
        }
        out
    }
}


proof fn lemma_count_update(s: Seq<(AbsoluteDatasetPath, i64)>, i: int, v: i64, p: AbsPathV)
    requires
        forall|x: int, y: int| 0 <= x < y < s.len() ==> count_paths(s)[x] != count_paths(s)[y],
        0 <= i < s.len(),
        s[i].0@ == p,
    ensures
        count_of(s.update(i, (s[i].0, v)), p) == v as int,
        forall|q: AbsPathV| q != p ==> count_of(s.update(i, (s[i].0, v)), q) == count_of(s, q),
    decreases s.len(),
{
    let t = s.update(i, (s[i].0, v));
    if i == 0 {
        assert(t[0] == (s[0].0, v));
        assert(t.skip(1) =~= s.skip(1));
        assert forall|q: AbsPathV| q != p implies count_of(t, q) == count_of(s, q) by {
            assert(count_of(t, q) == count_of(t.skip(1), q));
            assert(count_of(s, q) == count_of(s.skip(1), q));
        }
    } else {
        assert(t[0] == s[0]);
        assert(t.skip(1) =~= s.skip(1).update(i - 1, (s[i].0, v)));
        assert(count_paths(s)[0] == s[0].0@);
        assert forall|x: int, y: int| 0 <= x < y < s.skip(1).len() implies count_paths(
            s.skip(1),
        )[x] != count_paths(s.skip(1))[y] by {
            assert(s.skip(1)[x] == s[x + 1]);
            assert(s.skip(1)[y] == s[y + 1]);
            assert(count_paths(s)[x + 1] == s[x + 1].0@);
            assert(count_paths(s)[y + 1] == s[y + 1].0@);
        }
        assert(s.skip(1)[i - 1] == s[i]);
        lemma_count_update(s.skip(1), i - 1, v, p);
        assert(count_paths(s)[i] == s[i].0@);
        assert(s[0].0@ != p);
        assert(count_of(t, p) == count_of(t.skip(1), p));
        assert forall|q: AbsPathV| q != p implies count_of(t, q) == count_of(s, q) by {
            if t[0].0@ != q {
                assert(count_of(t, q) == count_of(t.skip(1), q));
                assert(count_of(s, q) == count_of(s.skip(1), q));
            }
        }
    }
}

proof fn lemma_count_push(s: Seq<(AbsoluteDatasetPath, i64)>, row: (AbsoluteDatasetPath, i64), p: AbsPathV)
    requires
        row.0@ == p,
        forall|j: int| 0 <= j < s.len() ==> s[j].0@ != p,
    ensures
        count_of(s.push(row), p) == row.1 as int,
        forall|q: AbsPathV| q != p ==> count_of(s.push(row), q) == count_of(s, q),
    decreases s.len(),
{
    let t = s.push(row);
    if s.len() == 0 {
        assert(t[0] == row);
        assert forall|q: AbsPathV| q != p implies count_of(t, q) == count_of(s, q) by {
            assert(count_of(t, q) == count_of(t.skip(1), q));
            assert(t.skip(1).len() == 0);
        }
    } else {
        assert(t[0] == s[0]);
        assert(t.skip(1) =~= s.skip(1).push(row));
        assert forall|j: int| 0 <= j < s.skip(1).len() implies s.skip(1)[j].0@ != p by {
            assert(s.skip(1)[j] == s[j + 1]);
        }
        lemma_count_push(s.skip(1), row, p);
        assert(s[0].0@ != p);
        assert(count_of(t, p) == count_of(t.skip(1), p));
        assert forall|q: AbsPathV| q != p implies count_of(t, q) == count_of(s, q) by {
            if t[0].0@ != q {
                assert(count_of(t, q) == count_of(t.skip(1), q));
                assert(count_of(s, q) == count_of(s.skip(1), q));
            }
        }
    }
}

proof fn lemma_count_remove(s: Seq<(AbsoluteDatasetPath, i64)>, i: int, p: AbsPathV)
    requires
        forall|x: int, y: int| 0 <= x < y < s.len() ==> count_paths(s)[x] != count_paths(s)[y],
        0 <= i < s.len(),
        s[i].0@ == p,
    ensures
        count_of(s.remove(i), p) == 0,
        forall|q: AbsPathV| q != p ==> count_of(s.remove(i), q) == count_of(s, q),
{
    let t = s.remove(i);
    assert forall|j: int| 0 <= j < t.len() implies count_paths(t)[j] == (if j < i {
        count_paths(s)[j]
    } else {
        count_paths(s)[j + 1]
    }) && t[j] == (if j < i {
        s[j]
    } else {
        s[j + 1]
    }) by {
        if j < i {
            assert(t[j] == s[j]);
        } else {
            assert(t[j] == s[j + 1]);
        }
    }
    assert forall|j: int| 0 <= j < t.len() implies t[j].0@ != p by {
        assert(count_paths(s)[i] == p);
        assert(count_paths(t)[j] == t[j].0@);
    }
    lemma_count_absent(t, p);
    assert forall|q: AbsPathV| q != p implies count_of(t, q) == count_of(s, q) by {
        lemma_count_membership(s, q);
        lemma_count_membership(t, q);
        if exists|k: int| 0 <= k < s.len() && s[k].0@ == q {
            let k = choose|k: int| 0 <= k < s.len() && s[k].0@ == q;
            assert(count_paths(s)[k] == q);
            assert forall|j: int| 0 <= j < k implies count_paths(s)[j] != q by {}
            lemma_count_found(s, q, k);
            if k < i {
                assert(t[k] == s[k]);
                assert forall|j: int| 0 <= j < k implies count_paths(t)[j] != q by {}
                lemma_count_found(t, q, k);
            } else {
                assert(k > i);
                assert(t[k - 1] == s[k]);
                assert forall|j: int| 0 <= j < k - 1 implies count_paths(t)[j] != q by {}
                lemma_count_found(t, q, k - 1);
            }
        } else {
            assert forall|j: int| 0 <= j < s.len() implies count_paths(s)[j] != q by {
                assert(count_paths(s)[j] == s[j].0@);
            }
            lemma_count_absent(s, q);
            assert forall|j: int| 0 <= j < t.len() implies count_paths(t)[j] != q by {}
            lemma_count_absent(t, q);
        }
    }
}

proof fn lemma_count_membership(s: Seq<(AbsoluteDatasetPath, i64)>, p: AbsPathV)
    ensures
        (exists|k: int| 0 <= k < s.len() && s[k].0@ == p) || count_of(s, p) == 0,
    decreases s.len(),
{
    if s.len() > 0 {
        lemma_count_membership(s.skip(1), p);
        if s[0].0@ == p {
        } else {
            if exists|k: int| 0 <= k < s.skip(1).len() && s.skip(1)[k].0@ == p {
                let k = choose|k: int| 0 <= k < s.skip(1).len() && s.skip(1)[k].0@ == p;
                assert(s[k + 1].0@ == p);
            }
        }
    }
}

proof fn lemma_count_found(s: Seq<(AbsoluteDatasetPath, i64)>, p: AbsPathV, i: int)
    requires
        0 <= i < s.len(),
        s[i].0@ == p,
        forall|j: int| 0 <= j < i ==> count_paths(s)[j] != p,
    ensures
        count_of(s, p) == s[i].1 as int,
    decreases i,
{
    if i > 0 {
        assert(count_paths(s)[0] == s[0].0@);
        assert forall|j: int| 0 <= j < i - 1 implies count_paths(s.skip(1))[j] != p by {
            assert(s.skip(1)[j] == s[j + 1]);
            assert(count_paths(s)[j + 1] == s[j + 1].0@);
        }
        assert(s.skip(1)[i - 1] == s[i]);
        lemma_count_found(s.skip(1), p, i - 1);
    }
}

proof fn lemma_count_absent(s: Seq<(AbsoluteDatasetPath, i64)>, p: AbsPathV)
    requires
        forall|j: int| 0 <= j < s.len() ==> count_paths(s)[j] != p,
    ensures
        count_of(s, p) == 0,
    decreases s.len(),
{
    if s.len() > 0 {
        assert(count_paths(s)[0] == s[0].0@);
        assert forall|j: int| 0 <= j < s.skip(1).len() implies count_paths(s.skip(1))[j] != p by {
            assert(s.skip(1)[j] == s[j + 1]);
            assert(count_paths(s)[j + 1] == s[j + 1].0@);
        }
        lemma_count_absent(s.skip(1), p);
    }
}

/// An operator action a settings row can trigger. The original design keyed
/// behavior on raw function pointers with opaque string data; here each
/// behavior is a named action carrying its data.
pub enum SettingAction {
    /// Rename the base.
    SetName,
    /// Join the chord reachable at the entered address.
    JoinChord,
    /// Host a new chord advertised at the entered address.
    HostChord,
    /// Leave the named chord.
    LeaveChord(String),
    /// Approve or deny the pending link whose relation is carried, base64
    /// encoded: the first button approves, the second denies.
    PendingLink(String),
    /// Rename or remove the directory entry whose relation is carried,
    /// base64 encoded: the text entry renames, the button removes.
    DirectoryEntry(String),
    /// Install the peripheral at the entered source address.
    InstallPeripheral,
    /// Start or stop the named installed peripheral; the second button
    /// removes it.
    PeripheralRunning(bool),
    /// Stop the base.
    Exit,
    /// A row that shows text and takes no action.
    Display,
}

/// The mathematical value of a setting action.
pub enum SettingActionV {
    SetName,
    JoinChord,
    HostChord,
    LeaveChord(Seq<char>),
    PendingLink(Seq<char>),
    DirectoryEntry(Seq<char>),
    InstallPeripheral,
    PeripheralRunning(bool),
    Exit,
    Display,
}

impl View for SettingAction {
    type V = SettingActionV;

    open spec fn view(&self) -> SettingActionV {
        match self {
            SettingAction::SetName => SettingActionV::SetName,
            SettingAction::JoinChord => SettingActionV::JoinChord,
            SettingAction::HostChord => SettingActionV::HostChord,
            SettingAction::LeaveChord(s) => SettingActionV::LeaveChord(s@),
            SettingAction::PendingLink(s) => SettingActionV::PendingLink(s@),
            SettingAction::DirectoryEntry(s) => SettingActionV::DirectoryEntry(s@),
            SettingAction::InstallPeripheral => SettingActionV::InstallPeripheral,
            SettingAction::PeripheralRunning(b) => SettingActionV::PeripheralRunning(*b),
            SettingAction::Exit => SettingActionV::Exit,
            SettingAction::Display => SettingActionV::Display,
        }
    }
}

impl Clone for SettingAction {
    fn clone(&self) -> (r: Self)
        ensures
            r@ == self@,
    {
        match self {
            SettingAction::SetName => SettingAction::SetName,
            SettingAction::JoinChord => SettingAction::JoinChord,
            SettingAction::HostChord => SettingAction::HostChord,
            SettingAction::LeaveChord(s) => SettingAction::LeaveChord(s.clone()),
            SettingAction::PendingLink(s) => SettingAction::PendingLink(s.clone()),
            SettingAction::DirectoryEntry(s) => SettingAction::DirectoryEntry(s.clone()),
            SettingAction::InstallPeripheral => SettingAction::InstallPeripheral,
            SettingAction::PeripheralRunning(b) => SettingAction::PeripheralRunning(*b),
            SettingAction::Exit => SettingAction::Exit,
            SettingAction::Display => SettingAction::Display,
        }
    }
}

/// The settings page's registry: for each header, its rows in order, each
/// with a title and the action its inputs trigger. A row's position is the
/// row of the backing dataset.
pub struct SettingsRegistry {
    pub headers: Vec<(String, Vec<(String, SettingAction)>)>,
}

/// The names of the registry's headers.
pub open spec fn header_names(s: Seq<(String, Vec<(String, SettingAction)>)>) -> Seq<Seq<char>> {
    Seq::new(s.len(), |i: int| s[i].0@)
}

/// The titles of one header's rows.
pub open spec fn row_titles(s: Seq<(String, SettingAction)>) -> Seq<Seq<char>> {
    Seq::new(s.len(), |i: int| s[i].0@)
}

impl SettingsRegistry {
    /// Every header appears once, and within a header every title appears
    /// once: a `(header, title)` pair names at most one row.
    pub open spec fn wf(&self) -> bool {
        &&& forall|i: int, j: int|
            0 <= i < j < self.headers@.len() ==> header_names(self.headers@)[i] != header_names(
                self.headers@,
            )[j]
        &&& forall|i: int, x: int, y: int|
            0 <= i < self.headers@.len() && 0 <= x < y < self.headers@[i].1@.len()
                ==> (#[trigger] self.headers@[i].1@[x]).0@ != (
            #[trigger] self.headers@[i].1@[y]).0@
    }

    /// An empty registry.
    pub fn new() -> (r: Self)
        ensures
            r.headers@.len() == 0,
            r.wf(),
    {
        SettingsRegistry { headers: Vec::new() }
    }

    /// The position of a header: the first row group bearing its name.
    #[verifier::loop_isolation(false)]
    fn find_header(&self, header: &String) -> (r: Option<usize>)
        ensures
            match r {
                Some(i) => i < self.headers@.len() && self.headers@[i as int].0@ == header@
                    && forall|j: int| 0 <= j < i ==> header_names(self.headers@)[j] != header@,
                None => forall|j: int|
                    0 <= j < self.headers@.len() ==> header_names(self.headers@)[j] != header@,
            },
    {
        let mut i: usize = 0;
        while i < self.headers.len()
            invariant
                i <= self.headers@.len(),
                forall|j: int| 0 <= j < i ==> header_names(self.headers@)[j] != header@,
            decreases self.headers@.len() - i,
        {
            if string_eq(&self.headers[i].0, header) {
                return Some(i);
            }
            i = i + 1;
        }
        None
    }

    /// Record a row under a header: an existing `(header, title)` row keeps
    /// its position and takes the new action; a fresh row goes to the end of
    /// its header, and a fresh header to the end of the registry. Other rows
    /// and headers stand as they were. Returns the row's position, whether
    /// the row is new, and whether the header is new.
    #[verifier::loop_isolation(false)]
    pub fn upsert(&mut self, header: String, title: String, action: SettingAction) -> (r: (
        usize,
        bool,
        bool,
    ))
        requires
            old(self).wf(),
        ensures
            final(self).wf(),
            r.2 ==> {
                &&& (forall|j: int|
                    0 <= j < old(self).headers@.len() ==> header_names(old(self).headers@)[j]
                        != header@)
                &&& final(self).headers@.len() == old(self).headers@.len() + 1
                &&& (forall|j: int|
                    0 <= j < old(self).headers@.len()
                        ==> final(self).headers@[j] == old(self).headers@[j])
                &&& final(self).headers@.last().0 == header
                &&& final(self).headers@.last().1@ =~= seq![(title, action)]
                &&& r.0 == 0
                &&& r.1
            },
            !r.2 ==> exists|i: int|
                {
                    &&& 0 <= i < old(self).headers@.len()
                    &&& (#[trigger] old(self).headers@[i]).0@ == header@
                    &&& final(self).headers@.len() == old(self).headers@.len()
                    &&& (forall|j: int|
                        0 <= j < old(self).headers@.len() && j != i ==> final(self).headers@[j]
                            == old(self).headers@[j])
                    &&& final(self).headers@[i].0 == old(self).headers@[i].0
                    &&& (if r.1 {
                        r.0 == old(self).headers@[i].1@.len() && final(self).headers@[i].1@
                            == old(self).headers@[i].1@.push((title, action)) && (forall|k: int|
                            0 <= k < old(self).headers@[i].1@.len()
                                ==> old(self).headers@[i].1@[k].0@ != title@)
                    } else {
                        (r.0 as int) < old(self).headers@[i].1@.len()
                            && old(self).headers@[i].1@[r.0 as int].0@ == title@
                            && final(self).headers@[i].1@ == old(self).headers@[i].1@.update(
                            r.0 as int,
                            (old(self).headers@[i].1@[r.0 as int].0, action),
                        )
                    })
                },
    {
        match self.find_header(&header) {
            Some(i) => {
                let ghost pre = self.headers@;
                let ghost prows = self.headers@[i as int].1@;
                let mut found: Option<usize> = None;
                let mut k: usize = 0;
                while k < self.headers[i].1.len()
                    invariant
                        k <= prows.len(),
                        prows == self.headers@[i as int].1@,
                        found is None,
                        forall|j: int| 0 <= j < k ==> prows[j].0@ != title@,
                    decreases prows.len() - k,
                {
                    if string_eq(&self.headers[i].1[k].0, &title) {
                        found = Some(k);
                        break ;
                    }
                    k = k + 1;
                }
                match found {
                    Some(k) => {
                        let rows = &mut self.headers[i].1;
                        let row = &mut rows[k];
                        row.1 = action;
                        proof {
                            assert(rows@ =~= prows.update(
                                k as int,
                                (prows[k as int].0, rows@[k as int].1),
                            ));
                            assert(self.headers@ =~= pre.update(
                                i as int,
                                (pre[i as int].0, self.headers@[i as int].1),
                            ));
                            assert(header_names(self.headers@) =~= header_names(pre));
                            lemma_registry_wf_row_change(pre, self.headers@, i as int);
                        }
                        (k, false, false)
                    },
                    None => {
                        let pos = self.headers[i].1.len();
                        let rows = &mut self.headers[i].1;
                        rows.push((title, action));
                        proof {
                            assert(rows@ =~= prows.push(rows@.last()));
                            assert(self.headers@ =~= pre.update(
                                i as int,
                                (pre[i as int].0, self.headers@[i as int].1),
                            ));
                            assert(header_names(self.headers@) =~= header_names(pre));
                            assert(self.headers@[i as int].1@.last().0@ == title@);
                            lemma_registry_wf_row_change(pre, self.headers@, i as int);
                        }
                        (pos, true, false)
                    },
                }
            },
            None => {
                let ghost pre = self.headers@;
                let mut rows: Vec<(String, SettingAction)> = Vec::new();
                rows.push((title, action));
                self.headers.push((header, rows));
                proof {
                    assert(self.headers@ =~= pre.push(self.headers@.last()));
                    assert(header_names(self.headers@)[pre.len() as int]
                        == self.headers@.last().0@);
                    assert forall|x: int, y: int|
                        0 <= x < y < self.headers@.len() implies header_names(self.headers@)[x]
                        != header_names(self.headers@)[y] by {
                        if y < pre.len() {
                            assert(header_names(pre)[x] == header_names(self.headers@)[x]);
                            assert(header_names(pre)[y] == header_names(self.headers@)[y]);
                        } else {
                            assert(header_names(self.headers@)[x] == header_names(pre)[x]);
                        }
                    }
                    assert forall|a: int, x: int, y: int|
                        0 <= a < self.headers@.len() && 0 <= x < y
                            < self.headers@[a].1@.len() implies (
                    #[trigger] self.headers@[a].1@[x]).0@ != (
                    #[trigger] self.headers@[a].1@[y]).0@ by {
                        if a < pre.len() {
                            assert(self.headers@[a] == pre[a]);
                            assert(self.headers@[a].1@[x] == old(self).headers@[a].1@[x]);
                            assert(self.headers@[a].1@[y] == old(self).headers@[a].1@[y]);
                        } else {
                            assert(self.headers@[a].1@.len() == 1);
                        }
                    }
                }
                (0, true, true)
            },
        }
    }

    /// Remove a row; rows after it shift one position down, as the backing
    /// dataset's entries do. Other rows and headers stand as they were.
    /// Returns the removed row's position; None when no `(header, title)`
    /// row exists, leaving the registry untouched.
    #[verifier::loop_isolation(false)]
    pub fn remove(&mut self, header: &String, title: &String) -> (r: Option<usize>)
        requires
            old(self).wf(),
        ensures
            final(self).wf(),
            match r {
                Some(k) => exists|i: int|
                    {
                        &&& 0 <= i < old(self).headers@.len()
                        &&& (#[trigger] old(self).headers@[i]).0@ == header@
                        &&& (k as int) < old(self).headers@[i].1@.len()
                        &&& old(self).headers@[i].1@[k as int].0@ == title@
                        &&& final(self).headers@.len() == old(self).headers@.len()
                        &&& final(self).headers@[i].0 == old(self).headers@[i].0
                        &&& final(self).headers@[i].1@ == old(self).headers@[i].1@.remove(k as int)
                        &&& (forall|j: int|
                            0 <= j < old(self).headers@.len() && j != i
                                ==> final(self).headers@[j] == old(self).headers@[j])
                    },
                None => *final(self) == *old(self) && (forall|i: int, k: int|
                    0 <= i < old(self).headers@.len() && old(self).headers@[i].0@ == header@ && 0
                        <= k < old(self).headers@[i].1@.len() ==> (
                    #[trigger] old(self).headers@[i].1@[k]).0@ != title@),
            },
    {
        match self.find_header(header) {
            Some(i) => {
                let ghost pre = self.headers@;
                let ghost prows = self.headers@[i as int].1@;
                let mut found: Option<usize> = None;
                let mut k: usize = 0;
                while k < self.headers[i].1.len()
                    invariant
                        k <= prows.len(),
                        prows == self.headers@[i as int].1@,
                        found is None,
                        forall|j: int| 0 <= j < k ==> prows[j].0@ != title@,
                    decreases prows.len() - k,
                {
                    if string_eq(&self.headers[i].1[k].0, title) {
                        found = Some(k);
                        break ;
                    }
                    k = k + 1;
                }
                match found {
                    Some(k) => {
                        let rows = &mut self.headers[i].1;
                        rows.remove(k);
                        proof {
                            assert(rows@ =~= prows.remove(k as int));
                            assert(self.headers@ =~= pre.update(
                                i as int,
                                (pre[i as int].0, self.headers@[i as int].1),
                            ));
                            assert(header_names(self.headers@) =~= header_names(pre));
                            assert forall|x: int, y: int|
                                0 <= x < y < self.headers@[i as int].1@.len() implies (
                            #[trigger] self.headers@[i as int].1@[x]).0@ != (
                            #[trigger] self.headers@[i as int].1@[y]).0@ by {
                                let px: int = if x < k as int {
                                    x
                                } else {
                                    x + 1
                                };
                                let py: int = if y < k as int {
                                    y
                                } else {
                                    y + 1
                                };
                                assert(self.headers@[i as int].1@[x] == prows[px]);
                                assert(self.headers@[i as int].1@[y] == prows[py]);
                                assert(prows[px] == old(self).headers@[i as int].1@[px]);
                                assert(prows[py] == old(self).headers@[i as int].1@[py]);
                            }
                            lemma_registry_wf_row_change(pre, self.headers@, i as int);
                        }
                        Some(k)
                    },
                    None => {
                        proof {
                            assert forall|a: int, kk: int|
                                0 <= a < old(self).headers@.len() && old(self).headers@[a].0@
                                    == header@ && 0 <= kk < old(
                                self,
                            ).headers@[a].1@.len() implies (
                            #[trigger] old(self).headers@[a].1@[kk]).0@ != title@ by {
                                assert(header_names(old(self).headers@)[a] == old(
                                    self,
                                ).headers@[a].0@);
                                assert(header_names(old(self).headers@)[i as int] == header@);
                                assert(a == i);
                            }
                        }
                        None
                    },
                }
            },
            None => {
                proof {
                    assert forall|a: int, kk: int|
                        0 <= a < old(self).headers@.len() && old(self).headers@[a].0@ == header@
                            && 0 <= kk < old(self).headers@[a].1@.len() implies (
                    #[trigger] old(self).headers@[a].1@[kk]).0@ != title@ by {
                        assert(header_names(old(self).headers@)[a] == old(self).headers@[a].0@);
                    }
                }
                None
            },
        }
    }

    /// The action and title of a row, by header and position. None exactly
    /// when no header bears the name or the position is past that header's
    /// rows.
    #[verifier::loop_isolation(false)]
    pub fn lookup(&self, header: &String, row: usize) -> (r: Option<(String, SettingAction)>)
        requires
            self.wf(),
        ensures
            match r {
                Some(p) => exists|i: int|
                    {
                        &&& 0 <= i < self.headers@.len()
                        &&& (#[trigger] self.headers@[i]).0@ == header@
                        &&& (row as int) < self.headers@[i].1@.len()
                        &&& p.0@ == self.headers@[i].1@[row as int].0@
                        &&& p.1@ == self.headers@[i].1@[row as int].1@
                    },
                None => forall|i: int|
                    0 <= i < self.headers@.len() && (#[trigger] self.headers@[i]).0@ == header@
                        ==> (row as int) >= self.headers@[i].1@.len(),
            },
    {
        match self.find_header(header) {
            Some(i) => {
                let rows = &self.headers[i].1;
                if row < rows.len() {
                    let r = Some((rows[row].0.clone(), rows[row].1.clone()));
                    proof {
                        assert(self.headers@[i as int].0@ == header@);
                    }
                    r
                } else {
                    proof {
                        assert forall|a: int|
                            0 <= a < self.headers@.len() && (#[trigger] self.headers@[a]).0@
                                == header@ implies (row as int) >= self.headers@[a].1@.len() by {
                            assert(header_names(self.headers@)[a] == self.headers@[a].0@);
                            assert(header_names(self.headers@)[i as int] == header@);
                            assert(a == i);
                        }
                    }
                    None
                }
            },
            None => {
                proof {
                    assert forall|a: int|
                        0 <= a < self.headers@.len() && (#[trigger] self.headers@[a]).0@
                            == header@ implies (row as int) >= self.headers@[a].1@.len() by {
                        assert(header_names(self.headers@)[a] == self.headers@[a].0@);
                    }
                }
                None
            },
        }
    }
}

/// Split a settings element id into the header and the input slot: the final
/// character is the slot's digit, the rest is the header. None when the id
/// is empty or ends in no digit.
pub fn split_setting_id(element_id: &String) -> (r: Option<(String, u32)>)
    ensures
        match r {
            Some(p) => element_id@.len() > 0 && p.0@ == element_id@.drop_last() && p.1 < 10
                && crate::dataset_data::digit_val(element_id@.last()) == Some(p.1 as int),
            None => element_id@.len() == 0 || crate::dataset_data::digit_val(
                element_id@.last(),
            ) is None,
        },
{
    let s = element_id.as_str();
    let n = s.unicode_len();
    if n == 0 {
        return None;
    }
    let last = s.get_char(n - 1);
    let digit: u32 = match crate::dataset_data::char_digit_pub(last) {
        Some(d) => d as u32,
        None => {
            return None;
        },
    };
    let head = s.substring_char(0, n - 1);
    let header: String = head.to_owned();
    proof {
        assert(header@ =~= element_id@.drop_last());
    }
    Some((header, digit))
}

/// The settings rows' dataset entry for one row: its header and title, and
/// for each of the three input slots a kind and a label, unused slots
/// showing nothing.
#[verifier::loop_isolation(false)]
pub fn build_setting_row_data(
    header: &String,
    title: &String,
    inputs: &Vec<(String, String)>,
) -> (r: crate::dataset_data::DatasetData)
    ensures
        r@ matches crate::dataset_data::DataV::Table(entries) && entries.len() == 8
            && entries[0] == ("header"@, crate::dataset_data::DataV::Str(header@)) && entries[1]
            == ("title"@, crate::dataset_data::DataV::Str(title@)),
{
    proof {
        reveal_strlit("header");
        reveal_strlit("title");
        reveal_strlit("input_0_type");
        reveal_strlit("input_0_label");
        reveal_strlit("input_1_type");
        reveal_strlit("input_1_label");
        reveal_strlit("input_2_type");
        reveal_strlit("input_2_label");
        reveal_strlit("none");
        reveal_strlit("");
    }
    let mut entries: Vec<(String, crate::dataset_data::DatasetData)> = Vec::new();
    entries.push(
        (
            String::from_str("header"),
            crate::dataset_data::DatasetData::String(crate::text::string_clone(header)),
        ),
    );
    entries.push(
        (
            String::from_str("title"),
            crate::dataset_data::DatasetData::String(crate::text::string_clone(title)),
        ),
    );
    let mut slot: usize = 0;
    while slot < 3
        invariant
            entries@.len() == 2 + 2 * slot,
            slot <= 3,
            entries@[0].0@ == "header"@,
            entries@[0].1@ == crate::dataset_data::DataV::Str(header@),
            entries@[1].0@ == "title"@,
            entries@[1].1@ == crate::dataset_data::DataV::Str(title@),
        decreases 3 - slot,
    {
        let type_key: String = if slot == 0 {
            String::from_str("input_0_type")
        } else if slot == 1 {
            String::from_str("input_1_type")
        } else {
            String::from_str("input_2_type")
        };
        let label_key: String = if slot == 0 {
            String::from_str("input_0_label")
        } else if slot == 1 {
            String::from_str("input_1_label")
        } else {
            String::from_str("input_2_label")
        };
        let (kind, label) = if slot < inputs.len() {
            (
                crate::text::string_clone(&inputs[slot].0),
                crate::text::string_clone(&inputs[slot].1),
            )
        } else {
            (String::from_str("none"), String::from_str(""))
        };
        entries.push((type_key, crate::dataset_data::DatasetData::String(kind)));
        entries.push((label_key, crate::dataset_data::DatasetData::String(label)));
        slot = slot + 1;
    }
    let r = crate::dataset_data::DatasetData::Table(entries);
    proof {
        crate::dataset_data::lemma_table_seq_view(entries@);
    }
    r
}

/// One input slot of a settings row: its kind comes from the row's data, its
/// id is the header with the slot digit appended, and it is selectable.
fn build_setting_input(header: &String, slot: u64) -> (r: crate::ui::element::UiElement)
    requires
        slot < 10,
    ensures
        r@.id == Some(header@ + crate::text::dec_str(slot as nat)),
        r@.selectable,
{
    let type_ref: Vec<String> = {
        let mut v: Vec<String> = Vec::new();
        let mut key: String = String::new();
        proof {
            reveal_strlit("input_");
            reveal_strlit("_type");
        }
        key.append("input_");
        let d = crate::text::u64_to_string(slot);
        key.append(d.as_str());
        key.append("_type");
        v.push(key);
        v
    };
    let kind = crate::ui::element::UiElementKind::Variable(
        crate::ui::content::UiElementContentPart::Data(type_ref),
    );
    let mut input = crate::ui::element::UiElement::new(kind);
    let mut id: String = crate::text::string_clone(header);
    let digits = crate::text::u64_to_string(slot);
    id.append(digits.as_str());
    input.set_id(id);
    input.set_selectable(true);
    let label_ref: Vec<String> = {
        let mut v: Vec<String> = Vec::new();
        let mut key: String = String::new();
        proof {
            reveal_strlit("input_");
            reveal_strlit("_label");
        }
        key.append("input_");
        let d = crate::text::u64_to_string(slot);
        key.append(d.as_str());
        key.append("_label");
        v.push(key);
        v
    };
    input.set_content(crate::ui::content::UiElementContent::new_data_path(label_ref));
    input
}

/// The settings page's section for one header: a row group whose id is the
/// header, holding the header's text and a list bound to the section's
/// dataset; each dataset row renders through a template row of a title, a
/// spacer, and three input slots named after the header.
pub fn build_settings_header_element(
    header: &String,
    dataset: crate::dataset::AbsoluteDatasetPath,
) -> (r: crate::ui::element::UiElement)
    ensures
        r@.kind == crate::ui::element::KindV::Rows,
        r@.id == Some(header@),
        r@.children matches Some(cs) && cs.len() == 2 && cs[1].dataset == Some(dataset@) && (
        cs[1].children matches Some(rows) && rows.len() == 1 && (rows[0].children matches Some(
            slots,
        ) && slots.len() == 5)),
{
    proof {
        reveal_strlit("title");
    }
    let mut elem = crate::ui::element::UiElement::new(crate::ui::element::UiElementKind::Rows);
    elem.set_id(crate::text::string_clone(header));
    elem.append_child(
        crate::ui::element::UiElement::from_string(crate::text::string_clone(header)),
    );
    let mut row = crate::ui::element::UiElement::new(crate::ui::element::UiElementKind::Columns);
    let mut title = crate::ui::element::UiElement::new(crate::ui::element::UiElementKind::Text);
    title.set_content(
        crate::ui::content::UiElementContent::new_data(String::from_str("title")),
    );
    row.append_child(title);
    row.append_child(
        crate::ui::element::UiElement::new(crate::ui::element::UiElementKind::Spacer),
    );
    row.append_child(build_setting_input(header, 0));
    row.append_child(build_setting_input(header, 1));
    row.append_child(build_setting_input(header, 2));
    let mut list = crate::ui::element::UiElement::new(crate::ui::element::UiElementKind::Rows);
    list.set_dataset(Some(dataset));
    list.append_child(row);
    elem.append_child(list);
    elem
}

/// One header's rows changed; when the new rows still carry unique titles,
/// the whole registry keeps its row uniqueness.
proof fn lemma_registry_wf_row_change(
    pre: Seq<(String, Vec<(String, SettingAction)>)>,
    post: Seq<(String, Vec<(String, SettingAction)>)>,
    i: int,
)
    requires
        0 <= i < pre.len(),
        post =~= pre.update(i, (pre[i].0, post[i].1)),
        forall|a: int, x: int, y: int|
            0 <= a < pre.len() && 0 <= x < y < pre[a].1@.len() ==> (#[trigger] pre[a].1@[x]).0@
                != (#[trigger] pre[a].1@[y]).0@,
        forall|x: int, y: int|
            0 <= x < y < post[i].1@.len() ==> (#[trigger] post[i].1@[x]).0@ != (
            #[trigger] post[i].1@[y]).0@,
    ensures
        forall|a: int, x: int, y: int|
            0 <= a < post.len() && 0 <= x < y < post[a].1@.len() ==> (#[trigger] post[a].1@[x]).0@
                != (#[trigger] post[a].1@[y]).0@,
{
    assert forall|a: int, x: int, y: int|
        0 <= a < post.len() && 0 <= x < y < post[a].1@.len() implies (
    #[trigger] post[a].1@[x]).0@ != (#[trigger] post[a].1@[y]).0@ by {
        if a != i {
            assert(post[a] == pre[a]);
            assert(post[a].1@[x] == pre[a].1@[x]);
            assert(post[a].1@[y] == pre[a].1@[y]);
        }
    }
}

/// What the interface engine asks its surroundings to do after one message.
pub enum UiAction {
    /// Send a message to one member over its link.
    Send(crate::relation::Relation, crate::message::UiMessage),
    /// Send a message to every interface subscriber.
    Multicast(Vec<crate::relation::Relation>, crate::message::UiMessage),
    /// A dataset path's binding count moved: start watching it, stop
    /// watching it, or leave it as it is.
    DatasetChange(AbsoluteDatasetPath, UiSubscriptionAction),
    /// Replay a watched dataset to a newly subscribed interface.
    ReplayDataset(crate::relation::Relation, AbsoluteDatasetPath),
    /// A settings row's input fired: the row's action and title, the input
    /// slot, and what the operator entered.
    SettingTriggered(SettingAction, String, u32, crate::ui::input::UiInput),
}

/// The mathematical value of an interface action.
pub enum UiActionV {
    Send(crate::relation::RelV, crate::message::UiMsgV),
    Multicast(Seq<crate::relation::RelV>, crate::message::UiMsgV),
    DatasetChange(AbsPathV, UiSubscriptionAction),
    ReplayDataset(crate::relation::RelV, AbsPathV),
    SettingTriggered(SettingActionV, Seq<char>, u32, crate::ui::input::InputV),
}

impl View for UiAction {
    type V = UiActionV;

    open spec fn view(&self) -> UiActionV {
        match self {
            UiAction::Send(r, m) => UiActionV::Send(r@, m@),
            UiAction::Multicast(rs, m) => UiActionV::Multicast(
                crate::message::rels_view(rs@),
                m@,
            ),
            UiAction::DatasetChange(p, a) => UiActionV::DatasetChange(p@, *a),
            UiAction::ReplayDataset(r, p) => UiActionV::ReplayDataset(r@, p@),
            UiAction::SettingTriggered(a, t, slot, inp) => UiActionV::SettingTriggered(
                a@,
                t@,
                *slot,
                inp@,
            ),
        }
    }
}

/// The mathematical values of an action list.
pub open spec fn acts_view(s: Seq<UiAction>) -> Seq<UiActionV> {
    Seq::new(s.len(), |i: int| s[i]@)
}

/// Move every delta of a drained summary into the binding counts, one path
/// at a time, reporting each path's transition. The summary's paths are
/// unique, so each transition reads the path's original count.
#[verifier::loop_isolation(false)]
pub fn apply_summary_deltas(
    counts: &mut UiDatasetCounts,
    rows: &Vec<(AbsoluteDatasetPath, i64)>,
) -> (acts: Vec<UiAction>)
    requires
        old(counts).wf(),
        forall|x: int, y: int| 0 <= x < y < rows@.len() ==> rows@[x].0@ != rows@[y].0@,
    ensures
        final(counts).wf(),
        acts@.len() == rows@.len(),
        forall|j: int|
            0 <= j < rows@.len() ==> acts_view(acts@)[j] == UiActionV::DatasetChange(
                rows@[j].0@,
                count_transition(count_of(old(counts).rows@, rows@[j].0@), rows@[j].1 as int),
            ),
        forall|j: int|
            0 <= j < rows@.len() ==> count_of(final(counts).rows@, (#[trigger] rows@[j]).0@)
                == count_after(count_of(old(counts).rows@, rows@[j].0@), rows@[j].1 as int),
        forall|q: AbsPathV|
            (forall|j: int| 0 <= j < rows@.len() ==> (#[trigger] rows@[j]).0@ != q) ==> count_of(
                final(counts).rows@,
                q,
            ) == count_of(old(counts).rows@, q),
{
    let mut acts: Vec<UiAction> = Vec::new();
    let mut j: usize = 0;
    while j < rows.len()
        invariant
            counts.wf(),
            j <= rows@.len(),
            acts@.len() == j,
            forall|k: int|
                0 <= k < j ==> acts_view(acts@)[k] == UiActionV::DatasetChange(
                    rows@[k].0@,
                    count_transition(count_of(old(counts).rows@, rows@[k].0@), rows@[k].1 as int),
                ),
            forall|k: int|
                0 <= k < j ==> count_of(counts.rows@, (#[trigger] rows@[k]).0@) == count_after(
                    count_of(old(counts).rows@, rows@[k].0@),
                    rows@[k].1 as int,
                ),
            forall|q: AbsPathV|
                (forall|k: int| 0 <= k < j ==> (#[trigger] rows@[k]).0@ != q) ==> count_of(
                    counts.rows@,
                    q,
                ) == count_of(old(counts).rows@, q),
        decreases rows@.len() - j,
    {
        let path = &rows[j].0;
        let delta = rows[j].1;
        let action = counts.apply_delta(path, delta);
        let ghost pre_acts = acts@;
        acts.push(UiAction::DatasetChange(path.clone(), action));
        proof {
            assert(acts_view(acts@) =~= acts_view(pre_acts).push(
                UiActionV::DatasetChange(rows@[j as int].0@, action),
            ));
            assert forall|k: int| 0 <= k < j + 1 implies acts_view(acts@)[k]
                == UiActionV::DatasetChange(
                rows@[k].0@,
                count_transition(count_of(old(counts).rows@, rows@[k].0@), rows@[k].1 as int),
            ) by {
                if k < j {
                    assert(acts@[k] == pre_acts[k]);
                    assert(acts_view(pre_acts)[k] == pre_acts[k]@);
                }
            }
        }
        j = j + 1;
    }
    acts
}

/// What one net movement does to a path's stored count.
pub open spec fn count_after(oldc: int, delta: int) -> int {
    if oldc == 0 {
        if delta > 0 {
            delta
        } else {
            0
        }
    } else {
        let moved = crate::ui::summary::sat_add(oldc, delta);
        if moved <= 0 {
            0
        } else {
            moved
        }
    }
}

/// Which transition one net movement reports for a path.
pub open spec fn count_transition(oldc: int, delta: int) -> UiSubscriptionAction {
    if oldc == 0 {
        if delta > 0 {
            UiSubscriptionAction::Subscribe
        } else {
            UiSubscriptionAction::Keep
        }
    } else {
        if oldc + delta <= 0 {
            UiSubscriptionAction::Unsubscribe
        } else {
            UiSubscriptionAction::Keep
        }
    }
}

/// The interface engine's state: the held pages, the subscribed interfaces,
/// the dataset binding counts, and the settings registry. The engine's own
/// id marks the settings page.
pub struct UiState {
    /// The base's own id: the settings page's owner.
    pub self_id: crate::id::SpiderId2048,
    /// The held pages, one per owner.
    pub pages: crate::ui::page_list::UiPageList,
    /// The subscribed interface peripherals, each once.
    pub subscribers: Vec<Relation>,
    /// How many elements bind each dataset.
    pub counts: UiDatasetCounts,
    /// The settings rows and their actions.
    pub registry: SettingsRegistry,
}

/// The net movement of dataset bindings when a page replaces another: the
/// new tree's bindings count in; a displaced tree's count out.
pub open spec fn setpage_subs(
    old_pages: Seq<PageV>,
    owner: Seq<u8>,
    new_root: crate::ui::element::ElemV,
) -> Seq<(AbsPathV, int)> {
    let added = walk_subtree(Seq::empty(), new_root, 1);
    if exists|i: int| 0 <= i < old_pages.len() && (#[trigger] old_pages[i]).id == owner {
        let i = choose|i: int| 0 <= i < old_pages.len() && (#[trigger] old_pages[i]).id == owner;
        walk_subtree(added, old_pages[i].root, -1)
    } else {
        added
    }
}

impl UiState {
    /// The engine's structures are each well-formed, and every subscriber is
    /// recorded once.
    pub open spec fn wf(&self) -> bool {
        &&& self.pages.wf()
        &&& self.counts.wf()
        &&& self.registry.wf()
        &&& forall|i: int, j: int|
            0 <= i < j < self.subscribers@.len() ==> rels_view(self.subscribers@)[i] != rels_view(
                self.subscribers@,
            )[j]
    }

    /// A fresh engine for the base with the given id.
    pub fn new(self_id: crate::id::SpiderId2048) -> (r: Self)
        ensures
            r.wf(),
            r.self_id@ == self_id@,
            r.pages.spec_pages().len() == 0,
            r.subscribers@.len() == 0,
    {
        UiState {
            self_id,
            pages: crate::ui::page_list::UiPageList::new(),
            subscribers: Vec::new(),
            counts: UiDatasetCounts::new(),
            registry: SettingsRegistry::new(),
        }
    }

    /// React to one interface message from a member. A peer may not drive
    /// the interface: its messages leave the engine untouched and draw no
    /// action. The returned actions carry every reply, fan-out and dataset
    /// watch the message calls for.
    #[verifier::loop_isolation(false)]
    #[verifier::rlimit(100)]
    pub fn handle_ui_message(&mut self, rel: &Relation, msg: UiMessage) -> (acts: Vec<UiAction>)
        requires
            old(self).wf(),
        ensures
            final(self).wf(),
            rel@.role == Role::Peer ==> *final(self) == *old(self) && acts@.len() == 0,
            rel@.role != Role::Peer ==> (match msg@ {
                UiMsgV::Subscribe => {
                    &&& rels_view(final(self).subscribers@).contains(rel@)
                    &&& final(self).pages == old(self).pages
                    &&& final(self).counts == old(self).counts
                    &&& final(self).registry == old(self).registry
                    &&& acts@.len() == 1 + old(self).counts.rows@.len()
                    &&& acts_view(acts@)[0] matches UiActionV::Send(to, m) && to == rel@ && (
                    m matches UiMsgV::Pages(ps) && ps == old(self).pages.spec_pages())
                    &&& forall|k: int|
                        0 <= k < old(self).counts.rows@.len() ==> acts_view(acts@)[1 + k]
                            == UiActionV::ReplayDataset(rel@, old(self).counts.rows@[k].0@)
                },
                UiMsgV::GetPage(id) => {
                    &&& *final(self) == *old(self)
                    &&& (if exists|i: int|
                        0 <= i < old(self).pages.spec_pages().len() && (
                        #[trigger] old(self).pages.spec_pages()[i]).id == id {
                        acts@.len() == 1 && (acts_view(acts@)[0] matches UiActionV::Send(to, m)
                            && to == rel@ && (m matches UiMsgV::Page(p) && exists|i: int|
                            0 <= i < old(self).pages.spec_pages().len() && (
                            #[trigger] old(self).pages.spec_pages()[i]) == p && p.id == id))
                    } else {
                        acts@.len() == 0
                    })
                },
                UiMsgV::InputFor(owner, element_id, rows, input) => {
                    &&& *final(self) == *old(self)
                    &&& (if owner == old(self).self_id@ {
                        acts@.len() <= 1 && (acts@.len() == 1 ==> (acts_view(acts@)[0] matches
                            UiActionV::SettingTriggered(_a, _t, slot, inp) && inp == input
                            && element_id.len() > 0 && crate::dataset_data::digit_val(
                            element_id.last(),
                        ) == Some(slot as int)))
                    } else {
                        acts@.len() == 1 && acts_view(acts@)[0] == UiActionV::Send(
                            RelV { role: Role::Peripheral, id: owner },
                            UiMsgV::Input(element_id, rows, input),
                        )
                    })
                },
                UiMsgV::SetPage(p) => {
                    let shown = PageV { id: rel@.id, ..p };
                    let rows = setpage_subs(old(self).pages.spec_pages(), rel@.id, shown.root);
                    &&& final(self).subscribers == old(self).subscribers
                    &&& final(self).registry == old(self).registry
                    &&& (if exists|w: int|
                        0 <= w < old(self).pages.spec_pages().len() && (
                        #[trigger] old(self).pages.spec_pages()[w]).id == rel@.id {
                        exists|w: int|
                            {
                                &&& 0 <= w < old(self).pages.spec_pages().len()
                                &&& (#[trigger] old(self).pages.spec_pages()[w]).id == rel@.id
                                &&& final(self).pages.spec_pages() == old(
                                    self,
                                ).pages.spec_pages().update(w, shown)
                            }
                    } else {
                        final(self).pages.spec_pages() == old(self).pages.spec_pages().push(shown)
                    })
                    &&& acts@.len() == 1 + rows.len()
                    &&& (acts_view(acts@)[0] matches UiActionV::Multicast(to, m) && to
                        == rels_view(old(self).subscribers@) && m == UiMsgV::Page(shown))
                    &&& forall|k: int|
                        0 <= k < rows.len() ==> acts_view(acts@)[1 + k]
                            == UiActionV::DatasetChange(
                            rows[k].0,
                            count_transition(
                                count_of(old(self).counts.rows@, rows[k].0),
                                rows[k].1,
                            ),
                        )
                },
                UiMsgV::UpdateElements(us) => {
                    &&& final(self).subscribers == old(self).subscribers
                    &&& final(self).registry == old(self).registry
                    &&& (if exists|i: int|
                        0 <= i < old(self).pages.spec_pages().len() && (
                        #[trigger] old(self).pages.spec_pages()[i]).id == rel@.id {
                        exists|i: int|
                            {
                                let before = old(self).pages.spec_pages()[i];
                                let outcome = apply_changes_spec(
                                    before.root,
                                    us,
                                    Seq::empty(),
                                    false,
                                );
                                &&& 0 <= i < old(self).pages.spec_pages().len()
                                &&& (#[trigger] old(self).pages.spec_pages()[i]).id == rel@.id
                                &&& final(self).pages.spec_pages() == old(
                                    self,
                                ).pages.spec_pages().update(
                                    i,
                                    PageV { root: outcome.0, ..before },
                                )
                                &&& acts@.len() == 1 + outcome.1.len()
                                &&& (forall|k: int|
                                    0 <= k < outcome.1.len() ==> acts_view(acts@)[1 + k]
                                        == UiActionV::DatasetChange(
                                        outcome.1[k].0,
                                        count_transition(
                                            count_of(old(self).counts.rows@, outcome.1[k].0),
                                            outcome.1[k].1,
                                        ),
                                    ))
                            }
                        && (acts_view(acts@)[0] matches UiActionV::Multicast(to, m) && to
                            == rels_view(old(self).subscribers@) && m == UiMsgV::UpdateElementsFor(
                            rel@.id,
                            us,
                        ))
                    } else {
                        *final(self) == *old(self) && acts@.len() == 0
                    })
                },
                _ => *final(self) == *old(self) && acts@.len() == 0,
            }),
    {
        let mut acts: Vec<UiAction> = Vec::new();
        if rel.is_peer() {
            return acts;
        }
        match msg {
            UiMessage::Subscribe => {
                let ghost pre_subs = self.subscribers@;
                let mut present = false;
                let mut i: usize = 0;
                while i < self.subscribers.len()
                    invariant
                        i <= self.subscribers@.len(),
                        self.subscribers@ == pre_subs,
                        *self == *old(self),
                        present ==> rels_view(self.subscribers@).contains(rel@),
                        !present ==> forall|j: int|
                            0 <= j < i ==> rels_view(pre_subs)[j] != rel@,
                    decreases self.subscribers@.len() - i,
                {
                    if self.subscribers[i].eq(rel) {
                        proof {
                            assert(rels_view(self.subscribers@)[i as int] == rel@);
                        }
                        present = true;
                    }
                    i = i + 1;
                }
                if !present {
                    self.subscribers.push(rel.clone());
                    proof {
                        assert(rels_view(self.subscribers@) =~= rels_view(pre_subs).push(rel@));
                        assert(rels_view(self.subscribers@)[pre_subs.len() as int] == rel@);
                        assert forall|x: int, y: int|
                            0 <= x < y < self.subscribers@.len() implies rels_view(
                            self.subscribers@,
                        )[x] != rels_view(self.subscribers@)[y] by {
                            if y < pre_subs.len() {
                                assert(rels_view(pre_subs)[x] == rels_view(self.subscribers@)[x]);
                                assert(rels_view(pre_subs)[y] == rels_view(self.subscribers@)[y]);
                            } else {
                                assert(rels_view(self.subscribers@)[x] == rels_view(pre_subs)[x]);
                            }
                        }
                    }
                }
                let pages = self.pages.clone_page_vec();
                proof {
                    assert(crate::message::ui_pages_view(pages@) =~= self.pages.spec_pages());
                }
                acts.push(UiAction::Send(rel.clone(), UiMessage::Pages(pages)));
                let ghost head = acts@;
                let mut k: usize = 0;
                while k < self.counts.rows.len()
                    invariant
                        k <= self.counts.rows@.len(),
                        acts@.len() == 1 + k,
                        acts@[0] == head[0],
                        head.len() == 1,
                        forall|j: int|
                            0 <= j < k ==> acts_view(acts@)[1 + j] == UiActionV::ReplayDataset(
                                rel@,
                                self.counts.rows@[j].0@,
                            ),
                        *self == *old(self) || self.subscribers@ != old(self).subscribers@,
                        self.counts == old(self).counts,
                        self.pages == old(self).pages,
                        self.registry == old(self).registry,
                    decreases self.counts.rows@.len() - k,
                {
                    let ghost pre_acts = acts@;
                    acts.push(
                        UiAction::ReplayDataset(rel.clone(), self.counts.rows[k].0.clone()),
                    );
                    proof {
                        assert forall|j: int|
                            0 <= j < k + 1 implies acts_view(acts@)[1 + j]
                            == UiActionV::ReplayDataset(rel@, self.counts.rows@[j].0@) by {
                            if j < k {
                                assert(acts@[1 + j] == pre_acts[1 + j]);
                                assert(acts_view(pre_acts)[1 + j] == pre_acts[1 + j]@);
                            }
                        }
                    }
                    k = k + 1;
                }
                acts
            },
            UiMessage::GetPage(id) => {
                match self.pages.find_index(&id) {
                    Some(i) => {
                        let page = self.pages.pages[i].get_page().clone();
                        proof {
                            assert(self.pages.spec_pages()[i as int].id == id@);
                        }
                        acts.push(UiAction::Send(rel.clone(), UiMessage::Page(page)));
                        acts
                    },
                    None => acts,
                }
            },
            UiMessage::InputFor(owner, element_id, rows, input) => {
                if owner.eq(&self.self_id) {
                    match split_setting_id(&element_id) {
                        Some((header, slot)) => {
                            if rows.len() > 0 {
                                let row = rows[rows.len() - 1];
                                match self.registry.lookup(&header, row) {
                                    Some((title, action)) => {
                                        acts.push(
                                            UiAction::SettingTriggered(
                                                action,
                                                title,
                                                slot,
                                                input,
                                            ),
                                        );
                                        acts
                                    },
                                    None => acts,
                                }
                            } else {
                                acts
                            }
                        },
                        None => acts,
                    }
                } else {
                    acts.push(
                        UiAction::Send(
                            Relation { role: Role::Peripheral, id: owner },
                            UiMessage::Input(element_id, rows, input),
                        ),
                    );
                    acts
                }
            },
            UiMessage::SetPage(page) => {
                let ghost pagev = page@;
                let mut page = page;
                page.set_id(rel.id.clone());
                let ghost shownv = page@;
                let ghost rows = setpage_subs(
                    old(self).pages.spec_pages(),
                    rel@.id,
                    shownv.root,
                );
                let mut summary = crate::ui::summary::UpdateSummary::new();
                summary.add(page.root());
                let shown = page.clone();
                match self.pages.upsert_page(page) {
                    Some(old_page) => {
                        summary.remove(old_page.root());
                        proof {
                            let i = choose|i: int|
                                0 <= i < old(self).pages.spec_pages().len() && (
                                #[trigger] old(self).pages.spec_pages()[i]).id == rel@.id;
                            let w = choose|w: int|
                                0 <= w < old(self).pages.spec_pages().len() && (
                                #[trigger] old(self).pages.spec_pages()[w]).id == shownv.id
                                    && old_page@ == old(self).pages.spec_pages()[w]
                                    && self.pages.spec_pages() == old(
                                    self,
                                ).pages.spec_pages().update(w, shownv);
                            assert(shownv.id == rel@.id);
                            if i != w {
                                assert(old(self).pages.spec_pages()[i].id != old(
                                    self,
                                ).pages.spec_pages()[w].id);
                            }
                            assert(summary@.subs == rows);
                        }
                    },
                    None => {
                        proof {
                            if exists|i: int|
                                0 <= i < old(self).pages.spec_pages().len() && (
                                #[trigger] old(self).pages.spec_pages()[i]).id == rel@.id {
                                let i = choose|i: int|
                                    0 <= i < old(self).pages.spec_pages().len() && (
                                    #[trigger] old(self).pages.spec_pages()[i]).id == rel@.id;
                                assert(false);
                            }
                            assert(summary@.subs == rows);
                        }
                    },
                }
                let subs_list = crate::message::rels_clone(&self.subscribers);
                acts.push(UiAction::Multicast(subs_list, UiMessage::Page(shown)));
                let ghost head = acts@;
                let deltas = summary.dataset_subscriptions();
                proof {
                    assert forall|x: int, y: int|
                        0 <= x < y < deltas@.len() implies deltas@[x].0@ != deltas@[y].0@ by {
                        assert(crate::ui::summary::subs_view(deltas@)[x].0 == deltas@[x].0@);
                        assert(crate::ui::summary::subs_view(deltas@)[y].0 == deltas@[y].0@);
                    }
                }
                let ghost pre_counts = self.counts.rows@;
                proof {
                    assert(self.counts == old(self).counts);
                }
                let count_acts = apply_summary_deltas(&mut self.counts, deltas);
                let ghost cav = acts_view(count_acts@);
                let mut count_acts = count_acts;
                let mut m: usize = 0;
                let n = count_acts.len();
                proof {
                    assert(crate::ui::summary::subs_view(deltas@) =~= rows);
                    assert(n == rows.len());
                    assert forall|k: int| 0 <= k < rows.len() implies cav[k]
                        == UiActionV::DatasetChange(
                        rows[k].0,
                        count_transition(count_of(pre_counts, rows[k].0), rows[k].1),
                    ) by {
                        assert(crate::ui::summary::subs_view(deltas@)[k] == (
                            deltas@[k].0@,
                            deltas@[k].1 as int,
                        ));
                    }
                }
                while m < n
                    invariant
                        m <= n,
                        n == cav.len(),
                        count_acts@.len() == n - m,
                        forall|j: int| 0 <= j < n - m ==> count_acts@[j]@ == cav[j + m],
                        acts@.len() == head.len() + m,
                        acts@[0] == head[0],
                        head.len() == 1,
                        forall|j: int| 0 <= j < m ==> acts_view(acts@)[1 + j] == cav[j],
                        self.subscribers == old(self).subscribers,
                        self.registry == old(self).registry,
                        self.wf(),
                    decreases n - m,
                {
                    let ghost prev = count_acts@;
                    let ghost pre_acts = acts@;
                    let a = count_acts.remove(0);
                    acts.push(a);
                    proof {
                        assert forall|j: int| 0 <= j < n - (m + 1) implies count_acts@[j]@ == cav[
                            j + m + 1
                        ] by {
                            assert(count_acts@[j] == prev[j + 1]);
                        }
                        assert forall|j: int| 0 <= j < m + 1 implies acts_view(acts@)[1 + j]
                            == cav[j] by {
                            if j < m {
                                assert(acts@[1 + j] == pre_acts[1 + j]);
                                assert(acts_view(pre_acts)[1 + j] == pre_acts[1 + j]@);
                            } else {
                                assert(acts@[1 + j]@ == prev[0]@);
                            }
                        }
                    }
                    m = m + 1;
                }
                proof {
                    assert forall|k: int| 0 <= k < rows.len() implies acts_view(acts@)[1 + k]
                        == UiActionV::DatasetChange(
                        rows[k].0,
                        count_transition(count_of(old(self).counts.rows@, rows[k].0), rows[k].1),
                    ) by {
                        assert(acts_view(acts@)[1 + k] == cav[k]);
                    }
                }
                acts
            },
            UiMessage::UpdateElements(updates) => {
                match self.pages.find_index(&rel.id) {
                    Some(i) => {
                        let ghost usv = crate::message::upds_view(updates@);
                        let ghost before = old(self).pages.spec_pages()[i as int];
                        let ghost outcome = apply_changes_spec(
                            before.root,
                            usv,
                            Seq::empty(),
                            false,
                        );
                        let copy = upds_clone(&updates);
                        proof {
                            assert(updates_view(copy@) =~= crate::message::upds_view(copy@));
                            assert(updates_view(copy@) =~= usv);
                        }
                        let mgr = self.pages.mgr_at_mut(i);
                        let summary = mgr.apply_changes(copy);
                        proof {
                            assert(crate::ui::page_list::pages_view(self.pages.pages@)
                                =~= crate::ui::page_list::pages_view(
                                old(self).pages.pages@,
                            ).update(i as int, self.pages.pages@[i as int].spec_page()));
                            assert(self.pages.spec_pages() =~= old(
                                self,
                            ).pages.spec_pages().update(
                                i as int,
                                PageV { root: outcome.0, ..before },
                            ));
                            assert(summary@.subs == outcome.1);
                            assert forall|x: int, y: int|
                                0 <= x < y < self.pages.pages@.len() implies
                                crate::ui::page_list::pages_view(self.pages.pages@)[x].id
                                != crate::ui::page_list::pages_view(
                                self.pages.pages@,
                            )[y].id by {
                                assert(crate::ui::page_list::pages_view(self.pages.pages@)[x].id
                                    == crate::ui::page_list::pages_view(
                                    old(self).pages.pages@,
                                )[x].id);
                                assert(crate::ui::page_list::pages_view(self.pages.pages@)[y].id
                                    == crate::ui::page_list::pages_view(
                                    old(self).pages.pages@,
                                )[y].id);
                            }
                            assert forall|j: int|
                                0 <= j < self.pages.pages@.len() implies (
                            #[trigger] self.pages.pages@[j]).wf() by {
                                if j != i {
                                    assert(self.pages.pages@[j] == old(self).pages.pages@[j]);
                                }
                            }
                        }
                        let subs_list = crate::message::rels_clone(&self.subscribers);
                        acts.push(
                            UiAction::Multicast(
                                subs_list,
                                UiMessage::UpdateElementsFor(rel.id.clone(), updates),
                            ),
                        );
                        let ghost head = acts@;
                        let deltas = summary.dataset_subscriptions();
                        proof {
                            assert forall|x: int, y: int|
                                0 <= x < y < deltas@.len() implies deltas@[x].0@
                                != deltas@[y].0@ by {
                                assert(crate::ui::summary::subs_view(deltas@)[x].0
                                    == deltas@[x].0@);
                                assert(crate::ui::summary::subs_view(deltas@)[y].0
                                    == deltas@[y].0@);
                            }
                            assert(self.counts == old(self).counts);
                        }
                        let ghost pre_counts = self.counts.rows@;
                        let count_acts = apply_summary_deltas(&mut self.counts, deltas);
                        let ghost cav = acts_view(count_acts@);
                        let mut count_acts = count_acts;
                        let mut m: usize = 0;
                        let n = count_acts.len();
                        proof {
                            assert(crate::ui::summary::subs_view(deltas@) =~= outcome.1);
                            assert(n == outcome.1.len());
                            assert forall|k: int| 0 <= k < outcome.1.len() implies cav[k]
                                == UiActionV::DatasetChange(
                                outcome.1[k].0,
                                count_transition(
                                    count_of(pre_counts, outcome.1[k].0),
                                    outcome.1[k].1,
                                ),
                            ) by {
                                assert(crate::ui::summary::subs_view(deltas@)[k] == (
                                    deltas@[k].0@,
                                    deltas@[k].1 as int,
                                ));
                            }
                        }
                        while m < n
                            invariant
                                m <= n,
                                n == cav.len(),
                                count_acts@.len() == n - m,
                                forall|j: int| 0 <= j < n - m ==> count_acts@[j]@ == cav[j + m],
                                acts@.len() == head.len() + m,
                                acts@[0] == head[0],
                                head.len() == 1,
                                forall|j: int| 0 <= j < m ==> acts_view(acts@)[1 + j] == cav[j],
                                self.subscribers == old(self).subscribers,
                                self.registry == old(self).registry,
                                self.wf(),
                            decreases n - m,
                        {
                            let ghost prev = count_acts@;
                            let ghost pre_acts = acts@;
                            let a = count_acts.remove(0);
                            acts.push(a);
                            proof {
                                assert forall|j: int|
                                    0 <= j < n - (m + 1) implies count_acts@[j]@ == cav[j + m
                                    + 1] by {
                                    assert(count_acts@[j] == prev[j + 1]);
                                }
                                assert forall|j: int|
                                    0 <= j < m + 1 implies acts_view(acts@)[1 + j] == cav[j] by {
                                    if j < m {
                                        assert(acts@[1 + j] == pre_acts[1 + j]);
                                        assert(acts_view(pre_acts)[1 + j] == pre_acts[1 + j]@);
                                    } else {
                                        assert(acts@[1 + j]@ == prev[0]@);
                                    }
                                }
                            }
                            m = m + 1;
                        }
                        proof {
                            assert forall|k: int|
                                0 <= k < outcome.1.len() implies acts_view(acts@)[1 + k]
                                == UiActionV::DatasetChange(
                                outcome.1[k].0,
                                count_transition(
                                    count_of(old(self).counts.rows@, outcome.1[k].0),
                                    outcome.1[k].1,
                                ),
                            ) by {
                                assert(acts_view(acts@)[1 + k] == cav[k]);
                            }
                        }
                        acts
                    },
                    None => acts,
                }
            },
            _ => acts,
        }
    }
}

} // verus!
