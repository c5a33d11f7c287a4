//! Change tracking for page trees: per-element change records, operations on
//! child lists, and a set of changes keyed by path, kept in drain order
//! (parents before children).

use vstd::prelude::*;

use crate::ui::element::{clone_op_vec, elem_view, ElemV, UiChildOperations, OpV, ops_view};
use crate::ui::path::{spec_drain_le, UiPath};

verus! {

/// What changed at one element: whether the element itself changed, whether
/// its children were reached, and the operations performed on its child
/// list, in order.
pub struct UiElementChange {
    pub this_changed: bool,
    pub children_accessed: bool,
    pub child_operations: Vec<UiChildOperations>,
}

/// The mathematical value of a [`UiElementChange`].
pub struct ChangeV {
    pub this_changed: bool,
    pub children_accessed: bool,
    pub child_operations: Seq<OpV>,
}

impl View for UiElementChange {
    type V = ChangeV;

    open spec fn view(&self) -> ChangeV {
        ChangeV {
            this_changed: self.this_changed,
            children_accessed: self.children_accessed,
            child_operations: ops_view(self.child_operations@),
        }
    }
}

impl Clone for UiElementChange {
    fn clone(&self) -> (r: Self)
        ensures
            r@ == self@,
    {
        UiElementChange {
            this_changed: self.this_changed,
            children_accessed: self.children_accessed,
            child_operations: clone_op_vec(&self.child_operations),
        }
    }
}

impl Default for UiElementChange {
    /// A fresh record: nothing changed, children untouched, no operations.
    fn default() -> (r: Self)
        ensures
            r@ == (ChangeV {
                this_changed: false,
                children_accessed: false,
                child_operations: Seq::<OpV>::empty(),
            }),
    {
        let r = UiElementChange {
            this_changed: false,
            children_accessed: false,
            child_operations: Vec::new(),
        };
        proof {
            assert(r@.child_operations =~= Seq::<OpV>::empty());
        }
        r
    }
}

impl UiElementChange {
    /// A fresh record: nothing changed, children untouched, no operations.
    pub fn new() -> (r: Self)
        ensures
            r@ == (ChangeV {
                this_changed: false,
                children_accessed: false,
                child_operations: Seq::<OpV>::empty(),
            }),
    {
        Self::default()
    }

    /// Take this record, leaving a fresh one in its place.
    pub fn take(&mut self) -> (r: Self)
        ensures
            r@ == old(self)@,
            final(self)@ == (ChangeV {
                this_changed: false,
                children_accessed: false,
                child_operations: Seq::<OpV>::empty(),
            }),
    {
        let mut new = Self::new();
        core::mem::swap(self, &mut new);
        new
    }

    /// Merge another record into this one, copying its operations: flags are
    /// or-ed, the other's operations follow this one's.
    pub fn update(&mut self, other: &UiElementChange)
        ensures
            final(self)@ == (ChangeV {
                this_changed: old(self)@.this_changed || other@.this_changed,
                children_accessed: old(self)@.children_accessed || other@.children_accessed,
                child_operations: old(self)@.child_operations + other@.child_operations,
            }),
    {
        self.this_changed = self.this_changed || other.this_changed;
        self.children_accessed = self.children_accessed || other.children_accessed;
        let mut i: usize = 0;
        proof {
            assert(ops_view(self.child_operations@) =~= old(self)@.child_operations
                + ops_view(other.child_operations@).subrange(0, 0));
        }
        while i < other.child_operations.len()
            invariant
                i <= other.child_operations.len(),
                self.this_changed == (old(self)@.this_changed || other@.this_changed),
                self.children_accessed == (old(self)@.children_accessed
                    || other@.children_accessed),
                ops_view(self.child_operations@) == old(self)@.child_operations + ops_view(
                    other.child_operations@,
                ).subrange(0, i as int),
            decreases other.child_operations.len() - i,
        {
            let op = other.child_operations[i].clone();
            let ghost opv = op@;
            let ghost pre = self.child_operations@;
            self.child_operations.push(op);
            proof {
                assert(ops_view(pre).len() == pre.len());
                assert(ops_view(pre) == old(self)@.child_operations + ops_view(
                    other.child_operations@,
                ).subrange(0, i as int));
                assert(pre.len() == old(self)@.child_operations.len() + i);
                let target = old(self)@.child_operations + ops_view(
                    other.child_operations@,
                ).subrange(0, (i + 1) as int);
                assert(target.len() == pre.len() + 1);
                assert forall|j: int|
                    0 <= j < self.child_operations@.len() implies ops_view(
                    self.child_operations@,
                )[j] == target[j] by {
                    if j < pre.len() {
                        assert(self.child_operations@[j] == pre[j]);
                        assert(ops_view(pre)[j] == pre[j]@);
                    } else {
                        assert(self.child_operations@[j]@ == opv);
                        assert(target[j] == ops_view(other.child_operations@)[i as int]);
                    }
                }
                assert(ops_view(self.child_operations@) =~= target);
            }
            i = i + 1;
        }
        proof {
            assert(ops_view(other.child_operations@).subrange(
                0,
                other.child_operations@.len() as int,
            ) =~= other@.child_operations);
        }
    }

    /// Merge another record into this one, taking its operations: flags are
    /// or-ed, the other's operations follow this one's.
    pub fn absorb(&mut self, other: UiElementChange)
        ensures
            final(self)@ == (ChangeV {
                this_changed: old(self)@.this_changed || other@.this_changed,
                children_accessed: old(self)@.children_accessed || other@.children_accessed,
                child_operations: old(self)@.child_operations + other@.child_operations,
            }),
    {
        self.update(&other);
    }

    /// Has the element itself changed?
    pub fn changed(&self) -> (r: bool)
        ensures
            r == self@.this_changed,
    {
        self.this_changed
    }

    /// Record that the element changed.
    pub fn set_changed(&mut self)
        ensures
            final(self)@ == (ChangeV { this_changed: true, ..old(self)@ }),
    {
        self.this_changed = true;
    }

    /// Record that the element has not changed.
    pub fn clear_changed(&mut self)
        ensures
            final(self)@ == (ChangeV { this_changed: false, ..old(self)@ }),
    {
        self.this_changed = false;
    }

    /// Were the element's children reached?
    pub fn children_accessed(&self) -> (r: bool)
        ensures
            r == self@.children_accessed,
    {
        self.children_accessed
    }

    /// Record that the element's children were reached.
    pub fn set_children_accessed(&mut self)
        ensures
            final(self)@ == (ChangeV { children_accessed: true, ..old(self)@ }),
    {
        self.children_accessed = true;
    }

    /// Record that the element's children were not reached.
    pub fn clear_children_accessed(&mut self)
        ensures
            final(self)@ == (ChangeV { children_accessed: false, ..old(self)@ }),
    {
        self.children_accessed = false;
    }

    /// Record one more operation on the element's child list.
    pub fn add_operation(&mut self, op: UiChildOperations)
        ensures
            final(self)@ == (ChangeV {
                child_operations: old(self)@.child_operations.push(op@),
                ..old(self)@
            }),
    {
        let ghost ov = op@;
        self.child_operations.push(op);
        proof {
            assert(ops_view(self.child_operations@) =~= old(self)@.child_operations.push(ov));
        }
    }

    /// Take the recorded operations, leaving none.
    pub fn take_operations(&mut self) -> (r: Vec<UiChildOperations>)
        ensures
            ops_view(r@) == old(self)@.child_operations,
            final(self)@ == (ChangeV { child_operations: Seq::<OpV>::empty(), ..old(self)@ }),
    {
        let mut taken: Vec<UiChildOperations> = Vec::new();
        core::mem::swap(&mut self.child_operations, &mut taken);
        proof {
            assert(ops_view(self.child_operations@) =~= Seq::<OpV>::empty());
        }
        taken
    }
}

/// The changes of a whole page, one record per touched element, keyed by the
/// element's path and kept sorted in drain order: shallow paths first, then
/// by final child index, ties in insertion order.
pub struct UiElementChangeSet {
    pub changes: Vec<(UiPath, UiElementChange)>,
}

/// The mathematical value of a change set.
pub open spec fn changes_view(s: Seq<(UiPath, UiElementChange)>) -> Seq<(Seq<usize>, ChangeV)> {
    Seq::new(s.len(), |i: int| (s[i].0@, s[i].1@))
}

/// Drain order holds and no path occurs twice.
pub open spec fn changes_wf(s: Seq<(Seq<usize>, ChangeV)>) -> bool {
    &&& forall|i: int, j: int| 0 <= i < j < s.len() ==> spec_drain_le(s[i].0, s[j].0)
    &&& forall|i: int, j: int| 0 <= i < j < s.len() ==> s[i].0 != s[j].0
}

impl View for UiElementChangeSet {
    type V = Seq<(Seq<usize>, ChangeV)>;

    open spec fn view(&self) -> Seq<(Seq<usize>, ChangeV)> {
        changes_view(self.changes@)
    }
}

/// The change recorded for a path, if one is there.
pub open spec fn change_at(s: Seq<(Seq<usize>, ChangeV)>, path: Seq<usize>) -> Option<ChangeV>
    decreases s.len(),
{
    if s.len() == 0 {
        None
    } else if s[0].0 == path {
        Some(s[0].1)
    } else {
        change_at(s.skip(1), path)
    }
}

impl UiElementChangeSet {
    /// Whether this set's entries are in drain order with unique paths.
    pub open spec fn wf(&self) -> bool {
        changes_wf(self@)
    }

    /// A fresh change set holding one empty record for the root.
    pub fn new() -> (r: Self)
        ensures
            r@ == seq![
                (
                    Seq::<usize>::empty(),
                    ChangeV {
                        this_changed: false,
                        children_accessed: false,
                        child_operations: Seq::<OpV>::empty(),
                    },
                ),
            ],
            r.wf(),
    {
        let mut changes: Vec<(UiPath, UiElementChange)> = Vec::new();
        changes.push((UiPath::root(), UiElementChange::new()));
        let r = UiElementChangeSet { changes };
        proof {
            assert(r@ =~= seq![
                (
                    Seq::<usize>::empty(),
                    ChangeV {
                        this_changed: false,
                        children_accessed: false,
                        child_operations: Seq::<OpV>::empty(),
                    },
                ),
            ]);
        }
        r
    }

    /// Drop every recorded change.
    pub fn clear(&mut self)
        ensures
            final(self)@ == Seq::<(Seq<usize>, ChangeV)>::empty(),
            final(self).wf(),
    {
        self.changes.clear();
        proof {
            assert(self@ =~= Seq::<(Seq<usize>, ChangeV)>::empty());
        }
    }

    /// Take all recorded changes in drain order, leaving the set empty.
    pub fn take_changes_iter(&mut self) -> (r: Vec<(UiPath, UiElementChange)>)
        ensures
            changes_view(r@) == old(self)@,
            final(self)@ == Seq::<(Seq<usize>, ChangeV)>::empty(),
            final(self).wf(),
    {
        let mut taken: Vec<(UiPath, UiElementChange)> = Vec::new();
        core::mem::swap(&mut self.changes, &mut taken);
        proof {
            assert(self@ =~= Seq::<(Seq<usize>, ChangeV)>::empty());
        }
        taken
    }

    /// The position of the record for a path, if one is there.
    #[verifier::loop_isolation(false)]
    fn find(&self, path: &UiPath) -> (r: Option<usize>)
        ensures
            match r {
                Some(i) => i < self@.len() && self@[i as int].0 == path@,
                None => forall|j: int| 0 <= j < self@.len() ==> self@[j].0 != path@,
            },
    {
        let mut i: usize = 0;
        while i < self.changes.len()
            invariant
                i <= self.changes.len(),
                forall|j: int| 0 <= j < i ==> self@[j].0 != path@,
            decreases self.changes.len() - i,
        {
            if self.changes[i].0.eq(path) {
                return Some(i);
            }
            i = i + 1;
        }
        None
    }

    /// The position where a record for a new path belongs: after every
    /// record that drains no later than it.
    #[verifier::loop_isolation(false)]
    fn insert_pos(&self, path: &UiPath) -> (r: usize)
        requires
            self.wf(),
        ensures
            r <= self@.len(),
            forall|j: int| 0 <= j < r ==> spec_drain_le(self@[j].0, path@),
            forall|j: int| r <= j < self@.len() ==> spec_drain_le(path@, self@[j].0),
    {
        let mut i: usize = 0;
        while i < self.changes.len()
            invariant
                i <= self.changes.len(),
                forall|j: int| 0 <= j < i ==> spec_drain_le(self@[j].0, path@),
            decreases self.changes.len() - i,
        {
            if !self.changes[i].0.drain_le(path) {
                proof {
                    assert forall|j: int| i <= j < self@.len() implies spec_drain_le(
                        path@,
                        self@[j].0,
                    ) by {
                        lemma_drain_total(self@[i as int].0, path@);
                        if j > i {
                            lemma_drain_trans(path@, self@[i as int].0, self@[j].0);
                        }
                    }
                }
                return i;
            }
            i = i + 1;
        }
        self.changes.len()
    }

    /// Record that the element at the given path changed.
    #[verifier::loop_isolation(false)]
    pub fn mark_changed(&mut self, path: &UiPath)
        requires
            old(self).wf(),
        ensures
            final(self).wf(),
            change_at(final(self)@, path@) == Some(
                match change_at(old(self)@, path@) {
                    Some(o) => ChangeV { this_changed: true, ..o },
                    None => ChangeV {
                        this_changed: true,
                        children_accessed: false,
                        child_operations: Seq::<OpV>::empty(),
                    },
                },
            ),
            forall|q: Seq<usize>|
                q != path@ ==> change_at(final(self)@, q) == change_at(old(self)@, q),
    {
        match self.find(path) {
            Some(i) => {
                proof {
                    lemma_change_at_found(old(self)@, i as int, path@);
                }
                let entry = &mut self.changes[i];
                entry.1.set_changed();
                proof {
                    assert(self@ =~= old(self)@.update(
                        i as int,
                        (old(self)@[i as int].0, self@[i as int].1),
                    ));
                    lemma_change_at_update(old(self)@, i as int, self@[i as int].1, path@);
                }
            },
            None => {
                proof {
                    lemma_change_at_absent(old(self)@, path@);
                }
                let pos = self.insert_pos(path);
                let mut change = UiElementChange::new();
                change.set_changed();
                self.changes.insert(pos, (path.clone(), change));
                proof {
                    assert(self@ =~= old(self)@.insert(
                        pos as int,
                        (path@, self@[pos as int].1),
                    ));
                    lemma_change_at_insert(old(self)@, pos as int, path@, self@[pos as int].1);
                }
            },
        }
    }

    /// Record one more operation on the child list of the element at the
    /// given path.
    #[verifier::loop_isolation(false)]
    pub fn add_operation_at(&mut self, path: &UiPath, op: UiChildOperations)
        requires
            old(self).wf(),
        ensures
            final(self).wf(),
            change_at(final(self)@, path@) == Some(
                match change_at(old(self)@, path@) {
                    Some(o) => ChangeV {
                        child_operations: o.child_operations.push(op@),
                        ..o
                    },
                    None => ChangeV {
                        this_changed: false,
                        children_accessed: false,
                        child_operations: seq![op@],
                    },
                },
            ),
            forall|q: Seq<usize>|
                q != path@ ==> change_at(final(self)@, q) == change_at(old(self)@, q),
    {
        match self.find(path) {
            Some(i) => {
                proof {
                    lemma_change_at_found(old(self)@, i as int, path@);
                }
                let entry = &mut self.changes[i];
                entry.1.add_operation(op);
                proof {
                    assert(self@ =~= old(self)@.update(
                        i as int,
                        (old(self)@[i as int].0, self@[i as int].1),
                    ));
                    lemma_change_at_update(old(self)@, i as int, self@[i as int].1, path@);
                }
            },
            None => {
                proof {
                    lemma_change_at_absent(old(self)@, path@);
                }
                let pos = self.insert_pos(path);
                let mut change = UiElementChange::new();
                change.add_operation(op);
                self.changes.insert(pos, (path.clone(), change));
                proof {
                    assert(self@ =~= old(self)@.insert(
                        pos as int,
                        (path@, self@[pos as int].1),
                    ));
                    lemma_change_at_insert(old(self)@, pos as int, path@, self@[pos as int].1);
                }
            },
        }
    }
}

/// Drain order is total.
pub proof fn lemma_drain_total(a: Seq<usize>, b: Seq<usize>)
    ensures
        spec_drain_le(a, b) || spec_drain_le(b, a),
{
}

/// Drain order is transitive.
pub proof fn lemma_drain_trans(a: Seq<usize>, b: Seq<usize>, c: Seq<usize>)
    requires
        spec_drain_le(a, b),
        spec_drain_le(b, c),
    ensures
        spec_drain_le(a, c),
{
}

/// A found entry in a well-formed set is the one `change_at` reads.
proof fn lemma_change_at_found(s: Seq<(Seq<usize>, ChangeV)>, i: int, path: Seq<usize>)
    requires
        changes_wf(s),
        0 <= i < s.len(),
        s[i].0 == path,
    ensures
        change_at(s, path) == Some(s[i].1),
    decreases i,
{
    if i > 0 {
        assert(s[0].0 != path);
        lemma_change_at_found(s.skip(1), i - 1, path);
        assert forall|x: int, y: int| 0 <= x < y < s.skip(1).len() implies spec_drain_le(
            s.skip(1)[x].0,
            s.skip(1)[y].0,
        ) && s.skip(1)[x].0 != s.skip(1)[y].0 by {
            assert(s.skip(1)[x] == s[x + 1]);
            assert(s.skip(1)[y] == s[y + 1]);
        }
        assert(s.skip(1)[i - 1] == s[i]);
    }
}

/// When no entry has the path, `change_at` reads nothing.
proof fn lemma_change_at_absent(s: Seq<(Seq<usize>, ChangeV)>, path: Seq<usize>)
    requires
        forall|j: int| 0 <= j < s.len() ==> s[j].0 != path,
    ensures
        change_at(s, path) is None,
    decreases s.len(),
{
    if s.len() > 0 {
        assert forall|j: int| 0 <= j < s.skip(1).len() implies s.skip(1)[j].0 != path by {
            assert(s.skip(1)[j] == s[j + 1]);
        }
        lemma_change_at_absent(s.skip(1), path);
    }
}

/// Updating one entry changes `change_at` for its path alone.
proof fn lemma_change_at_update(s: Seq<(Seq<usize>, ChangeV)>, i: int, c: ChangeV, path: Seq<usize>)
    requires
        changes_wf(s),
        0 <= i < s.len(),
        s[i].0 == path,
    ensures
        changes_wf(s.update(i, (path, c))),
        change_at(s.update(i, (path, c)), path) == Some(c),
        forall|q: Seq<usize>| q != path ==> change_at(s.update(i, (path, c)), q) == change_at(s, q),
    decreases s.len(),
{
    let t = s.update(i, (path, c));
    assert forall|x: int, y: int| 0 <= x < y < t.len() implies spec_drain_le(t[x].0, t[y].0)
        && t[x].0 != t[y].0 by {
        assert(t[x].0 == s[x].0);
        assert(t[y].0 == s[y].0);
    }
    if i == 0 {
        assert(t[0] == (path, c));
        assert(t.skip(1) =~= s.skip(1));
        assert forall|q: Seq<usize>| q != path implies change_at(t, q) == change_at(s, q) by {
            assert(change_at(t, q) == change_at(t.skip(1), q));
            assert(change_at(s, q) == change_at(s.skip(1), q));
        }
    } else {
        assert(t[0] == s[0]);
        assert(t.skip(1) =~= s.skip(1).update(i - 1, (path, c)));
        assert forall|x: int, y: int| 0 <= x < y < s.skip(1).len() implies spec_drain_le(
            s.skip(1)[x].0,
            s.skip(1)[y].0,
        ) && s.skip(1)[x].0 != s.skip(1)[y].0 by {
            assert(s.skip(1)[x] == s[x + 1]);
            assert(s.skip(1)[y] == s[y + 1]);
        }
        assert(s.skip(1)[i - 1] == s[i]);
        lemma_change_at_update(s.skip(1), i - 1, c, path);
        assert(s[0].0 != path);
        assert forall|q: Seq<usize>| q != path implies change_at(t, q) == change_at(s, q) by {
            if t[0].0 != q {
                assert(change_at(t, q) == change_at(t.skip(1), q));
                assert(change_at(s, q) == change_at(s.skip(1), q));
            }
        }
        assert(change_at(t, path) == change_at(t.skip(1), path));
    }
}

/// Inserting a fresh entry changes `change_at` for its path alone; order is
/// kept when the position respects it.
proof fn lemma_change_at_insert(s: Seq<(Seq<usize>, ChangeV)>, i: int, path: Seq<usize>, c: ChangeV)
    requires
        changes_wf(s),
        0 <= i <= s.len(),
        forall|j: int| 0 <= j < s.len() ==> s[j].0 != path,
        forall|j: int| 0 <= j < i ==> spec_drain_le(s[j].0, path),
        forall|j: int| i <= j < s.len() ==> spec_drain_le(path, s[j].0),
    ensures
        changes_wf(s.insert(i, (path, c))),
        change_at(s.insert(i, (path, c)), path) == Some(c),
        forall|q: Seq<usize>| q != path ==> change_at(s.insert(i, (path, c)), q) == change_at(s, q),
    decreases s.len(),
{
    let t = s.insert(i, (path, c));
    assert forall|x: int, y: int| 0 <= x < y < t.len() implies spec_drain_le(t[x].0, t[y].0)
        && t[x].0 != t[y].0 by {
        if x < i && y < i {
            assert(t[x] == s[x]);
            assert(t[y] == s[y]);
        } else if x < i && y == i {
            assert(t[x] == s[x]);
        } else if x < i && y > i {
            assert(t[x] == s[x]);
            assert(t[y] == s[y - 1]);
        } else if x == i && y > i {
            assert(t[y] == s[y - 1]);
        } else if x > i && y > i {
            assert(t[x] == s[x - 1]);
            assert(t[y] == s[y - 1]);
        }
    }
    if i == 0 {
        assert(t[0] == (path, c));
        assert(t.skip(1) =~= s);
        assert forall|q: Seq<usize>| q != path implies change_at(t, q) == change_at(s, q) by {
            assert(change_at(t, q) == change_at(t.skip(1), q));
        }
    } else {
        assert(t[0] == s[0]);
        assert(t.skip(1) =~= s.skip(1).insert(i - 1, (path, c)));
        assert forall|x: int, y: int| 0 <= x < y < s.skip(1).len() implies spec_drain_le(
            s.skip(1)[x].0,
            s.skip(1)[y].0,
        ) && s.skip(1)[x].0 != s.skip(1)[y].0 by {
            assert(s.skip(1)[x] == s[x + 1]);
            assert(s.skip(1)[y] == s[y + 1]);
        }
        assert forall|j: int| 0 <= j < s.skip(1).len() implies s.skip(1)[j].0 != path by {
            assert(s.skip(1)[j] == s[j + 1]);
        }
        assert forall|j: int| 0 <= j < i - 1 implies spec_drain_le(s.skip(1)[j].0, path) by {
            assert(s.skip(1)[j] == s[j + 1]);
        }
        assert forall|j: int| i - 1 <= j < s.skip(1).len() implies spec_drain_le(
            path,
            s.skip(1)[j].0,
        ) by {
            assert(s.skip(1)[j] == s[j + 1]);
        }
        lemma_change_at_insert(s.skip(1), i - 1, path, c);
        assert(s[0].0 != path);
        assert forall|q: Seq<usize>| q != path implies change_at(t, q) == change_at(s, q) by {
            if t[0].0 != q {
                assert(change_at(t, q) == change_at(t.skip(1), q));
                assert(change_at(s, q) == change_at(s.skip(1), q));
            }
        }
        assert(change_at(t, path) == change_at(t.skip(1), path));
    }
}

} // verus!
