//! The net effect of applying updates to a page: whether anything observable
//! changed, and how the number of elements bound to each dataset moved.

use vstd::prelude::*;

use crate::dataset::{AbsoluteDatasetPath, AbsPathV};
use crate::ui::element::{elem_view, ElemV, UiElement};

verus! {

broadcast use vstd::std_specs::vec::group_vec_axioms;

/// Addition clamped to the 64-bit signed range.
pub open spec fn sat_add(a: int, b: int) -> int {
    if a + b > i64::MAX {
        i64::MAX as int
    } else if a + b < i64::MIN {
        i64::MIN as int
    } else {
        a + b
    }
}

/// The recorded delta for a path; zero when the path has no entry.
pub open spec fn delta_of(s: Seq<(AbsPathV, int)>, p: AbsPathV) -> int
    decreases s.len(),
{
    if s.len() == 0 {
        0
    } else if s[0].0 == p {
        s[0].1
    } else {
        delta_of(s.skip(1), p)
    }
}

/// No path occurs twice.
pub open spec fn subs_wf(s: Seq<(AbsPathV, int)>) -> bool {
    forall|i: int, j: int| 0 <= i < j < s.len() ==> s[i].0 != s[j].0
}

/// The delta list with `d` added (saturating) to the entry for `p`; a fresh
/// entry is appended when the path has none.
pub open spec fn bump(s: Seq<(AbsPathV, int)>, p: AbsPathV, d: int) -> Seq<(AbsPathV, int)>
    decreases s.len(),
{
    if s.len() == 0 {
        seq![(p, sat_add(0, d))]
    } else if s[0].0 == p {
        seq![(p, sat_add(s[0].1, d))] + s.skip(1)
    } else {
        seq![s[0]] + bump(s.skip(1), p, d)
    }
}

/// What `bump` does, read through `delta_of`.
pub proof fn lemma_bump(s: Seq<(AbsPathV, int)>, p: AbsPathV, d: int)
    requires
        subs_wf(s),
    ensures
        subs_wf(bump(s, p, d)),
        delta_of(bump(s, p, d), p) == sat_add(delta_of(s, p), d),
        forall|q: AbsPathV| q != p ==> delta_of(bump(s, p, d), q) == delta_of(s, q),
        bump(s, p, d).len() == (if exists|i: int| 0 <= i < s.len() && s[i].0 == p {
            s.len()
        } else {
            s.len() + 1
        }),
    decreases s.len(),
{
    let t = bump(s, p, d);
    if s.len() == 0 {
        assert(t == seq![(p, sat_add(0, d))]);
        assert forall|q: AbsPathV| q != p implies delta_of(t, q) == delta_of(s, q) by {
            assert(delta_of(t.skip(1), q) == 0) by {
                assert(t.skip(1).len() == 0);
            }
        }
    } else if s[0].0 == p {
        assert(t == seq![(p, sat_add(s[0].1, d))] + s.skip(1));
        assert(t[0] == (p, sat_add(s[0].1, d)));
        assert(t.skip(1) =~= s.skip(1));
        assert forall|i: int, j: int| 0 <= i < j < t.len() implies t[i].0 != t[j].0 by {
            if i > 0 {
                assert(t[i] == s[i]);
                assert(t[j] == s[j]);
            } else {
                assert(t[j] == s[j]);
            }
        }
        assert forall|q: AbsPathV| q != p implies delta_of(t, q) == delta_of(s, q) by {
            assert(delta_of(t, q) == delta_of(t.skip(1), q));
            assert(delta_of(s, q) == delta_of(s.skip(1), q));
        }
        assert(exists|i: int| 0 <= i < s.len() && s[i].0 == p) by {
            assert(s[0].0 == p);
        }
    } else {
        assert forall|i: int, j: int| 0 <= i < j < s.skip(1).len() implies s.skip(1)[i].0 != s.skip(
            1,
        )[j].0 by {
            assert(s.skip(1)[i] == s[i + 1]);
            assert(s.skip(1)[j] == s[j + 1]);
        }
        lemma_bump(s.skip(1), p, d);
        assert(t == seq![s[0]] + bump(s.skip(1), p, d));
        assert(t[0] == s[0]);
        assert(t.skip(1) =~= bump(s.skip(1), p, d));
        assert(delta_of(t, p) == delta_of(t.skip(1), p));
        assert(delta_of(s, p) == delta_of(s.skip(1), p));
        assert forall|q: AbsPathV| q != p implies delta_of(t, q) == delta_of(s, q) by {
            if t[0].0 != q {
                assert(delta_of(t, q) == delta_of(t.skip(1), q));
                assert(delta_of(s, q) == delta_of(s.skip(1), q));
            }
        }
        if exists|i: int| 0 <= i < s.len() && s[i].0 == p {
            let i = choose|i: int| 0 <= i < s.len() && s[i].0 == p;
            assert(i > 0);
            assert(s.skip(1)[i - 1].0 == p);
        } else {
            assert forall|i: int| 0 <= i < s.skip(1).len() implies s.skip(1)[i].0 != p by {
                assert(s.skip(1)[i] == s[i + 1]);
            }
        }
        assert forall|i: int, j: int| 0 <= i < j < t.len() implies t[i].0 != t[j].0 by {
            if i > 0 {
                assert(t[i] == t.skip(1)[i - 1]);
                assert(t[j] == t.skip(1)[j - 1]);
            } else {
                assert(t[j] == t.skip(1)[j - 1]);
                lemma_first_key(s, p, d, j - 1);
            }
        }
    }
}

/// The head key of a well-formed list stays absent from the bumped tail when
/// it differs from the bumped key.
proof fn lemma_first_key(s: Seq<(AbsPathV, int)>, p: AbsPathV, d: int, i: int)
    requires
        subs_wf(s),
        s.len() > 0,
        s[0].0 != p,
        0 <= i < bump(s.skip(1), p, d).len(),
    ensures
        bump(s.skip(1), p, d)[i].0 != s[0].0,
    decreases s.len(),
{
    let tail = s.skip(1);
    if tail.len() == 0 {
        assert(bump(tail, p, d) == seq![(p, sat_add(0, d))]);
    } else if tail[0].0 == p {
        assert(bump(tail, p, d) == seq![(p, sat_add(tail[0].1, d))] + tail.skip(1));
        if i > 0 {
            assert(bump(tail, p, d)[i] == tail.skip(1)[i - 1]);
            assert(tail.skip(1)[i - 1] == s[i + 1]);
        }
    } else {
        assert(bump(tail, p, d) == seq![tail[0]] + bump(tail.skip(1), p, d));
        if i == 0 {
            assert(bump(tail, p, d)[0] == tail[0]);
            assert(tail[0] == s[1]);
        } else {
            assert forall|x: int, y: int| 0 <= x < y < s.skip(1).len() implies s.skip(1)[x].0
                != s.skip(1)[y].0 by {
                assert(s.skip(1)[x] == s[x + 1]);
                assert(s.skip(1)[y] == s[y + 1]);
            }
            assert(s.skip(1)[0].0 != s[0].0) by {
                assert(s.skip(1)[0] == s[1]);
            }
            let ghost s2 = seq![s[0]] + s.skip(1).skip(1);
            assert(subs_wf(s2)) by {
                assert forall|x: int, y: int| 0 <= x < y < s2.len() implies s2[x].0 != s2[y].0 by {
                    if x == 0 {
                        assert(s2[y] == s[y + 1]);
                    } else {
                        assert(s2[x] == s[x + 1]);
                        assert(s2[y] == s[y + 1]);
                    }
                }
            }
            assert(s2.len() > 0 && s2[0] == s[0]);
            assert(s2.skip(1) =~= s.skip(1).skip(1));
            assert(s2.skip(1) =~= tail.skip(1));
            lemma_first_key(s2, p, d, i - 1);
            assert(bump(tail, p, d)[i] == bump(tail.skip(1), p, d)[i - 1]);
        }
    }
}

/// The delta list after walking a subtree: `d` is added for the element's
/// own dataset binding and for each binding among its descendants, parents
/// first, children in order.
pub open spec fn walk_subtree(s: Seq<(AbsPathV, int)>, e: ElemV, d: int) -> Seq<(AbsPathV, int)>
    decreases e, 3int,
{
    let s1 = match e.dataset {
        Some(p) => bump(s, p, d),
        None => s,
    };
    walk_opt_children(s1, e.children, d)
}

/// The delta list after walking an optional child list.
pub open spec fn walk_opt_children(
    s: Seq<(AbsPathV, int)>,
    o: Option<Seq<ElemV>>,
    d: int,
) -> Seq<(AbsPathV, int)>
    decreases o, 2int,
{
    match o {
        Some(cs) => walk_children(s, cs, d),
        None => s,
    }
}

/// The delta list after walking each child in order.
pub open spec fn walk_children(s: Seq<(AbsPathV, int)>, cs: Seq<ElemV>, d: int) -> Seq<
    (AbsPathV, int),
>
    decreases cs, 1int,
{
    if cs.len() == 0 {
        s
    } else {
        walk_subtree(walk_children(s, cs.subrange(0, cs.len() - 1), d), cs.last(), d)
    }
}

/// The delta list after the element-body part of an update: when the dataset
/// binding moved, the old binding loses one and the new one gains one.
pub open spec fn elem_diff_subs(s: Seq<(AbsPathV, int)>, o: ElemV, n: ElemV) -> Seq<
    (AbsPathV, int),
> {
    match (o.dataset, n.dataset) {
        (Some(po), Some(pn)) => if po == pn {
            s
        } else {
            bump(bump(s, po, -1), pn, 1)
        },
        (Some(po), None) => bump(s, po, -1),
        (None, Some(pn)) => bump(s, pn, 1),
        (None, None) => s,
    }
}

/// Whether the element-body part of an update changes anything a viewer can
/// see: the kind, the id, the content or the alternative text.
pub open spec fn elem_diff_changed(o: ElemV, n: ElemV) -> bool {
    o.kind != n.kind || o.id != n.id || o.content != n.content || o.alt_text != n.alt_text
}

/// What applying updates did to a page: whether anything observable changed,
/// and the net movement of dataset bindings, one saturating 64-bit counter
/// per path.
pub struct UpdateSummary {
    pub changed: bool,
    pub dataset_subscriptions: Vec<(AbsoluteDatasetPath, i64)>,
}

/// The mathematical value of a summary.
pub struct SummaryV {
    pub changed: bool,
    pub subs: Seq<(AbsPathV, int)>,
}

/// The mathematical values of a delta list.
pub open spec fn subs_view(s: Seq<(AbsoluteDatasetPath, i64)>) -> Seq<(AbsPathV, int)> {
    Seq::new(s.len(), |i: int| (s[i].0@, s[i].1 as int))
}

impl View for UpdateSummary {
    type V = SummaryV;

    open spec fn view(&self) -> SummaryV {
        SummaryV { changed: self.changed, subs: subs_view(self.dataset_subscriptions@) }
    }
}

impl UpdateSummary {
    /// All recorded deltas are for distinct paths.
    pub open spec fn wf(&self) -> bool {
        subs_wf(self@.subs)
    }

    /// A fresh summary: no change, no deltas.
    pub fn new() -> (r: Self)
        ensures
            r@.changed == false,
            r@.subs == Seq::<(AbsPathV, int)>::empty(),
            r.wf(),
    {
        let r = UpdateSummary { changed: false, dataset_subscriptions: Vec::new() };
        proof {
            assert(r@.subs =~= Seq::<(AbsPathV, int)>::empty());
        }
        r
    }

    /// Did anything a viewer can see change?
    pub fn changed(&self) -> (r: bool)
        ensures
            r == self@.changed,
    {
        self.changed
    }

    /// The recorded deltas: for each path with a non-trivial history, how
    /// the number of elements bound to it moved.
    pub fn dataset_subscriptions(&self) -> (r: &Vec<(AbsoluteDatasetPath, i64)>)
        ensures
            subs_view(r@) == self@.subs,
    {
        &self.dataset_subscriptions
    }

    /// Add `d` (saturating) to the delta for a path.
    #[verifier::loop_isolation(false)]
    fn add_delta(&mut self, path: &AbsoluteDatasetPath, d: i64)
        requires
            old(self).wf(),
        ensures
            final(self).wf(),
            final(self)@.subs == bump(old(self)@.subs, path@, d as int),
            final(self)@.changed == old(self)@.changed,
    {
        let ghost target = bump(old(self)@.subs, path@, d as int);
        proof {
            assert(old(self)@.subs.skip(0) =~= old(self)@.subs);
            assert(bump_from(old(self)@.subs, path@, d as int, 0) =~= target);
        }
        let mut i: usize = 0;
        while i < self.dataset_subscriptions.len()
            invariant
                self@ == old(self)@,
                i <= self.dataset_subscriptions@.len(),
                forall|j: int| 0 <= j < i ==> self@.subs[j].0 != path@,
                target == bump_from(old(self)@.subs, path@, d as int, i as int),
            decreases self.dataset_subscriptions.len() - i,
        {
            if self.dataset_subscriptions[i].0.eq(path) {
                let v = self.dataset_subscriptions[i].1;
                let nv: i64 = if d >= 0 {
                    if v > i64::MAX - d {
                        i64::MAX
                    } else {
                        v + d
                    }
                } else {
                    if v < i64::MIN - d {
                        i64::MIN
                    } else {
                        v + d
                    }
                };
                let entry = &mut self.dataset_subscriptions[i];
                entry.1 = nv;
                proof {
                    lemma_bump_found(old(self)@.subs, path@, d as int, i as int);
                    assert(self@.subs =~= old(self)@.subs.update(
                        i as int,
                        (path@, sat_add(old(self)@.subs[i as int].1, d as int)),
                    ));
                    assert forall|x: int, y: int|
                        0 <= x < y < self@.subs.len() implies self@.subs[x].0
                        != self@.subs[y].0 by {
                        assert(self@.subs[x].0 == old(self)@.subs[x].0);
                        assert(self@.subs[y].0 == old(self)@.subs[y].0);
                    }
                }
                return ;
            }
            proof {
                lemma_bump_from_step(old(self)@.subs, path@, d as int, i as int);
            }
            i = i + 1;
        }
        let nv: i64 = d;
        self.dataset_subscriptions.push((path.clone(), nv));
        proof {
            lemma_bump_absent(old(self)@.subs, path@, d as int);
            assert(self@.subs =~= old(self)@.subs.push((path@, d as int)));
            assert(sat_add(0, d as int) == d as int);
            assert forall|x: int, y: int| 0 <= x < y < self@.subs.len() implies self@.subs[x].0
                != self@.subs[y].0 by {
                if y < self@.subs.len() - 1 {
                    assert(self@.subs[x].0 == old(self)@.subs[x].0);
                    assert(self@.subs[y].0 == old(self)@.subs[y].0);
                } else {
                    assert(self@.subs[x].0 == old(self)@.subs[x].0);
                    assert(self@.subs[y].0 == path@);
                }
            }
        }
    }

    /// Record one more element bound to the path.
    pub fn add_dataset(&mut self, path: &AbsoluteDatasetPath)
        requires
            old(self).wf(),
        ensures
            final(self).wf(),
            final(self)@.subs == bump(old(self)@.subs, path@, 1),
            final(self)@.changed == old(self)@.changed,
    {
        self.add_delta(path, 1);
    }

    /// Record one element no longer bound to the path.
    pub fn remove_dataset(&mut self, path: &AbsoluteDatasetPath)
        requires
            old(self).wf(),
        ensures
            final(self).wf(),
            final(self)@.subs == bump(old(self)@.subs, path@, -1),
            final(self)@.changed == old(self)@.changed,
    {
        self.add_delta(path, -1);
    }

    /// Record the replacement of an element's body: the changed flag rises
    /// when anything a viewer can see differs, and a moved dataset binding
    /// moves one count from the old path to the new one.
    pub fn element(&mut self, old_elem: &UiElement, new_elem: &UiElement)
        requires
            old(self).wf(),
        ensures
            final(self).wf(),
            final(self)@.changed == (old(self)@.changed || elem_diff_changed(
                old_elem@,
                new_elem@,
            )),
            final(self)@.subs == elem_diff_subs(old(self)@.subs, old_elem@, new_elem@),
    {
        if !old_elem.kind.eq(&new_elem.kind) {
            self.changed = true;
        }
        if !crate::ui::element::option_string_eq(&old_elem.id, &new_elem.id) {
            self.changed = true;
        }
        if !old_elem.content.eq(&new_elem.content) {
            self.changed = true;
        }
        if !old_elem.alt_text.eq(&new_elem.alt_text) {
            self.changed = true;
        }
        match (&old_elem.dataset, &new_elem.dataset) {
            (Some(po), Some(pn)) => {
                if !po.eq(pn) {
                    self.remove_dataset(po);
                    self.add_dataset(pn);
                }
            },
            (Some(po), None) => {
                self.remove_dataset(po);
            },
            (None, Some(pn)) => {
                self.add_dataset(pn);
            },
            (None, None) => {},
        }
    }

    /// Record the arrival of an element and its whole subtree.
    pub fn add(&mut self, elem: &UiElement)
        requires
            old(self).wf(),
        ensures
            final(self).wf(),
            final(self)@.changed,
            final(self)@.subs == walk_subtree(old(self)@.subs, elem@, 1),
    {
        self.changed = true;
        self.walk(elem, 1);
    }

    /// Record the removal of an element and its whole subtree.
    pub fn remove(&mut self, elem: &UiElement)
        requires
            old(self).wf(),
        ensures
            final(self).wf(),
            final(self)@.changed,
            final(self)@.subs == walk_subtree(old(self)@.subs, elem@, -1),
    {
        self.changed = true;
        self.walk(elem, -1);
    }

    /// Record the move of a child: a viewer sees the order change, but no
    /// dataset binding moves.
    pub fn move_to(&mut self, _elem: &UiElement)
        ensures
            final(self)@.changed,
            final(self)@.subs == old(self)@.subs,
    {
        self.changed = true;
    }

    /// Walk a subtree, adding `d` for every dataset binding in it.
    #[verifier::loop_isolation(false)]
    fn walk(&mut self, elem: &UiElement, d: i64)
        requires
            old(self).wf(),
        ensures
            final(self).wf(),
            final(self)@.subs == walk_subtree(old(self)@.subs, elem@, d as int),
            final(self)@.changed == old(self)@.changed,
        decreases *elem,
    {
        match &elem.dataset {
            Some(p) => {
                proof {
                    lemma_bump(self@.subs, p@, d as int);
                }
                self.add_delta(p, d);
            },
            None => {},
        }
        match &elem.children {
            Some(children) => {
                let ghost base = self@.subs;
                let ghost cv = crate::ui::element::elems_vec_view(*children);
                proof {
                    crate::ui::element::lemma_elems_seq_view(children@);
                }
                let mut i: usize = 0;
                while i < children.len()
                    invariant
                        self.wf(),
                        i <= children@.len(),
                        self@.subs == walk_children(base, cv.subrange(0, i as int), d as int),
                        self@.changed == old(self)@.changed,
                    decreases children@.len() - i,
                {
                    self.walk(&children[i], d);
                    proof {
                        let next = cv.subrange(0, i + 1);
                        assert(next.subrange(0, next.len() - 1) =~= cv.subrange(0, i as int));
                        assert(next.last() == elem_view(children@[i as int]));
                    }
                    i = i + 1;
                }
                proof {
                    assert(cv.subrange(0, cv.len() as int) =~= cv);
                }
            },
            None => {},
        }
    }
}

/// Walking the first `i` entries without a hit leaves `bump` working on the
/// rest.
pub open spec fn bump_from(s: Seq<(AbsPathV, int)>, p: AbsPathV, d: int, i: int) -> Seq<
    (AbsPathV, int),
>
    recommends
        0 <= i <= s.len(),
{
    s.subrange(0, i) + bump(s.skip(i), p, d)
}

proof fn lemma_bump_from_step(s: Seq<(AbsPathV, int)>, p: AbsPathV, d: int, i: int)
    requires
        0 <= i < s.len(),
        s[i].0 != p,
        bump(s, p, d) == bump_from(s, p, d, i),
    ensures
        bump(s, p, d) == bump_from(s, p, d, i + 1),
{
    let rest = s.skip(i);
    assert(rest.len() > 0);
    assert(rest[0] == s[i]);
    assert(bump(rest, p, d) == seq![rest[0]] + bump(rest.skip(1), p, d));
    assert(rest.skip(1) =~= s.skip(i + 1));
    assert(bump_from(s, p, d, i + 1) =~= s.subrange(0, i) + (seq![s[i]] + bump(
        s.skip(i + 1),
        p,
        d,
    )));
}

proof fn lemma_bump_found(s: Seq<(AbsPathV, int)>, p: AbsPathV, d: int, i: int)
    requires
        0 <= i < s.len(),
        s[i].0 == p,
        bump(s, p, d) == bump_from(s, p, d, i),
    ensures
        bump(s, p, d) == s.update(i, (p, sat_add(s[i].1, d))),
{
    let rest = s.skip(i);
    assert(rest[0] == s[i]);
    assert(bump(rest, p, d) == seq![(p, sat_add(rest[0].1, d))] + rest.skip(1));
    assert(rest.skip(1) =~= s.skip(i + 1));
    assert(s.subrange(0, i) + (seq![(p, sat_add(s[i].1, d))] + s.skip(i + 1)) =~= s.update(
        i,
        (p, sat_add(s[i].1, d)),
    ));
}

proof fn lemma_bump_absent(s: Seq<(AbsPathV, int)>, p: AbsPathV, d: int)
    requires
        forall|j: int| 0 <= j < s.len() ==> s[j].0 != p,
        bump(s, p, d) == bump_from(s, p, d, s.len() as int),
    ensures
        bump(s, p, d) == s.push((p, sat_add(0, d))),
{
    let rest = s.skip(s.len() as int);
    assert(rest.len() == 0);
    assert(bump(rest, p, d) == seq![(p, sat_add(0, d))]);
    assert(s.subrange(0, s.len() as int) + seq![(p, sat_add(0, d))] =~= s.push(
        (p, sat_add(0, d)),
    ));
}

} // verus!
