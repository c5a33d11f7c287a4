//! Applying updates to an element tree, and what that does to the element,
//! to the changed flag, and to the dataset-binding counts.

use vstd::prelude::*;

use crate::dataset::AbsPathV;
use crate::ui::element::{
    elem_view, elems_seq_view, elems_vec_view, lemma_elems_seq_view, ElemV, OpV, UiChildOperations,
    UiElement,
};
use crate::ui::summary::{
    elem_diff_changed, elem_diff_subs, walk_subtree, UpdateSummary,
};
use crate::ui::update::{UiElementUpdate, UpdV};

verus! {

broadcast use vstd::std_specs::vec::group_vec_axioms;

/// An element with its body replaced and its children kept.
pub open spec fn assign_body(e: ElemV, u: ElemV) -> ElemV {
    ElemV { children: e.children, ..u }
}

/// One operation applied to a child list; an operation whose indices do not
/// fit the list leaves it unchanged.
pub open spec fn apply_op(cs: Seq<ElemV>, op: OpV) -> Seq<ElemV> {
    match op {
        OpV::Insert(i, e) => if i <= cs.len() {
            cs.insert(i as int, e)
        } else {
            cs
        },
        OpV::Delete(i) => if (i as int) < cs.len() {
            cs.remove(i as int)
        } else {
            cs
        },
        OpV::MoveTo { from, to } => if (from as int) < cs.len() && (to as int) < cs.len() {
            cs.remove(from as int).insert(to as int, cs[from as int])
        } else {
            cs
        },
    }
}

/// What a run of operations does to the delta counts, to the changed flag,
/// and to the child list: each operation that fits counts its subtree in or
/// out and raises the flag; one that does not fit does nothing.
pub open spec fn ops_effect(
    subs: Seq<(AbsPathV, int)>,
    changed: bool,
    cs: Seq<ElemV>,
    ops: Seq<OpV>,
) -> (Seq<(AbsPathV, int)>, bool, Seq<ElemV>)
    decreases ops.len(),
{
    if ops.len() == 0 {
        (subs, changed, cs)
    } else {
        let step = match ops[0] {
            OpV::Insert(i, e) => if i <= cs.len() {
                (walk_subtree(subs, e, 1), true, cs.insert(i as int, e))
            } else {
                (subs, changed, cs)
            },
            OpV::Delete(i) => if (i as int) < cs.len() {
                (walk_subtree(subs, cs[i as int], -1), true, cs.remove(i as int))
            } else {
                (subs, changed, cs)
            },
            OpV::MoveTo { from, to } => if (from as int) < cs.len() && (to as int) < cs.len() {
                (subs, true, cs.remove(from as int).insert(to as int, cs[from as int]))
            } else {
                (subs, changed, cs)
            },
        };
        ops_effect(step.0, step.1, step.2, ops.skip(1))
    }
}

/// What applying one update does: the element's body is replaced when the
/// update carries one, then the operations run over the children when the
/// element has a child list and the update carries operations.
pub open spec fn apply_update_full(
    e: ElemV,
    u: UpdV,
    subs: Seq<(AbsPathV, int)>,
    changed: bool,
) -> (ElemV, Seq<(AbsPathV, int)>, bool) {
    let e1 = match u.element {
        Some(b) => assign_body(e, b),
        None => e,
    };
    let s1 = match u.element {
        Some(b) => elem_diff_subs(subs, e, b),
        None => subs,
    };
    let c1 = match u.element {
        Some(b) => changed || elem_diff_changed(e, b),
        None => changed,
    };
    match (e1.children, u.children) {
        (Some(cs), Some(ops)) => {
            let r = ops_effect(s1, c1, cs, ops);
            (ElemV { children: Some(r.2), ..e1 }, r.0, r.1)
        },
        _ => (e1, s1, c1),
    }
}

impl UiElement {
    /// Apply one update to this element: replace its body when the update
    /// carries one, then run the child-list operations. The summary gathers
    /// the changed flag and the movement of dataset bindings; an operation
    /// whose indices do not fit the child list is skipped.
    #[verifier::loop_isolation(false)]
    pub fn apply_update(&mut self, update: UiElementUpdate, summary: &mut UpdateSummary)
        requires
            old(summary).wf(),
        ensures
            final(summary).wf(),
            (final(self)@, final(summary)@.subs, final(summary)@.changed) == apply_update_full(
                old(self)@,
                update@,
                old(summary)@.subs,
                old(summary)@.changed,
            ),
    {
        let mut update = update;
        match update.take_element() {
            Some(body) => {
                summary.element(self, &body);
                let UiElement { kind, id, selectable, content, alt_text, dataset, children: _ } =
                    body;
                self.kind = kind;
                self.id = id;
                self.selectable = selectable;
                self.content = content;
                self.alt_text = alt_text;
                self.dataset = dataset;
            },
            None => {},
        }
        let ghost e1 = self@;
        let ghost s1 = summary@.subs;
        let ghost c1 = summary@.changed;
        let ops = match update.take_children() {
            Some(ops) => ops,
            None => {
                return ;
            },
        };
        match &mut self.children {
            Some(children) => {
                let ghost opsv = crate::ui::element::ops_view(ops@);
                let ghost target = ops_effect(s1, c1, elems_vec_view(*children), opsv);
                let mut idx: usize = 0;
                proof {
                    assert(opsv.skip(0) =~= opsv);
                }
                while idx < ops.len()
                    invariant
                        summary.wf(),
                        idx <= ops@.len(),
                        ops_effect(
                            summary@.subs,
                            summary@.changed,
                            elems_vec_view(*children),
                            opsv.skip(idx as int),
                        ) == target,
                    decreases ops@.len() - idx,
                {
                    proof {
                        assert(opsv.skip(idx as int)[0] == opsv[idx as int]);
                        assert(opsv.skip(idx as int).skip(1) =~= opsv.skip(idx as int + 1));
                        lemma_elems_seq_view(children@);
                    }
                    match &ops[idx] {
                        UiChildOperations::Insert(i, elem) => {
                            if *i <= children.len() {
                                summary.add(elem);
                                let cl = elem.clone();
                                let ghost pre = children@;
                                children.insert(*i, cl);
                                proof {
                                    lemma_elems_seq_view(children@);
                                    lemma_elems_seq_view(pre);
                                    assert(elems_seq_view(children@) =~= elems_seq_view(pre).insert(
                                        *i as int,
                                        elem@,
                                    ));
                                }
                            }
                        },
                        UiChildOperations::Delete(i) => {
                            if *i < children.len() {
                                summary.remove(&children[*i]);
                                let ghost pre = children@;
                                children.remove(*i);
                                proof {
                                    lemma_elems_seq_view(children@);
                                    lemma_elems_seq_view(pre);
                                    assert(elems_seq_view(children@) =~= elems_seq_view(pre).remove(
                                        *i as int,
                                    ));
                                }
                            }
                        },
                        UiChildOperations::MoveTo { from, to } => {
                            if *from < children.len() && *to < children.len() {
                                let ghost pre = children@;
                                let el = children.remove(*from);
                                summary.move_to(&el);
                                proof {
                                    lemma_elems_seq_view(children@);
                                    lemma_elems_seq_view(pre);
                                    assert(elems_seq_view(children@) =~= elems_seq_view(pre).remove(
                                        *from as int,
                                    ));
                                }
                                let ghost mid = children@;
                                children.insert(*to, el);
                                proof {
                                    lemma_elems_seq_view(children@);
                                    lemma_elems_seq_view(mid);
                                    assert(elems_seq_view(children@) =~= elems_seq_view(mid).insert(
                                        *to as int,
                                        elem_view(pre[*from as int]),
                                    ));
                                }
                            }
                        },
                    }
                    idx = idx + 1;
                }
                proof {
                    assert(opsv.skip(opsv.len() as int).len() == 0);
                }
            },
            None => {},
        }
    }
}

/// Law (one update, element body): the update drained from a changed element
/// carries the sender's current body; applied to any copy whose children
/// agree with the sender's, it makes the copy equal to the sender's element.
pub proof fn lemma_element_update_converges(
    sender: ElemV,
    receiver: ElemV,
    path: Seq<usize>,
    subs: Seq<(AbsPathV, int)>,
    changed: bool,
)
    requires
        receiver.children == sender.children,
    ensures
        apply_update_full(
            receiver,
            UpdV { path, element: Some(ElemV { children: None, ..sender }), children: None },
            subs,
            changed,
        ).0 == sender,
{
}

/// Law (one update, child list): an insertion recorded by the sender and
/// replayed on a copy with the same children leaves both child lists equal.
pub proof fn lemma_insert_update_converges(
    cs: Seq<ElemV>,
    i: usize,
    c: ElemV,
    subs: Seq<(AbsPathV, int)>,
    changed: bool,
)
    requires
        i <= cs.len(),
    ensures
        ops_effect(subs, changed, cs, seq![OpV::Insert(i, c)]).2 == cs.insert(i as int, c),
{
    let ops = seq![OpV::Insert(i, c)];
    assert(ops[0] == OpV::Insert(i, c));
    assert(ops.skip(1).len() == 0);
    let stepped = cs.insert(i as int, c);
    assert(ops_effect(walk_subtree(subs, c, 1), true, stepped, ops.skip(1)) == (
        walk_subtree(subs, c, 1),
        true,
        stepped,
    ));
}

/// Law (one update, child removal): a deletion recorded by the sender and
/// replayed on a copy with the same children leaves both child lists equal.
pub proof fn lemma_delete_update_converges(
    cs: Seq<ElemV>,
    i: usize,
    subs: Seq<(AbsPathV, int)>,
    changed: bool,
)
    requires
        (i as int) < cs.len(),
    ensures
        ops_effect(subs, changed, cs, seq![OpV::Delete(i)]).2 == cs.remove(i as int),
{
    let ops = seq![OpV::Delete(i)];
    assert(ops[0] == OpV::Delete(i));
    assert(ops.skip(1).len() == 0);
    let stepped = cs.remove(i as int);
    assert(ops_effect(walk_subtree(subs, cs[i as int], -1), true, stepped, ops.skip(1)) == (
        walk_subtree(subs, cs[i as int], -1),
        true,
        stepped,
    ));
}

} // verus!
