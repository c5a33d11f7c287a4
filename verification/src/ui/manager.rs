//! The page manager: wraps one page, records every change made through it,
//! hands the recorded changes out as updates, and applies updates coming
//! from elsewhere.

use vstd::prelude::*;

use crate::dataset::{AbsoluteDatasetPath, AbsPathV};
use crate::id::SpiderId2048;
use crate::text::string_eq;
use crate::ui::apply::apply_update_full;
use crate::ui::change::{change_at, ChangeV, UiElementChange, UiElementChangeSet};
use crate::ui::content::UiElementContent;
use crate::ui::element::{
    elem_view, elems_seq_view, elems_vec_view, lemma_elems_seq_view, ElemV, KindV,
    UiChildOperations, UiElement, UiElementKind,
};
use crate::ui::page::{PageV, UiPage};
use crate::ui::path::UiPath;
use crate::ui::summary::UpdateSummary;
use crate::ui::update::{UiElementUpdate, UpdV};

verus! {

broadcast use vstd::std_specs::vec::group_vec_axioms;

/// The element a path points at, if the path fits the tree.
pub open spec fn elem_at(e: ElemV, path: Seq<usize>) -> Option<ElemV>
    decreases path.len(),
{
    if path.len() == 0 {
        Some(e)
    } else {
        match e.children {
            Some(cs) => if (path[0] as int) < cs.len() {
                elem_at(cs[path[0] as int], path.skip(1))
            } else {
                None
            },
            None => None,
        }
    }
}

/// The tree with the element at the path replaced; a path that does not fit
/// leaves the tree unchanged.
pub open spec fn replace_at(e: ElemV, path: Seq<usize>, sub: ElemV) -> ElemV
    decreases path.len(),
{
    if path.len() == 0 {
        sub
    } else {
        match e.children {
            Some(cs) => if (path[0] as int) < cs.len() {
                ElemV {
                    children: Some(
                        cs.update(
                            path[0] as int,
                            replace_at(cs[path[0] as int], path.skip(1), sub),
                        ),
                    ),
                    ..e
                }
            } else {
                e
            },
            None => e,
        }
    }
}

/// Reading one step further down: the child index at the end of the path is
/// resolved against the element the rest of the path points at.
pub proof fn lemma_elem_at_snoc(e: ElemV, pre: Seq<usize>, c: usize)
    ensures
        elem_at(e, pre.push(c)) == (match elem_at(e, pre) {
            Some(x) => match x.children {
                Some(cs) => if (c as int) < cs.len() {
                    Some(cs[c as int])
                } else {
                    None
                },
                None => None,
            },
            None => None,
        }),
    decreases pre.len(),
{
    if pre.len() == 0 {
        assert(pre.push(c)[0] == c);
        assert(pre.push(c).skip(1) =~= Seq::<usize>::empty());
        assert(elem_at(e, pre) == Some(e));
        match e.children {
            Some(cs) => {
                if (c as int) < cs.len() {
                    assert(elem_at(e, pre.push(c)) == elem_at(
                        cs[c as int],
                        pre.push(c).skip(1),
                    ));
                    assert(elem_at(cs[c as int], pre.push(c).skip(1)) == Some(cs[c as int]));
                }
            },
            None => {},
        }
    } else {
        assert(pre.push(c)[0] == pre[0]);
        assert(pre.push(c).skip(1) =~= pre.skip(1).push(c));
        match e.children {
            Some(cs) => {
                if (pre[0] as int) < cs.len() {
                    lemma_elem_at_snoc(cs[pre[0] as int], pre.skip(1), c);
                }
            },
            None => {},
        }
    }
}

/// The mathematical values of an id index.
pub open spec fn ids_view(s: Seq<(String, UiPath)>) -> Seq<(Seq<char>, Seq<usize>)> {
    Seq::new(s.len(), |i: int| (s[i].0@, s[i].1@))
}

/// Every index entry points at an element in the tree that bears its id.
pub open spec fn ids_sound(ids: Seq<(Seq<char>, Seq<usize>)>, root: ElemV) -> bool {
    forall|i: int|
        0 <= i < ids.len() ==> (#[trigger] elem_at(root, ids[i].1) matches Some(e) && e.id == Some(
            ids[i].0,
        ))
}

/// The path the index gives an id: the last entry for it wins, as later
/// walks overwrite earlier ones.
pub open spec fn ids_lookup(ids: Seq<(Seq<char>, Seq<usize>)>, id: Seq<char>) -> Option<
    Seq<usize>,
>
    decreases ids.len(),
{
    if ids.len() == 0 {
        None
    } else if ids.last().0 == id {
        Some(ids.last().1)
    } else {
        ids_lookup(ids.drop_last(), id)
    }
}

/// The mathematical values of a list of updates.
pub open spec fn updates_view(s: Seq<UiElementUpdate>) -> Seq<UpdV> {
    Seq::new(s.len(), |i: int| s[i]@)
}

/// The updates a drained change set yields over a tree: for each record
/// whose path still points at an element, the element's new body when it
/// changed, and the child operations when there are any; records for
/// vanished elements yield nothing.
pub open spec fn updates_of(root: ElemV, entries: Seq<(Seq<usize>, ChangeV)>) -> Seq<UpdV>
    decreases entries.len(),
{
    if entries.len() == 0 {
        Seq::empty()
    } else {
        let head = updates_of(root, entries.drop_last());
        let e = entries.last();
        head + (match elem_at(root, e.0) {
            Some(el) => {
                let stripped = ElemV { children: None, ..el };
                if e.1.this_changed && e.1.child_operations.len() > 0 {
                    seq![
                        UpdV {
                            path: e.0,
                            element: Some(stripped),
                            children: Some(e.1.child_operations),
                        },
                    ]
                } else if e.1.this_changed {
                    seq![UpdV { path: e.0, element: Some(stripped), children: None }]
                } else if e.1.child_operations.len() > 0 {
                    seq![UpdV { path: e.0, element: None, children: Some(e.1.child_operations) }]
                } else {
                    Seq::empty()
                }
            },
            None => Seq::empty(),
        })
    }
}

/// What applying a run of updates does to a tree and a summary: each update
/// is applied at its path; the first update whose path points at nothing
/// stops the run.
pub open spec fn apply_changes_spec(
    root: ElemV,
    us: Seq<UpdV>,
    subs: Seq<(AbsPathV, int)>,
    changed: bool,
) -> (ElemV, Seq<(AbsPathV, int)>, bool)
    decreases us.len(),
{
    if us.len() == 0 {
        (root, subs, changed)
    } else {
        match elem_at(root, us[0].path) {
            Some(el) => {
                let r = apply_update_full(el, us[0], subs, changed);
                apply_changes_spec(replace_at(root, us[0].path, r.0), us.skip(1), r.1, r.2)
            },
            None => (root, subs, changed),
        }
    }
}

/// An edit that a page manager performs on one element, recording it.
pub enum ElemEdit {
    /// Change the element's kind.
    SetKind(UiElementKind),
    /// Give the element an id.
    SetId(String),
    /// Set whether the element is selectable.
    SetSelectable(bool),
    /// Replace the content with plain text.
    SetText(String),
    /// Replace the content.
    SetContent(UiElementContent),
    /// Change the element's dataset binding.
    SetDataset(Option<AbsoluteDatasetPath>),
    /// Insert a child at a position.
    InsertChild(usize, UiElement),
    /// Remove the child at a position.
    DeleteChild(usize),
}

/// The mathematical value of an edit.
pub enum EditV {
    SetKind(KindV),
    SetId(Seq<char>),
    SetSelectable(bool),
    SetText(Seq<char>),
    SetContent(Seq<crate::ui::content::PartV>),
    SetDataset(Option<AbsPathV>),
    InsertChild(usize, ElemV),
    DeleteChild(usize),
}

impl View for ElemEdit {
    type V = EditV;

    open spec fn view(&self) -> EditV {
        match self {
            ElemEdit::SetKind(k) => EditV::SetKind(k@),
            ElemEdit::SetId(s) => EditV::SetId(s@),
            ElemEdit::SetSelectable(b) => EditV::SetSelectable(*b),
            ElemEdit::SetText(s) => EditV::SetText(s@),
            ElemEdit::SetContent(c) => EditV::SetContent(c@),
            ElemEdit::SetDataset(d) => EditV::SetDataset(
                match d {
                    Some(p) => Some(p@),
                    None => None,
                },
            ),
            ElemEdit::InsertChild(i, e) => EditV::InsertChild(*i, e@),
            ElemEdit::DeleteChild(i) => EditV::DeleteChild(*i),
        }
    }
}

/// Whether an edit fits the element it is aimed at.
pub open spec fn edit_ok(e: ElemV, ed: EditV) -> bool {
    match ed {
        EditV::InsertChild(i, _) => match e.children {
            Some(cs) => i <= cs.len(),
            None => i == 0,
        },
        EditV::DeleteChild(i) => match e.children {
            Some(cs) => (i as int) < cs.len(),
            None => false,
        },
        _ => true,
    }
}

/// The element after an edit.
pub open spec fn edit_elem(e: ElemV, ed: EditV) -> ElemV {
    match ed {
        EditV::SetKind(k) => ElemV { kind: k, ..e },
        EditV::SetId(s) => ElemV { id: Some(s), ..e },
        EditV::SetSelectable(b) => ElemV { selectable: b, ..e },
        EditV::SetText(s) => ElemV {
            content: seq![crate::ui::content::PartV::Text(s)],
            ..e
        },
        EditV::SetContent(c) => ElemV { content: c, ..e },
        EditV::SetDataset(d) => ElemV { dataset: d, ..e },
        EditV::InsertChild(i, c) => ElemV {
            children: Some(
                match e.children {
                    Some(cs) => cs.insert(i as int, c),
                    None => seq![c],
                },
            ),
            ..e
        },
        EditV::DeleteChild(i) => ElemV {
            children: match e.children {
                Some(cs) => Some(cs.remove(i as int)),
                None => None,
            },
            ..e
        },
    }
}

/// Perform an edit on the element a path points at. Returns true and edits
/// when the path points at an element the edit fits; returns false and
/// leaves the tree unchanged otherwise.
#[verifier::loop_isolation(false)]
fn edit_at(e: &mut UiElement, path: &Vec<usize>, i: usize, edit: ElemEdit) -> (ok: bool)
    requires
        i <= path@.len(),
    ensures
        ok == (elem_at(old(e)@, path@.skip(i as int)) matches Some(t) && edit_ok(t, edit@)),
        ok ==> final(e)@ == replace_at(
            old(e)@,
            path@.skip(i as int),
            edit_elem(elem_at(old(e)@, path@.skip(i as int))->0, edit@),
        ),
        !ok ==> final(e)@ == old(e)@,
    decreases path@.len() - i,
{
    if i == path.len() {
        proof {
            assert(path@.skip(i as int).len() == 0);
        }
        match edit {
            ElemEdit::SetKind(k) => {
                e.set_kind(k);
                true
            },
            ElemEdit::SetId(s) => {
                e.set_id(s);
                true
            },
            ElemEdit::SetSelectable(b) => {
                e.set_selectable(b);
                true
            },
            ElemEdit::SetText(s) => {
                e.set_text(s);
                true
            },
            ElemEdit::SetContent(c) => {
                e.set_content(c);
                true
            },
            ElemEdit::SetDataset(d) => {
                e.set_dataset(d);
                true
            },
            ElemEdit::InsertChild(idx, child) => {
                proof {
                    if e@.children is Some {
                        lemma_elems_seq_view(e.children->0@);
                    }
                }
                let fits = match &e.children {
                    Some(cs) => idx <= cs.len(),
                    None => idx == 0,
                };
                if fits {
                    e.insert_child(idx, child);
                    true
                } else {
                    false
                }
            },
            ElemEdit::DeleteChild(idx) => {
                proof {
                    if e@.children is Some {
                        lemma_elems_seq_view(e.children->0@);
                    }
                }
                let fits = match &e.children {
                    Some(cs) => idx < cs.len(),
                    None => false,
                };
                if fits {
                    e.delete_child(idx);
                    true
                } else {
                    false
                }
            },
        }
    } else {
        let step = path[i];
        let ghost rest = path@.skip(i as int);
        proof {
            assert(rest[0] == path@[i as int]);
            assert(rest.skip(1) =~= path@.skip(i as int + 1));
        }
        match &mut e.children {
            Some(children) => {
                proof {
                    lemma_elems_seq_view(children@);
                }
                if step < children.len() {
                    let mut sub = children.remove(step);
                    let ghost subv = sub@;
                    let ghost mid = children@;
                    proof {
                        assert(old(e)@.children == Some(elems_seq_view(old(e).children->0@)));
                        assert(elems_seq_view(old(e).children->0@)[step as int] == subv);
                        assert(elem_at(old(e)@, rest) == elem_at(subv, rest.skip(1)));
                    }
                    let ok = edit_at(&mut sub, path, i + 1, edit);
                    children.insert(step, sub);
                    proof {
                        lemma_elems_seq_view(children@);
                        lemma_elems_seq_view(mid);
                        lemma_elems_seq_view(old(e).children->0@);
                        assert(mid =~= old(e).children->0@.remove(step as int));
                        assert(children@ =~= mid.insert(step as int, children@[step as int]));
                        if ok {
                            assert(elems_seq_view(children@) =~= elems_seq_view(
                                old(e).children->0@,
                            ).update(
                                step as int,
                                replace_at(
                                    elem_view(old(e).children->0@[step as int]),
                                    rest.skip(1),
                                    edit_elem(
                                        elem_at(
                                            elem_view(old(e).children->0@[step as int]),
                                            rest.skip(1),
                                        )->0,
                                        edit@,
                                    ),
                                ),
                            ));
                        } else {
                            assert(elems_seq_view(children@) =~= elems_seq_view(
                                old(e).children->0@,
                            ));
                        }
                    }
                    ok
                } else {
                    false
                }
            },
            None => false,
        }
    }
}

/// Wraps a page; every change made through the manager is recorded, the
/// recorded changes drain as updates, and updates from the page's other copy
/// are applied to it.
pub struct UiPageManager {
    pub page: UiPage,
    pub ids: Vec<(String, UiPath)>,
    pub change_set: UiElementChangeSet,
}

impl UiPageManager {
    /// The change records are in drain order with unique paths.
    pub open spec fn wf(&self) -> bool {
        self.change_set.wf()
    }

    /// The page this manager wraps.
    pub open spec fn spec_page(&self) -> PageV {
        self.page@
    }

    /// Create a manager around a fresh page with the given owner and name.
    pub fn new(id: SpiderId2048, name: String) -> (r: Self)
        ensures
            r.wf(),
            r.spec_page().id == id@,
            r.spec_page().name == name@,
            ids_sound(ids_view(r.ids@), r.spec_page().root),
            ids_complete(ids_view(r.ids@), r.spec_page().root),
    {
        let page = UiPage::new(id, name);
        let mut r = UiPageManager { page, ids: Vec::new(), change_set: UiElementChangeSet::new() };
        r.recalculate_ids();
        r
    }

    /// Create a manager around an existing page.
    pub fn from_page(page: UiPage) -> (r: Self)
        ensures
            r.wf(),
            r.spec_page() == page@,
            ids_sound(ids_view(r.ids@), r.spec_page().root),
            ids_complete(ids_view(r.ids@), r.spec_page().root),
    {
        let mut r = UiPageManager { page, ids: Vec::new(), change_set: UiElementChangeSet::new() };
        r.recalculate_ids();
        r
    }

    /// The wrapped page.
    pub fn get_page(&self) -> (r: &UiPage)
        ensures
            r@ == self.spec_page(),
    {
        &self.page
    }

    /// Replace the wrapped page with a new one, returning the old page. The
    /// recorded changes are dropped — they spoke of the old tree — and the id
    /// index is rebuilt for the new one.
    pub fn set_page(&mut self, page: UiPage) -> (r: UiPage)
        ensures
            final(self).wf(),
            final(self).spec_page() == page@,
            r@ == old(self).spec_page(),
            ids_sound(ids_view(final(self).ids@), final(self).spec_page().root),
            ids_complete(ids_view(final(self).ids@), final(self).spec_page().root),
            final(self).change_set@ == Seq::<(Seq<usize>, ChangeV)>::empty(),
    {
        let mut page = page;
        core::mem::swap(&mut self.page, &mut page);
        self.change_set.clear();
        self.recalculate_ids();
        page
    }

    /// Rebuild the id index from the current tree.
    fn recalculate_ids(&mut self)
        ensures
            final(self).page == old(self).page,
            final(self).change_set == old(self).change_set,
            ids_sound(ids_view(final(self).ids@), final(self).spec_page().root),
            ids_complete(ids_view(final(self).ids@), final(self).spec_page().root),
    {
        let mut ids: Vec<(String, UiPath)> = Vec::new();
        proof {
            assert(ids_view(ids@) =~= Seq::<(Seq<char>, Seq<usize>)>::empty());
        }
        let path = UiPath::root();
        walk_ids(&mut ids, &self.page.root, path, Ghost(self.page.root@));
        self.ids = ids;
    }

    /// The element a path points at, if the path fits the tree.
    #[verifier::loop_isolation(false)]
    pub fn get_element<'a>(&'a self, path: &UiPath) -> (r: Option<&'a UiElement>)
        ensures
            match r {
                Some(e) => elem_at(self.spec_page().root, path@) == Some(e@),
                None => elem_at(self.spec_page().root, path@) is None,
            },
    {
        let mut cursor: &UiElement = &self.page.root;
        let steps = path.iter();
        let mut i: usize = 0;
        proof {
            assert(path@.subrange(0, 0) =~= Seq::<usize>::empty());
        }
        while i < steps.len()
            invariant
                i <= steps@.len(),
                elem_at(self.spec_page().root, path@.subrange(0, i as int)) == Some(cursor@),
            decreases steps@.len() - i,
        {
            let step = steps[i];
            proof {
                lemma_elem_at_snoc(self.spec_page().root, path@.subrange(0, i as int), step);
                assert(path@.subrange(0, i as int).push(step) =~= path@.subrange(0, i as int + 1));
            }
            match cursor.get_child(step) {
                Some(child) => {
                    cursor = child;
                },
                None => {
                    proof {
                        assert(path@.subrange(0, path@.len() as int) =~= path@);
                        lemma_elem_at_prefix_none(
                            self.spec_page().root,
                            path@,
                            (i + 1) as int,
                        );
                    }
                    return None;
                },
            }
            i = i + 1;
        }
        proof {
            assert(path@.subrange(0, path@.len() as int) =~= path@);
        }
        Some(cursor)
    }

    /// The indexed path for an id, if the index has one. The index is
    /// rebuilt when a page is installed, when changes drain, and when
    /// updates apply; edits in between leave it as it was.
    #[verifier::loop_isolation(false)]
    pub fn get_path(&self, id: &str) -> (r: Option<&UiPath>)
        ensures
            match r {
                Some(p) => ids_lookup(ids_view(self.ids@), id@) == Some(p@),
                None => ids_lookup(ids_view(self.ids@), id@) is None,
            },
    {
        let mut i: usize = self.ids.len();
        proof {
            assert(ids_view(self.ids@).subrange(0, i as int) =~= ids_view(self.ids@));
        }
        while i > 0
            invariant
                i <= self.ids@.len(),
                ids_lookup(ids_view(self.ids@), id@) == ids_lookup(
                    ids_view(self.ids@).subrange(0, i as int),
                    id@,
                ),
            decreases i,
        {
            i = i - 1;
            let idstr: String = id.to_owned();
            if string_eq(&self.ids[i].0, &idstr) {
                proof {
                    assert(ids_view(self.ids@).subrange(0, i as int + 1).last() == (
                        self.ids@[i as int].0@,
                        self.ids@[i as int].1@,
                    ));
                }
                return Some(&self.ids[i].1);
            }
            proof {
                let pre = ids_view(self.ids@).subrange(0, i as int + 1);
                assert(pre.last() == (self.ids@[i as int].0@, self.ids@[i as int].1@));
                assert(pre.drop_last() =~= ids_view(self.ids@).subrange(0, i as int));
            }
        }
        proof {
            assert(ids_view(self.ids@).subrange(0, 0).len() == 0);
        }
        None
    }

    /// The element the index knows under an id, if the indexed path still
    /// points at one.
    pub fn get_by_id<'a>(&'a self, id: &str) -> (r: Option<&'a UiElement>)
        ensures
            match r {
                Some(e) => ids_lookup(ids_view(self.ids@), id@) matches Some(p) && elem_at(
                    self.spec_page().root,
                    p,
                ) == Some(e@),
                None => ids_lookup(ids_view(self.ids@), id@) matches Some(p) ==> elem_at(
                    self.spec_page().root,
                    p,
                ) is None,
            },
    {
        match self.get_path(id) {
            Some(path) => self.get_element(path),
            None => None,
        }
    }

    /// Perform one edit on the element a path points at, recording it. True
    /// when the path pointed at an element the edit fits.
    pub fn edit_element(&mut self, path: &UiPath, edit: ElemEdit) -> (ok: bool)
        requires
            old(self).wf(),
        ensures
            final(self).wf(),
            ok == (elem_at(old(self).spec_page().root, path@) matches Some(t) && edit_ok(
                t,
                edit@,
            )),
            ok ==> final(self).spec_page() == (PageV {
                root: replace_at(
                    old(self).spec_page().root,
                    path@,
                    edit_elem(elem_at(old(self).spec_page().root, path@)->0, edit@),
                ),
                ..old(self).spec_page()
            }),
            !ok ==> final(self).spec_page() == old(self).spec_page(),
            ok ==> change_at(final(self).change_set@, path@) == Some(
                match edit@ {
                    EditV::InsertChild(i, c) => record_with_op(
                        change_at(old(self).change_set@, path@),
                        crate::ui::element::OpV::Insert(i, c),
                    ),
                    EditV::DeleteChild(i) => record_with_op(
                        change_at(old(self).change_set@, path@),
                        crate::ui::element::OpV::Delete(i),
                    ),
                    _ => record_marked_changed(change_at(old(self).change_set@, path@)),
                },
            ),
            !ok ==> final(self).change_set@ == old(self).change_set@,
            forall|q: Seq<usize>|
                q != path@ ==> change_at(final(self).change_set@, q) == change_at(
                    old(self).change_set@,
                    q,
                ),
    {
        let ghost before = self.change_set@;
        let record: Option<UiChildOperations> = match &edit {
            ElemEdit::InsertChild(i, c) => Some(UiChildOperations::Insert(*i, c.clone())),
            ElemEdit::DeleteChild(i) => Some(UiChildOperations::Delete(*i)),
            _ => None,
        };
        let steps = path.iter();
        let ghost stepsv = steps@;
        let ok = edit_at(&mut self.page.root, steps, 0, edit);
        proof {
            assert(stepsv.skip(0) =~= path@);
        }
        if ok {
            match record {
                Some(op) => {
                    self.change_set.add_operation_at(path, op);
                },
                None => {
                    self.change_set.mark_changed(path);
                },
            }
        }
        ok
    }
}

/// When a prefix of a path already points at nothing, the whole path does.
pub proof fn lemma_elem_at_prefix_none(root: ElemV, path: Seq<usize>, i: int)
    requires
        0 <= i <= path.len(),
        elem_at(root, path.subrange(0, i)) is None,
    ensures
        elem_at(root, path) is None,
    decreases path.len() - i,
{
    if i < path.len() {
        lemma_elem_at_snoc(root, path.subrange(0, i), path[i]);
        assert(path.subrange(0, i).push(path[i]) =~= path.subrange(0, i + 1));
        lemma_elem_at_prefix_none(root, path, i + 1);
    } else {
        assert(path.subrange(0, i) =~= path);
    }
}


/// Some index entry bears the id.
pub open spec fn ids_has_key(ids: Seq<(Seq<char>, Seq<usize>)>, id: Seq<char>) -> bool {
    exists|k: int| 0 <= k < ids.len() && (#[trigger] ids[k]).0 == id
}

/// Every id borne by an element of the tree has an index entry.
pub open spec fn ids_complete(ids: Seq<(Seq<char>, Seq<usize>)>, root: ElemV) -> bool {
    forall|p: Seq<usize>|
        (#[trigger] elem_at(root, p)) is Some && elem_at(root, p)->0.id is Some ==> ids_has_key(
            ids,
            elem_at(root, p)->0.id->0,
        )
}

/// An index with an entry for an id looks that id up successfully.
pub proof fn lemma_ids_key_lookup(ids: Seq<(Seq<char>, Seq<usize>)>, id: Seq<char>)
    requires
        ids_has_key(ids, id),
    ensures
        ids_lookup(ids, id) is Some,
    decreases ids.len(),
{
    if ids.last().0 == id {
    } else {
        let k = choose|k: int| 0 <= k < ids.len() && ids[k].0 == id;
        assert(k < ids.len() - 1);
        assert(ids.drop_last()[k] == ids[k]);
        lemma_ids_key_lookup(ids.drop_last(), id);
    }
}

/// Walk a subtree, adding an index entry for every element that bears an id.
#[verifier::loop_isolation(false)]
fn walk_ids(
    ids: &mut Vec<(String, UiPath)>,
    node: &UiElement,
    path: UiPath,
    root: Ghost<ElemV>,
)
    requires
        ids_sound(ids_view(old(ids)@), root@),
        elem_at(root@, path@) == Some(node@),
    ensures
        ids_sound(ids_view(final(ids)@), root@),
        old(ids)@.len() <= final(ids)@.len(),
        forall|j: int| 0 <= j < old(ids)@.len() ==> final(ids)@[j] == old(ids)@[j],
        ids_complete(ids_view(final(ids)@), node@),
    decreases *node,
{
    let ghost entry_ids = ids@;
    match &node.id {
        Some(id) => {
            let ghost pre = ids@;
            ids.push((id.clone(), path.clone()));
            proof {
                assert forall|i: int| 0 <= i < ids_view(ids@).len() implies (#[trigger] elem_at(
                    root@,
                    ids_view(ids@)[i].1,
                ) matches Some(e) && e.id == Some(ids_view(ids@)[i].0)) by {
                    if i < pre.len() {
                        assert(ids@[i] == pre[i]);
                        assert(ids_view(pre)[i] == (pre[i].0@, pre[i].1@));
                    } else {
                        assert(ids_view(ids@)[i] == (id@, path@));
                    }
                }
                assert(ids_view(ids@)[pre.len() as int].0 == id@);
            }
        },
        None => {},
    }
    let ghost after_own = ids@;
    proof {
        assert(node@.id is Some ==> ids_has_key(ids_view(after_own), node@.id->0));
    }
    match &node.children {
        Some(children) => {
            proof {
                lemma_elems_seq_view(children@);
            }
            let ghost cv = elems_vec_view(*children);
            let mut i: usize = 0;
            while i < children.len()
                invariant
                    i <= children@.len(),
                    ids_sound(ids_view(ids@), root@),
                    after_own.len() <= ids@.len(),
                    entry_ids.len() <= after_own.len(),
                    forall|j: int| 0 <= j < after_own.len() ==> ids@[j] == after_own[j],
                    forall|j: int| 0 <= j < entry_ids.len() ==> after_own[j] == entry_ids[j],
                    node@.id is Some ==> ids_has_key(ids_view(ids@), node@.id->0),
                    forall|c: int, q: Seq<usize>|
                        0 <= c < i && (#[trigger] elem_at(cv[c], q)) is Some && elem_at(
                            cv[c],
                            q,
                        )->0.id is Some ==> ids_has_key(ids_view(ids@), elem_at(cv[c], q)->0.id->0),
                decreases children@.len() - i,
            {
                let mut child_path = path.clone();
                child_path.append_child(i);
                proof {
                    lemma_elem_at_snoc(root@, path@, i);
                }
                let ghost before_call = ids@;
                walk_ids(ids, &children[i], child_path, root);
                proof {
                    assert forall|c: int, q: Seq<usize>|
                        0 <= c < i + 1 && (#[trigger] elem_at(cv[c], q)) is Some && elem_at(
                        cv[c],
                        q,
                    )->0.id is Some implies ids_has_key(
                        ids_view(ids@),
                        elem_at(cv[c], q)->0.id->0,
                    ) by {
                        let sname = elem_at(cv[c], q)->0.id->0;
                        if c < i {
                            let k = choose|k: int|
                                0 <= k < ids_view(before_call).len() && (#[trigger] ids_view(
                                    before_call,
                                )[k]).0 == sname;
                            assert(ids@[k] == before_call[k]);
                            assert(ids_view(ids@)[k].0 == sname);
                        } else {
                            assert(cv[c] == elem_view(children@[c]));
                        }
                    }
                    if node@.id is Some {
                        let sname = node@.id->0;
                        let k = choose|k: int|
                            0 <= k < ids_view(before_call).len() && (#[trigger] ids_view(
                                before_call,
                            )[k]).0 == sname;
                        assert(ids@[k] == before_call[k]);
                        assert(ids_view(ids@)[k].0 == sname);
                    }
                }
                i = i + 1;
            }
            proof {
                assert forall|p: Seq<usize>|
                    (#[trigger] elem_at(node@, p)) is Some && elem_at(
                    node@,
                    p,
                )->0.id is Some implies ids_has_key(
                    ids_view(ids@),
                    elem_at(node@, p)->0.id->0,
                ) by {
                    if p.len() == 0 {
                        assert(elem_at(node@, p)->0 == node@);
                    } else {
                        assert(node@.children == Some(cv));
                        assert((p[0] as int) < cv.len());
                        assert(elem_at(node@, p) == elem_at(cv[p[0] as int], p.skip(1)));
                    }
                }
            }
        },
        None => {
            proof {
                assert forall|p: Seq<usize>|
                    (#[trigger] elem_at(node@, p)) is Some && elem_at(
                    node@,
                    p,
                )->0.id is Some implies ids_has_key(
                    ids_view(ids@),
                    elem_at(node@, p)->0.id->0,
                ) by {
                    if p.len() == 0 {
                        assert(elem_at(node@, p)->0 == node@);
                    } else {
                        assert(node@.children is None);
                    }
                }
            }
        },
    }
}

impl UiPageManager {
    /// Drain the recorded changes as a list of updates, in drain order
    /// (parents before children): for each record whose path still points at
    /// an element, the element's new body when it changed and the child
    /// operations when there are any. The id index is rebuilt.
    #[verifier::loop_isolation(false)]
    pub fn get_changes(&mut self) -> (r: Vec<UiElementUpdate>)
        requires
            old(self).wf(),
        ensures
            final(self).wf(),
            updates_view(r@) == updates_of(old(self).spec_page().root, old(self).change_set@),
            final(self).spec_page() == old(self).spec_page(),
            final(self).change_set@ == Seq::<(Seq<usize>, ChangeV)>::empty(),
            ids_sound(ids_view(final(self).ids@), final(self).spec_page().root),
            ids_complete(ids_view(final(self).ids@), final(self).spec_page().root),
    {
        let ghost root0 = self.spec_page().root;
        let ghost entries = self.change_set@;
        let drained = self.change_set.take_changes_iter();
        let mut ret: Vec<UiElementUpdate> = Vec::new();
        let mut i: usize = 0;
        proof {
            assert(updates_view(ret@) =~= updates_of(root0, entries.subrange(0, 0)));
        }
        while i < drained.len()
            invariant
                i <= drained@.len(),
                updates_view(ret@) == updates_of(root0, entries.subrange(0, i as int)),
                self.page == old(self).page,
            decreases drained@.len() - i,
        {
            let ghost pre_ret = ret@;
            let path = drained[i].0.clone();
            let mut change = drained[i].1.clone();
            let ops = change.take_operations();
            let has_ops = ops.len() > 0;
            let changed = change.changed();
            proof {
                assert(entries.subrange(0, i as int + 1).drop_last() =~= entries.subrange(
                    0,
                    i as int,
                ));
                assert(entries.subrange(0, i as int + 1).last() == entries[i as int]);
                assert(entries[i as int] == (drained@[i as int].0@, drained@[i as int].1@));
                assert(crate::ui::element::ops_view(ops@) == drained@[i as int].1@
                    .child_operations);
            }
            match self.get_element(&path) {
                Some(elem) => {
                    let update = if changed && has_ops {
                        let e = elem.clone();
                        Some(UiElementUpdate::update_element_children(path, e, ops))
                    } else if changed {
                        let e = elem.clone();
                        Some(UiElementUpdate::update_element(path, e))
                    } else if has_ops {
                        Some(UiElementUpdate::update_children(path, ops))
                    } else {
                        None
                    };
                    match update {
                        Some(u) => {
                            ret.push(u);
                            proof {
                                assert forall|j: int|
                                    0 <= j < ret@.len() implies updates_view(ret@)[j]
                                    == updates_of(root0, entries.subrange(0, i as int + 1))[j] by {
                                    if j < pre_ret.len() {
                                        assert(ret@[j] == pre_ret[j]);
                                        assert(updates_view(pre_ret)[j] == pre_ret[j]@);
                                    }
                                }
                                assert(updates_view(ret@) =~= updates_of(
                                    root0,
                                    entries.subrange(0, i as int + 1),
                                ));
                            }
                        },
                        None => {
                            proof {
                                assert(updates_view(ret@) =~= updates_of(
                                    root0,
                                    entries.subrange(0, i as int + 1),
                                ));
                            }
                        },
                    }
                },
                None => {
                    proof {
                        assert(updates_view(ret@) =~= updates_of(
                            root0,
                            entries.subrange(0, i as int + 1),
                        ));
                    }
                },
            }
            i = i + 1;
        }
        proof {
            assert(entries.subrange(0, entries.len() as int) =~= entries);
        }
        self.recalculate_ids();
        ret
    }

    /// Apply a list of updates to the page: each update lands at its path;
    /// the first update whose path points at nothing stops the run. The
    /// returned summary gathers the changed flag and the movement of dataset
    /// bindings; recorded local changes are dropped and the id index is
    /// rebuilt.
    #[verifier::loop_isolation(false)]
    pub fn apply_changes(&mut self, changes: Vec<UiElementUpdate>) -> (r: UpdateSummary)
        requires
            old(self).wf(),
        ensures
            final(self).wf(),
            r.wf(),
            (final(self).spec_page().root, r@.subs, r@.changed) == apply_changes_spec(
                old(self).spec_page().root,
                updates_view(changes@),
                Seq::<(AbsPathV, int)>::empty(),
                false,
            ),
            final(self).spec_page().id == old(self).spec_page().id,
            final(self).spec_page().name == old(self).spec_page().name,
            final(self).change_set@ == Seq::<(Seq<usize>, ChangeV)>::empty(),
            ids_sound(ids_view(final(self).ids@), final(self).spec_page().root),
            ids_complete(ids_view(final(self).ids@), final(self).spec_page().root),
    {
        let mut summary = UpdateSummary::new();
        self.change_set.clear();
        let ghost usv = updates_view(changes@);
        let ghost target = apply_changes_spec(
            self.spec_page().root,
            usv,
            Seq::<(AbsPathV, int)>::empty(),
            false,
        );
        let mut i: usize = 0;
        proof {
            assert(usv.skip(0) =~= usv);
        }
        while i < changes.len()
            invariant
                summary.wf(),
                self.wf(),
                self.change_set@ == Seq::<(Seq<usize>, ChangeV)>::empty(),
                i <= changes@.len(),
                apply_changes_spec(
                    self.spec_page().root,
                    usv.skip(i as int),
                    summary@.subs,
                    summary@.changed,
                ) == target,
                self.page.id == old(self).page.id,
                self.page.name == old(self).page.name,
            decreases changes@.len() - i,
        {
            proof {
                assert(usv.skip(i as int)[0] == usv[i as int]);
                assert(usv.skip(i as int).skip(1) =~= usv.skip(i as int + 1));
            }
            let update = changes[i].clone();
            let ghost uv = update@;
            let path = update.path().clone();
            let ok = apply_update_at(&mut self.page.root, path.iter(), 0, update, &mut summary);
            proof {
                assert(path@.skip(0) =~= path@);
                assert(uv == usv[i as int]);
                assert(uv.path == path@);
            }
            if !ok {
                self.recalculate_ids();
                return summary;
            }
            i = i + 1;
        }
        proof {
            assert(usv.skip(usv.len() as int).len() == 0);
        }
        self.recalculate_ids();
        summary
    }
}

/// Apply one update to the element a path points at. True and applied when
/// the path points at an element; false and nothing moved otherwise.
#[verifier::loop_isolation(false)]
fn apply_update_at(
    e: &mut UiElement,
    path: &Vec<usize>,
    i: usize,
    update: UiElementUpdate,
    summary: &mut UpdateSummary,
) -> (ok: bool)
    requires
        old(summary).wf(),
        i <= path@.len(),
    ensures
        final(summary).wf(),
        ok == (elem_at(old(e)@, path@.skip(i as int)) is Some),
        ok ==> {
            let t = elem_at(old(e)@, path@.skip(i as int))->0;
            let r = apply_update_full(t, update@, old(summary)@.subs, old(summary)@.changed);
            final(e)@ == replace_at(old(e)@, path@.skip(i as int), r.0) && final(summary)@.subs
                == r.1 && final(summary)@.changed == r.2
        },
        !ok ==> final(e)@ == old(e)@ && final(summary)@ == old(summary)@,
    decreases path@.len() - i,
{
    if i == path.len() {
        proof {
            assert(path@.skip(i as int).len() == 0);
        }
        e.apply_update(update, summary);
        true
    } else {
        let step = path[i];
        let ghost rest = path@.skip(i as int);
        proof {
            assert(rest[0] == path@[i as int]);
            assert(rest.skip(1) =~= path@.skip(i as int + 1));
        }
        match &mut e.children {
            Some(children) => {
                proof {
                    lemma_elems_seq_view(children@);
                }
                if step < children.len() {
                    let mut sub = children.remove(step);
                    let ghost subv = sub@;
                    let ghost mid = children@;
                    proof {
                        assert(old(e)@.children == Some(elems_seq_view(old(e).children->0@)));
                        assert(elems_seq_view(old(e).children->0@)[step as int] == subv);
                        assert(elem_at(old(e)@, rest) == elem_at(subv, rest.skip(1)));
                    }
                    let ok = apply_update_at(&mut sub, path, i + 1, update, summary);
                    children.insert(step, sub);
                    proof {
                        lemma_elems_seq_view(children@);
                        lemma_elems_seq_view(mid);
                        lemma_elems_seq_view(old(e).children->0@);
                        assert(mid =~= old(e).children->0@.remove(step as int));
                        assert(children@ =~= mid.insert(step as int, children@[step as int]));
                        if ok {
                            assert(elems_seq_view(children@) =~= elems_seq_view(
                                old(e).children->0@,
                            ).update(
                                step as int,
                                replace_at(
                                    elem_view(old(e).children->0@[step as int]),
                                    rest.skip(1),
                                    apply_update_full(
                                        elem_at(subv, rest.skip(1))->0,
                                        update@,
                                        old(summary)@.subs,
                                        old(summary)@.changed,
                                    ).0,
                                ),
                            ));
                        } else {
                            assert(elems_seq_view(children@) =~= elems_seq_view(
                                old(e).children->0@,
                            ));
                        }
                    }
                    ok
                } else {
                    false
                }
            },
            None => false,
        }
    }
}

/// A change record with one more child-list operation; a path without a
/// record starts from a fresh one.
pub open spec fn record_with_op(old_record: Option<ChangeV>, op: crate::ui::element::OpV) -> ChangeV {
    match old_record {
        Some(o) => ChangeV { child_operations: o.child_operations.push(op), ..o },
        None => ChangeV {
            this_changed: false,
            children_accessed: false,
            child_operations: seq![op],
        },
    }
}

/// A change record with its changed flag raised and nothing else touched; a
/// path without a record starts from a fresh one, so a body-only edit
/// records no child-list operations.
pub open spec fn record_marked_changed(old_record: Option<ChangeV>) -> ChangeV {
    match old_record {
        Some(o) => ChangeV { this_changed: true, ..o },
        None => ChangeV {
            this_changed: true,
            children_accessed: false,
            child_operations: Seq::<crate::ui::element::OpV>::empty(),
        },
    }
}

} // verus!
