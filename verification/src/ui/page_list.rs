//! An ordered collection of page managers, one per page owner, with a
//! selection cursor. Pages keep their position when updated; new pages go to
//! the end.

use vstd::prelude::*;

use crate::id::SpiderId2048;
use crate::ui::manager::UiPageManager;
use crate::ui::page::{PageV, UiPage};

verus! {

broadcast use vstd::std_specs::vec::group_vec_axioms;

/// The pages of a list, in order.
pub open spec fn pages_view(s: Seq<UiPageManager>) -> Seq<PageV> {
    Seq::new(s.len(), |i: int| s[i].spec_page())
}

/// A list of page managers in insertion order, with a selected position.
pub struct UiPageList {
    pub pages: Vec<UiPageManager>,
    pub selected_page: usize,
}

impl UiPageList {
    /// Each owner has at most one page, and every manager's change records
    /// are well-formed.
    pub open spec fn wf(&self) -> bool {
        &&& forall|i: int, j: int|
            0 <= i < j < self.pages@.len() ==> pages_view(self.pages@)[i].id != pages_view(
                self.pages@,
            )[j].id
        &&& forall|i: int| 0 <= i < self.pages@.len() ==> (#[trigger] self.pages@[i]).wf()
    }

    /// The pages held, in order.
    pub open spec fn spec_pages(&self) -> Seq<PageV> {
        pages_view(self.pages@)
    }

    /// Create an empty list.
    pub fn new() -> (r: Self)
        ensures
            r.wf(),
            r.spec_pages() == Seq::<PageV>::empty(),
            r.selected_page == 0,
    {
        let r = UiPageList { pages: Vec::new(), selected_page: 0 };
        proof {
            assert(r.spec_pages() =~= Seq::<PageV>::empty());
        }
        r
    }

    /// Drop every page and reset the selection.
    pub fn clear(&mut self)
        ensures
            final(self).wf(),
            final(self).spec_pages() == Seq::<PageV>::empty(),
            final(self).selected_page == 0,
    {
        self.pages.clear();
        self.selected_page = 0;
        proof {
            assert(self.spec_pages() =~= Seq::<PageV>::empty());
        }
    }

    /// The position of the page owned by the given id, if one is held.
    #[verifier::loop_isolation(false)]
    pub fn find_index(&self, id: &SpiderId2048) -> (r: Option<usize>)
        ensures
            match r {
                Some(i) => i < self.spec_pages().len() && self.spec_pages()[i as int].id == id@,
                None => forall|j: int|
                    0 <= j < self.spec_pages().len() ==> self.spec_pages()[j].id != id@,
            },
    {
        let mut i: usize = 0;
        while i < self.pages.len()
            invariant
                i <= self.pages@.len(),
                forall|j: int| 0 <= j < i ==> self.spec_pages()[j].id != id@,
            decreases self.pages@.len() - i,
        {
            if self.pages[i].page.id.eq(id) {
                return Some(i);
            }
            i = i + 1;
        }
        None
    }

    /// Add a batch of pages: each page updates its owner's entry in place,
    /// or is appended when the owner has none.
    #[verifier::loop_isolation(false)]
    pub fn add_pages(&mut self, pages: Vec<UiPage>)
        requires
            old(self).wf(),
        ensures
            final(self).wf(),
    {
        let mut pages = pages;
        while pages.len() > 0
            invariant
                self.wf(),
            decreases pages@.len(),
        {
            let page = pages.remove(0);
            self.upsert_page(page);
        }
    }

    /// Install a page: when its owner already has an entry, the entry's page
    /// is replaced in place and the old page returned; otherwise a new
    /// manager is appended and nothing is returned.
    pub fn upsert_page(&mut self, page: UiPage) -> (r: Option<UiPage>)
        requires
            old(self).wf(),
        ensures
            final(self).wf(),
            match r {
                Some(old_page) => {
                    &&& old(self).spec_pages().len() == final(self).spec_pages().len()
                    &&& exists|i: int|
                        0 <= i < old(self).spec_pages().len() && old(self).spec_pages()[i].id
                            == page@.id && old_page@ == old(self).spec_pages()[i]
                            && final(self).spec_pages() == old(self).spec_pages().update(i, page@)
                },
                None => {
                    &&& final(self).spec_pages() == old(self).spec_pages().push(page@)
                    &&& forall|j: int|
                        0 <= j < old(self).spec_pages().len() ==> old(self).spec_pages()[j].id
                            != page@.id
                },
            },
    {
        match self.find_index(&page.id) {
            Some(i) => {
                let ghost pre = self.pages@;
                let mgr = &mut self.pages[i];
                let old_page = mgr.set_page(page);
                proof {
                    assert(self.pages@ =~= pre.update(i as int, self.pages@[i as int]));
                    assert(pages_view(self.pages@) =~= pages_view(pre).update(
                        i as int,
                        self.pages@[i as int].spec_page(),
                    ));
                    assert forall|x: int, y: int|
                        0 <= x < y < self.pages@.len() implies pages_view(self.pages@)[x].id
                        != pages_view(self.pages@)[y].id by {
                        assert(pages_view(pre)[x].id == pages_view(self.pages@)[x].id
                            || pages_view(pre)[x].id == page@.id);
                    }
                }
                Some(old_page)
            },
            None => {
                let ghost pre = self.pages@;
                let mgr = UiPageManager::from_page(page);
                self.pages.push(mgr);
                proof {
                    assert(pages_view(self.pages@) =~= pages_view(pre).push(
                        self.pages@.last().spec_page(),
                    ));
                }
                None
            },
        }
    }

    /// The manager for the page owned by the given id.
    pub fn get_page(&self, id: &SpiderId2048) -> (r: Option<&UiPageManager>)
        ensures
            match r {
                Some(mgr) => mgr.spec_page().id == id@ && (exists|i: int|
                    0 <= i < self.spec_pages().len() && self.spec_pages()[i] == mgr.spec_page()),
                None => forall|j: int|
                    0 <= j < self.spec_pages().len() ==> self.spec_pages()[j].id != id@,
            },
    {
        match self.find_index(id) {
            Some(i) => {
                let mgr = &self.pages[i];
                proof {
                    assert(self.spec_pages()[i as int] == mgr.spec_page());
                }
                Some(mgr)
            },
            None => None,
        }
    }

    /// The manager at a position, mutably.
    pub fn mgr_at_mut(&mut self, i: usize) -> (r: &mut UiPageManager)
        requires
            i < old(self).pages@.len(),
        ensures
            *r == old(self).pages@[i as int],
            final(self).pages@ == old(self).pages@.update(i as int, *final(r)),
            final(self).selected_page == old(self).selected_page,
    {
        &mut self.pages[i]
    }

    /// The pages held, in order, borrowed.
    #[verifier::loop_isolation(false)]
    pub fn get_page_vec(&self) -> (r: Vec<&UiPage>)
        ensures
            r@.len() == self.spec_pages().len(),
            forall|i: int| 0 <= i < r@.len() ==> r@[i]@ == self.spec_pages()[i],
    {
        let mut out: Vec<&UiPage> = Vec::new();
        let mut i: usize = 0;
        while i < self.pages.len()
            invariant
                i <= self.pages@.len(),
                out@.len() == i,
                forall|j: int| 0 <= j < i ==> out@[j]@ == self.spec_pages()[j],
            decreases self.pages@.len() - i,
        {
            out.push(self.pages[i].get_page());
            i = i + 1;
        }
        out
    }

    /// The pages held, in order, copied.
    #[verifier::loop_isolation(false)]
    pub fn clone_page_vec(&self) -> (r: Vec<UiPage>)
        ensures
            r@.len() == self.spec_pages().len(),
            forall|i: int| 0 <= i < r@.len() ==> r@[i]@ == self.spec_pages()[i],
    {
        let mut out: Vec<UiPage> = Vec::new();
        let mut i: usize = 0;
        while i < self.pages.len()
            invariant
                i <= self.pages@.len(),
                out@.len() == i,
                forall|j: int| 0 <= j < i ==> out@[j]@ == self.spec_pages()[j],
            decreases self.pages@.len() - i,
        {
            out.push(self.pages[i].get_page().clone());
            i = i + 1;
        }
        out
    }

    /// The managers held, in order, borrowed.
    #[verifier::loop_isolation(false)]
    pub fn get_mgr_vec(&self) -> (r: Vec<&UiPageManager>)
        ensures
            r@.len() == self.spec_pages().len(),
            forall|i: int| 0 <= i < r@.len() ==> r@[i].spec_page() == self.spec_pages()[i],
    {
        let mut out: Vec<&UiPageManager> = Vec::new();
        let mut i: usize = 0;
        while i < self.pages.len()
            invariant
                i <= self.pages@.len(),
                out@.len() == i,
                forall|j: int| 0 <= j < i ==> out@[j].spec_page() == self.spec_pages()[j],
            decreases self.pages@.len() - i,
        {
            out.push(&self.pages[i]);
            i = i + 1;
        }
        out
    }

    /// The position of the selected page.
    pub fn selected_index(&self) -> (r: usize)
        ensures
            r == self.selected_page,
    {
        self.selected_page
    }

    /// The manager of the selected page, when the selection is in range.
    pub fn selected_page(&self) -> (r: Option<&UiPageManager>)
        ensures
            match r {
                Some(mgr) => self.selected_page < self.spec_pages().len() && mgr.spec_page()
                    == self.spec_pages()[self.selected_page as int],
                None => self.selected_page >= self.spec_pages().len(),
            },
    {
        if self.selected_page < self.pages.len() {
            Some(&self.pages[self.selected_page])
        } else {
            None
        }
    }

    /// Move the selection one page back; out-of-range selections are pulled
    /// back into range first.
    pub fn select_prev_page(&mut self)
        ensures
            final(self).pages == old(self).pages,
            final(self).selected_page == (if old(self).pages@.len() <= 1 {
                0int
            } else {
                let clamped = if old(self).selected_page >= old(self).pages@.len() {
                    old(self).pages@.len() - 1
                } else {
                    old(self).selected_page as int
                };
                if clamped != 0 {
                    clamped - 1
                } else {
                    clamped
                }
            }),
    {
        if self.pages.len() <= 1 {
            self.selected_page = 0;
        } else {
            if self.selected_page >= self.pages.len() {
                self.selected_page = self.pages.len() - 1;
            }
            if self.selected_page != 0 {
                self.selected_page = self.selected_page - 1;
            }
        }
    }

    /// Move the selection one page forward, stopping at the last page.
    pub fn select_next_page(&mut self)
        ensures
            final(self).pages == old(self).pages,
            final(self).selected_page == (if old(self).pages@.len() <= 1 {
                0int
            } else if old(self).selected_page + 1 >= old(self).pages@.len() {
                old(self).pages@.len() - 1
            } else {
                old(self).selected_page + 1
            }),
    {
        if self.pages.len() <= 1 {
            self.selected_page = 0;
        } else {
            if self.selected_page >= self.pages.len() - 1 {
                self.selected_page = self.pages.len() - 1;
            } else {
                self.selected_page = self.selected_page + 1;
            }
        }
    }
}

} // verus!
