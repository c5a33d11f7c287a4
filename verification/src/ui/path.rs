//! Paths that address one element inside a page tree: a sequence of child
//! indices, starting at the root.

use vstd::prelude::*;

verus! {

/// A UiPath refers to a UiElement within a UiPage: each entry is the index
/// of a child, walking down from the root element.
pub struct UiPath {
    pub path: Vec<usize>,
}

impl View for UiPath {
    type V = Seq<usize>;

    open spec fn view(&self) -> Seq<usize> {
        self.path@
    }
}

impl Clone for UiPath {
    fn clone(&self) -> (r: Self)
        ensures
            r@ == self@,
    {
        let mut out: Vec<usize> = Vec::new();
        let mut i: usize = 0;
        while i < self.path.len()
            invariant
                i <= self.path.len(),
                out@ == self.path@.subrange(0, i as int),
            decreases self.path.len() - i,
        {
            out.push(self.path[i]);
            i = i + 1;
        }
        proof {
            assert(out@ =~= self.path@);
        }
        UiPath { path: out }
    }
}

/// Ordering used when draining a change set: shallower paths come first, and
/// among paths of one depth the one with the smaller final index comes first.
pub open spec fn spec_drain_le(a: Seq<usize>, b: Seq<usize>) -> bool {
    if a.len() != b.len() {
        a.len() < b.len()
    } else if a.len() == 0 {
        true
    } else {
        a.last() <= b.last()
    }
}

impl UiPath {
    /// Create a new UiPath referring to the root of the page.
    pub fn root() -> (r: Self)
        ensures
            r@ == Seq::<usize>::empty(),
    {
        UiPath { path: Vec::new() }
    }

    /// The child indices of the path, from the root down.
    pub fn iter(&self) -> (r: &Vec<usize>)
        ensures
            r@ == self@,
    {
        &self.path
    }

    /// The number of steps in the path; zero for the root.
    pub fn depth(&self) -> (r: usize)
        ensures
            r == self@.len(),
    {
        self.path.len()
    }

    /// Move the path to refer to the parent of the current element. Returns
    /// true on success, and false when the path already referred to the root.
    pub fn parent_of(&mut self) -> (r: bool)
        ensures
            r == (old(self)@.len() > 0),
            r ==> final(self)@ == old(self)@.drop_last(),
            !r ==> final(self)@ == old(self)@,
    {
        match self.path.pop() {
            Some(_) => true,
            None => false,
        }
    }

    /// Append another path below this one.
    pub fn append(&mut self, other: UiPath)
        ensures
            final(self)@ == old(self)@ + other@,
    {
        let mut other = other;
        self.path.append(&mut other.path);
    }

    /// Refer to a child of the current element, by its index.
    pub fn append_child(&mut self, child: usize)
        ensures
            final(self)@ == old(self)@.push(child),
    {
        self.path.push(child);
    }

    /// Decide the drain order between two paths: depth first, then the final
    /// child index.
    pub fn drain_le(&self, other: &UiPath) -> (r: bool)
        ensures
            r == spec_drain_le(self@, other@),
    {
        if self.path.len() != other.path.len() {
            self.path.len() < other.path.len()
        } else if self.path.len() == 0 {
            true
        } else {
            self.path[self.path.len() - 1] <= other.path[other.path.len() - 1]
        }
    }
}

impl PartialEq for UiPath {
    fn eq(&self, other: &Self) -> (r: bool) {
        let mut i: usize = 0;
        if self.path.len() != other.path.len() {
            return false;
        }
        while i < self.path.len()
            invariant
                i <= self.path.len(),
                self.path@.len() == other.path@.len(),
                forall|j: int| 0 <= j < i ==> self.path@[j] == other.path@[j],
            decreases self.path.len() - i,
        {
            if self.path[i] != other.path[i] {
                return false;
            }
            i = i + 1;
        }
        proof {
            assert(self.path@ =~= other.path@);
        }
        true
    }
}

impl vstd::std_specs::cmp::PartialEqSpecImpl for UiPath {
    open spec fn obeys_eq_spec() -> bool {
        true
    }

    open spec fn eq_spec(&self, other: &UiPath) -> bool {
        self@ == other@
    }
}

} // verus!
