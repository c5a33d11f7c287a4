//! One update to a page: the path of the element it concerns, optionally the
//! element's new body (without children), and optionally operations on its
//! child list.

use vstd::prelude::*;

use crate::ui::element::{
    clone_op_vec, elem_view, ElemV, OpV, ops_view, UiChildOperations, UiElement,
};
use crate::ui::path::UiPath;

verus! {

/// A change to one element of a page, used to synchronize two copies of the
/// page.
pub struct UiElementUpdate {
    pub path: UiPath,
    pub element: Option<UiElement>,
    pub children: Option<Vec<UiChildOperations>>,
}

/// The mathematical value of an update.
pub struct UpdV {
    pub path: Seq<usize>,
    pub element: Option<ElemV>,
    pub children: Option<Seq<OpV>>,
}

impl View for UiElementUpdate {
    type V = UpdV;

    open spec fn view(&self) -> UpdV {
        UpdV {
            path: self.path@,
            element: match self.element {
                Some(e) => Some(elem_view(e)),
                None => None,
            },
            children: match self.children {
                Some(ops) => Some(ops_view(ops@)),
                None => None,
            },
        }
    }
}

impl Clone for UiElementUpdate {
    fn clone(&self) -> (r: Self)
        ensures
            r@ == self@,
    {
        UiElementUpdate {
            path: self.path.clone(),
            element: match &self.element {
                Some(e) => Some(e.clone()),
                None => None,
            },
            children: match &self.children {
                Some(ops) => Some(clone_op_vec(ops)),
                None => None,
            },
        }
    }
}

impl UiElementUpdate {
    /// An update that replaces the body of the element at the path. The
    /// element's children are not carried: they travel in updates of their
    /// own.
    pub fn update_element(path: UiPath, element: UiElement) -> (r: Self)
        ensures
            r@.path == path@,
            r@.element == Some(ElemV { children: None, ..element@ }),
            r@.children is None,
    {
        let mut element = element;
        element.children = None;
        UiElementUpdate { path, element: Some(element), children: None }
    }

    /// An update that changes the order or presence of the children of the
    /// element at the path, without touching the element itself.
    pub fn update_children(path: UiPath, children: Vec<UiChildOperations>) -> (r: Self)
        ensures
            r@.path == path@,
            r@.element is None,
            r@.children == Some(ops_view(children@)),
    {
        UiElementUpdate { path, element: None, children: Some(children) }
    }

    /// An update that both replaces the element's body and changes its child
    /// list. The element's children are not carried.
    pub fn update_element_children(
        path: UiPath,
        element: UiElement,
        children: Vec<UiChildOperations>,
    ) -> (r: Self)
        ensures
            r@.path == path@,
            r@.element == Some(ElemV { children: None, ..element@ }),
            r@.children == Some(ops_view(children@)),
    {
        let mut element = element;
        element.children = None;
        UiElementUpdate { path, element: Some(element), children: Some(children) }
    }

    /// The path of the element this update concerns.
    pub fn path(&self) -> (r: &UiPath)
        ensures
            r@ == self@.path,
    {
        &self.path
    }

    /// The new element body this update carries, if any.
    pub fn element(&self) -> (r: &Option<UiElement>)
        ensures
            match r {
                Some(e) => self@.element == Some(e@),
                None => self@.element is None,
            },
    {
        &self.element
    }

    /// The child-list operations this update carries, if any.
    pub fn children(&self) -> (r: &Option<Vec<UiChildOperations>>)
        ensures
            match r {
                Some(ops) => self@.children == Some(ops_view(ops@)),
                None => self@.children is None,
            },
    {
        &self.children
    }

    /// Take the new element body out of the update, leaving none.
    pub fn take_element(&mut self) -> (r: Option<UiElement>)
        ensures
            match r {
                Some(e) => old(self)@.element == Some(e@),
                None => old(self)@.element is None,
            },
            final(self)@ == (UpdV { element: None, ..old(self)@ }),
    {
        self.element.take()
    }

    /// Take the child-list operations out of the update, leaving none.
    pub fn take_children(&mut self) -> (r: Option<Vec<UiChildOperations>>)
        ensures
            match r {
                Some(ops) => old(self)@.children == Some(ops_view(ops@)),
                None => old(self)@.children is None,
            },
            final(self)@ == (UpdV { children: None, ..old(self)@ }),
    {
        self.children.take()
    }
}

} // verus!
