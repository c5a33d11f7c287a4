//! A page: the element tree one peripheral shows, with its owner's id and a
//! name.

use vstd::prelude::*;
use vstd::string::StringExecFns;

use crate::id::SpiderId2048;
use crate::text::string_clone;
use crate::ui::content::PartV;
use crate::ui::element::{elem_view, ElemV, KindV, UiElement};

verus! {

/// A page registered by one peripheral: its owner's id, a name, and the root
/// element of its tree.
pub struct UiPage {
    /// The id of the peripheral that owns the page.
    pub id: SpiderId2048,
    /// The page's name.
    pub name: String,
    /// The root element.
    pub root: UiElement,
}

/// The mathematical value of a page.
pub struct PageV {
    pub id: Seq<u8>,
    pub name: Seq<char>,
    pub root: ElemV,
}

impl View for UiPage {
    type V = PageV;

    open spec fn view(&self) -> PageV {
        PageV { id: self.id@, name: self.name@, root: self.root@ }
    }
}

impl Clone for UiPage {
    fn clone(&self) -> (r: Self)
        ensures
            r@ == self@,
    {
        UiPage { id: self.id.clone(), name: string_clone(&self.name), root: self.root.clone() }
    }
}

impl UiPage {
    /// Create a page with the given owner and name; the root is a text
    /// element holding a placeholder.
    pub fn new(id: SpiderId2048, name: String) -> (r: Self)
        ensures
            r@.id == id@,
            r@.name == name@,
            r@.root.kind == KindV::Text,
            r@.root.children == Some(Seq::<ElemV>::empty()),
            r@.root.id is None,
    {
        proof {
            reveal_strlit("<new page>");
        }
        let root = UiElement::from_string(String::from_str("<new page>"));
        UiPage { id, name, root }
    }

    /// The page's name.
    pub fn name(&self) -> (r: &str)
        ensures
            r@ == self@.name,
    {
        self.name.as_str()
    }

    /// The id of the peripheral that owns the page.
    pub fn id(&self) -> (r: &SpiderId2048)
        ensures
            r@ == self@.id,
    {
        &self.id
    }

    /// Give the page a new owner.
    pub fn set_id(&mut self, id: SpiderId2048)
        ensures
            final(self)@ == (PageV { id: id@, ..old(self)@ }),
    {
        self.id = id;
    }

    /// The root element of the page.
    pub fn root(&self) -> (r: &UiElement)
        ensures
            r@ == self@.root,
    {
        &self.root
    }
}

} // verus!
