//! Elements of a page: a tree of typed nodes, each with content, an optional
//! id, an optional dataset binding, and children.

use vstd::prelude::*;
use vstd::string::StrSliceExecFns;

use crate::dataset::{AbsoluteDatasetPath, AbsPathV};
use crate::dataset_data::{DataV, DatasetData};
use crate::text::{string_clone, string_eq};
use crate::ui::content::{
    content_resolved, content_text, part_resolved, PartV, UiElementContent, UiElementContentPart,
};

verus! {

broadcast use vstd::std_specs::vec::group_vec_axioms;

/// The kind of an element: how it is laid out and how it takes input.
pub enum UiElementKind {
    /// Renders nothing.
    Blank,
    /// Renders nothing; takes up spare space on a line.
    Spacer,
    /// Children are arranged vertically.
    Columns,
    /// Children are arranged horizontally.
    Rows,
    /// Children are arranged in a fixed grid of the given dimensions.
    Grid(u8, u8),
    /// Larger text.
    Header,
    /// Standard text.
    Text,
    /// A text box taking text input.
    TextEntry,
    /// A button taking click input.
    Button,
    /// The kind is the one named by this content part, resolved against a
    /// row of dataset data.
    Variable(UiElementContentPart),
}

/// The mathematical value of an element kind.
pub enum KindV {
    Blank,
    Spacer,
    Columns,
    Rows,
    Grid(u8, u8),
    Header,
    Text,
    TextEntry,
    Button,
    Variable(PartV),
}

impl View for UiElementKind {
    type V = KindV;

    open spec fn view(&self) -> KindV {
        match self {
            UiElementKind::Blank => KindV::Blank,
            UiElementKind::Spacer => KindV::Spacer,
            UiElementKind::Columns => KindV::Columns,
            UiElementKind::Rows => KindV::Rows,
            UiElementKind::Grid(w, h) => KindV::Grid(*w, *h),
            UiElementKind::Header => KindV::Header,
            UiElementKind::Text => KindV::Text,
            UiElementKind::TextEntry => KindV::TextEntry,
            UiElementKind::Button => KindV::Button,
            UiElementKind::Variable(p) => KindV::Variable(p@),
        }
    }
}

impl Clone for UiElementKind {
    fn clone(&self) -> (r: Self)
        ensures
            r@ == self@,
    {
        match self {
            UiElementKind::Blank => UiElementKind::Blank,
            UiElementKind::Spacer => UiElementKind::Spacer,
            UiElementKind::Columns => UiElementKind::Columns,
            UiElementKind::Rows => UiElementKind::Rows,
            UiElementKind::Grid(w, h) => UiElementKind::Grid(*w, *h),
            UiElementKind::Header => UiElementKind::Header,
            UiElementKind::Text => UiElementKind::Text,
            UiElementKind::TextEntry => UiElementKind::TextEntry,
            UiElementKind::Button => UiElementKind::Button,
            UiElementKind::Variable(p) => UiElementKind::Variable(p.clone()),
        }
    }
}

impl PartialEq for UiElementKind {
    fn eq(&self, other: &Self) -> (r: bool) {
        match (self, other) {
            (UiElementKind::Blank, UiElementKind::Blank) => true,
            (UiElementKind::Spacer, UiElementKind::Spacer) => true,
            (UiElementKind::Columns, UiElementKind::Columns) => true,
            (UiElementKind::Rows, UiElementKind::Rows) => true,
            (UiElementKind::Grid(a, b), UiElementKind::Grid(c, d)) => a == c && b == d,
            (UiElementKind::Header, UiElementKind::Header) => true,
            (UiElementKind::Text, UiElementKind::Text) => true,
            (UiElementKind::TextEntry, UiElementKind::TextEntry) => true,
            (UiElementKind::Button, UiElementKind::Button) => true,
            (UiElementKind::Variable(p), UiElementKind::Variable(q)) => p.eq(q),
            _ => false,
        }
    }
}

impl vstd::std_specs::cmp::PartialEqSpecImpl for UiElementKind {
    open spec fn obeys_eq_spec() -> bool {
        true
    }

    open spec fn eq_spec(&self, other: &UiElementKind) -> bool {
        self@ == other@
    }
}

/// Whether a kind takes input, and so is selectable by default.
pub open spec fn spec_kind_selectable(k: KindV) -> bool {
    match k {
        KindV::TextEntry => true,
        KindV::Button => true,
        _ => false,
    }
}

/// The character code of `c` with an ASCII capital letter lowered.
pub open spec fn lower_char(c: char) -> int {
    if 65 <= c as int && c as int <= 90 {
        c as int + 32
    } else {
        c as int
    }
}

/// Whether two character sequences are equal once ASCII capitals are
/// lowered.
pub open spec fn lower_eq(s: Seq<char>, t: Seq<char>) -> bool {
    s.len() == t.len() && forall|i: int| 0 <= i < s.len() ==> lower_char(s[i]) == lower_char(t[i])
}

/// Compare a string with a string slice, ignoring ASCII case.
#[verifier::loop_isolation(false)]
pub fn ascii_lower_eq(s: &str, lit: &str) -> (r: bool)
    ensures
        r == lower_eq(s@, lit@),
{
    let n = s.unicode_len();
    if n != lit.unicode_len() {
        return false;
    }
    let mut i: usize = 0;
    while i < n
        invariant
            i <= n,
            forall|j: int| 0 <= j < i ==> lower_char(s@[j]) == lower_char(lit@[j]),
        decreases n - i,
    {
        let a: u32 = s.get_char(i) as u32;
        let b: u32 = lit.get_char(i) as u32;
        let la: u32 = if 65 <= a && a <= 90 {
            a + 32
        } else {
            a
        };
        let lb: u32 = if 65 <= b && b <= 90 {
            b + 32
        } else {
            b
        };
        if la != lb {
            return false;
        }
        i = i + 1;
    }
    true
}

/// What a variable kind resolves to: the named kind when the resolved text
/// names one (ignoring ASCII case), else the kind itself. With no row of
/// data, every kind stays as it is.
pub open spec fn resolve_kind(k: KindV, datum: Option<DataV>) -> KindV {
    match datum {
        Some(d) => match k {
            KindV::Variable(p) => {
                let s = part_resolved(p, d);
                if lower_eq(s, seq!['n', 'o', 'n', 'e']) {
                    KindV::Blank
                } else if lower_eq(s, seq!['s', 'p', 'a', 'c', 'e', 'r']) {
                    KindV::Spacer
                } else if lower_eq(s, seq!['c', 'o', 'l', 'u', 'm', 'n', 's']) {
                    KindV::Columns
                } else if lower_eq(s, seq!['r', 'o', 'w', 's']) {
                    KindV::Rows
                } else if lower_eq(s, seq!['h', 'e', 'a', 'd', 'e', 'r']) {
                    KindV::Header
                } else if lower_eq(s, seq!['t', 'e', 'x', 't']) {
                    KindV::Text
                } else if lower_eq(s, seq!['t', 'e', 'x', 't', 'e', 'n', 't', 'r', 'y']) {
                    KindV::TextEntry
                } else if lower_eq(s, seq!['b', 'u', 't', 't', 'o', 'n']) {
                    KindV::Button
                } else {
                    k
                }
            },
            _ => k,
        },
        None => k,
    }
}

impl UiElementKind {
    /// Whether this kind takes input, and so is selectable by default.
    pub fn selectable(&self) -> (r: bool)
        ensures
            r == spec_kind_selectable(self@),
    {
        match self {
            UiElementKind::TextEntry => true,
            UiElementKind::Button => true,
            _ => false,
        }
    }

    /// Resolve a variable kind against a row of dataset data: when the
    /// resolved text names a kind, that kind; otherwise the kind unchanged.
    pub fn resolve(self, datum: &Option<&DatasetData>) -> (r: UiElementKind)
        ensures
            r@ == resolve_kind(
                self@,
                match datum {
                    Some(d) => Some(d@),
                    None => None,
                },
            ),
    {
        proof {
            reveal_strlit("none");
            reveal_strlit("spacer");
            reveal_strlit("columns");
            reveal_strlit("rows");
            reveal_strlit("header");
            reveal_strlit("text");
            reveal_strlit("textentry");
            reveal_strlit("button");
            assert("none"@ =~= seq!['n', 'o', 'n', 'e']);
            assert("spacer"@ =~= seq!['s', 'p', 'a', 'c', 'e', 'r']);
            assert("columns"@ =~= seq!['c', 'o', 'l', 'u', 'm', 'n', 's']);
            assert("rows"@ =~= seq!['r', 'o', 'w', 's']);
            assert("header"@ =~= seq!['h', 'e', 'a', 'd', 'e', 'r']);
            assert("text"@ =~= seq!['t', 'e', 'x', 't']);
            assert("textentry"@ =~= seq!['t', 'e', 'x', 't', 'e', 'n', 't', 'r', 'y']);
            assert("button"@ =~= seq!['b', 'u', 't', 't', 'o', 'n']);
        }
        match datum {
            Some(d) => {
                if let UiElementKind::Variable(part) = &self {
                    let s = part.resolve(d);
                    if ascii_lower_eq(s.as_str(), "none") {
                        UiElementKind::Blank
                    } else if ascii_lower_eq(s.as_str(), "spacer") {
                        UiElementKind::Spacer
                    } else if ascii_lower_eq(s.as_str(), "columns") {
                        UiElementKind::Columns
                    } else if ascii_lower_eq(s.as_str(), "rows") {
                        UiElementKind::Rows
                    } else if ascii_lower_eq(s.as_str(), "header") {
                        UiElementKind::Header
                    } else if ascii_lower_eq(s.as_str(), "text") {
                        UiElementKind::Text
                    } else if ascii_lower_eq(s.as_str(), "textentry") {
                        UiElementKind::TextEntry
                    } else if ascii_lower_eq(s.as_str(), "button") {
                        UiElementKind::Button
                    } else {
                        self
                    }
                } else {
                    self
                }
            },
            None => self,
        }
    }
}

/// A node of a page tree.
pub struct UiElement {
    /// The kind of the element.
    pub kind: UiElementKind,
    /// An optional id; an element can be found by its id through the page
    /// manager's index.
    pub id: Option<String>,
    /// Whether the element can be selected.
    pub selectable: bool,
    /// The content the element renders.
    pub content: UiElementContent,
    /// Alternative text for the element.
    pub alt_text: UiElementContent,
    /// When set, the children act as a template, expanded once per row of
    /// the named dataset.
    pub dataset: Option<AbsoluteDatasetPath>,
    /// The children of the element.
    pub children: Option<Vec<UiElement>>,
}

/// The mathematical value of an element.
pub struct ElemV {
    pub kind: KindV,
    pub id: Option<Seq<char>>,
    pub selectable: bool,
    pub content: Seq<PartV>,
    pub alt_text: Seq<PartV>,
    pub dataset: Option<AbsPathV>,
    pub children: Option<Seq<ElemV>>,
}

/// The mathematical value of an element.
pub open spec fn elem_view(e: UiElement) -> ElemV
    decreases e, 2int,
{
    ElemV {
        kind: e.kind@,
        id: match e.id {
            Some(s) => Some(s@),
            None => None,
        },
        selectable: e.selectable,
        content: e.content@,
        alt_text: e.alt_text@,
        dataset: match e.dataset {
            Some(p) => Some(p@),
            None => None,
        },
        children: match e.children {
            Some(v) => Some(elems_vec_view(v)),
            None => None,
        },
    }
}

/// The mathematical values of a vector of elements.
pub open spec fn elems_vec_view(v: Vec<UiElement>) -> Seq<ElemV>
    decreases v, 1int,
{
    elems_seq_view(v@)
}

/// The mathematical values of a sequence of elements.
pub open spec fn elems_seq_view(s: Seq<UiElement>) -> Seq<ElemV>
    decreases s, 0int,
{
    if s.len() == 0 {
        Seq::empty()
    } else {
        elems_seq_view(s.subrange(0, s.len() - 1)).push(elem_view(s.last()))
    }
}

/// Element sequence views read one element at a time.
pub proof fn lemma_elems_seq_view(s: Seq<UiElement>)
    ensures
        elems_seq_view(s).len() == s.len(),
        forall|i: int| 0 <= i < s.len() ==> elems_seq_view(s)[i] == elem_view(s[i]),
    decreases s.len(),
{
    if s.len() > 0 {
        lemma_elems_seq_view(s.subrange(0, s.len() - 1));
        assert forall|i: int| 0 <= i < s.len() implies elems_seq_view(s)[i] == elem_view(s[i]) by {
            if i < s.len() - 1 {
                assert(s.subrange(0, s.len() - 1)[i] == s[i]);
            }
        }
    }
}

impl View for UiElement {
    type V = ElemV;

    open spec fn view(&self) -> ElemV {
        elem_view(*self)
    }
}

/// Copy an optional string.
pub fn option_string_clone(s: &Option<String>) -> (r: Option<String>)
    ensures
        match (old_view_opt(*s), old_view_opt(r)) {
            (Some(a), Some(b)) => a == b,
            (None, None) => true,
            _ => false,
        },
{
    match s {
        Some(x) => Some(x.clone()),
        None => None,
    }
}

/// The character sequence of an optional string.
pub open spec fn old_view_opt(s: Option<String>) -> Option<Seq<char>> {
    match s {
        Some(x) => Some(x@),
        None => None,
    }
}

/// Compare two optional strings by their characters.
pub fn option_string_eq(a: &Option<String>, b: &Option<String>) -> (r: bool)
    ensures
        r == (old_view_opt(*a) == old_view_opt(*b)),
{
    match (a, b) {
        (Some(x), Some(y)) => string_eq(x, y),
        (None, None) => true,
        _ => false,
    }
}

fn clone_elem(e: &UiElement) -> (r: UiElement)
    ensures
        r@ == e@,
    decreases *e,
{
    let kind = e.kind.clone();
    let id = option_string_clone(&e.id);
    let content = e.content.clone();
    let alt_text = e.alt_text.clone();
    let dataset = match &e.dataset {
        Some(p) => Some(p.clone()),
        None => None,
    };
    let children = match &e.children {
        Some(v) => Some(clone_elems(v)),
        None => None,
    };
    let r = UiElement { kind, id, selectable: e.selectable, content, alt_text, dataset, children };
    r
}

#[verifier::loop_isolation(false)]
fn clone_elems(v: &Vec<UiElement>) -> (r: Vec<UiElement>)
    ensures
        elems_vec_view(r) == elems_vec_view(*v),
        r@.len() == v@.len(),
    decreases *v,
{
    let mut out: Vec<UiElement> = Vec::new();
    let mut i: usize = 0;
    while i < v.len()
        invariant
            i <= v.len(),
            out@.len() == i,
            forall|j: int| 0 <= j < i ==> elem_view(out@[j]) == elem_view(v@[j]),
        decreases v.len() - i,
    {
        out.push(clone_elem(&v[i]));
        i = i + 1;
    }
    proof {
        lemma_elems_seq_view(out@);
        lemma_elems_seq_view(v@);
        assert(elems_seq_view(out@) =~= elems_seq_view(v@));
    }
    out
}

impl Clone for UiElement {
    fn clone(&self) -> (r: Self)
        ensures
            r@ == self@,
    {
        clone_elem(self)
    }
}

fn elem_eq(a: &UiElement, b: &UiElement) -> (r: bool)
    ensures
        r == (a@ == b@),
    decreases *a,
{
    if !a.kind.eq(&b.kind) {
        return false;
    }
    if !option_string_eq(&a.id, &b.id) {
        return false;
    }
    if a.selectable != b.selectable {
        return false;
    }
    if !a.content.eq(&b.content) {
        return false;
    }
    if !a.alt_text.eq(&b.alt_text) {
        return false;
    }
    let dataset_same = match (&a.dataset, &b.dataset) {
        (Some(p), Some(q)) => p.eq(q),
        (None, None) => true,
        _ => false,
    };
    if !dataset_same {
        return false;
    }
    match (&a.children, &b.children) {
        (Some(ca), Some(cb)) => {
            if elems_eq(ca, cb) {
                proof {
                    assert(a@.children == b@.children);
                }
                true
            } else {
                false
            }
        },
        (None, None) => true,
        _ => false,
    }
}

#[verifier::loop_isolation(false)]
fn elems_eq(a: &Vec<UiElement>, b: &Vec<UiElement>) -> (r: bool)
    ensures
        r == (elems_vec_view(*a) == elems_vec_view(*b)),
    decreases *a,
{
    proof {
        lemma_elems_seq_view(a@);
        lemma_elems_seq_view(b@);
    }
    if a.len() != b.len() {
        proof {
            assert(elems_vec_view(*a).len() != elems_vec_view(*b).len());
        }
        return false;
    }
    let mut i: usize = 0;
    while i < a.len()
        invariant
            i <= a.len(),
            a@.len() == b@.len(),
            forall|j: int| 0 <= j < i ==> elem_view(a@[j]) == elem_view(b@[j]),
        decreases a.len() - i,
    {
        if !elem_eq(&a[i], &b[i]) {
            proof {
                assert(elems_vec_view(*a)[i as int] != elems_vec_view(*b)[i as int]);
            }
            return false;
        }
        i = i + 1;
    }
    proof {
        assert(elems_seq_view(a@) =~= elems_seq_view(b@));
    }
    true
}

impl PartialEq for UiElement {
    fn eq(&self, other: &Self) -> (r: bool) {
        elem_eq(self, other)
    }
}

impl vstd::std_specs::cmp::PartialEqSpecImpl for UiElement {
    open spec fn obeys_eq_spec() -> bool {
        true
    }

    open spec fn eq_spec(&self, other: &UiElement) -> bool {
        self@ == other@
    }
}

impl UiElement {
    /// Create an element of the given kind, with no content and an empty
    /// child list. Input kinds start selectable.
    pub fn new(kind: UiElementKind) -> (r: Self)
        ensures
            r@.kind == kind@,
            r@.id is None,
            r@.selectable == spec_kind_selectable(kind@),
            r@.content == Seq::<PartV>::empty(),
            r@.alt_text == Seq::<PartV>::empty(),
            r@.dataset is None,
            r@.children == Some(Seq::<ElemV>::empty()),
    {
        let selectable = kind.selectable();
        let r = UiElement {
            kind,
            id: None,
            selectable,
            content: UiElementContent::new(),
            alt_text: UiElementContent::new(),
            dataset: None,
            children: Some(Vec::new()),
        };
        proof {
            assert(elems_vec_view(r.children->0) =~= Seq::<ElemV>::empty());
        }
        r
    }

    /// Create a text element showing the given string.
    pub fn from_string(text: String) -> (r: Self)
        ensures
            r@.kind == KindV::Text,
            r@.id is None,
            r@.selectable == false,
            r@.content == seq![PartV::Text(text@)],
            r@.alt_text == Seq::<PartV>::empty(),
            r@.dataset is None,
            r@.children == Some(Seq::<ElemV>::empty()),
    {
        let r = UiElement {
            kind: UiElementKind::Text,
            id: None,
            selectable: false,
            content: UiElementContent::new_text(text),
            alt_text: UiElementContent::new(),
            dataset: None,
            children: Some(Vec::new()),
        };
        proof {
            assert(elems_vec_view(r.children->0) =~= Seq::<ElemV>::empty());
        }
        r
    }

    /// The kind of this element.
    pub fn kind(&self) -> (r: &UiElementKind)
        ensures
            r@ == self@.kind,
    {
        &self.kind
    }

    /// Change the kind of this element.
    pub fn set_kind(&mut self, kind: UiElementKind)
        ensures
            final(self)@ == (ElemV { kind: kind@, ..old(self)@ }),
    {
        self.kind = kind;
    }

    /// The id of this element.
    pub fn id(&self) -> (r: Option<&String>)
        ensures
            match r {
                Some(s) => self@.id == Some(s@),
                None => self@.id is None,
            },
    {
        self.id.as_ref()
    }

    /// Give this element an id.
    pub fn set_id(&mut self, id: String)
        ensures
            final(self)@ == (ElemV { id: Some(id@), ..old(self)@ }),
    {
        self.id = Some(id);
    }

    /// Whether this element is selectable.
    pub fn selectable(&self) -> (r: bool)
        ensures
            r == self@.selectable,
    {
        self.selectable
    }

    /// Set whether this element is selectable.
    pub fn set_selectable(&mut self, selectable: bool)
        ensures
            final(self)@ == (ElemV { selectable, ..old(self)@ }),
    {
        self.selectable = selectable;
    }

    /// The unresolved text of this element's content.
    pub fn text(&self) -> (r: String)
        ensures
            r@ == content_text(self@.content),
    {
        self.content.to_string()
    }

    /// Replace the content with the given text alone.
    pub fn set_text(&mut self, text: String)
        ensures
            final(self)@ == (ElemV { content: seq![PartV::Text(text@)], ..old(self)@ }),
    {
        self.content = UiElementContent::new_text(text);
    }

    /// Replace the content.
    pub fn set_content(&mut self, content: UiElementContent)
        ensures
            final(self)@ == (ElemV { content: content@, ..old(self)@ }),
    {
        self.content = content;
    }

    /// The dataset this element's children are a template for, if any.
    pub fn dataset(&self) -> (r: &Option<AbsoluteDatasetPath>)
        ensures
            match r {
                Some(p) => self@.dataset == Some(p@),
                None => self@.dataset is None,
            },
    {
        &self.dataset
    }

    /// Change the dataset this element's children are a template for.
    pub fn set_dataset(&mut self, dataset: Option<AbsoluteDatasetPath>)
        ensures
            final(self)@ == (ElemV {
                dataset: match dataset {
                    Some(p) => Some(p@),
                    None => None,
                },
                ..old(self)@
            }),
    {
        self.dataset = dataset;
    }

    /// The text of this element's content, resolved against a row of data.
    pub fn render_content(&self, data: &DatasetData) -> (r: String)
        ensures
            r@ == content_resolved(self@.content, data@),
    {
        self.content.resolve(data)
    }

    /// The text of this element's content: resolved against the row when one
    /// is given, with reference placeholders otherwise.
    pub fn render_content_opt(&self, data: &Option<&DatasetData>) -> (r: String)
        ensures
            match data {
                Some(d) => r@ == content_resolved(self@.content, d@),
                None => r@ == content_text(self@.content),
            },
    {
        match data {
            Some(d) => self.content.resolve(d),
            None => self.text(),
        }
    }

    /// The number of children.
    pub fn child_count(&self) -> (r: usize)
        ensures
            r == (match self@.children {
                Some(c) => c.len(),
                None => 0,
            }),
    {
        match &self.children {
            Some(c) => {
                proof {
                    lemma_elems_seq_view(c@);
                }
                c.len()
            },
            None => 0,
        }
    }

    /// The child at the given index, if there is one.
    pub fn get_child<'a>(&'a self, index: usize) -> (r: Option<&'a UiElement>)
        ensures
            match r {
                Some(c) => self@.children matches Some(cs) && index < cs.len() && c@ == cs[
                    index as int
                ],
                None => self@.children matches Some(cs) ==> index >= cs.len(),
            },
    {
        match &self.children {
            Some(children) => {
                proof {
                    lemma_elems_seq_view(children@);
                }
                if index < children.len() {
                    Some(&children[index])
                } else {
                    None
                }
            },
            None => None,
        }
    }

    /// The children of this element.
    pub fn children(&self) -> (r: &Option<Vec<UiElement>>)
        ensures
            match r {
                Some(c) => self@.children == Some(elems_vec_view(*c)),
                None => self@.children is None,
            },
    {
        &self.children
    }

    /// Insert a child at the given index, shifting later children up. With
    /// no child list, a fresh one is begun, so the index must be zero then.
    pub fn insert_child(&mut self, index: usize, child: UiElement)
        requires
            match old(self)@.children {
                Some(c) => index <= c.len(),
                None => index == 0,
            },
        ensures
            final(self)@ == (ElemV {
                children: Some(
                    match old(self)@.children {
                        Some(c) => c.insert(index as int, child@),
                        None => seq![child@],
                    },
                ),
                ..old(self)@
            }),
    {
        let ghost cv = child@;
        match &mut self.children {
            Some(children) => {
                proof {
                    lemma_elems_seq_view(children@);
                }
                children.insert(index, child);
                proof {
                    lemma_elems_seq_view(children@);
                    assert(elems_seq_view(children@) =~= elems_seq_view(old(self).children->0@)
                        .insert(index as int, cv));
                }
            },
            None => {
                let mut children: Vec<UiElement> = Vec::new();
                children.insert(index, child);
                proof {
                    lemma_elems_seq_view(children@);
                    assert(elems_seq_view(children@) =~= seq![cv]);
                }
                self.children = Some(children);
            },
        }
    }

    /// Add a child after the last one.
    pub fn append_child(&mut self, child: UiElement)
        ensures
            final(self)@ == (ElemV {
                children: Some(
                    match old(self)@.children {
                        Some(c) => c.push(child@),
                        None => seq![child@],
                    },
                ),
                ..old(self)@
            }),
    {
        let index = match &self.children {
            Some(children) => children.len(),
            None => 0,
        };
        proof {
            if old(self)@.children is Some {
                lemma_elems_seq_view(self.children->0@);
                assert(old(self)@.children->0.push(child@) =~= old(self)@.children->0.insert(
                    old(self)@.children->0.len() as int,
                    child@,
                ));
            }
        }
        self.insert_child(index, child);
    }

    /// Remove the child at the given index, shifting later children down;
    /// with no child there, the element is unchanged.
    pub fn delete_child(&mut self, index: usize)
        ensures
            final(self)@ == (ElemV {
                children: match old(self)@.children {
                    Some(c) => Some(
                        if index < c.len() {
                            c.remove(index as int)
                        } else {
                            c
                        },
                    ),
                    None => None,
                },
                ..old(self)@
            }),
    {
        match &mut self.children {
            Some(children) => {
                proof {
                    lemma_elems_seq_view(children@);
                }
                if index < children.len() {
                    children.remove(index);
                    proof {
                        lemma_elems_seq_view(children@);
                        assert(elems_seq_view(children@) =~= elems_seq_view(
                            old(self).children->0@,
                        ).remove(index as int));
                    }
                }
            },
            None => {},
        }
    }
}

/// One operation on an element's child list.
pub enum UiChildOperations {
    /// Insert the element as a child at the given position.
    Insert(usize, UiElement),
    /// Delete the child at the given position.
    Delete(usize),
    /// Move the child at one position to another.
    MoveTo {
        /// Move the child at this position.
        from: usize,
        /// Move the child to this position.
        to: usize,
    },
}

/// The mathematical value of a child-list operation.
pub enum OpV {
    Insert(usize, ElemV),
    Delete(usize),
    MoveTo { from: usize, to: usize },
}

impl View for UiChildOperations {
    type V = OpV;

    open spec fn view(&self) -> OpV {
        match self {
            UiChildOperations::Insert(i, e) => OpV::Insert(*i, elem_view(*e)),
            UiChildOperations::Delete(i) => OpV::Delete(*i),
            UiChildOperations::MoveTo { from, to } => OpV::MoveTo { from: *from, to: *to },
        }
    }
}

impl Clone for UiChildOperations {
    fn clone(&self) -> (r: Self)
        ensures
            r@ == self@,
    {
        match self {
            UiChildOperations::Insert(i, e) => UiChildOperations::Insert(*i, e.clone()),
            UiChildOperations::Delete(i) => UiChildOperations::Delete(*i),
            UiChildOperations::MoveTo { from, to } => UiChildOperations::MoveTo {
                from: *from,
                to: *to,
            },
        }
    }
}

/// The mathematical values of a vector of child-list operations.
pub open spec fn ops_view(s: Seq<UiChildOperations>) -> Seq<OpV> {
    Seq::new(s.len(), |i: int| s[i]@)
}

/// Copy a vector of child-list operations.
#[verifier::loop_isolation(false)]
pub fn clone_op_vec(v: &Vec<UiChildOperations>) -> (r: Vec<UiChildOperations>)
    ensures
        ops_view(r@) == ops_view(v@),
        r@.len() == v@.len(),
{
    let mut out: Vec<UiChildOperations> = Vec::new();
    let mut i: usize = 0;
    while i < v.len()
        invariant
            i <= v.len(),
            out@.len() == i,
            forall|j: int| 0 <= j < i ==> out@[j]@ == v@[j]@,
        decreases v.len() - i,
    {
        out.push(v[i].clone());
        i = i + 1;
    }
    proof {
        assert(ops_view(out@) =~= ops_view(v@));
    }
    out
}

} // verus!
