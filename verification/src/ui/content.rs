//! Element content: a sequence of parts, each either literal text or a
//! reference into a row of dataset data that is resolved at render time.

use vstd::prelude::*;
use vstd::string::{StrSliceExecFns, StringExecFns};

use crate::dataset_data::{data_text, spec_get_property, DataV, DatasetData};
use crate::text::{string_clone, string_eq, strings_clone, strings_eq, strs_view};

verus! {

/// One part of an element's content.
pub enum UiElementContentPart {
    /// Literal text.
    Text(String),
    /// A chain of property names, resolved against a row of dataset data
    /// before rendering.
    Data(Vec<String>),
}

/// The mathematical value of a content part.
pub enum PartV {
    Text(Seq<char>),
    Data(Seq<Seq<char>>),
}

impl View for UiElementContentPart {
    type V = PartV;

    open spec fn view(&self) -> PartV {
        match self {
            UiElementContentPart::Text(s) => PartV::Text(s@),
            UiElementContentPart::Data(props) => PartV::Data(strs_view(props@)),
        }
    }
}

impl Clone for UiElementContentPart {
    fn clone(&self) -> (r: Self)
        ensures
            r@ == self@,
    {
        match self {
            UiElementContentPart::Text(s) => UiElementContentPart::Text(s.clone()),
            UiElementContentPart::Data(props) => UiElementContentPart::Data(strings_clone(props)),
        }
    }
}

impl PartialEq for UiElementContentPart {
    fn eq(&self, other: &Self) -> (r: bool) {
        match (self, other) {
            (UiElementContentPart::Text(a), UiElementContentPart::Text(b)) => string_eq(a, b),
            (UiElementContentPart::Data(a), UiElementContentPart::Data(b)) => strings_eq(a, b),
            _ => false,
        }
    }
}

impl vstd::std_specs::cmp::PartialEqSpecImpl for UiElementContentPart {
    open spec fn obeys_eq_spec() -> bool {
        true
    }

    open spec fn eq_spec(&self, other: &UiElementContentPart) -> bool {
        self@ == other@
    }
}

/// The value a chain of property names selects from a row of data, reading
/// one property at a time.
pub open spec fn chain_get(d: DataV, props: Seq<Seq<char>>) -> DataV
    decreases props.len(),
{
    if props.len() == 0 {
        d
    } else {
        spec_get_property(chain_get(d, props.drop_last()), props.last())
    }
}

/// A sequence of names joined with dots.
pub open spec fn dotted(ps: Seq<Seq<char>>) -> Seq<char>
    decreases ps.len(),
{
    if ps.len() == 0 {
        Seq::empty()
    } else if ps.len() == 1 {
        ps[0]
    } else {
        dotted(ps.subrange(0, ps.len() - 1)) + seq!['.'] + ps.last()
    }
}

/// The unresolved text of a content part: literal text as itself, a data
/// reference as its dotted property chain in angle brackets.
pub open spec fn part_text(p: PartV) -> Seq<char> {
    match p {
        PartV::Text(s) => s,
        PartV::Data(props) => seq!['<'] + dotted(props) + seq!['>'],
    }
}

/// The resolved text of a content part against a row of data.
pub open spec fn part_resolved(p: PartV, d: DataV) -> Seq<char> {
    match p {
        PartV::Text(s) => s,
        PartV::Data(props) => data_text(chain_get(d, props)),
    }
}

/// The unresolved text of a whole content: its parts' texts concatenated.
pub open spec fn content_text(parts: Seq<PartV>) -> Seq<char>
    decreases parts.len(),
{
    if parts.len() == 0 {
        Seq::empty()
    } else {
        content_text(parts.drop_last()) + part_text(parts.last())
    }
}

/// The resolved text of a whole content against a row of data.
pub open spec fn content_resolved(parts: Seq<PartV>, d: DataV) -> Seq<char>
    decreases parts.len(),
{
    if parts.len() == 0 {
        Seq::empty()
    } else {
        content_resolved(parts.drop_last(), d) + part_resolved(parts.last(), d)
    }
}

impl UiElementContentPart {
    /// The unresolved text of this part; a data reference renders as its
    /// dotted property chain in angle brackets, e.g. `<name>`.
    #[verifier::loop_isolation(false)]
    pub fn to_string(&self) -> (r: String)
        ensures
            r@ == part_text(self@),
    {
        match self {
            UiElementContentPart::Text(s) => s.clone(),
            UiElementContentPart::Data(props) => {
                proof {
                    reveal_strlit("<");
                    reveal_strlit(">");
                    reveal_strlit(".");
                }
                let ghost pv = strs_view(props@);
                let mut r: String = String::from_str("<");
                let mut i: usize = 0;
                proof {
                    assert(r@ =~= seq!['<'] + dotted(pv.subrange(0, 0)));
                }
                while i < props.len()
                    invariant
                        i <= props.len(),
                        r@ == seq!['<'] + dotted(pv.subrange(0, i as int)),
                    decreases props.len() - i,
                {
                    if i > 0 {
                        r.append(".");
                    }
                    r.append(props[i].as_str());
                    proof {
                        let pre = pv.subrange(0, i as int);
                        let next = pv.subrange(0, i + 1);
                        assert(next.subrange(0, next.len() - 1) =~= pre);
                        assert(next.last() == props@[i as int]@);
                        if i == 0 {
                            assert(next.len() == 1);
                            assert(next[0] == props@[0]@);
                        }
                        assert(r@ =~= seq!['<'] + dotted(next));
                    }
                    i = i + 1;
                }
                r.append(">");
                proof {
                    assert(pv.subrange(0, pv.len() as int) =~= pv);
                    assert(r@ =~= part_text(self@));
                }
                r
            },
        }
    }

    /// The text of this part resolved against a row of data: a data
    /// reference walks its property chain and renders what it finds.
    #[verifier::loop_isolation(false)]
    pub fn resolve(&self, data: &DatasetData) -> (r: String)
        ensures
            r@ == part_resolved(self@, data@),
    {
        match self {
            UiElementContentPart::Text(s) => s.clone(),
            UiElementContentPart::Data(props) => {
                let ghost pv = strs_view(props@);
                let mut cursor: &DatasetData = data;
                let mut i: usize = 0;
                proof {
                    assert(pv.subrange(0, 0) =~= Seq::<Seq<char>>::empty());
                }
                while i < props.len()
                    invariant
                        i <= props.len(),
                        cursor@ == chain_get(data@, pv.subrange(0, i as int)),
                    decreases props.len() - i,
                {
                    cursor = cursor.get_property(&props[i]);
                    proof {
                        let next = pv.subrange(0, i + 1);
                        assert(next.drop_last() =~= pv.subrange(0, i as int));
                        assert(next.last() == props@[i as int]@);
                    }
                    i = i + 1;
                }
                proof {
                    assert(pv.subrange(0, pv.len() as int) =~= pv);
                }
                cursor.to_string()
            },
        }
    }
}

/// The content a UiElement renders: a sequence of parts.
pub struct UiElementContent {
    pub parts: Vec<UiElementContentPart>,
}

/// The mathematical values of a vector of content parts.
pub open spec fn parts_view(v: Seq<UiElementContentPart>) -> Seq<PartV> {
    Seq::new(v.len(), |i: int| v[i]@)
}

impl View for UiElementContent {
    type V = Seq<PartV>;

    open spec fn view(&self) -> Seq<PartV> {
        parts_view(self.parts@)
    }
}

impl Clone for UiElementContent {
    #[verifier::loop_isolation(false)]
    fn clone(&self) -> (r: Self)
        ensures
            r@ == self@,
    {
        let mut out: Vec<UiElementContentPart> = Vec::new();
        let mut i: usize = 0;
        while i < self.parts.len()
            invariant
                i <= self.parts.len(),
                out@.len() == i,
                forall|j: int| 0 <= j < i ==> out@[j]@ == self.parts@[j]@,
            decreases self.parts.len() - i,
        {
            out.push(self.parts[i].clone());
            i = i + 1;
        }
        let r = UiElementContent { parts: out };
        proof {
            assert(r@ =~= self@);
        }
        r
    }
}

impl PartialEq for UiElementContent {
    #[verifier::loop_isolation(false)]
    fn eq(&self, other: &Self) -> (r: bool) {
        if self.parts.len() != other.parts.len() {
            proof {
                assert(self@.len() != other@.len());
            }
            return false;
        }
        let mut i: usize = 0;
        while i < self.parts.len()
            invariant
                i <= self.parts.len(),
                self.parts@.len() == other.parts@.len(),
                forall|j: int| 0 <= j < i ==> self.parts@[j]@ == other.parts@[j]@,
            decreases self.parts.len() - i,
        {
            if !self.parts[i].eq(&other.parts[i]) {
                proof {
                    assert(self@[i as int] != other@[i as int]);
                }
                return false;
            }
            i = i + 1;
        }
        proof {
            assert(self@ =~= other@);
        }
        true
    }
}

impl vstd::std_specs::cmp::PartialEqSpecImpl for UiElementContent {
    open spec fn obeys_eq_spec() -> bool {
        true
    }

    open spec fn eq_spec(&self, other: &UiElementContent) -> bool {
        self@ == other@
    }
}

impl UiElementContent {
    /// Create an empty content.
    pub fn new() -> (r: Self)
        ensures
            r@ == Seq::<PartV>::empty(),
    {
        let r = UiElementContent { parts: Vec::new() };
        proof {
            assert(r@ =~= Seq::<PartV>::empty());
        }
        r
    }

    /// Create a content holding the given text alone.
    pub fn new_text(text: String) -> (r: Self)
        ensures
            r@ == seq![PartV::Text(text@)],
    {
        let ghost tv = text@;
        let mut parts: Vec<UiElementContentPart> = Vec::new();
        parts.push(UiElementContentPart::Text(text));
        let r = UiElementContent { parts };
        proof {
            assert(r@ =~= seq![PartV::Text(tv)]);
        }
        r
    }

    /// Create a content holding a single one-step data reference.
    pub fn new_data(property: String) -> (r: Self)
        ensures
            r@ == seq![PartV::Data(seq![property@])],
    {
        let ghost pv = property@;
        let mut props: Vec<String> = Vec::new();
        props.push(property);
        proof {
            assert(strs_view(props@) =~= seq![pv]);
        }
        let mut parts: Vec<UiElementContentPart> = Vec::new();
        parts.push(UiElementContentPart::Data(props));
        let r = UiElementContent { parts };
        proof {
            assert(r@ =~= seq![PartV::Data(seq![pv])]);
        }
        r
    }

    /// Create a content holding a single data reference with the given
    /// property chain.
    pub fn new_data_path(props: Vec<String>) -> (r: Self)
        ensures
            r@ == seq![PartV::Data(strs_view(props@))],
    {
        let ghost pv = strs_view(props@);
        let mut parts: Vec<UiElementContentPart> = Vec::new();
        parts.push(UiElementContentPart::Data(props));
        let r = UiElementContent { parts };
        proof {
            assert(r@ =~= seq![PartV::Data(pv)]);
        }
        r
    }

    /// Add a part at the end of the sequence.
    pub fn add_part(&mut self, part: UiElementContentPart)
        ensures
            final(self)@ == old(self)@.push(part@),
    {
        let ghost pv = part@;
        self.parts.push(part);
        proof {
            assert(self@ =~= old(self)@.push(pv));
        }
    }

    /// The resolved text of the content against a row of data.
    #[verifier::loop_isolation(false)]
    pub fn resolve(&self, data: &DatasetData) -> (r: String)
        ensures
            r@ == content_resolved(self@, data@),
    {
        let mut r: String = String::new();
        let mut i: usize = 0;
        proof {
            assert(r@ =~= content_resolved(self@.subrange(0, 0), data@));
        }
        while i < self.parts.len()
            invariant
                i <= self.parts.len(),
                r@ == content_resolved(self@.subrange(0, i as int), data@),
            decreases self.parts.len() - i,
        {
            let part = self.parts[i].resolve(data);
            r.append(part.as_str());
            proof {
                let next = self@.subrange(0, i + 1);
                assert(next.drop_last() =~= self@.subrange(0, i as int));
                assert(next.last() == self.parts@[i as int]@);
            }
            i = i + 1;
        }
        proof {
            assert(self@.subrange(0, self@.len() as int) =~= self@);
        }
        r
    }

    /// The unresolved text of the content; data references render as their
    /// dotted property chains in angle brackets.
    #[verifier::loop_isolation(false)]
    pub fn to_string(&self) -> (r: String)
        ensures
            r@ == content_text(self@),
    {
        let mut r: String = String::new();
        let mut i: usize = 0;
        proof {
            assert(r@ =~= content_text(self@.subrange(0, 0)));
        }
        while i < self.parts.len()
            invariant
                i <= self.parts.len(),
                r@ == content_text(self@.subrange(0, i as int)),
            decreases self.parts.len() - i,
        {
            let part = self.parts[i].to_string();
            r.append(part.as_str());
            proof {
                let next = self@.subrange(0, i + 1);
                assert(next.drop_last() =~= self@.subrange(0, i as int));
                assert(next.last() == self.parts@[i as int]@);
            }
            i = i + 1;
        }
        proof {
            assert(self@.subrange(0, self@.len() as int) =~= self@);
        }
        r
    }
}

} // verus!
