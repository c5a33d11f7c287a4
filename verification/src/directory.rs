//! Directory entries: what the base knows about another member of the
//! network, as a set of named properties on its relation.

use vstd::prelude::*;

use crate::relation::{Relation, RelV};
use crate::text::{string_clone, string_eq};

verus! {

broadcast use vstd::std_specs::vec::group_vec_axioms;

/// What the base knows about one other member: its relation, and properties
/// such as its self-chosen name, the nickname the operator gave it, and
/// whether it is blocked.
pub struct DirectoryEntry {
    pub relation: Relation,
    pub properties: Vec<(String, String)>,
}

/// The mathematical value of a directory entry.
pub struct DirEntryV {
    pub relation: RelV,
    pub properties: Seq<(Seq<char>, Seq<char>)>,
}

/// The mathematical values of a property list.
pub open spec fn props_view(s: Seq<(String, String)>) -> Seq<(Seq<char>, Seq<char>)> {
    Seq::new(s.len(), |i: int| (s[i].0@, s[i].1@))
}

/// The value stored under a key; the first entry wins.
pub open spec fn prop_of(s: Seq<(Seq<char>, Seq<char>)>, key: Seq<char>) -> Option<Seq<char>>
    decreases s.len(),
{
    if s.len() == 0 {
        None
    } else if s[0].0 == key {
        Some(s[0].1)
    } else {
        prop_of(s.skip(1), key)
    }
}

/// No key occurs twice.
pub open spec fn props_wf(s: Seq<(Seq<char>, Seq<char>)>) -> bool {
    forall|i: int, j: int| 0 <= i < j < s.len() ==> s[i].0 != s[j].0
}

impl View for DirectoryEntry {
    type V = DirEntryV;

    open spec fn view(&self) -> DirEntryV {
        DirEntryV { relation: self.relation@, properties: props_view(self.properties@) }
    }
}

impl Clone for DirectoryEntry {
    #[verifier::loop_isolation(false)]
    fn clone(&self) -> (r: Self)
        ensures
            r@ == self@,
    {
        let mut props: Vec<(String, String)> = Vec::new();
        let mut i: usize = 0;
        while i < self.properties.len()
            invariant
                i <= self.properties@.len(),
                props@.len() == i,
                forall|j: int|
                    0 <= j < i ==> props@[j].0@ == self.properties@[j].0@ && props@[j].1@
                        == self.properties@[j].1@,
            decreases self.properties@.len() - i,
        {
            props.push((self.properties[i].0.clone(), self.properties[i].1.clone()));
            i = i + 1;
        }
        let r = DirectoryEntry { relation: self.relation.clone(), properties: props };
        proof {
            assert(props_view(props@) =~= props_view(self.properties@));
        }
        r
    }
}

impl DirectoryEntry {
    /// Each property key is stored once.
    pub open spec fn wf(&self) -> bool {
        props_wf(self@.properties)
    }

    /// A fresh entry for a relation, with no properties.
    pub fn new(rel: Relation) -> (r: Self)
        ensures
            r@.relation == rel@,
            r@.properties == Seq::<(Seq<char>, Seq<char>)>::empty(),
            r.wf(),
    {
        let r = DirectoryEntry { relation: rel, properties: Vec::new() };
        proof {
            assert(r@.properties =~= Seq::<(Seq<char>, Seq<char>)>::empty());
        }
        r
    }

    /// The relation this entry describes.
    pub fn relation(&self) -> (r: &Relation)
        ensures
            r@ == self@.relation,
    {
        &self.relation
    }

    /// The value of a property.
    #[verifier::loop_isolation(false)]
    pub fn get(&self, key: &str) -> (r: Option<&String>)
        ensures
            match r {
                Some(v) => prop_of(self@.properties, key@) == Some(v@),
                None => prop_of(self@.properties, key@) is None,
            },
    {
        let keystr: String = key.to_owned();
        let mut i: usize = 0;
        while i < self.properties.len()
            invariant
                i <= self.properties@.len(),
                keystr@ == key@,
                forall|j: int| 0 <= j < i ==> self@.properties[j].0 != key@,
            decreases self.properties@.len() - i,
        {
            if string_eq(&self.properties[i].0, &keystr) {
                proof {
                    lemma_prop_of_found(self@.properties, key@, i as int);
                }
                return Some(&self.properties[i].1);
            }
            i = i + 1;
        }
        proof {
            lemma_prop_of_absent(self@.properties, key@);
        }
        None
    }

    /// Set the value of a property, replacing an earlier value for the same
    /// key.
    #[verifier::loop_isolation(false)]
    pub fn set(&mut self, key: String, value: String)
        requires
            old(self).wf(),
        ensures
            final(self).wf(),
            final(self)@.relation == old(self)@.relation,
            prop_of(final(self)@.properties, key@) == Some(value@),
            forall|q: Seq<char>|
                q != key@ ==> prop_of(final(self)@.properties, q) == prop_of(
                    old(self)@.properties,
                    q,
                ),
    {
        let mut i: usize = 0;
        while i < self.properties.len()
            invariant
                self@ == old(self)@,
                i <= self.properties@.len(),
                forall|j: int| 0 <= j < i ==> self@.properties[j].0 != key@,
            decreases self.properties@.len() - i,
        {
            if string_eq(&self.properties[i].0, &key) {
                let entry = &mut self.properties[i];
                entry.1 = value;
                proof {
                    assert(self@.properties =~= old(self)@.properties.update(
                        i as int,
                        (key@, self@.properties[i as int].1),
                    ));
                    lemma_prop_of_update(old(self)@.properties, i as int, key@, value@);
                }
                return ;
            }
            i = i + 1;
        }
        self.properties.push((key, value));
        proof {
            assert(self@.properties =~= old(self)@.properties.push(
                (self@.properties.last().0, self@.properties.last().1),
            ));
            lemma_prop_of_push(old(self)@.properties, self@.properties.last().0,
                self@.properties.last().1);
            assert forall|x: int, y: int|
                0 <= x < y < self@.properties.len() implies self@.properties[x].0
                != self@.properties[y].0 by {
                if y < self@.properties.len() - 1 {
                    assert(self@.properties[x] == old(self)@.properties[x]);
                    assert(self@.properties[y] == old(self)@.properties[y]);
                } else {
                    assert(self@.properties[x] == old(self)@.properties[x]);
                }
            }
        }
    }
}

proof fn lemma_prop_of_found(s: Seq<(Seq<char>, Seq<char>)>, key: Seq<char>, i: int)
    requires
        0 <= i < s.len(),
        s[i].0 == key,
        forall|j: int| 0 <= j < i ==> s[j].0 != key,
    ensures
        prop_of(s, key) == Some(s[i].1),
    decreases i,
{
    if i > 0 {
        assert forall|j: int| 0 <= j < i - 1 implies s.skip(1)[j].0 != key by {
            assert(s.skip(1)[j] == s[j + 1]);
        }
        assert(s.skip(1)[i - 1] == s[i]);
        lemma_prop_of_found(s.skip(1), key, i - 1);
    }
}

proof fn lemma_prop_of_absent(s: Seq<(Seq<char>, Seq<char>)>, key: Seq<char>)
    requires
        forall|j: int| 0 <= j < s.len() ==> s[j].0 != key,
    ensures
        prop_of(s, key) is None,
    decreases s.len(),
{
    if s.len() > 0 {
        assert forall|j: int| 0 <= j < s.skip(1).len() implies s.skip(1)[j].0 != key by {
            assert(s.skip(1)[j] == s[j + 1]);
        }
        lemma_prop_of_absent(s.skip(1), key);
    }
}

proof fn lemma_prop_of_update(s: Seq<(Seq<char>, Seq<char>)>, i: int, key: Seq<char>, v: Seq<char>)
    requires
        props_wf(s),
        0 <= i < s.len(),
        s[i].0 == key,
    ensures
        props_wf(s.update(i, (key, v))),
        prop_of(s.update(i, (key, v)), key) == Some(v),
        forall|q: Seq<char>| q != key ==> prop_of(s.update(i, (key, v)), q) == prop_of(s, q),
    decreases s.len(),
{
    let t = s.update(i, (key, v));
    assert forall|x: int, y: int| 0 <= x < y < t.len() implies t[x].0 != t[y].0 by {
        assert(t[x].0 == s[x].0);
        assert(t[y].0 == s[y].0);
    }
    if i == 0 {
        assert(t[0] == (key, v));
        assert(t.skip(1) =~= s.skip(1));
        assert forall|q: Seq<char>| q != key implies prop_of(t, q) == prop_of(s, q) by {
            assert(prop_of(t, q) == prop_of(t.skip(1), q));
            assert(prop_of(s, q) == prop_of(s.skip(1), q));
        }
    } else {
        assert(t[0] == s[0]);
        assert(t.skip(1) =~= s.skip(1).update(i - 1, (key, v)));
        assert forall|x: int, y: int| 0 <= x < y < s.skip(1).len() implies s.skip(1)[x].0 != s.skip(
            1,
        )[y].0 by {
            assert(s.skip(1)[x] == s[x + 1]);
            assert(s.skip(1)[y] == s[y + 1]);
        }
        assert(s.skip(1)[i - 1] == s[i]);
        lemma_prop_of_update(s.skip(1), i - 1, key, v);
        assert(s[0].0 != key);
        assert forall|q: Seq<char>| q != key implies prop_of(t, q) == prop_of(s, q) by {
            if t[0].0 != q {
                assert(prop_of(t, q) == prop_of(t.skip(1), q));
                assert(prop_of(s, q) == prop_of(s.skip(1), q));
            }
        }
        assert(prop_of(t, key) == prop_of(t.skip(1), key));
    }
}

proof fn lemma_prop_of_push(s: Seq<(Seq<char>, Seq<char>)>, key: Seq<char>, v: Seq<char>)
    requires
        forall|j: int| 0 <= j < s.len() ==> s[j].0 != key,
    ensures
        prop_of(s.push((key, v)), key) == Some(v),
        forall|q: Seq<char>| q != key ==> prop_of(s.push((key, v)), q) == prop_of(s, q),
    decreases s.len(),
{
    let t = s.push((key, v));
    if s.len() == 0 {
        assert(t[0] == (key, v));
        assert forall|q: Seq<char>| q != key implies prop_of(t, q) == prop_of(s, q) by {
            assert(prop_of(t, q) == prop_of(t.skip(1), q));
            assert(t.skip(1).len() == 0);
        }
    } else {
        assert(t[0] == s[0]);
        assert(t.skip(1) =~= s.skip(1).push((key, v)));
        assert forall|j: int| 0 <= j < s.skip(1).len() implies s.skip(1)[j].0 != key by {
            assert(s.skip(1)[j] == s[j + 1]);
        }
        lemma_prop_of_push(s.skip(1), key, v);
        assert(s[0].0 != key);
        assert(prop_of(t, key) == prop_of(t.skip(1), key));
        assert forall|q: Seq<char>| q != key implies prop_of(t, q) == prop_of(s, q) by {
            if t[0].0 != q {
                assert(prop_of(t, q) == prop_of(t.skip(1), q));
                assert(prop_of(s, q) == prop_of(s.skip(1), q));
            }
        }
    }
}

} // verus!
