//! Dataset addressing: a dataset is an ordered list of typed values, named
//! by a path of string segments inside either the public scope or the scope
//! of one peripheral.

use vstd::prelude::*;

use crate::id::SpiderId2048;
use crate::text::{strings_clone, strings_eq, strs_view};

verus! {

/// The scope of an [`AbsoluteDatasetPath`]: either a dataset belonging to
/// the peripheral with the given id, or a public dataset.
pub enum AbsoluteDatasetScope {
    /// The dataset belongs to the peripheral with this id.
    Peripheral(SpiderId2048),
    /// The dataset is public.
    Public,
}

/// The mathematical value of an [`AbsoluteDatasetScope`]: the id is its byte
/// sequence.
pub enum AbsScopeV {
    Peripheral(Seq<u8>),
    Public,
}

impl View for AbsoluteDatasetScope {
    type V = AbsScopeV;

    open spec fn view(&self) -> AbsScopeV {
        match self {
            AbsoluteDatasetScope::Peripheral(id) => AbsScopeV::Peripheral(id@),
            AbsoluteDatasetScope::Public => AbsScopeV::Public,
        }
    }
}

impl Clone for AbsoluteDatasetScope {
    fn clone(&self) -> (r: Self)
        ensures
            r@ == self@,
    {
        match self {
            AbsoluteDatasetScope::Peripheral(id) => AbsoluteDatasetScope::Peripheral(id.clone()),
            AbsoluteDatasetScope::Public => AbsoluteDatasetScope::Public,
        }
    }
}

impl PartialEq for AbsoluteDatasetScope {
    fn eq(&self, other: &Self) -> (r: bool) {
        match (self, other) {
            (AbsoluteDatasetScope::Peripheral(a), AbsoluteDatasetScope::Peripheral(b)) => a.eq(b),
            (AbsoluteDatasetScope::Public, AbsoluteDatasetScope::Public) => true,
            _ => false,
        }
    }
}

impl vstd::std_specs::cmp::PartialEqSpecImpl for AbsoluteDatasetScope {
    open spec fn obeys_eq_spec() -> bool {
        true
    }

    open spec fn eq_spec(&self, other: &AbsoluteDatasetScope) -> bool {
        self@ == other@
    }
}

/// A fully resolved dataset name: a scope and the segments of the name.
pub struct AbsoluteDatasetPath {
    /// Whether the dataset is public or belongs to some peripheral.
    pub scope: AbsoluteDatasetScope,
    /// The segments of the dataset's name within its scope.
    pub name: Vec<String>,
}

/// The mathematical value of an [`AbsoluteDatasetPath`].
pub struct AbsPathV {
    pub scope: AbsScopeV,
    pub name: Seq<Seq<char>>,
}

impl View for AbsoluteDatasetPath {
    type V = AbsPathV;

    open spec fn view(&self) -> AbsPathV {
        AbsPathV { scope: self.scope@, name: strs_view(self.name@) }
    }
}

impl Clone for AbsoluteDatasetPath {
    fn clone(&self) -> (r: Self)
        ensures
            r@ == self@,
    {
        AbsoluteDatasetPath { scope: self.scope.clone(), name: strings_clone(&self.name) }
    }
}

impl PartialEq for AbsoluteDatasetPath {
    fn eq(&self, other: &Self) -> (r: bool) {
        self.scope.eq(&other.scope) && strings_eq(&self.name, &other.name)
    }
}

impl vstd::std_specs::cmp::PartialEqSpecImpl for AbsoluteDatasetPath {
    open spec fn obeys_eq_spec() -> bool {
        true
    }

    open spec fn eq_spec(&self, other: &AbsoluteDatasetPath) -> bool {
        self@ == other@
    }
}

impl AbsoluteDatasetPath {
    /// Create a public path from its name segments.
    pub fn new_public(name: Vec<String>) -> (r: Self)
        ensures
            r@.scope == AbsScopeV::Public,
            r@.name == strs_view(name@),
    {
        AbsoluteDatasetPath { scope: AbsoluteDatasetScope::Public, name }
    }

    /// The scope of this path.
    pub fn scope(&self) -> (r: &AbsoluteDatasetScope)
        ensures
            r@ == self@.scope,
    {
        &self.scope
    }

    /// The segments of the dataset's name.
    pub fn parts(&self) -> (r: &Vec<String>)
        ensures
            strs_view(r@) == self@.name,
    {
        &self.name
    }

    /// Forget which peripheral owns the dataset, keeping only whether it is
    /// public or private.
    pub fn specialize(self) -> (r: DatasetPath)
        ensures
            r@.scope == (match self@.scope {
                AbsScopeV::Peripheral(_) => DatasetScope::Private,
                AbsScopeV::Public => DatasetScope::Public,
            }),
            r@.name == self@.name,
    {
        let scope = match self.scope {
            AbsoluteDatasetScope::Peripheral(_) => DatasetScope::Private,
            AbsoluteDatasetScope::Public => DatasetScope::Public,
        };
        DatasetPath { scope, name: self.name }
    }
}

/// Whether a [`DatasetPath`] names a public dataset or a private one; for a
/// private one, the peripheral that owns it is known from context.
#[derive(Clone, Copy, PartialEq, Eq, Structural, Debug)]
pub enum DatasetScope {
    /// The dataset belongs to some peripheral.
    Private,
    /// The dataset is public.
    Public,
}

/// A dataset name as peripherals state it: a scope and name segments; a
/// private path does not say which peripheral owns the dataset.
pub struct DatasetPath {
    pub scope: DatasetScope,
    pub name: Vec<String>,
}

/// The mathematical value of a [`DatasetPath`].
pub struct PathV {
    pub scope: DatasetScope,
    pub name: Seq<Seq<char>>,
}

impl View for DatasetPath {
    type V = PathV;

    open spec fn view(&self) -> PathV {
        PathV { scope: self.scope, name: strs_view(self.name@) }
    }
}

impl Clone for DatasetPath {
    fn clone(&self) -> (r: Self)
        ensures
            r@ == self@,
    {
        DatasetPath { scope: self.scope, name: strings_clone(&self.name) }
    }
}

impl PartialEq for DatasetPath {
    fn eq(&self, other: &Self) -> (r: bool) {
        self.scope == other.scope && strings_eq(&self.name, &other.name)
    }
}

impl vstd::std_specs::cmp::PartialEqSpecImpl for DatasetPath {
    open spec fn obeys_eq_spec() -> bool {
        true
    }

    open spec fn eq_spec(&self, other: &DatasetPath) -> bool {
        self@ == other@
    }
}

impl DatasetPath {
    /// The scope of this path.
    pub fn scope(&self) -> (r: &DatasetScope)
        ensures
            *r == self@.scope,
    {
        &self.scope
    }

    /// The segments of the dataset's name.
    pub fn parts(&self) -> (r: &Vec<String>)
        ensures
            strs_view(r@) == self@.name,
    {
        &self.name
    }

    /// Create a private path from its name segments.
    pub fn new_private(name: Vec<String>) -> (r: Self)
        ensures
            r@.scope == DatasetScope::Private,
            r@.name == strs_view(name@),
    {
        DatasetPath { scope: DatasetScope::Private, name }
    }

    /// Create a public path from its name segments.
    pub fn new_public(name: Vec<String>) -> (r: Self)
        ensures
            r@.scope == DatasetScope::Public,
            r@.name == strs_view(name@),
    {
        DatasetPath { scope: DatasetScope::Public, name }
    }

    /// Resolve this path against the peripheral with the given id: a private
    /// path becomes that peripheral's, a public path stays public and the id
    /// is unused.
    pub fn resolve(self, id: SpiderId2048) -> (r: AbsoluteDatasetPath)
        ensures
            r@.scope == (match self@.scope {
                DatasetScope::Private => AbsScopeV::Peripheral(id@),
                DatasetScope::Public => AbsScopeV::Public,
            }),
            r@.name == self@.name,
    {
        let scope = match self.scope {
            DatasetScope::Private => AbsoluteDatasetScope::Peripheral(id),
            DatasetScope::Public => AbsoluteDatasetScope::Public,
        };
        AbsoluteDatasetPath { scope, name: self.name }
    }
}

} // verus!
