//! The dataset store's logic: how each operation changes a dataset, which
//! directory a dataset lives in, and who is told after a change. Reading and
//! writing the files themselves happens outside the library.

use vstd::prelude::*;
use vstd::string::StringExecFns;

use crate::dataset::{AbsoluteDatasetPath, AbsoluteDatasetScope, AbsPathV, AbsScopeV};
use crate::dataset_data::{data_seq_view, lemma_data_seq_view, DataV, DatasetData};
use crate::encodings::sha256_hex;
use crate::id::SpiderId2048;
use crate::relation::{Relation, RelV};
use crate::text::strs_view;

verus! {

broadcast use vstd::std_specs::vec::group_vec_axioms;

/// Append one entry to a dataset.
pub fn dataset_append(data: &mut Vec<DatasetData>, item: DatasetData)
    ensures
        data_seq_view(final(data)@) == data_seq_view(old(data)@).push(item@),
{
    let ghost iv = item@;
    data.push(item);
    proof {
        lemma_data_seq_view(data@);
        lemma_data_seq_view(old(data)@);
        assert(data_seq_view(data@) =~= data_seq_view(old(data)@).push(iv));
    }
}

/// Append a batch of entries to a dataset.
#[verifier::loop_isolation(false)]
pub fn dataset_extend(data: &mut Vec<DatasetData>, items: Vec<DatasetData>)
    ensures
        data_seq_view(final(data)@) == data_seq_view(old(data)@) + data_seq_view(items@),
{
    let ghost itemsv = data_seq_view(items@);
    let mut items = items;
    let n = items.len();
    let mut i: usize = 0;
    proof {
        lemma_data_seq_view(items@);
        lemma_data_seq_view(data@);
        assert(data_seq_view(data@) =~= data_seq_view(old(data)@) + itemsv.subrange(0, 0));
    }
    while i < n
        invariant
            i <= n,
            n == itemsv.len(),
            items@.len() == n - i,
            forall|j: int| 0 <= j < n - i ==> items@[j]@ == itemsv[j + i],
            data_seq_view(data@) == data_seq_view(old(data)@) + itemsv.subrange(0, i as int),
        decreases n - i,
    {
        let ghost previtems = items@;
        let item = items.remove(0);
        let ghost itemv = item@;
        let ghost pre = data@;
        proof {
            assert(previtems[0]@ == itemsv[i as int]);
        }
        data.push(item);
        proof {
            lemma_data_seq_view(data@);
            lemma_data_seq_view(pre);
            assert forall|j: int| 0 <= j < n - (i + 1) implies items@[j]@ == itemsv[j + i + 1] by {
                assert(items@[j] == previtems[j + 1]);
            }
            assert(data@[pre.len() as int]@ == itemv);
            assert(itemsv[i as int] == itemv);
            assert(data_seq_view(pre).len() == pre.len());
            assert(pre.len() == old(data)@.len() + i);
            let target = data_seq_view(old(data)@) + itemsv.subrange(0, (i + 1) as int);
            assert forall|j: int|
                0 <= j < data@.len() implies data_seq_view(data@)[j] == target[j] by {
                if j < pre.len() {
                    assert(data@[j] == pre[j]);
                    assert(data_seq_view(pre)[j] == pre[j]@);
                } else {
                    assert(data@[j]@ == itemv);
                }
            }
            assert(data_seq_view(data@) =~= target);
        }
        i = i + 1;
    }
    proof {
        assert(itemsv.subrange(0, n as int) =~= itemsv);
    }
}

/// Set the entry at a position: a position past the end first pads the
/// dataset with nulls, so the dataset ends exactly one past it.
#[verifier::loop_isolation(false)]
pub fn dataset_set_element(data: &mut Vec<DatasetData>, id: usize, item: DatasetData)
    requires
        old(data)@.len() < usize::MAX,
    ensures
        data_seq_view(final(data)@).len() == (if (id as int) < old(data)@.len() {
            old(data)@.len() as int
        } else {
            id + 1
        }),
        data_seq_view(final(data)@)[id as int] == item@,
        forall|j: int|
            0 <= j < old(data)@.len() && j != id ==> data_seq_view(final(data)@)[j]
                == data_seq_view(old(data)@)[j],
        forall|j: int|
            old(data)@.len() <= j < id ==> data_seq_view(final(data)@)[j] == DataV::Null,
{
    proof {
        lemma_data_seq_view(data@);
    }
    while data.len() <= id
        invariant
            data@.len() <= (if (id as int) < old(data)@.len() {
                old(data)@.len() as int
            } else {
                id + 1
            }),
            data@.len() >= old(data)@.len(),
            forall|j: int| 0 <= j < old(data)@.len() ==> data@[j]@ == old(data)@[j]@,
            forall|j: int| old(data)@.len() <= j < data@.len() ==> data@[j]@ == DataV::Null,
        decreases id + 1 - data@.len(),
    {
        data.push(DatasetData::Null);
    }
    let ghost pre = data@;
    data.set(id, item);
    proof {
        lemma_data_seq_view(data@);
        lemma_data_seq_view(old(data)@);
    }
}

/// Set the entries from a position on: positions past the end first pad the
/// dataset with nulls, so the dataset covers them all.
#[verifier::loop_isolation(false)]
pub fn dataset_set_elements(data: &mut Vec<DatasetData>, id: usize, items: Vec<DatasetData>)
    requires
        id + items@.len() <= usize::MAX,
    ensures
        data_seq_view(final(data)@).len() == (if id + items@.len() <= old(data)@.len() {
            old(data)@.len() as int
        } else {
            id + items@.len()
        }),
        forall|j: int|
            0 <= j < items@.len() ==> data_seq_view(final(data)@)[id + j] == data_seq_view(
                items@,
            )[j],
        forall|j: int|
            0 <= j < old(data)@.len() && !(id <= j < id + items@.len()) ==> data_seq_view(
                final(data)@,
            )[j] == data_seq_view(old(data)@)[j],
        forall|j: int|
            old(data)@.len() <= j < id ==> data_seq_view(final(data)@)[j] == DataV::Null,
{
    let ghost itemsv = data_seq_view(items@);
    proof {
        lemma_data_seq_view(items@);
        lemma_data_seq_view(data@);
    }
    let mut items = items;
    let n = items.len();
    let target: usize = id + n;
    while data.len() < target
        invariant
            target == id + n,
            data@.len() <= (if target <= old(data)@.len() {
                old(data)@.len() as int
            } else {
                target as int
            }),
            data@.len() >= old(data)@.len(),
            forall|j: int| 0 <= j < old(data)@.len() ==> data@[j]@ == old(data)@[j]@,
            forall|j: int| old(data)@.len() <= j < data@.len() ==> data@[j]@ == DataV::Null,
        decreases target - data@.len(),
    {
        data.push(DatasetData::Null);
    }
    let mut k: usize = 0;
    while k < n
        invariant
            k <= n,
            n == itemsv.len(),
            target == id + n,
            items@.len() == n - k,
            forall|j: int| 0 <= j < n - k ==> items@[j]@ == itemsv[j + k],
            data@.len() == (if target <= old(data)@.len() {
                old(data)@.len() as int
            } else {
                target as int
            }),
            forall|j: int| 0 <= j < k ==> data@[id + j]@ == itemsv[j],
            forall|j: int|
                0 <= j < old(data)@.len() && !(id <= j < id + k) ==> data@[j]@ == old(
                    data,
                )@[j]@,
            forall|j: int|
                old(data)@.len() <= j < data@.len() && !(id <= j < id + k) ==> data@[j]@
                    == DataV::Null,
        decreases n - k,
    {
        let ghost previtems = items@;
        let item = items.remove(0);
        data.set(id + k, item);
        proof {
            assert forall|j: int| 0 <= j < n - (k + 1) implies items@[j]@ == itemsv[j + k + 1] by {
                assert(items@[j] == previtems[j + 1]);
            }
        }
        k = k + 1;
    }
    proof {
        lemma_data_seq_view(data@);
        lemma_data_seq_view(old(data)@);
    }
}

/// Remove the entry at a position, shifting later entries down; a position
/// at or past the end leaves the dataset unchanged.
pub fn dataset_delete_element(data: &mut Vec<DatasetData>, id: usize)
    ensures
        (id as int) < old(data)@.len() ==> data_seq_view(final(data)@) == data_seq_view(
            old(data)@,
        ).remove(id as int),
        (id as int) >= old(data)@.len() ==> final(data)@ == old(data)@,
{
    if id < data.len() {
        data.remove(id);
        proof {
            lemma_data_seq_view(data@);
            lemma_data_seq_view(old(data)@);
            assert(data_seq_view(data@) =~= data_seq_view(old(data)@).remove(id as int));
        }
    }
}

/// Remove every entry.
pub fn dataset_empty(data: &mut Vec<DatasetData>)
    ensures
        final(data)@.len() == 0,
{
    data.clear();
}

/// The directory a dataset lives under: `public` for the public scope, the
/// hex digest of the owner's id for a peripheral's scope, then the name
/// segments.
#[verifier::loop_isolation(false)]
pub fn dataset_file_segments(path: &AbsoluteDatasetPath) -> (r: Vec<String>)
    ensures
        strs_view(r@).len() == path@.name.len() + 1,
        strs_view(r@)[0] == (match path@.scope {
            AbsScopeV::Peripheral(id) => sha256_hex(id),
            AbsScopeV::Public => "public"@,
        }),
        forall|j: int| 0 <= j < path@.name.len() ==> strs_view(r@)[j + 1] == path@.name[j],
{
    proof {
        reveal_strlit("public");
    }
    let mut out: Vec<String> = Vec::new();
    let first: String = match &path.scope {
        AbsoluteDatasetScope::Peripheral(id) => id.sha256(),
        AbsoluteDatasetScope::Public => {
            let s: String = String::from_str("public");
            s
        },
    };
    out.push(first);
    let mut i: usize = 0;
    while i < path.name.len()
        invariant
            i <= path.name@.len(),
            out@.len() == i + 1,
            strs_view(out@)[0] == (match path@.scope {
                AbsScopeV::Peripheral(id) => sha256_hex(id),
                AbsScopeV::Public => "public"@,
            }),
            forall|j: int| 0 <= j < i ==> strs_view(out@)[j + 1] == path@.name[j],
        decreases path.name@.len() - i,
    {
        out.push(path.name[i].clone());
        i = i + 1;
    }
    out
}

/// Who watches a dataset: the interface engine, at most once, and any number
/// of peripherals.
pub struct DatasetSubscribers {
    /// Whether the interface engine watches the dataset.
    pub ui: bool,
    /// The peripherals that watch it.
    pub peripherals: Vec<SpiderId2048>,
}

/// The ids of a sequence of subscribers.
pub open spec fn ids_of(s: Seq<SpiderId2048>) -> Seq<Seq<u8>> {
    Seq::new(s.len(), |i: int| s[i]@)
}

/// The subscription table of the dataset store: who watches each path.
pub struct DatasetSubscriptions {
    pub rows: Vec<(AbsoluteDatasetPath, DatasetSubscribers)>,
}

/// The keys of the subscription rows.
pub open spec fn sub_paths(s: Seq<(AbsoluteDatasetPath, DatasetSubscribers)>) -> Seq<AbsPathV> {
    Seq::new(s.len(), |i: int| s[i].0@)
}

/// The row stored for a path; the first row wins.
pub open spec fn sub_row(s: Seq<(AbsoluteDatasetPath, DatasetSubscribers)>, p: AbsPathV) -> Option<
    (bool, Seq<Seq<u8>>),
>
    decreases s.len(),
{
    if s.len() == 0 {
        None
    } else if s[0].0@ == p {
        Some((s[0].1.ui, ids_of(s[0].1.peripherals@)))
    } else {
        sub_row(s.skip(1), p)
    }
}

impl DatasetSubscriptions {
    /// Each path has at most one row, and every kept row has a watcher: the
    /// interface marker or at least one peripheral.
    pub open spec fn wf(&self) -> bool {
        &&& forall|i: int, j: int|
            0 <= i < j < self.rows@.len() ==> sub_paths(self.rows@)[i] != sub_paths(self.rows@)[j]
        &&& forall|i: int|
            0 <= i < self.rows@.len() ==> (#[trigger] self.rows@[i]).1.ui
                || self.rows@[i].1.peripherals@.len() > 0
    }

    /// A fresh table: nobody watches anything.
    pub fn new() -> (r: Self)
        ensures
            r.rows@.len() == 0,
            r.wf(),
    {
        DatasetSubscriptions { rows: Vec::new() }
    }

    /// The position of a path's row.
    #[verifier::loop_isolation(false)]
    fn find(&self, path: &AbsoluteDatasetPath) -> (r: Option<usize>)
        ensures
            match r {
                Some(i) => i < self.rows@.len() && self.rows@[i as int].0@ == path@ && forall|
                    j: int,
                |
                    0 <= j < i ==> sub_paths(self.rows@)[j] != path@,
                None => forall|j: int|
                    0 <= j < self.rows@.len() ==> sub_paths(self.rows@)[j] != path@,
            },
    {
        let mut i: usize = 0;
        while i < self.rows.len()
            invariant
                i <= self.rows@.len(),
                forall|j: int| 0 <= j < i ==> sub_paths(self.rows@)[j] != path@,
            decreases self.rows@.len() - i,
        {
            if self.rows[i].0.eq(path) {
                return Some(i);
            }
            i = i + 1;
        }
        None
    }

    /// Record the interface engine watching a path. True exactly when it was
    /// not watching before, so the current entries must be sent once. Other
    /// rows and the path's peripherals are untouched.
    pub fn subscribe_ui(&mut self, path: &AbsoluteDatasetPath) -> (is_new: bool)
        requires
            old(self).wf(),
        ensures
            final(self).wf(),
            is_new == !(match sub_row(old(self).rows@, path@) {
                Some(row) => row.0,
                None => false,
            }),
            sub_row(final(self).rows@, path@) == Some(
                (
                    true,
                    match sub_row(old(self).rows@, path@) {
                        Some(row) => row.1,
                        None => Seq::<Seq<u8>>::empty(),
                    },
                ),
            ),
            forall|q: AbsPathV|
                q != path@ ==> sub_row(final(self).rows@, q) == sub_row(old(self).rows@, q),
    {
        match self.find(path) {
            Some(i) => {
                proof {
                    lemma_sub_row_found(old(self).rows@, path@, i as int);
                }
                let ghost pre = self.rows@;
                let row = &mut self.rows[i];
                let was = row.1.ui;
                row.1.ui = true;
                proof {
                    assert(self.rows@ =~= pre.update(
                        i as int,
                        (pre[i as int].0, self.rows@[i as int].1),
                    ));
                    assert(ids_of(self.rows@[i as int].1.peripherals@) =~= ids_of(
                        pre[i as int].1.peripherals@,
                    ));
                    lemma_sub_row_update(pre, i as int, self.rows@[i as int].1, path@);
                }
                !was
            },
            None => {
                proof {
                    assert forall|j: int|
                        0 <= j < old(self).rows@.len() implies old(self).rows@[j].0@ != path@ by {
                        assert(sub_paths(old(self).rows@)[j] == old(self).rows@[j].0@);
                    }
                    lemma_sub_row_absent(old(self).rows@, path@);
                }
                let ghost pre = self.rows@;
                self.rows.push(
                    (path.clone(), DatasetSubscribers { ui: true, peripherals: Vec::new() }),
                );
                proof {
                    assert(self.rows@ =~= pre.push(self.rows@.last()));
                    assert(ids_of(self.rows@.last().1.peripherals@) =~= Seq::<Seq<u8>>::empty());
                    lemma_sub_row_push(pre, self.rows@.last(), path@);
                }
                true
            },
        }
    }

    /// Forget the interface engine for a path: the row keeps its
    /// peripherals, and a row left with no watcher at all is dropped. Other
    /// rows are untouched.
    pub fn unsubscribe_ui(&mut self, path: &AbsoluteDatasetPath)
        requires
            old(self).wf(),
        ensures
            final(self).wf(),
            sub_row(final(self).rows@, path@) == (match sub_row(old(self).rows@, path@) {
                Some(row) => if row.1.len() == 0 {
                    None
                } else {
                    Some((false, row.1))
                },
                None => None::<(bool, Seq<Seq<u8>>)>,
            }),
            forall|q: AbsPathV|
                q != path@ ==> sub_row(final(self).rows@, q) == sub_row(old(self).rows@, q),
    {
        match self.find(path) {
            Some(i) => {
                proof {
                    lemma_sub_row_found(old(self).rows@, path@, i as int);
                }
                let ghost pre = self.rows@;
                if self.rows[i].1.peripherals.len() == 0 {
                    self.rows.remove(i);
                    proof {
                        lemma_sub_row_remove(pre, i as int, path@);
                    }
                } else {
                    let row = &mut self.rows[i];
                    row.1.ui = false;
                    proof {
                        assert(self.rows@ =~= pre.update(
                            i as int,
                            (pre[i as int].0, self.rows@[i as int].1),
                        ));
                        assert(ids_of(self.rows@[i as int].1.peripherals@) =~= ids_of(
                            pre[i as int].1.peripherals@,
                        ));
                        lemma_sub_row_update(pre, i as int, self.rows@[i as int].1, path@);
                    }
                }
            },
            None => {
                proof {
                    assert forall|j: int|
                        0 <= j < old(self).rows@.len() implies old(self).rows@[j].0@ != path@ by {
                        assert(sub_paths(old(self).rows@)[j] == old(self).rows@[j].0@);
                    }
                    lemma_sub_row_absent(old(self).rows@, path@);
                }
            },
        }
    }

    /// Record a peripheral watching a path; one already watching is not
    /// recorded twice. Other rows and the path's interface marker are
    /// untouched.
    #[verifier::loop_isolation(false)]
    pub fn subscribe_peripheral(&mut self, path: &AbsoluteDatasetPath, id: &SpiderId2048)
        requires
            old(self).wf(),
        ensures
            final(self).wf(),
            sub_row(final(self).rows@, path@) == Some(
                match sub_row(old(self).rows@, path@) {
                    Some(row) => (
                        row.0,
                        if row.1.contains(id@) {
                            row.1
                        } else {
                            row.1.push(id@)
                        },
                    ),
                    None => (false, seq![id@]),
                },
            ),
            forall|q: AbsPathV|
                q != path@ ==> sub_row(final(self).rows@, q) == sub_row(old(self).rows@, q),
    {
        match self.find(path) {
            Some(i) => {
                proof {
                    lemma_sub_row_found(old(self).rows@, path@, i as int);
                }
                let ghost pre = self.rows@;
                let ghost pids = ids_of(self.rows@[i as int].1.peripherals@);
                let mut present = false;
                let mut k: usize = 0;
                while k < self.rows[i].1.peripherals.len()
                    invariant
                        self.rows@ == pre,
                        k <= pids.len(),
                        pids == ids_of(self.rows@[i as int].1.peripherals@),
                        !present ==> forall|j: int| 0 <= j < k ==> pids[j] != id@,
                        present ==> pids.contains(id@),
                    decreases pids.len() - k,
                {
                    if self.rows[i].1.peripherals[k].eq(id) {
                        proof {
                            assert(pids[k as int] == id@);
                        }
                        present = true;
                    }
                    k = k + 1;
                }
                if present {
                    proof {
                        assert forall|q: AbsPathV|
                            q != path@ implies sub_row(self.rows@, q) == sub_row(
                            old(self).rows@,
                            q,
                        ) by {}
                    }
                } else {
                    proof {
                        assert(!pids.contains(id@));
                    }
                    let row = &mut self.rows[i];
                    let ghost prow_ids = ids_of(row.1.peripherals@);
                    row.1.peripherals.push(id.clone());
                    proof {
                        assert(ids_of(self.rows@[i as int].1.peripherals@) =~= prow_ids.push(
                            id@,
                        ));
                        assert(self.rows@ =~= pre.update(
                            i as int,
                            (pre[i as int].0, self.rows@[i as int].1),
                        ));
                        lemma_sub_row_update(pre, i as int, self.rows@[i as int].1, path@);
                    }
                }
            },
            None => {
                proof {
                    assert forall|j: int|
                        0 <= j < old(self).rows@.len() implies old(self).rows@[j].0@ != path@ by {
                        assert(sub_paths(old(self).rows@)[j] == old(self).rows@[j].0@);
                    }
                    lemma_sub_row_absent(old(self).rows@, path@);
                }
                let ghost pre = self.rows@;
                let mut peripherals: Vec<SpiderId2048> = Vec::new();
                peripherals.push(id.clone());
                self.rows.push((path.clone(), DatasetSubscribers { ui: false, peripherals }));
                proof {
                    assert(ids_of(self.rows@.last().1.peripherals@) =~= seq![id@]);
                    assert(self.rows@ =~= pre.push(self.rows@.last()));
                    lemma_sub_row_push(pre, self.rows@.last(), path@);
                }
            },
        }
    }

    /// Who must hear a change to a path: whether the interface engine does,
    /// and which peripherals do.
    pub fn recipients(&self, path: &AbsoluteDatasetPath) -> (r: (bool, Vec<Relation>))
        ensures
            match sub_row(self.rows@, path@) {
                Some(row) => {
                    &&& r.0 == row.0
                    &&& r.1@.len() == row.1.len()
                    &&& forall|j: int|
                        0 <= j < r.1@.len() ==> r.1@[j]@ == (RelV {
                            role: crate::relation::Role::Peripheral,
                            id: row.1[j],
                        })
                },
                None => !r.0 && r.1@.len() == 0,
            },
    {
        match self.find(path) {
            Some(i) => {
                proof {
                    lemma_sub_row_found(self.rows@, path@, i as int);
                }
                let row = &self.rows[i];
                let mut rels: Vec<Relation> = Vec::new();
                let mut k: usize = 0;
                while k < row.1.peripherals.len()
                    invariant
                        k <= row.1.peripherals@.len(),
                        rels@.len() == k,
                        forall|j: int|
                            0 <= j < k ==> rels@[j]@ == (RelV {
                                role: crate::relation::Role::Peripheral,
                                id: ids_of(row.1.peripherals@)[j],
                            }),
                    decreases row.1.peripherals@.len() - k,
                {
                    rels.push(
                        Relation {
                            role: crate::relation::Role::Peripheral,
                            id: row.1.peripherals[k].clone(),
                        },
                    );
                    k = k + 1;
                }
                (row.1.ui, rels)
            },
            None => {
                proof {
                    assert forall|j: int|
                        0 <= j < self.rows@.len() implies self.rows@[j].0@ != path@ by {
                        assert(sub_paths(self.rows@)[j] == self.rows@[j].0@);
                    }
                    lemma_sub_row_absent_keys(self.rows@, path@);
                }
                (false, Vec::new())
            },
        }
    }
}

/// Updating one row changes `sub_row` for its path alone.
proof fn lemma_sub_row_update(
    s: Seq<(AbsoluteDatasetPath, DatasetSubscribers)>,
    i: int,
    row: DatasetSubscribers,
    p: AbsPathV,
)
    requires
        forall|x: int, y: int| 0 <= x < y < s.len() ==> sub_paths(s)[x] != sub_paths(s)[y],
        0 <= i < s.len(),
        s[i].0@ == p,
    ensures
        sub_row(s.update(i, (s[i].0, row)), p) == Some((row.ui, ids_of(row.peripherals@))),
        forall|q: AbsPathV| q != p ==> sub_row(s.update(i, (s[i].0, row)), q) == sub_row(s, q),
        forall|x: int, y: int|
            0 <= x < y < s.update(i, (s[i].0, row)).len() ==> sub_paths(
                s.update(i, (s[i].0, row)),
            )[x] != sub_paths(s.update(i, (s[i].0, row)))[y],
    decreases s.len(),
{
    let t = s.update(i, (s[i].0, row));
    assert forall|x: int, y: int| 0 <= x < y < t.len() implies sub_paths(t)[x] != sub_paths(
        t,
    )[y] by {
        assert(sub_paths(t)[x] == sub_paths(s)[x]);
        assert(sub_paths(t)[y] == sub_paths(s)[y]);
    }
    if i == 0 {
        assert(t[0] == (s[0].0, row));
        assert(t.skip(1) =~= s.skip(1));
        assert forall|q: AbsPathV| q != p implies sub_row(t, q) == sub_row(s, q) by {
            assert(sub_row(t, q) == sub_row(t.skip(1), q));
            assert(sub_row(s, q) == sub_row(s.skip(1), q));
        }
    } else {
        assert(t[0] == s[0]);
        assert(t.skip(1) =~= s.skip(1).update(i - 1, (s[i].0, row)));
        assert(sub_paths(s)[0] == s[0].0@);
        assert forall|x: int, y: int| 0 <= x < y < s.skip(1).len() implies sub_paths(s.skip(1))[x]
            != sub_paths(s.skip(1))[y] by {
            assert(s.skip(1)[x] == s[x + 1]);
            assert(s.skip(1)[y] == s[y + 1]);
            assert(sub_paths(s)[x + 1] == s[x + 1].0@);
            assert(sub_paths(s)[y + 1] == s[y + 1].0@);
        }
        assert(s.skip(1)[i - 1] == s[i]);
        lemma_sub_row_update(s.skip(1), i - 1, row, p);
        assert(sub_paths(s)[i] == s[i].0@);
        assert(s[0].0@ != p);
        assert(sub_row(t, p) == sub_row(t.skip(1), p));
        assert forall|q: AbsPathV| q != p implies sub_row(t, q) == sub_row(s, q) by {
            if t[0].0@ != q {
                assert(sub_row(t, q) == sub_row(t.skip(1), q));
                assert(sub_row(s, q) == sub_row(s.skip(1), q));
            }
        }
    }
}

/// Pushing a fresh row reads back as written.
proof fn lemma_sub_row_push(
    s: Seq<(AbsoluteDatasetPath, DatasetSubscribers)>,
    row: (AbsoluteDatasetPath, DatasetSubscribers),
    p: AbsPathV,
)
    requires
        row.0@ == p,
        forall|j: int| 0 <= j < s.len() ==> sub_paths(s)[j] != p,
    ensures
        sub_row(s.push(row), p) == Some((row.1.ui, ids_of(row.1.peripherals@))),
        forall|q: AbsPathV| q != p ==> sub_row(s.push(row), q) == sub_row(s, q),
        (forall|a: int, b: int| 0 <= a < b < s.len() ==> sub_paths(s)[a] != sub_paths(s)[b])
            ==> forall|x: int, y: int|
            0 <= x < y < s.push(row).len() ==> sub_paths(s.push(row))[x] != sub_paths(
                s.push(row),
            )[y],
    decreases s.len(),
{
    let t = s.push(row);
    if s.len() == 0 {
        assert(t[0] == row);
        assert forall|q: AbsPathV| q != p implies sub_row(t, q) == sub_row(s, q) by {
            assert(sub_row(t, q) == sub_row(t.skip(1), q));
            assert(t.skip(1).len() == 0);
        }
    } else {
        assert(t[0] == s[0]);
        assert(t.skip(1) =~= s.skip(1).push(row));
        assert(sub_paths(s)[0] == s[0].0@);
        assert forall|j: int| 0 <= j < s.skip(1).len() implies sub_paths(s.skip(1))[j] != p by {
            assert(s.skip(1)[j] == s[j + 1]);
            assert(sub_paths(s)[j + 1] == s[j + 1].0@);
        }
        lemma_sub_row_push(s.skip(1), row, p);
        assert(s[0].0@ != p);
        assert(sub_row(t, p) == sub_row(t.skip(1), p));
        assert forall|q: AbsPathV| q != p implies sub_row(t, q) == sub_row(s, q) by {
            if t[0].0@ != q {
                assert(sub_row(t, q) == sub_row(t.skip(1), q));
                assert(sub_row(s, q) == sub_row(s.skip(1), q));
            }
        }
    }
    if forall|a: int, b: int| 0 <= a < b < s.len() ==> sub_paths(s)[a] != sub_paths(s)[b] {
        assert forall|x: int, y: int| 0 <= x < y < t.len() implies sub_paths(t)[x] != sub_paths(
            t,
        )[y] by {
            if y < s.len() {
                assert(sub_paths(t)[x] == sub_paths(s)[x]);
                assert(sub_paths(t)[y] == sub_paths(s)[y]);
            } else {
                assert(sub_paths(t)[x] == sub_paths(s)[x]);
                assert(sub_paths(t)[y] == p);
            }
        }
    }
}

/// Removing a row removes exactly its path.
proof fn lemma_sub_row_remove(
    s: Seq<(AbsoluteDatasetPath, DatasetSubscribers)>,
    i: int,
    p: AbsPathV,
)
    requires
        forall|x: int, y: int| 0 <= x < y < s.len() ==> sub_paths(s)[x] != sub_paths(s)[y],
        0 <= i < s.len(),
        s[i].0@ == p,
    ensures
        sub_row(s.remove(i), p) is None,
        forall|q: AbsPathV| q != p ==> sub_row(s.remove(i), q) == sub_row(s, q),
        forall|x: int, y: int|
            0 <= x < y < s.remove(i).len() ==> sub_paths(s.remove(i))[x] != sub_paths(
                s.remove(i),
            )[y],
{
    let t = s.remove(i);
    assert forall|j: int| 0 <= j < t.len() implies sub_paths(t)[j] == (if j < i {
        sub_paths(s)[j]
    } else {
        sub_paths(s)[j + 1]
    }) && t[j] == (if j < i {
        s[j]
    } else {
        s[j + 1]
    }) by {
        if j < i {
            assert(t[j] == s[j]);
        } else {
            assert(t[j] == s[j + 1]);
        }
    }
    assert forall|j: int| 0 <= j < t.len() implies sub_paths(t)[j] != p by {
        assert(sub_paths(s)[i] == p);
    }
    assert forall|j: int| 0 <= j < t.len() implies t[j].0@ != p by {
        assert(sub_paths(t)[j] == t[j].0@);
    }
    lemma_sub_row_absent(t, p);
    assert forall|q: AbsPathV| q != p implies sub_row(t, q) == sub_row(s, q) by {
        lemma_sub_row_membership(s, q);
        lemma_sub_row_membership(t, q);
        if exists|k: int| 0 <= k < s.len() && s[k].0@ == q {
            let k = choose|k: int| 0 <= k < s.len() && s[k].0@ == q;
            assert(sub_paths(s)[k] == q);
            assert forall|j: int| 0 <= j < k implies sub_paths(s)[j] != q by {}
            lemma_sub_row_found(s, q, k);
            if k < i {
                assert(t[k] == s[k]);
                assert forall|j: int| 0 <= j < k implies sub_paths(t)[j] != q by {}
                lemma_sub_row_found(t, q, k);
            } else {
                assert(k > i);
                assert(t[k - 1] == s[k]);
                assert forall|j: int| 0 <= j < k - 1 implies sub_paths(t)[j] != q by {}
                lemma_sub_row_found(t, q, k - 1);
            }
        } else {
            assert forall|j: int| 0 <= j < s.len() implies s[j].0@ != q by {
                assert(sub_paths(s)[j] == s[j].0@);
            }
            lemma_sub_row_absent(s, q);
            assert forall|j: int| 0 <= j < t.len() implies t[j].0@ != q by {}
            lemma_sub_row_absent(t, q);
        }
    }
}

/// `sub_row` finds a row exactly when one bears the path.
proof fn lemma_sub_row_membership(s: Seq<(AbsoluteDatasetPath, DatasetSubscribers)>, p: AbsPathV)
    ensures
        (sub_row(s, p) is Some) == (exists|k: int| 0 <= k < s.len() && s[k].0@ == p),
    decreases s.len(),
{
    if s.len() > 0 {
        lemma_sub_row_membership(s.skip(1), p);
        if s[0].0@ == p {
        } else {
            if exists|k: int| 0 <= k < s.skip(1).len() && s.skip(1)[k].0@ == p {
                let k = choose|k: int| 0 <= k < s.skip(1).len() && s.skip(1)[k].0@ == p;
                assert(s[k + 1].0@ == p);
            } else {
                if exists|k: int| 0 <= k < s.len() && s[k].0@ == p {
                    let k = choose|k: int| 0 <= k < s.len() && s[k].0@ == p;
                    assert(k > 0);
                    assert(s.skip(1)[k - 1].0@ == p);
                }
            }
        }
    }
}

/// When no row bears a path, `sub_row` (given by keys) reads nothing.
proof fn lemma_sub_row_absent_keys(s: Seq<(AbsoluteDatasetPath, DatasetSubscribers)>, p: AbsPathV)
    requires
        forall|j: int| 0 <= j < s.len() ==> s[j].0@ != p,
    ensures
        sub_row(s, p) is None,
{
    lemma_sub_row_absent(s, p);
}

/// A found subscription row is the one `sub_row` reads.
proof fn lemma_sub_row_found(s: Seq<(AbsoluteDatasetPath, DatasetSubscribers)>, p: AbsPathV, i: int)
    requires
        0 <= i < s.len(),
        s[i].0@ == p,
        forall|j: int| 0 <= j < i ==> sub_paths(s)[j] != p,
    ensures
        sub_row(s, p) == Some((s[i].1.ui, ids_of(s[i].1.peripherals@))),
    decreases i,
{
    if i > 0 {
        assert(sub_paths(s)[0] == s[0].0@);
        assert forall|j: int| 0 <= j < i - 1 implies sub_paths(s.skip(1))[j] != p by {
            assert(s.skip(1)[j] == s[j + 1]);
            assert(sub_paths(s)[j + 1] == s[j + 1].0@);
        }
        assert(s.skip(1)[i - 1] == s[i]);
        lemma_sub_row_found(s.skip(1), p, i - 1);
    }
}

/// When no row has the path, `sub_row` reads nothing.
proof fn lemma_sub_row_absent(s: Seq<(AbsoluteDatasetPath, DatasetSubscribers)>, p: AbsPathV)
    requires
        forall|j: int| 0 <= j < s.len() ==> s[j].0@ != p,
    ensures
        sub_row(s, p) is None,
    decreases s.len(),
{
    if s.len() > 0 {
        assert forall|j: int| 0 <= j < s.skip(1).len() implies s.skip(1)[j].0@ != p by {
            assert(s.skip(1)[j] == s[j + 1]);
        }
        lemma_sub_row_absent(s.skip(1), p);
    }
}

/// Whether a dataset message changes the dataset it names.
pub open spec fn spec_is_change(msg: crate::message::DatasetMsgV) -> bool {
    match msg {
        crate::message::DatasetMsgV::Append { .. } => true,
        crate::message::DatasetMsgV::Extend { .. } => true,
        crate::message::DatasetMsgV::SetElement { .. } => true,
        crate::message::DatasetMsgV::SetElements { .. } => true,
        crate::message::DatasetMsgV::DeleteElement { .. } => true,
        crate::message::DatasetMsgV::Empty { .. } => true,
        _ => false,
    }
}

/// Apply one dataset message to a dataset's entries. Returns true for the
/// changing operations — append, extend, the element setters, delete and
/// empty — and false, leaving the entries alone, for subscription traffic.
pub fn apply_dataset_change(
    data: &mut Vec<DatasetData>,
    msg: &crate::message::DatasetMessage,
) -> (changed: bool)
    requires
        old(data)@.len() < usize::MAX,
        match msg@ {
            crate::message::DatasetMsgV::SetElements { data: items, id, .. } => id + items.len()
                <= usize::MAX,
            _ => true,
        },
    ensures
        changed == spec_is_change(msg@),
        match msg@ {
            crate::message::DatasetMsgV::Append { data: item, .. } => data_seq_view(final(data)@)
                == data_seq_view(old(data)@).push(item),
            crate::message::DatasetMsgV::Extend { data: items, .. } => data_seq_view(final(data)@)
                == data_seq_view(old(data)@) + items,
            crate::message::DatasetMsgV::SetElement { data: item, id, .. } => {
                &&& data_seq_view(final(data)@).len() == (if (id as int) < old(data)@.len() {
                    old(data)@.len() as int
                } else {
                    id + 1
                })
                &&& data_seq_view(final(data)@)[id as int] == item
            },
            crate::message::DatasetMsgV::SetElements { data: items, id, .. } => {
                &&& data_seq_view(final(data)@).len() == (if id + items.len() <= old(
                    data,
                )@.len() {
                    old(data)@.len() as int
                } else {
                    id + items.len()
                })
                &&& forall|j: int|
                    0 <= j < items.len() ==> data_seq_view(final(data)@)[id + j] == items[j]
            },
            crate::message::DatasetMsgV::DeleteElement { id, .. } => {
                &&& (id as int) < old(data)@.len() ==> data_seq_view(final(data)@)
                    == data_seq_view(old(data)@).remove(id as int)
                &&& (id as int) >= old(data)@.len() ==> final(data)@ == old(data)@
            },
            crate::message::DatasetMsgV::Empty { .. } => final(data)@.len() == 0,
            _ => final(data)@ == old(data)@,
        },
{
    match msg {
        crate::message::DatasetMessage::Append { data: item, .. } => {
            dataset_append(data, item.clone());
            true
        },
        crate::message::DatasetMessage::Extend { data: items, .. } => {
            dataset_extend(data, crate::message::data_clone(items));
            true
        },
        crate::message::DatasetMessage::SetElement { data: item, id, .. } => {
            dataset_set_element(data, *id, item.clone());
            true
        },
        crate::message::DatasetMessage::SetElements { data: items, id, .. } => {
            proof {
                lemma_data_seq_view(items@);
            }
            dataset_set_elements(data, *id, crate::message::data_clone(items));
            true
        },
        crate::message::DatasetMessage::DeleteElement { id, .. } => {
            dataset_delete_element(data, *id);
            true
        },
        crate::message::DatasetMessage::Empty { .. } => {
            dataset_empty(data);
            true
        },
        _ => false,
    }
}

} // verus!
