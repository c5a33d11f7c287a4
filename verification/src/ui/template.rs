//! Templated children over datasets: an element that names a dataset treats
//! its child list as a template, logically expanded once per dataset row.
//! These functions materialize that expansion one item at a time: each item
//! is the child to render, the dataset row to resolve it against, and the
//! row's index.

use vstd::prelude::*;

use crate::dataset_data::{data_seq_view, lemma_data_seq_view, DataV, DatasetData};
use crate::ui::element::{elem_view, lemma_elems_seq_view, ElemV, UiElement};

verus! {

broadcast use vstd::std_specs::vec::group_vec_axioms;

/// The rows handed to the expansion, as mathematical values.
pub open spec fn rows_view_opt(rows: Option<&Vec<DatasetData>>) -> Option<Seq<DataV>> {
    match rows {
        Some(v) => Some(data_seq_view(v@)),
        None => None,
    }
}

/// How many items the expansion yields: without a child list nothing; with a
/// dataset and its rows, one pass of the children per row; with a dataset
/// whose rows are missing, and without a dataset, one pass of the children.
pub open spec fn spec_template_count(e: ElemV, rows: Option<Seq<DataV>>) -> int {
    match e.children {
        Some(cs) => match e.dataset {
            Some(_) => match rows {
                Some(rs) => rs.len() * cs.len() as int,
                None => cs.len() as int,
            },
            None => cs.len() as int,
        },
        None => 0,
    }
}

/// How many items the expansion of this element yields over the given rows.
pub fn template_item_count(e: &UiElement, rows: Option<&Vec<DatasetData>>) -> (r: usize)
    requires
        (match (e@.children, e@.dataset, rows_view_opt(rows)) {
            (Some(cs), Some(_), Some(rs)) => rs.len() * cs.len() <= usize::MAX,
            _ => true,
        }),
    ensures
        r == spec_template_count(e@, rows_view_opt(rows)),
{
    match &e.children {
        Some(children) => {
            proof {
                lemma_elems_seq_view(children@);
            }
            match (&e.dataset, rows) {
                (Some(_), Some(rs)) => {
                    proof {
                        lemma_data_seq_view(rs@);
                    }
                    rs.len() * children.len()
                },
                _ => children.len(),
            }
        },
        None => 0,
    }
}

/// One item of the expansion: for the `k`-th item, the dataset row index it
/// renders (when a dataset drives the expansion), the template child, and
/// the row to resolve it against. The children cycle fastest: item `k` is
/// template child `k % children`, rendered against row `k / children`. With
/// the dataset's rows missing the children pass once with no row; without a
/// dataset they pass once against the ambient row.
#[verifier::loop_isolation(false)]
pub fn template_item<'a>(
    e: &'a UiElement,
    ambient: Option<&'a DatasetData>,
    rows: Option<&'a Vec<DatasetData>>,
    k: usize,
) -> (r: Option<(Option<usize>, &'a UiElement, Option<&'a DatasetData>)>)
    ensures
        (r is Some) == (k < spec_template_count(e@, rows_view_opt(rows))),
        r matches Some(item) ==> (match (e@.children, e@.dataset, rows_view_opt(rows)) {
            (Some(cs), Some(_), Some(rs)) => {
                &&& cs.len() > 0
                &&& item.0 == Some((k as int / cs.len() as int) as usize)
                &&& item.1@ == cs[k as int % cs.len() as int]
                &&& (item.2 matches Some(d) && d@ == rs[k as int / cs.len() as int])
            },
            (Some(cs), Some(_), None) => {
                &&& item.0 == Some(0usize)
                &&& item.1@ == cs[k as int]
                &&& item.2 is None
            },
            (Some(cs), None, _) => {
                &&& item.0 is None
                &&& item.1@ == cs[k as int]
                &&& (match (item.2, ambient) {
                    (Some(d), Some(a)) => d@ == a@,
                    (None, None) => true,
                    _ => false,
                })
            },
            _ => false,
        }),
{
    match &e.children {
        Some(children) => {
            proof {
                lemma_elems_seq_view(children@);
            }
            let n = children.len();
            match (&e.dataset, rows) {
                (Some(_), Some(rs)) => {
                    proof {
                        lemma_data_seq_view(rs@);
                    }
                    if n == 0 {
                        proof {
                            let ghost rr: int = data_seq_view(rs@).len() as int;
                            assert(rr * 0 == 0) by (nonlinear_arith);
                        }
                        return None;
                    }
                    let row = k / n;
                    let child = k % n;
                    let ghost kk: int = k as int;
                    let ghost nn: int = n as int;
                    let ghost rr: int = rs@.len() as int;
                    if row >= rs.len() {
                        proof {
                            assert(kk >= rr * nn) by (nonlinear_arith)
                                requires
                                    kk / nn >= rr,
                                    nn > 0,
                                    kk >= 0,
                            ;
                        }
                        return None;
                    }
                    proof {
                        assert(kk < rr * nn) by (nonlinear_arith)
                            requires
                                kk / nn < rr,
                                kk % nn < nn,
                                nn > 0,
                                kk >= 0,
                        ;
                    }
                    Some((Some(row), &children[child], Some(&rs[row])))
                },
                (Some(_), None) => {
                    if k < n {
                        Some((Some(0), &children[k], None))
                    } else {
                        None
                    }
                },
                (None, _) => {
                    if k < n {
                        Some((None, &children[k], ambient))
                    } else {
                        None
                    }
                },
            }
        },
        None => None,
    }
}

} // verus!
