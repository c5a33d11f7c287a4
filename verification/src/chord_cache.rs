//! The cache of recently seen chord peer addresses: most recent first, each
//! address once, never more than its capacity — the oldest falls out when a
//! new one arrives at a full cache. Subscribers are each sent at most the
//! number of addresses they asked for.

use vstd::prelude::*;

use crate::text::{string_clone, string_eq, strs_view};

verus! {

broadcast use vstd::std_specs::vec::group_vec_axioms;

/// How many recent chord addresses the base remembers.
pub const CHORD_ADDR_CAPACITY: usize = 500;

/// A sequence with the first occurrence of an address taken out; one without
/// the address is unchanged.
pub open spec fn drop_addr(s: Seq<Seq<char>>, a: Seq<char>) -> Seq<Seq<char>>
    decreases s.len(),
{
    if s.len() == 0 {
        s
    } else if s[0] == a {
        s.skip(1)
    } else {
        seq![s[0]] + drop_addr(s.skip(1), a)
    }
}

/// The recently seen chord addresses, most recent first.
pub struct ChordAddrCache {
    pub rows: Vec<String>,
    pub cap: usize,
}

impl ChordAddrCache {
    /// Each address is held once, and never more than the capacity of them.
    pub open spec fn wf(&self) -> bool {
        &&& forall|i: int, j: int|
            0 <= i < j < self.rows@.len() ==> strs_view(self.rows@)[i] != strs_view(self.rows@)[j]
        &&& self.rows@.len() <= self.cap
    }

    /// An empty cache with the standard capacity.
    pub fn new() -> (r: Self)
        ensures
            r.wf(),
            r.rows@.len() == 0,
            r.cap == CHORD_ADDR_CAPACITY,
    {
        ChordAddrCache { rows: Vec::new(), cap: CHORD_ADDR_CAPACITY }
    }

    /// Record an address as the most recent: it moves to the front, shedding
    /// any earlier occurrence, and a full cache drops its oldest address.
    #[verifier::loop_isolation(false)]
    pub fn push(&mut self, addr: String)
        requires
            old(self).wf(),
            old(self).cap > 0,
        ensures
            final(self).wf(),
            final(self).cap == old(self).cap,
            strs_view(final(self).rows@) == (seq![addr@] + drop_addr(
                strs_view(old(self).rows@),
                addr@,
            )).take(
                if 1 + drop_addr(strs_view(old(self).rows@), addr@).len() <= old(self).cap {
                    (1 + drop_addr(strs_view(old(self).rows@), addr@).len()) as int
                } else {
                    old(self).cap as int
                },
            ),
    {
        let ghost pre = strs_view(self.rows@);
        let mut i: usize = 0;
        let mut found: Option<usize> = None;
        while i < self.rows.len()
            invariant
                i <= self.rows@.len(),
                found is None,
                self.rows@ == old(self).rows@,
                forall|j: int| 0 <= j < i ==> strs_view(self.rows@)[j] != addr@,
            decreases self.rows@.len() - i,
        {
            if string_eq(&self.rows[i], &addr) {
                found = Some(i);
                break ;
            }
            i = i + 1;
        }
        match found {
            Some(i) => {
                self.rows.remove(i);
                proof {
                    lemma_drop_addr_found(pre, addr@, i as int);
                    assert(strs_view(self.rows@) =~= pre.remove(i as int));
                    assert forall|x: int, y: int|
                        0 <= x < y < self.rows@.len() implies strs_view(self.rows@)[x]
                        != strs_view(self.rows@)[y] by {
                        let px: int = if x < i as int {
                            x
                        } else {
                            x + 1
                        };
                        let py: int = if y < i as int {
                            y
                        } else {
                            y + 1
                        };
                        assert(strs_view(self.rows@)[x] == pre[px]);
                        assert(strs_view(self.rows@)[y] == pre[py]);
                    }
                }
            },
            None => {
                proof {
                    lemma_drop_addr_absent(pre, addr@);
                }
            },
        }
        let ghost mid = strs_view(self.rows@);
        proof {
            assert(mid =~= drop_addr(pre, addr@));
            assert forall|j: int| 0 <= j < mid.len() implies mid[j] != addr@ by {
                lemma_drop_addr_free(pre, addr@, j);
            }
        }
        self.rows.insert(0, addr);
        proof {
            assert(strs_view(self.rows@) =~= seq![strs_view(self.rows@)[0]] + mid);
        }
        if self.rows.len() > self.cap {
            let ghost before_pop = strs_view(self.rows@);
            let last = self.rows.len() - 1;
            self.rows.remove(last);
            proof {
                assert(strs_view(self.rows@) =~= before_pop.take(before_pop.len() - 1));
            }
        }
        proof {
            let target = (seq![addr@] + drop_addr(pre, addr@)).take(
                if 1 + drop_addr(pre, addr@).len() <= old(self).cap {
                    (1 + drop_addr(pre, addr@).len()) as int
                } else {
                    old(self).cap as int
                },
            );
            assert(strs_view(self.rows@) =~= target);
            assert forall|x: int, y: int|
                0 <= x < y < self.rows@.len() implies strs_view(self.rows@)[x] != strs_view(
                self.rows@,
            )[y] by {
                if x == 0 {
                    lemma_drop_addr_free(pre, addr@, y - 1);
                } else {
                    lemma_drop_addr_unique(pre, addr@, x - 1, y - 1);
                }
            }
        }
    }

    /// The most recent addresses, up to the given count.
    #[verifier::loop_isolation(false)]
    pub fn recent(&self, limit: usize) -> (r: Vec<String>)
        ensures
            strs_view(r@) == strs_view(self.rows@).take(
                if limit <= self.rows@.len() {
                    limit as int
                } else {
                    self.rows@.len() as int
                },
            ),
    {
        let n = if limit < self.rows.len() {
            limit
        } else {
            self.rows.len()
        };
        let mut out: Vec<String> = Vec::new();
        let mut i: usize = 0;
        while i < n
            invariant
                i <= n,
                n <= self.rows@.len(),
                out@.len() == i,
                forall|j: int| 0 <= j < i ==> out@[j]@ == self.rows@[j]@,
            decreases n - i,
        {
            out.push(string_clone(&self.rows[i]));
            i = i + 1;
        }
        proof {
            assert(strs_view(out@) =~= strs_view(self.rows@).take(n as int));
        }
        out
    }
}

/// Dropping an address found at its first position removes that row.
proof fn lemma_drop_addr_found(s: Seq<Seq<char>>, a: Seq<char>, i: int)
    requires
        0 <= i < s.len(),
        s[i] == a,
        forall|j: int| 0 <= j < i ==> s[j] != a,
    ensures
        drop_addr(s, a) == s.remove(i),
    decreases i,
{
    if i == 0 {
        assert(s.skip(1) =~= s.remove(0));
    } else {
        assert forall|j: int| 0 <= j < i - 1 implies s.skip(1)[j] != a by {
            assert(s.skip(1)[j] == s[j + 1]);
        }
        assert(s.skip(1)[i - 1] == s[i]);
        lemma_drop_addr_found(s.skip(1), a, i - 1);
        assert(seq![s[0]] + s.skip(1).remove(i - 1) =~= s.remove(i));
    }
}

/// Dropping an absent address changes nothing.
proof fn lemma_drop_addr_absent(s: Seq<Seq<char>>, a: Seq<char>)
    requires
        forall|j: int| 0 <= j < s.len() ==> s[j] != a,
    ensures
        drop_addr(s, a) == s,
    decreases s.len(),
{
    if s.len() > 0 {
        assert forall|j: int| 0 <= j < s.skip(1).len() implies s.skip(1)[j] != a by {
            assert(s.skip(1)[j] == s[j + 1]);
        }
        lemma_drop_addr_absent(s.skip(1), a);
        assert(seq![s[0]] + s.skip(1) =~= s);
    }
}

/// What is left after dropping an address never holds it, when the rows were
/// unique.
proof fn lemma_drop_addr_free(s: Seq<Seq<char>>, a: Seq<char>, j: int)
    requires
        forall|x: int, y: int| 0 <= x < y < s.len() ==> s[x] != s[y],
        0 <= j < drop_addr(s, a).len(),
    ensures
        drop_addr(s, a)[j] != a,
    decreases s.len(),
{
    if s.len() > 0 {
        if s[0] == a {
            assert(drop_addr(s, a) == s.skip(1));
            assert(s.skip(1)[j] == s[j + 1]);
        } else {
            assert(drop_addr(s, a) == seq![s[0]] + drop_addr(s.skip(1), a));
            if j > 0 {
                assert forall|x: int, y: int| 0 <= x < y < s.skip(1).len() implies s.skip(1)[x]
                    != s.skip(1)[y] by {
                    assert(s.skip(1)[x] == s[x + 1]);
                    assert(s.skip(1)[y] == s[y + 1]);
                }
                lemma_drop_addr_free(s.skip(1), a, j - 1);
                assert(drop_addr(s, a)[j] == drop_addr(s.skip(1), a)[j - 1]);
            }
        }
    }
}

/// What is left after dropping an address keeps its rows unique.
proof fn lemma_drop_addr_unique(s: Seq<Seq<char>>, a: Seq<char>, x: int, y: int)
    requires
        forall|p: int, q: int| 0 <= p < q < s.len() ==> s[p] != s[q],
        0 <= x < y < drop_addr(s, a).len(),
    ensures
        drop_addr(s, a)[x] != drop_addr(s, a)[y],
    decreases s.len(),
{
    if s.len() > 0 {
        if s[0] == a {
            assert(drop_addr(s, a) == s.skip(1));
            assert(s.skip(1)[x] == s[x + 1]);
            assert(s.skip(1)[y] == s[y + 1]);
        } else {
            assert(drop_addr(s, a) == seq![s[0]] + drop_addr(s.skip(1), a));
            assert forall|p: int, q: int| 0 <= p < q < s.skip(1).len() implies s.skip(1)[p]
                != s.skip(1)[q] by {
                assert(s.skip(1)[p] == s[p + 1]);
                assert(s.skip(1)[q] == s[q + 1]);
            }
            if x == 0 {
                lemma_drop_addr_member(s.skip(1), a, y - 1);
                assert(drop_addr(s, a)[y] == drop_addr(s.skip(1), a)[y - 1]);
            } else {
                lemma_drop_addr_unique(s.skip(1), a, x - 1, y - 1);
                assert(drop_addr(s, a)[x] == drop_addr(s.skip(1), a)[x - 1]);
                assert(drop_addr(s, a)[y] == drop_addr(s.skip(1), a)[y - 1]);
            }
        }
    }
}

/// Every row left after dropping an address stood in the rows before.
proof fn lemma_drop_addr_member(s: Seq<Seq<char>>, a: Seq<char>, j: int)
    requires
        0 <= j < drop_addr(s, a).len(),
    ensures
        s.contains(drop_addr(s, a)[j]),
    decreases s.len(),
{
    if s.len() > 0 {
        if s[0] == a {
            assert(drop_addr(s, a) == s.skip(1));
            assert(s.skip(1)[j] == s[j + 1]);
            assert(s.contains(s[j + 1]));
        } else {
            assert(drop_addr(s, a) == seq![s[0]] + drop_addr(s.skip(1), a));
            if j == 0 {
                assert(drop_addr(s, a)[0] == s[0]);
                assert(s.contains(s[0]));
            } else {
                lemma_drop_addr_member(s.skip(1), a, j - 1);
                assert(drop_addr(s, a)[j] == drop_addr(s.skip(1), a)[j - 1]);
                let v = drop_addr(s.skip(1), a)[j - 1];
                let k = choose|k: int| 0 <= k < s.skip(1).len() && s.skip(1)[k] == v;
                assert(s[k + 1] == v);
                assert(s.contains(v));
            }
        }
    }
}

} // verus!
