use vstd::prelude::*;

verus! {

/// A sequence of row indices in strictly increasing order: sorted, no duplicates.
pub open spec fn strictly_sorted(s: Seq<usize>) -> bool {
    forall|i: int, j: int| 0 <= i < j < s.len() ==> s[i] < s[j]
}

/// A sparse column over the two-element field: the sorted list of its nonzero
/// row indices, together with the dimension of the simplex it bounds.
#[derive(Clone, Debug)]
pub struct VecColumn {
    pub dimension: usize,
    pub boundary: Vec<usize>,
}

impl VecColumn {
    /// The row indices with a nonzero entry, in increasing order.
    pub open spec fn entries(self) -> Seq<usize> {
        self.boundary@
    }

    /// Well-formed: the entry list is strictly increasing.
    pub open spec fn wf(self) -> bool {
        strictly_sorted(self.boundary@)
    }

    /// Whether row `r` has a nonzero entry in this column.
    pub open spec fn has_entry(self, r: usize) -> bool {
        self.boundary@.contains(r)
    }

    /// The pivot in spec form: the largest nonzero row index, if any.
    pub open spec fn spec_pivot(self) -> Option<usize> {
        if self.boundary@.len() == 0 {
            None
        } else {
            Some(self.boundary@[self.boundary@.len() - 1])
        }
    }

    /// An empty column (a cycle) of the given dimension.
    pub fn new_with_dimension(dimension: usize) -> (r: Self)
        ensures
            r.wf(),
            r.dimension == dimension,
            r.entries() =~= Seq::<usize>::empty(),
    {
        VecColumn { dimension, boundary: Vec::new() }
    }

    /// The dimension of the simplex this column bounds.
    pub fn dimension(&self) -> (r: usize)
        ensures
            r == self.dimension,
    {
        self.dimension
    }

    /// The largest nonzero row index, or `None` for a cycle.
    pub fn pivot(&self) -> (r: Option<usize>)
        ensures
            r == self.spec_pivot(),
            r is Some ==> self.has_entry(r->Some_0),
    {
        let n = self.boundary.len();
        if n == 0 {
            None
        } else {
            Some(self.boundary[n - 1])
        }
    }

    /// A cycle is a column with no nonzero entries.
    pub fn is_cycle(&self) -> (r: bool)
        ensures
            r == (self.spec_pivot() is None),
    {
        self.boundary.len() == 0
    }

    /// A boundary is a column that is not a cycle.
    pub fn is_boundary(&self) -> (r: bool)
        ensures
            r == (self.spec_pivot() is Some),
    {
        self.boundary.len() != 0
    }

    /// Whether row `r` has a nonzero entry in this column, by scanning.
    pub fn contains_row(&self, r: usize) -> (res: bool)
        ensures
            res == self.has_entry(r),
    {
        let mut t: usize = 0;
        while t < self.boundary.len()
            invariant
                t <= self.boundary@.len(),
                forall|m: int| 0 <= m < t ==> self.boundary@[m] != r,
            decreases self.boundary@.len() - t,
        {
            if self.boundary[t] == r {
                return true;
            }
            t = t + 1;
        }
        false
    }

    /// The same entry list, reinterpreted at another dimension.
    pub fn with_dimension(&self, dimension: usize) -> (r: Self)
        ensures
            r.dimension == dimension,
            r.entries() == self.entries(),
            self.wf() ==> r.wf(),
    {
        VecColumn { dimension, boundary: copy_entries(&self.boundary) }
    }

    /// Adds `other` into this column over the two-element field: afterwards a
    /// row is nonzero exactly when it was nonzero in exactly one of the two.
    pub fn add_col(&mut self, other: &VecColumn)
        requires
            old(self).wf(),
            other.wf(),
        ensures
            final(self).wf(),
            final(self).dimension == old(self).dimension,
            forall|r: usize|
                final(self).has_entry(r) <==> (old(self).has_entry(r) != other.has_entry(r)),
    {
        self.boundary = sym_diff_sorted(&self.boundary, &other.boundary);
    }

    /// Toggles the entry at row `r`: inserts it if absent, removes it if present.
    pub fn add_entry(&mut self, row: usize)
        requires
            old(self).wf(),
        ensures
            final(self).wf(),
            final(self).dimension == old(self).dimension,
            forall|r: usize|
                final(self).has_entry(r) <==> (old(self).has_entry(r) != (r == row)),
    {
        let mut single: Vec<usize> = Vec::new();
        single.push(row);
        let other = VecColumn { dimension: 0, boundary: single };
        proof {
            assert(other.boundary@.len() == 1 && other.boundary@[0] == row);
            assert(other.wf());
            assert forall|r: usize| other.has_entry(r) <==> r == row by {
                if r == row {
                    assert(other.boundary@[0] == r);
                    assert(other.boundary@.contains(r));
                } else {
                    assert(forall|m: int|
                        0 <= m < other.boundary@.len() ==> other.boundary@[m] != r);
                }
            }
        }
        self.add_col(&other);
        proof {
            assert forall|r: usize|
                self.has_entry(r) <==> (old(self).has_entry(r) != (r == row)) by {
                assert(self.has_entry(r) <==> (old(self).has_entry(r) != other.has_entry(r)));
                assert(other.has_entry(r) <==> r == row);
            }
        }
    }
}

/// A termination measure for reduction: one past the pivot row, or zero for a
/// cycle. Adding a column with the same pivot strictly lowers it.
pub open spec fn pivot_measure(c: VecColumn) -> int {
    match c.spec_pivot() {
        Some(l) => l + 1,
        None => 0,
    }
}

/// In a well-formed column the pivot is the largest entry.
pub proof fn lemma_pivot_is_max(c: VecColumn)
    requires
        c.wf(),
        c.spec_pivot() is Some,
    ensures
        c.has_entry(c.spec_pivot()->Some_0),
        forall|e: usize| #[trigger] c.has_entry(e) ==> e <= c.spec_pivot()->Some_0,
{
    let p = c.spec_pivot()->Some_0;
    assert(c.boundary@[c.boundary@.len() - 1] == p);
    assert(c.boundary@.contains(p));
    assert forall|e: usize| #[trigger] c.has_entry(e) implies e <= p by {
        let t = choose|t: int| 0 <= t < c.boundary@.len() && c.boundary@[t] == e;
        if t < c.boundary@.len() - 1 {
            assert(c.boundary@[t] < c.boundary@[c.boundary@.len() - 1]);
        }
    }
}

/// A fresh copy of a sorted entry list.
fn copy_entries(a: &Vec<usize>) -> (out: Vec<usize>)
    ensures
        out@ == a@,
{
    let mut out: Vec<usize> = Vec::new();
    let mut i: usize = 0;
    while i < a.len()
        invariant
            i <= a.len(),
            out@ =~= a@.take(i as int),
        decreases a.len() - i,
    {
        out.push(a[i]);
        i = i + 1;
    }
    proof {
        assert(a@.take(a@.len() as int) =~= a@);
    }
    out
}

/// Taking one more element of a sequence adds exactly that element to the
/// members of the prefix.
proof fn lemma_take_one_more(s: Seq<usize>, n: int)
    requires
        0 <= n < s.len(),
    ensures
        forall|r: usize| s.take(n + 1).contains(r) <==> (s.take(n).contains(r) || r == s[n]),
{
    assert(s.take(n + 1) =~= s.take(n).push(s[n]));
    assert forall|r: usize|
        s.take(n + 1).contains(r) <==> (s.take(n).contains(r) || r == s[n]) by {
        vstd::seq_lib::lemma_seq_contains_after_push(s.take(n), s[n], r);
    }
}

/// A strictly sorted prefix never contains the element just past its end.
proof fn lemma_frontier_absent(s: Seq<usize>, n: int)
    requires
        strictly_sorted(s),
        0 <= n < s.len(),
    ensures
        !s.take(n).contains(s[n]),
{
    assert(forall|m: int| 0 <= m < n ==> s.take(n)[m] == s[m] && s[m] < s[n]);
}

/// Merges two strictly sorted lists into their symmetric difference:
/// a row survives exactly when it occurs in exactly one of the two inputs.
fn sym_diff_sorted(a: &Vec<usize>, b: &Vec<usize>) -> (out: Vec<usize>)
    requires
        strictly_sorted(a@),
        strictly_sorted(b@),
    ensures
        strictly_sorted(out@),
        forall|r: usize| out@.contains(r) <==> (a@.contains(r) != b@.contains(r)),
{
    let mut out: Vec<usize> = Vec::new();
    let mut i: usize = 0;
    let mut k: usize = 0;
    while i < a.len() || k < b.len()
        invariant
            i <= a.len(),
            k <= b.len(),
            strictly_sorted(a@),
            strictly_sorted(b@),
            strictly_sorted(out@),
            forall|r: usize|
                out@.contains(r) <==> (a@.take(i as int).contains(r)
                    != b@.take(k as int).contains(r)),
            forall|m: int|
                0 <= m < out@.len() ==> (i < a@.len() ==> out@[m] < a@[i as int]) && (k
                    < b@.len() ==> out@[m] < b@[k as int]),
            i < a@.len() ==> forall|m: int| 0 <= m < k ==> b@[m] < a@[i as int],
            k < b@.len() ==> forall|m: int| 0 <= m < i ==> a@[m] < b@[k as int],
        decreases a.len() - i + b.len() - k,
    {
        let ghost old_out = out@;
        let ghost i0 = i as int;
        let ghost k0 = k as int;
        if k == b.len() || (i < a.len() && a[i] < b[k]) {
            let x = a[i];
            proof {
                lemma_take_one_more(a@, i0);
                lemma_frontier_absent(a@, i0);
                assert(!b@.take(k0).contains(x)) by {
                    assert(forall|m: int| 0 <= m < k0 ==> b@.take(k0)[m] == b@[m]);
                }
            }
            out.push(x);
            i = i + 1;
            proof {
                assert(out@ =~= old_out.push(x));
                assert forall|r: usize|
                    out@.contains(r) <==> (a@.take(i as int).contains(r) != b@.take(
                        k as int,
                    ).contains(r)) by {
                    vstd::seq_lib::lemma_seq_contains_after_push(old_out, x, r);
                    assert(a@.take(i as int) == a@.take(i0 + 1));
                }
            }
        } else if i == a.len() || (k < b.len() && b[k] < a[i]) {
            let x = b[k];
            proof {
                lemma_take_one_more(b@, k0);
                lemma_frontier_absent(b@, k0);
                assert(!a@.take(i0).contains(x)) by {
                    assert(forall|m: int| 0 <= m < i0 ==> a@.take(i0)[m] == a@[m]);
                }
            }
            out.push(x);
            k = k + 1;
            proof {
                assert(out@ =~= old_out.push(x));
                assert forall|r: usize|
                    out@.contains(r) <==> (a@.take(i as int).contains(r) != b@.take(
                        k as int,
                    ).contains(r)) by {
                    vstd::seq_lib::lemma_seq_contains_after_push(old_out, x, r);
                    assert(b@.take(k as int) == b@.take(k0 + 1));
                }
            }
        } else {
            // a[i] == b[k]: the entry cancels over the two-element field.
            let x = a[i];
            proof {
                assert(b@[k0] == x);
                lemma_take_one_more(a@, i0);
                lemma_take_one_more(b@, k0);
                lemma_frontier_absent(a@, i0);
                lemma_frontier_absent(b@, k0);
            }
            i = i + 1;
            k = k + 1;
            proof {
                assert(a@.take(i as int) == a@.take(i0 + 1));
                assert(b@.take(k as int) == b@.take(k0 + 1));
            }
        }
    }
    proof {
        assert(a@.take(a@.len() as int) =~= a@);
        assert(b@.take(b@.len() as int) =~= b@);
    }
    out
}

impl PartialEq for VecColumn {
    /// Two columns are equal when their entry lists agree; the dimension tag
    /// is not part of the comparison.
    fn eq(&self, other: &Self) -> (r: bool) {
        if self.boundary.len() != other.boundary.len() {
            return false;
        }
        let mut i: usize = 0;
        while i < self.boundary.len()
            invariant
                i <= self.boundary@.len(),
                self.boundary@.len() == other.boundary@.len(),
                forall|m: int| 0 <= m < i ==> self.boundary@[m] == other.boundary@[m],
            decreases self.boundary@.len() - i,
        {
            if self.boundary[i] != other.boundary[i] {
                return false;
            }
            i = i + 1;
        }
        proof {
            assert(self.boundary@ =~= other.boundary@);
        }
        true
    }
}

impl vstd::std_specs::cmp::PartialEqSpecImpl for VecColumn {
    open spec fn obeys_eq_spec() -> bool {
        true
    }

    open spec fn eq_spec(&self, other: &Self) -> bool {
        self.boundary@ == other.boundary@
    }
}

} // verus!
