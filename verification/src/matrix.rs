use vstd::prelude::*;

use crate::column::{strictly_sorted, VecColumn};

verus! {

/// A matrix addressed by column index, with a nominal height.
pub trait IndexableMatrix<C>: Sized {
    /// The columns, in order.
    spec fn spec_cols(&self) -> Seq<C>;

    /// The nominal number of rows.
    spec fn spec_height(&self) -> usize;

    fn col(&self, index: usize) -> (r: &C)
        requires
            index < self.spec_cols().len(),
        ensures
            *r == self.spec_cols()[index as int],
    ;

    fn set_col(&mut self, index: usize, col: C)
        requires
            index < old(self).spec_cols().len(),
        ensures
            final(self).spec_cols() == old(self).spec_cols().update(index as int, col),
            final(self).spec_height() == old(self).spec_height(),
    ;

    fn push_col(&mut self, col: C)
        ensures
            final(self).spec_cols() == old(self).spec_cols().push(col),
            final(self).spec_height() == old(self).spec_height(),
    ;

    fn width(&self) -> (r: usize)
        ensures
            r == self.spec_cols().len(),
    ;

    fn height(&self) -> (r: usize)
        ensures
            r == self.spec_height(),
    ;
}

/// A plain column-major matrix: a vector of columns and a nominal height.
pub struct VecMatrix<C> {
    pub cols: Vec<C>,
    pub height: usize,
}

impl<C> IndexableMatrix<C> for VecMatrix<C> {
    open spec fn spec_cols(&self) -> Seq<C> {
        self.cols@
    }

    open spec fn spec_height(&self) -> usize {
        self.height
    }

    fn col(&self, index: usize) -> (r: &C) {
        &self.cols[index]
    }

    fn set_col(&mut self, index: usize, col: C) {
        self.cols[index] = col;
    }

    fn push_col(&mut self, col: C) {
        self.cols.push(col);
    }

    fn width(&self) -> (r: usize) {
        self.cols.len()
    }

    fn height(&self) -> (r: usize) {
        self.height
    }
}

impl<C> From<Vec<C>> for VecMatrix<C> {
    /// A square matrix: the height is the number of columns.
    fn from(cols: Vec<C>) -> (r: Self) {
        let height = cols.len();
        VecMatrix { height, cols }
    }
}

impl<C> vstd::std_specs::convert::FromSpecImpl<Vec<C>> for VecMatrix<C> {
    open spec fn obeys_from_spec() -> bool {
        true
    }

    open spec fn from_spec(cols: Vec<C>) -> Self {
        VecMatrix { height: cols@.len() as usize, cols }
    }
}

impl<C> From<(Vec<C>, Option<usize>)> for VecMatrix<C> {
    /// A matrix with an optional height override; without one the matrix is
    /// taken to be square.
    fn from(pair: (Vec<C>, Option<usize>)) -> (r: Self) {
        let (cols, height) = pair;
        match height {
            Some(height) => VecMatrix { height, cols },
            None => {
                let height = cols.len();
                VecMatrix { height, cols }
            },
        }
    }
}

impl<C> vstd::std_specs::convert::FromSpecImpl<(Vec<C>, Option<usize>)> for VecMatrix<C> {
    open spec fn obeys_from_spec() -> bool {
        true
    }

    open spec fn from_spec(pair: (Vec<C>, Option<usize>)) -> Self {
        match pair.1 {
            Some(height) => VecMatrix { height, cols: pair.0 },
            None => VecMatrix { height: pair.0@.len() as usize, cols: pair.0 },
        }
    }
}

/// The height that the anti-transpose works at: the override if one is given,
/// the width otherwise.
pub open spec fn spec_at_height(width: int, matrix_height: Option<usize>) -> int {
    match matrix_height {
        Some(h) => h as int,
        None => width,
    }
}

/// Whether row `row` of column `c` of the anti-transpose of `m` (at height `h`)
/// is nonzero: entry (i, j) of `m` becomes entry (h - 1 - i, w - 1 - j).
pub open spec fn transposed_entry(m: Seq<VecColumn>, h: int, c: int, row: usize) -> bool {
    &&& 0 <= c < h
    &&& row < m.len()
    &&& m[m.len() - 1 - row].has_entry((h - 1 - c) as usize)
}

/// Reverses both the row order and the column order of `m`, exchanging rows
/// for columns: entry (i, j) of the input appears as entry (h - 1 - i, w - 1 - j)
/// of the output. The output columns carry no dimension information.
pub fn anti_transpose(matrix: &Vec<VecColumn>, matrix_height: Option<usize>) -> (r: Vec<
    VecColumn,
>)
    requires
        forall|j: int| 0 <= j < matrix@.len() ==> (#[trigger] matrix@[j]).wf(),
        forall|j: int, e: usize|
            0 <= j < matrix@.len() && (#[trigger] matrix@[j].has_entry(e)) ==> e
                < spec_at_height(matrix@.len() as int, matrix_height),
    ensures
        r@.len() == spec_at_height(matrix@.len() as int, matrix_height),
        forall|c: int| 0 <= c < r@.len() ==> (#[trigger] r@[c]).wf() && r@[c].dimension == 0,
        forall|c: int, row: usize|
            0 <= c < r@.len() ==> ((#[trigger] r@[c].has_entry(row)) <==> transposed_entry(
                matrix@,
                r@.len() as int,
                c,
                row,
            )),
{
    let matrix_width = matrix.len();
    let h = match matrix_height {
        Some(hh) => hh,
        None => matrix_width,
    };
    let mut ret: Vec<VecColumn> = Vec::new();
    let mut c: usize = 0;
    while c < h
        invariant
            c <= h,
            ret@.len() == c,
            matrix_width == matrix@.len(),
            h == spec_at_height(matrix@.len() as int, matrix_height),
            forall|j: int| 0 <= j < matrix@.len() ==> (#[trigger] matrix@[j]).wf(),
            forall|c2: int|
                0 <= c2 < c ==> (#[trigger] ret@[c2]).wf() && ret@[c2].dimension == 0,
            forall|c2: int, row: usize|
                0 <= c2 < c ==> ((#[trigger] ret@[c2].has_entry(row)) <==> transposed_entry(
                    matrix@,
                    h as int,
                    c2,
                    row,
                )),
        decreases h - c,
    {
        // The entries of output column `c` are the indices w - 1 - j of the
        // input columns j whose row h - 1 - c is nonzero, in increasing order.
        let target_row = h - 1 - c;
        let mut col: Vec<usize> = Vec::new();
        let mut jj: usize = 0;
        while jj < matrix_width
            invariant
                jj <= matrix_width,
                c < h,
                target_row == h - 1 - c,
                matrix_width == matrix@.len(),
                forall|j: int| 0 <= j < matrix@.len() ==> (#[trigger] matrix@[j]).wf(),
                strictly_sorted(col@),
                forall|m: int| 0 <= m < col@.len() ==> col@[m] < jj,
                forall|row: usize|
                    (#[trigger] col@.contains(row)) <==> (row < jj && matrix@[matrix_width - 1
                        - row].has_entry(target_row)),
            decreases matrix_width - jj,
        {
            let j = matrix_width - 1 - jj;
            let ghost old_col = col@;
            if matrix[j].contains_row(target_row) {
                col.push(jj);
                proof {
                    assert(col@ =~= old_col.push(jj));
                    assert forall|row: usize|
                        (#[trigger] col@.contains(row)) <==> (row < jj + 1 && matrix@[
                            matrix_width - 1 - row].has_entry(target_row)) by {
                        vstd::seq_lib::lemma_seq_contains_after_push(old_col, jj, row);
                    }
                }
            } else {
                proof {
                    assert forall|row: usize|
                        (#[trigger] col@.contains(row)) <==> (row < jj + 1 && matrix@[
                            matrix_width - 1 - row].has_entry(target_row)) by {
                        if row == jj {
                            assert(!col@.contains(row));
                        }
                    }
                }
            }
            jj = jj + 1;
        }
        let new_col = VecColumn { dimension: 0, boundary: col };
        ret.push(new_col);
        proof {
            assert forall|c2: int, row: usize|
                0 <= c2 < c + 1 implies ((#[trigger] ret@[c2].has_entry(row))
                <==> transposed_entry(matrix@, h as int, c2, row)) by {
                if c2 < c {
                    assert(ret@[c2] == ret@.subrange(0, c as int)[c2]);
                }
            }
        }
        c = c + 1;
    }
    ret
}

/// Two strictly sorted lists with the same members are the same list.
pub proof fn lemma_strictly_sorted_equal(a: Seq<usize>, b: Seq<usize>)
    requires
        strictly_sorted(a),
        strictly_sorted(b),
        forall|r: usize| #[trigger] a.contains(r) <==> #[trigger] b.contains(r),
    ensures
        a =~= b,
    decreases a.len(),
{
    if a.len() == 0 {
        if b.len() > 0 {
            assert(b.contains(b[0]));
            assert(a.contains(b[0]));
        }
    } else {
        assert(a.contains(a[0]));
        assert(b.contains(a[0]));
        assert(b.len() > 0);
        let ta = choose|t: int| 0 <= t < b.len() && b[t] == a[0];
        assert(b[0] <= b[ta]);
        assert(b.contains(b[0]));
        assert(a.contains(b[0]));
        let tb = choose|t: int| 0 <= t < a.len() && a[t] == b[0];
        assert(a[0] <= a[tb]);
        assert(a[0] == b[0]);
        let a1 = a.skip(1);
        let b1 = b.skip(1);
        assert(strictly_sorted(a1)) by {
            assert(forall|m: int| 0 <= m < a1.len() ==> a1[m] == a[m + 1]);
        }
        assert(strictly_sorted(b1)) by {
            assert(forall|m: int| 0 <= m < b1.len() ==> b1[m] == b[m + 1]);
        }
        assert forall|r: usize| #[trigger] a1.contains(r) <==> #[trigger] b1.contains(r) by {
            lemma_tail_membership(a, r);
            lemma_tail_membership(b, r);
        }
        lemma_strictly_sorted_equal(a1, b1);
        assert(a.len() == b.len());
        assert forall|m: int| 0 <= m < a.len() implies a[m] == b[m] by {
            if m > 0 {
                assert(a1[m - 1] == b1[m - 1]);
            }
        }
    }
}

/// For a strictly sorted list, membership in the tail is membership in the
/// whole list at a value other than the head.
proof fn lemma_tail_membership(a: Seq<usize>, r: usize)
    requires
        strictly_sorted(a),
        a.len() > 0,
    ensures
        a.skip(1).contains(r) <==> (a.contains(r) && r != a[0]),
{
    let a1 = a.skip(1);
    if a1.contains(r) {
        let t = choose|t: int| 0 <= t < a1.len() && a1[t] == r;
        assert(a[t + 1] == r);
        assert(a.contains(r));
        assert(a[0] < a[t + 1]);
    }
    if a.contains(r) && r != a[0] {
        let t = choose|t: int| 0 <= t < a.len() && a[t] == r;
        assert(t > 0);
        assert(a1[t - 1] == r);
        assert(a1.contains(r));
    }
}

/// Applying the anti-transpose twice gives back the original entry lists:
/// `once` is the anti-transpose of `m` at height `h`, and `twice` is the
/// anti-transpose of `once` at height `m.len()`; then every column of `twice`
/// has exactly the entries of the corresponding column of `m`.
pub proof fn lemma_anti_transpose_involution(
    m: Seq<VecColumn>,
    once: Seq<VecColumn>,
    twice: Seq<VecColumn>,
    h: int,
)
    requires
        m.len() <= usize::MAX,
        0 <= h <= usize::MAX,
        forall|j: int| 0 <= j < m.len() ==> (#[trigger] m[j]).wf(),
        forall|j: int, e: usize|
            0 <= j < m.len() && (#[trigger] m[j].has_entry(e)) ==> e < h,
        once.len() == h,
        forall|c: int| 0 <= c < once.len() ==> (#[trigger] once[c]).wf(),
        forall|c: int, row: usize|
            0 <= c < once.len() ==> ((#[trigger] once[c].has_entry(row)) <==> transposed_entry(
                m,
                h,
                c,
                row,
            )),
        twice.len() == m.len(),
        forall|c: int| 0 <= c < twice.len() ==> (#[trigger] twice[c]).wf(),
        forall|c: int, row: usize|
            0 <= c < twice.len() ==> ((#[trigger] twice[c].has_entry(row)) <==> transposed_entry(
                once,
                m.len() as int,
                c,
                row,
            )),
    ensures
        forall|j: int| 0 <= j < m.len() ==> (#[trigger] twice[j]).entries() =~= m[j].entries(),
{
    let w = m.len() as int;
    assert forall|j: int| 0 <= j < m.len() implies (#[trigger] twice[j]).entries() =~= m[
        j].entries() by {
        assert forall|r: usize| #[trigger]
            twice[j].has_entry(r) <==> #[trigger] m[j].has_entry(r) by {
            let wj = (w - 1 - j) as usize;
            assert(wj == w - 1 - j);
            if m[j].has_entry(r) {
                assert(r < h);
                let hr = h - 1 - r;
                assert((h - 1 - hr) as usize == r);
                assert(m.len() - 1 - (wj as int) == j);
                assert(transposed_entry(m, h, hr, wj));
                assert(once[hr].has_entry(wj));
                assert(once.len() - 1 - (r as int) == hr);
                assert(transposed_entry(once, w, j, r));
                assert(twice[j].has_entry(r));
            }
            if twice[j].has_entry(r) {
                assert(transposed_entry(once, w, j, r));
                assert(r < h);
                let hr = h - 1 - r;
                assert(once.len() - 1 - (r as int) == hr);
                assert(once[hr].has_entry(wj));
                assert(transposed_entry(m, h, hr, wj));
                assert(m.len() - 1 - (wj as int) == j);
                assert((h - 1 - hr) as usize == r);
                assert(m[j].has_entry(r));
            }
        }
        assert forall|r: usize| #[trigger]
            twice[j].entries().contains(r) <==> #[trigger] m[j].entries().contains(r) by {
            assert(twice[j].has_entry(r) <==> m[j].has_entry(r));
        }
        lemma_strictly_sorted_equal(twice[j].entries(), m[j].entries());
    }
}

} // verus!
