use vstd::prelude::*;

use rayon::iter::{IndexedParallelIterator, IntoParallelIterator, ParallelIterator};

use crate::column::{lemma_pivot_is_max, pivot_measure, VecColumn};
use crate::diagram::{diagram_from_pivots, extracted_from, paired_as_birth, paired_as_death, PersistenceDiagram};
use crate::matrix::spec_at_height;
use crate::options::LoPhatOptions;

verus! {

#[verifier::external_type_specification]
#[verifier::external_body]
#[verifier::reject_recursive_types(T)]
pub struct ExNonEmptyPinboard<T: 'static>(pinboard::NonEmptyPinboard<T>);

#[verifier::external_type_specification]
#[verifier::external_body]
#[verifier::reject_recursive_types(T)]
pub struct ExAtomicCell<T>(crossbeam::atomic::AtomicCell<T>);

#[verifier::external_type_specification]
#[verifier::external_body]
pub struct ExThreadPool(rayon::ThreadPool);

/// One matrix slot: an atomically replaceable snapshot cell holding a complete
/// (R column, optional V column) pair, together with the pivot-table height
/// that bounds the row indices of every pair ever stored in it.
pub struct ColumnCell {
    pub board: pinboard::NonEmptyPinboard<(VecColumn, Option<VecColumn>)>,
    pub height: usize,
}

/// What this crate stores in a column cell of the given height: a well-formed
/// R column, all of whose entries are valid pivot-table rows, and a well-formed
/// V column when one is kept.
pub open spec fn stored_pair_wf(pair: (VecColumn, Option<VecColumn>), height: usize) -> bool {
    &&& pair.0.wf()
    &&& forall|e: usize| #[trigger] pair.0.has_entry(e) ==> e < height
    &&& pair.1 is Some ==> pair.1->Some_0.wf()
}

/// Relies on pinboard::NonEmptyPinboard::new: the cell starts out holding
/// exactly the given pair.
#[verifier::external_body]
fn column_cell_new(pair: (VecColumn, Option<VecColumn>), height: usize) -> (c: ColumnCell)
    requires
        stored_pair_wf(pair, height),
    ensures
        c.height == height,
{
    ColumnCell { board: pinboard::NonEmptyPinboard::new(pair), height }
}

/// Relies on pinboard::NonEmptyPinboard::read: it returns a clone of one value
/// that some thread passed to new or set on this cell, never a partial update.
/// Every pair this crate stores satisfies stored_pair_wf for the cell's height
/// (see column_cell_new and column_cell_set), so every read outcome does too.
#[verifier::external_body]
fn column_cell_read(c: &ColumnCell) -> (pair: (VecColumn, Option<VecColumn>))
    ensures
        stored_pair_wf(pair, c.height),
{
    c.board.read()
}

/// Relies on pinboard::NonEmptyPinboard::set: it replaces the cell's value by
/// the whole pair in one atomic step, so no reader ever sees a stale R next to
/// a fresh V.
#[verifier::external_body]
fn column_cell_set(c: &ColumnCell, pair: (VecColumn, Option<VecColumn>))
    requires
        stored_pair_wf(pair, c.height),
{
    c.board.set(pair)
}

/// One pivot-table slot: an atomic optional column index, together with the
/// matrix width that bounds every index ever stored in it.
pub struct PivotCell {
    pub cell: crossbeam::atomic::AtomicCell<Option<usize>>,
    pub width: usize,
}

/// Relies on crossbeam's AtomicCell::new: the slot starts out unclaimed.
#[verifier::external_body]
fn pivot_cell_new(width: usize) -> (c: PivotCell)
    ensures
        c.width == width,
{
    PivotCell { cell: crossbeam::atomic::AtomicCell::new(None), width }
}

/// Relies on crossbeam's AtomicCell::load: it returns the stored value. The
/// slot starts as None and is only ever changed by pivot_cell_compare_exchange,
/// whose requires admits only column indices below the slot's width, so every
/// load outcome is None or such an index.
#[verifier::external_body]
fn pivot_cell_load(c: &PivotCell) -> (r: Option<usize>)
    ensures
        r is Some ==> r->Some_0 < c.width,
{
    c.cell.load()
}

/// Relies on crossbeam's AtomicCell::compare_exchange: in one atomic step the
/// slot is replaced by `new` if it currently equals `current` and left alone
/// otherwise; the returned flag says whether the exchange happened.
#[verifier::external_body]
fn pivot_cell_compare_exchange(c: &PivotCell, current: Option<usize>, new: Option<usize>) -> (ok:
    bool)
    requires
        new is Some ==> new->Some_0 < c.width,
{
    c.cell.compare_exchange(current, new).is_ok()
}

/// What one pass of the reduction protocol decided: the working column is
/// finished, the pass must restart from a fresh snapshot, or the work migrates
/// to the column that lost the pivot claim.
enum ReduceStep {
    Done,
    Restart,
    Migrate(usize),
}

/// The pool that carries out one decomposition's parallel work: the ambient
/// global pool, or a dedicated pool of a configured size.
pub enum LoPhatThreadPool {
    Global,
    Local(rayon::ThreadPool),
}

/// Relies on rayon's ThreadPoolBuilder::build: it yields a dedicated pool with
/// the given number of worker threads, or an error if the pool cannot be built.
#[verifier::external_body]
fn build_thread_pool(num_threads: usize) -> (r: Option<rayon::ThreadPool>) {
    rayon::ThreadPoolBuilder::new().num_threads(num_threads).build().ok()
}

/// The matrix and pivot table behind atomic snapshot cells, plus the options
/// and the thread pool that drive one parallel decomposition.
pub struct LockFreeAlgorithm {
    pub matrix: Vec<ColumnCell>,
    pub pivots: Vec<PivotCell>,
    pub options: LoPhatOptions,
    pub thread_pool: LoPhatThreadPool,
    pub max_dim: usize,
}

impl LockFreeAlgorithm {
    /// Every column cell is bounded by the pivot-table height, and every pivot
    /// slot by the matrix width.
    pub open spec fn wf(self) -> bool {
        &&& forall|j: int|
            0 <= j < self.matrix@.len() ==> (#[trigger] self.matrix@[j]).height
                == self.pivots@.len()
        &&& forall|l: int|
            0 <= l < self.pivots@.len() ==> (#[trigger] self.pivots@[l]).width
                == self.matrix@.len()
    }

    /// Initializes the atomic data structure with the given columns, stores
    /// the options, and sets up the thread pool. When V is maintained, column
    /// `idx` starts with the identity V column `e_idx`.
    pub fn new(matrix: Vec<VecColumn>, options: &LoPhatOptions) -> (algo: Self)
        requires
            forall|j: int| 0 <= j < matrix@.len() ==> (#[trigger] matrix@[j]).wf(),
            forall|j: int, e: usize|
                0 <= j < matrix@.len() && (#[trigger] matrix@[j].has_entry(e)) ==> e
                    < spec_at_height(matrix@.len() as int, options.column_height),
        ensures
            algo.wf(),
            algo.matrix@.len() == matrix@.len(),
            algo.pivots@.len() == spec_at_height(matrix@.len() as int, options.column_height),
            algo.options == *options,
            forall|j: int|
                0 <= j < matrix@.len() ==> (#[trigger] matrix@[j]).dimension <= algo.max_dim,
    {
        let width = matrix.len();
        let column_height = match options.column_height {
            Some(h) => h,
            None => width,
        };
        let mut cells: Vec<ColumnCell> = Vec::new();
        let mut max_dim: usize = 0;
        let mut idx: usize = 0;
        while idx < width
            invariant
                idx <= width,
                width == matrix@.len(),
                cells@.len() == idx,
                column_height == spec_at_height(matrix@.len() as int, options.column_height),
                forall|j: int| 0 <= j < matrix@.len() ==> (#[trigger] matrix@[j]).wf(),
                forall|j: int, e: usize|
                    0 <= j < matrix@.len() && (#[trigger] matrix@[j].has_entry(e)) ==> e
                        < column_height,
                forall|t: int| 0 <= t < idx ==> (#[trigger] cells@[t]).height == column_height,
                forall|j: int| 0 <= j < idx ==> (#[trigger] matrix@[j]).dimension <= max_dim,
            decreases width - idx,
        {
            let src = &matrix[idx];
            let dim = src.dimension();
            if dim > max_dim {
                max_dim = dim;
            }
            let r_col = src.with_dimension(dim);
            proof {
                assert(r_col.entries() == matrix@[idx as int].entries());
                assert forall|e: usize| #[trigger] r_col.has_entry(e) implies e
                    < column_height by {
                    assert(matrix@[idx as int].has_entry(e));
                }
            }
            let pair = if options.maintain_v {
                let mut v_col = VecColumn::new_with_dimension(dim);
                v_col.add_entry(idx);
                (r_col, Some(v_col))
            } else {
                (r_col, None)
            };
            cells.push(column_cell_new(pair, column_height));
            idx = idx + 1;
        }
        let mut pivots: Vec<PivotCell> = Vec::new();
        while pivots.len() < column_height
            invariant
                pivots@.len() <= column_height,
                forall|l: int| 0 <= l < pivots@.len() ==> (#[trigger] pivots@[l]).width == width,
            decreases column_height - pivots@.len(),
        {
            pivots.push(pivot_cell_new(width));
        }
        // A nonzero thread count asks for a dedicated pool; zero selects the
        // ambient global pool. If a dedicated pool cannot be built, fall back
        // to the global one rather than fail the whole decomposition.
        let thread_pool = if options.num_threads == 0 {
            LoPhatThreadPool::Global
        } else {
            match build_thread_pool(options.num_threads) {
                Some(pool) => LoPhatThreadPool::Local(pool),
                None => LoPhatThreadPool::Global,
            }
        };
        LockFreeAlgorithm { matrix: cells, pivots, options: *options, thread_pool, max_dim }
    }

    /// Returns a column that currently claims pivot row `l`, if any: the
    /// claiming index and a snapshot of its column pair whose actual pivot is
    /// still `l`. A claim whose snapshot has moved on is re-read, closing the
    /// race with a concurrent addition to the claiming column.
    pub fn get_col_with_pivot(&self, l: usize) -> (res: Option<
        (usize, (VecColumn, Option<VecColumn>)),
    >)
        requires
            self.wf(),
            l < self.pivots@.len(),
        ensures
            (match res {
                Some(found) => {
                    &&& found.0 < self.matrix@.len()
                    &&& found.1.0.wf()
                    &&& found.1.0.spec_pivot() == Some(l)
                    &&& forall|e: usize| #[trigger] found.1.0.has_entry(e) ==> e < self.pivots@.len()
                    &&& found.1.1 is Some ==> found.1.1->Some_0.wf()
                },
                None => true,
            }),
    {
        // A re-read is needed only after another thread moved the claim on, so
        // no real execution comes near this retry budget.
        let mut retries: usize = usize::MAX;
        loop
            invariant
                self.wf(),
                l < self.pivots@.len(),
            decreases retries,
        {
            if retries == 0 {
                return None;
            }
            retries = retries - 1;
            match pivot_cell_load(&self.pivots[l]) {
                Some(piv) => {
                    proof {
                        assert(self.matrix@[piv as int].height == self.pivots@.len());
                    }
                    let cols = column_cell_read(&self.matrix[piv]);
                    match cols.0.pivot() {
                        Some(p) => {
                            if p == l {
                                return Some((piv, cols));
                            }
                            // The claim is stale: the column has been added to
                            // since it claimed `l`; read the claim again.
                        },
                        None => {},
                    }
                },
                None => {
                    // No column currently claims this pivot row.
                    return None;
                },
            }
        }
    }

    /// Reduces the column at working index `j` as far as possible, migrating
    /// to a higher working index when a pivot contention is lost there. Safe
    /// to invoke concurrently, once per column, with no other synchronization:
    /// all shared mutation goes through the atomic publish and compare-and-swap
    /// of the cells.
    pub fn reduce_column(&self, j: usize)
        requires
            self.wf(),
            j < self.matrix@.len(),
    {
        let mut working_j = j;
        // A restart happens only after a compare-and-swap lost a race or a
        // snapshot went stale, both of which need another thread to have made
        // progress, so no real execution comes near this retry budget.
        let mut retries: usize = usize::MAX;
        loop
            invariant
                self.wf(),
                working_j < self.matrix@.len(),
            decreases retries,
        {
            if retries == 0 {
                return ;
            }
            retries = retries - 1;
            match self.reduce_pass(working_j) {
                ReduceStep::Done => {
                    return ;
                },
                ReduceStep::Restart => {},
                ReduceStep::Migrate(p) => {
                    working_j = p;
                },
            }
        }
    }

    /// One pass of the reduction protocol over a fresh snapshot of the working
    /// column: adds in lower claiming columns until the pivot is unclaimed or
    /// claimed from the right, then publishes and resolves the claim by
    /// compare-and-swap. Each local addition strictly lowers the working pivot.
    fn reduce_pass(&self, working_j: usize) -> (outcome: ReduceStep)
        requires
            self.wf(),
            working_j < self.matrix@.len(),
        ensures
            (match outcome {
                ReduceStep::Migrate(p) => working_j < p < self.matrix@.len(),
                _ => true,
            }),
    {
        let (mut curr_r, mut curr_v) = column_cell_read(&self.matrix[working_j]);
        proof {
            assert(self.matrix@[working_j as int].height == self.pivots@.len());
        }
        loop
            invariant
                self.wf(),
                working_j < self.matrix@.len(),
                curr_r.wf(),
                forall|e: usize| #[trigger] curr_r.has_entry(e) ==> e < self.pivots@.len(),
                curr_v is Some ==> curr_v->Some_0.wf(),
            decreases pivot_measure(curr_r),
        {
            let piv_row = curr_r.pivot();
            match piv_row {
                Some(l) => {
                    // Every entry of the working column is a valid pivot row.
                    match self.get_col_with_pivot(l) {
                        Some(found) => {
                            let (piv, piv_pair) = found;
                            let (piv_r, piv_v) = piv_pair;
                            if piv < working_j {
                                // A column to the left owns this pivot: add it in
                                // locally and keep looking for the true reduced form.
                                let ghost pre = curr_r;
                                curr_r.add_col(&piv_r);
                                proof {
                                    assert forall|e: usize| #[trigger]
                                        curr_r.has_entry(e) implies e
                                        < self.pivots@.len() by {
                                        assert(curr_r.has_entry(e) <==> (pre.has_entry(e)
                                            != piv_r.has_entry(e)));
                                    }
                                    // Both columns had pivot row l, so l cancelled and
                                    // every surviving entry lies strictly below it: the
                                    // working pivot strictly decreases.
                                    lemma_pivot_is_max(pre);
                                    lemma_pivot_is_max(piv_r);
                                    assert forall|e: usize| #[trigger]
                                        curr_r.has_entry(e) implies e < l by {
                                        assert(pre.has_entry(e) != piv_r.has_entry(e));
                                        assert(e <= l);
                                        if e == l {
                                            assert(pre.has_entry(l));
                                            assert(piv_r.has_entry(l));
                                        }
                                    }
                                    if curr_r.spec_pivot() is Some {
                                        lemma_pivot_is_max(curr_r);
                                        assert(curr_r.has_entry(
                                            curr_r.spec_pivot()->Some_0,
                                        ));
                                    }
                                    assert(pivot_measure(curr_r) < pivot_measure(pre));
                                }
                                if self.options.maintain_v {
                                    curr_v = match curr_v {
                                        Some(mut cv) => {
                                            match &piv_v {
                                                Some(pv) => {
                                                    cv.add_col(pv);
                                                },
                                                None => {},
                                            }
                                            Some(cv)
                                        },
                                        None => None,
                                    };
                                }
                            } else if piv > working_j {
                                // A column to the right claims it: publish our
                                // progress and try to take the claim over.
                                proof {
                                    assert(self.matrix@[working_j as int].height
                                        == self.pivots@.len());
                                    assert(self.pivots@[l as int].width
                                        == self.matrix@.len());
                                }
                                column_cell_set(&self.matrix[working_j], (curr_r, curr_v));
                                if pivot_cell_compare_exchange(
                                    &self.pivots[l],
                                    Some(piv),
                                    Some(working_j),
                                ) {
                                    return ReduceStep::Migrate(piv);
                                }
                                return ReduceStep::Restart;
                            } else {
                                // A slot claiming its own unfinished column would be
                                // a protocol violation and cannot arise from the
                                // claims made here; treat the snapshot as stale and
                                // start over from a fresh read.
                                return ReduceStep::Restart;
                            }
                        },
                        None => {
                            // Nobody claims this row yet: publish and try to
                            // claim it; success finishes this column.
                            proof {
                                assert(self.matrix@[working_j as int].height
                                    == self.pivots@.len());
                                assert(self.pivots@[l as int].width == self.matrix@.len());
                            }
                            column_cell_set(&self.matrix[working_j], (curr_r, curr_v));
                            if pivot_cell_compare_exchange(
                                &self.pivots[l],
                                None,
                                Some(working_j),
                            ) {
                                return ReduceStep::Done;
                            }
                            return ReduceStep::Restart;
                        },
                    }
                },
                None => {
                    // The column is a cycle: publish it and finish.
                    proof {
                        assert(self.matrix@[working_j as int].height == self.pivots@.len());
                    }
                    column_cell_set(&self.matrix[working_j], (curr_r, curr_v));
                    return ReduceStep::Done;
                },
            }
        }
    }

    /// Uses the fully reduced boundary column at `boundary_idx` to clear the
    /// column its pivot row points at: that column is known, by the structure
    /// of the filtration, to reduce to zero, so its R is set to an empty column
    /// directly and, when V is maintained, its V to the boundary's R.
    pub fn clear_with_column(&self, boundary_idx: usize)
        requires
            self.wf(),
            boundary_idx < self.matrix@.len(),
    {
        let (boundary_r, _boundary_v) = column_cell_read(&self.matrix[boundary_idx]);
        match boundary_r.pivot() {
            Some(clearing_idx) => {
                if clearing_idx < self.matrix.len() {
                    let (cleared, _old_v) = column_cell_read(&self.matrix[clearing_idx]);
                    let clearing_dimension = cleared.dimension();
                    let r_col = VecColumn::new_with_dimension(clearing_dimension);
                    let v_col = if self.options.maintain_v {
                        Some(boundary_r.with_dimension(clearing_dimension))
                    } else {
                        None
                    };
                    proof {
                        assert(self.matrix@[clearing_idx as int].height == self.pivots@.len());
                    }
                    column_cell_set(&self.matrix[clearing_idx], (r_col, v_col));
                }
                // A pivot row at or past the matrix width points at no column;
                // nothing to clear.
            },
            None => {
                // Clearing with a cycle column is a caller contract violation;
                // the driver only selects boundary columns, so there is nothing
                // to do here.
            },
        }
    }

    /// Whether the column at `j` currently has the given dimension.
    fn column_has_dimension(&self, j: usize, dimension: usize) -> (r: bool)
        requires
            self.wf(),
            j < self.matrix@.len(),
    {
        let (r_col, _v_col) = column_cell_read(&self.matrix[j]);
        r_col.dimension() == dimension
    }

    /// Whether the column at `j` currently has the given dimension and a
    /// nonzero pivot.
    fn column_is_boundary_of_dimension(&self, j: usize, dimension: usize) -> (r: bool)
        requires
            self.wf(),
            j < self.matrix@.len(),
    {
        let (r_col, _v_col) = column_cell_read(&self.matrix[j]);
        r_col.dimension() == dimension && r_col.is_boundary()
    }

    /// Reduces every column currently of the given dimension, fully in
    /// parallel, chunked by the configured minimum granularity.
    ///
    /// Relies on rayon: `for_each` over a parallel index range runs the closure
    /// once for every index, and `ThreadPool::install` runs the whole job
    /// inside the dedicated pool. The closures only call verified methods of
    /// this type, on indices below the matrix width.
    #[verifier::external_body]
    pub fn reduce_dimension(&self, dimension: usize)
        requires
            self.wf(),
    {
        let job = || {
            (0..self.matrix.len())
                .into_par_iter()
                .with_min_len(self.options.min_chunk_len)
                .filter(|&j| self.column_has_dimension(j, dimension))
                .for_each(|j| self.reduce_column(j));
        };
        match &self.thread_pool {
            LoPhatThreadPool::Global => job(),
            LoPhatThreadPool::Local(pool) => pool.install(job),
        }
    }

    /// Clears every dimension-`dimension` column whose R is currently a
    /// boundary, fully in parallel.
    ///
    /// Relies on rayon exactly as reduce_dimension does; the closures only
    /// call verified methods of this type, on indices below the matrix width.
    #[verifier::external_body]
    pub fn clear_dimension(&self, dimension: usize)
        requires
            self.wf(),
    {
        let job = || {
            (0..self.matrix.len())
                .into_par_iter()
                .with_min_len(self.options.min_chunk_len)
                .filter(|&j| self.column_is_boundary_of_dimension(j, dimension))
                .for_each(|j| self.clear_with_column(j));
        };
        match &self.thread_pool {
            LoPhatThreadPool::Global => job(),
            LoPhatThreadPool::Local(pool) => pool.install(job),
        }
    }

    /// Reduces the whole matrix: dimensions are processed strictly from the
    /// highest present down to zero, with clearing after each dimension when
    /// enabled, since clearing a lower-dimension column depends on a fully
    /// reduced higher-dimension one.
    pub fn reduce(&self)
        requires
            self.wf(),
    {
        let mut dimension = self.max_dim;
        loop
            invariant
                self.wf(),
            decreases dimension,
        {
            self.reduce_dimension(dimension);
            if self.options.clearing && dimension > 0 {
                self.clear_dimension(dimension);
            }
            if dimension == 0 {
                break ;
            }
            dimension = dimension - 1;
        }
    }

    /// Reads the persistence diagram off the current state: a pair (l, idx)
    /// for every column idx whose R has pivot row l, and as unpaired every
    /// index appearing in no pair.
    pub fn diagram(&self) -> (dgm: PersistenceDiagram)
        requires
            self.wf(),
        ensures
            exists|pivot_rows: Seq<Option<usize>>|
                pivot_rows.len() == self.matrix@.len() && #[trigger] extracted_from(
                    dgm,
                    pivot_rows,
                ),
            forall|l: usize, d: usize|
                #[trigger] dgm.paired@.contains((l, d)) ==> d < self.matrix@.len(),
            forall|i: usize|
                #[trigger] dgm.unpaired@.contains(i) <==> (i < self.matrix@.len()
                    && !paired_as_birth(dgm, i) && !paired_as_death(dgm, i)),
    {
        let n = self.matrix.len();
        let mut pivot_rows: Vec<Option<usize>> = Vec::new();
        let mut j: usize = 0;
        while j < n
            invariant
                j <= n,
                n == self.matrix@.len(),
                self.wf(),
                pivot_rows@.len() == j,
            decreases n - j,
        {
            let (r_col, _v_col) = column_cell_read(&self.matrix[j]);
            pivot_rows.push(r_col.pivot());
            j = j + 1;
        }
        let dgm = diagram_from_pivots(&pivot_rows);
        proof {
            assert(pivot_rows@.len() == self.matrix@.len() && extracted_from(dgm, pivot_rows@));
        }
        dgm
    }

    /// Drains the store into a plain decomposition: the R columns in index
    /// order and, when V was maintained, the matching V columns.
    pub fn to_decomposition(self) -> (dec: RVDecomposition)
        requires
            self.wf(),
        ensures
            dec.r@.len() == self.matrix@.len(),
            forall|j: int| 0 <= j < dec.r@.len() ==> (#[trigger] dec.r@[j]).wf(),
            dec.v is Some <==> self.options.maintain_v,
            dec.v is Some ==> dec.v->Some_0@.len() == self.matrix@.len(),
            dec.v is Some ==> forall|j: int|
                0 <= j < dec.v->Some_0@.len() ==> (#[trigger] dec.v->Some_0@[j]).wf(),
    {
        let n = self.matrix.len();
        let mut r_cols: Vec<VecColumn> = Vec::new();
        let mut v_cols: Vec<VecColumn> = Vec::new();
        let mut j: usize = 0;
        while j < n
            invariant
                j <= n,
                n == self.matrix@.len(),
                self.wf(),
                r_cols@.len() == j,
                forall|t: int| 0 <= t < j ==> (#[trigger] r_cols@[t]).wf(),
                self.options.maintain_v ==> v_cols@.len() == j,
                !self.options.maintain_v ==> v_cols@.len() == 0,
                forall|t: int| 0 <= t < v_cols@.len() ==> (#[trigger] v_cols@[t]).wf(),
            decreases n - j,
        {
            let (r_col, v_col) = column_cell_read(&self.matrix[j]);
            if self.options.maintain_v {
                match v_col {
                    Some(vc) => {
                        v_cols.push(vc);
                    },
                    None => {
                        // Every column stored while maintaining V carries one;
                        // fill in an empty column if a pair without V is met.
                        v_cols.push(VecColumn::new_with_dimension(r_col.dimension()));
                    },
                }
            }
            r_cols.push(r_col);
            j = j + 1;
        }
        if self.options.maintain_v {
            RVDecomposition { r: r_cols, v: Some(v_cols) }
        } else {
            RVDecomposition { r: r_cols, v: None }
        }
    }
}

/// A plain (R, optional V) decomposition read out of the atomic state.
pub struct RVDecomposition {
    pub r: Vec<VecColumn>,
    pub v: Option<Vec<VecColumn>>,
}

/// Decomposes the input matrix with the lock-free parallel algorithm of
/// Morozov and Nigmetov: builds the atomic state from the columns and reduces
/// every dimension, from the highest down to zero.
pub fn rv_decompose_lock_free(matrix: Vec<VecColumn>, options: &LoPhatOptions) -> (algo:
    LockFreeAlgorithm)
    requires
        forall|j: int| 0 <= j < matrix@.len() ==> (#[trigger] matrix@[j]).wf(),
        forall|j: int, e: usize|
            0 <= j < matrix@.len() && (#[trigger] matrix@[j].has_entry(e)) ==> e < spec_at_height(
                matrix@.len() as int,
                options.column_height,
            ),
    ensures
        algo.wf(),
        algo.matrix@.len() == matrix@.len(),
        algo.options == *options,
{
    let algo = LockFreeAlgorithm::new(matrix, options);
    algo.reduce();
    algo
}

} // verus!
