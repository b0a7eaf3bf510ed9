use vstd::prelude::*;

verus! {

/// Options shared by all worker threads for the duration of one decomposition.
#[derive(Clone, Copy, Debug)]
pub struct LoPhatOptions {
    /// Whether to maintain the V matrix alongside R (doubles memory and work).
    pub maintain_v: bool,
    /// Number of worker threads for a dedicated pool; 0 selects the ambient
    /// global pool.
    pub num_threads: usize,
    /// Overrides the pivot table height; `None` uses the matrix width.
    pub column_height: Option<usize>,
    /// Minimum number of columns handled by one unit of parallel work.
    pub min_chunk_len: usize,
    /// Whether to apply the clearing optimization.
    pub clearing: bool,
}

impl Default for LoPhatOptions {
    fn default() -> (r: Self)
        ensures
            r.maintain_v == false,
            r.num_threads == 0,
            r.column_height is None,
            r.min_chunk_len == 1,
            r.clearing == false,
    {
        LoPhatOptions {
            maintain_v: false,
            num_threads: 0,
            column_height: None,
            min_chunk_len: 1,
            clearing: false,
        }
    }
}

} // verus!
