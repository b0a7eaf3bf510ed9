mod column;
mod diagram;
mod lock_free;
mod matrix;
mod options;

pub use column::strictly_sorted;
pub use column::VecColumn;
pub use diagram::diagram_from_pivots;
pub use diagram::extracted_from;
pub use diagram::lemma_index_partition;
pub use diagram::paired_as_birth;
pub use diagram::paired_as_death;
pub use diagram::PersistenceDiagram;
pub use lock_free::rv_decompose_lock_free;
pub use lock_free::stored_pair_wf;
pub use lock_free::ColumnCell;
pub use lock_free::LockFreeAlgorithm;
pub use lock_free::PivotCell;
pub use lock_free::RVDecomposition;
pub use matrix::anti_transpose;
pub use matrix::lemma_anti_transpose_involution;
pub use matrix::lemma_strictly_sorted_equal;
pub use matrix::spec_at_height;
pub use matrix::transposed_entry;
pub use matrix::IndexableMatrix;
pub use matrix::VecMatrix;
pub use options::LoPhatOptions;
