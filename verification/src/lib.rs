//! A lazily initialized, vector-like container.
//!
//! Cells start out "virtually initialized" to a shared default value and are
//! promoted to an owned, per-cell value only on first write.

mod idx;
mod container;
mod laws;

pub use container::Cell;
pub use container::DuplicateOffset;
pub use container::LazyVec;
pub use container::DEFAULT_CAPACITY;
pub use container::pairwise_distinct;
pub use container::pushed_cells;
pub use idx::RawOffset;
pub use laws::lemma_fresh_reads_after_reset;
pub use laws::lemma_pop_all_agrees;
pub use laws::lemma_push_all_props;
pub use laws::lemma_push_pop_round_trip;
pub use laws::lemma_rev_is_reverse;
pub use laws::pop_all;
pub use laws::popped_value;
pub use laws::push_all;
pub use laws::rev;
