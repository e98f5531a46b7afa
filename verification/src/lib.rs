//! Removal of a batch of elements from a vector, identified by an ascending
//! sequence of positions, in one forward pass and in place.
//!
//! The core operation is [`DrainAtSortedUnchecked::drain_at_sorted_unchecked`],
//! whose precondition — positions strictly ascending, unique and in bounds —
//! and whose effect are both stated as a verified contract: the vector
//! afterwards is exactly [`drained`] of the vector before.  The checked
//! variant [`drain_at_sorted`] validates the positions first and reports
//! which condition they violate.

mod checked;
mod drain;
mod laws;
mod model;

pub use checked::drain_at_sorted;
pub use checked::first_violation;
pub use checked::DrainError;
pub use drain::drain_at_sorted_unchecked;
pub use drain::DrainAtSortedUnchecked;
pub use laws::count_below;
pub use laws::lemma_drained_empty;
pub use laws::lemma_drained_len;
pub use laws::lemma_drained_order;
pub use laws::lemma_drained_singleton;
pub use laws::lemma_drained_survivor;
pub use model::drained;
pub use model::valid_positions;
