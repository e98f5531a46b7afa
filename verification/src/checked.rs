//! A checked entry point: validates the removal positions before compacting
//! and reports which condition the positions violate, instead of demanding a
//! caller-verified precondition.

use vstd::prelude::*;

use crate::drain::DrainAtSortedUnchecked;
use crate::model::{drained, valid_positions};

verus! {

/// The condition a removal-position sequence violates, as found by a single
/// left-to-right scan.
#[derive(Clone, Copy, Debug, PartialEq, Eq, Structural)]
pub enum DrainError {
    /// A position lies at or beyond the end of the vector.
    OutOfRange,
    /// A position repeats its predecessor.
    Duplicate,
    /// A position is smaller than its predecessor.
    Unsorted,
}

/// The first violation that a left-to-right scan of `ps` finds from entry
/// `i` on, against a vector of length `n`: at each entry, bounds are judged
/// first, then equality with the predecessor, then order.
pub open spec fn violation_from(ps: Seq<usize>, n: nat, i: int) -> Option<DrainError>
    decreases ps.len() - i,
{
    if i < 0 || i >= ps.len() {
        None
    } else if (ps[i] as nat) >= n {
        Some(DrainError::OutOfRange)
    } else if i > 0 && ps[i] == ps[i - 1] {
        Some(DrainError::Duplicate)
    } else if i > 0 && ps[i] < ps[i - 1] {
        Some(DrainError::Unsorted)
    } else {
        violation_from(ps, n, i + 1)
    }
}

/// The first violation in `ps` against a vector of length `n`, or `None`
/// when `ps` is a valid removal-position sequence.
pub open spec fn first_violation(ps: Seq<usize>, n: nat) -> Option<DrainError> {
    violation_from(ps, n, 0)
}

/// An adjacent-pairs scan that finds no violation has checked everything:
/// entries below `i` are in bounds and each exceeds its predecessor.
proof fn lemma_scan_clean_prefix_valid(ps: Seq<usize>, n: nat)
    requires
        forall|j: int| 0 <= j < ps.len() ==> (ps[j] as nat) < n,
        forall|j: int| 0 < j < ps.len() ==> ps[j - 1] < #[trigger] ps[j],
    ensures
        valid_positions(ps, n),
{
    assert forall|i: int, j: int| 0 <= i < j < ps.len() implies ps[i] < ps[j] by {
        lemma_adjacent_increasing(ps, i, j);
    }
}

/// Strict increase of adjacent entries extends to any pair of entries.
proof fn lemma_adjacent_increasing(ps: Seq<usize>, i: int, j: int)
    requires
        forall|k: int| 0 < k < ps.len() ==> ps[k - 1] < #[trigger] ps[k],
        0 <= i < j < ps.len(),
    ensures
        ps[i] < ps[j],
    decreases j - i,
{
    if i + 1 < j {
        lemma_adjacent_increasing(ps, i + 1, j);
    }
}

/// Removes the elements of `v` at the given positions after validating
/// them.  On success the vector is compacted exactly as
/// [`DrainAtSortedUnchecked::drain_at_sorted_unchecked`] does; otherwise the
/// vector is untouched and the error names the first violated condition, in
/// scan order.
pub fn drain_at_sorted<T>(v: &mut Vec<T>, positions: &[usize]) -> (r: Result<(), DrainError>)
    ensures
        match r {
            Ok(()) => {
                &&& valid_positions(positions@, old(v)@.len())
                &&& first_violation(positions@, old(v)@.len()) is None
                &&& final(v)@ == drained(old(v)@, positions@)
            },
            Err(e) => {
                &&& !valid_positions(positions@, old(v)@.len())
                &&& first_violation(positions@, old(v)@.len()) == Some(e)
                &&& final(v)@ == old(v)@
            },
        },
{
    let ghost n_ghost: nat = v@.len();
    let n: usize = v.len();
    let mut i: usize = 0;
    while i < positions.len()
        invariant
            n == n_ghost,
            n_ghost == old(v)@.len(),
            v@ == old(v)@,
            i <= positions@.len(),
            violation_from(positions@, n_ghost, 0) == violation_from(
                positions@,
                n_ghost,
                i as int,
            ),
            forall|j: int| 0 <= j < i ==> (positions@[j] as nat) < n_ghost,
            forall|j: int| 0 < j < i ==> positions@[j - 1] < #[trigger] positions@[j],
        decreases positions@.len() - i,
    {
        if positions[i] >= n {
            proof {
                assert(!valid_positions(positions@, n_ghost));
            }
            return Err(DrainError::OutOfRange);
        }
        if i > 0 {
            if positions[i] == positions[i - 1] {
                proof {
                    assert(!valid_positions(positions@, n_ghost));
                }
                return Err(DrainError::Duplicate);
            }
            if positions[i] < positions[i - 1] {
                proof {
                    assert(!valid_positions(positions@, n_ghost));
                }
                return Err(DrainError::Unsorted);
            }
        }
        i = i + 1;
    }
    proof {
        lemma_scan_clean_prefix_valid(positions@, n_ghost);
    }
    v.drain_at_sorted_unchecked(positions);
    Ok(())
}

} // verus!
