//! The compaction pass: removal of the elements at a batch of ascending
//! positions in one forward walk over the vector, in place.

use vstd::prelude::*;

use crate::model::{
    drained, lemma_drained_push_keep, lemma_drained_push_removed, valid_positions,
};

verus! {

/// Relies on `<[T]>::swap`: exchanges the elements at the two indices and
/// moves nothing else.  Both indices are in bounds, so the call cannot panic.
#[verifier::external_body]
fn vec_swap<T>(v: &mut Vec<T>, a: usize, b: usize)
    requires
        a < old(v)@.len(),
        b < old(v)@.len(),
    ensures
        final(v)@ == old(v)@.update(a as int, old(v)@[b as int]).update(b as int, old(v)@[a as int]),
{
    v.swap(a, b);
}

/// The extension capability that provides
/// [`drain_at_sorted_unchecked`](DrainAtSortedUnchecked::drain_at_sorted_unchecked),
/// in the manner of `Vec::drain`.
pub trait DrainAtSortedUnchecked<T>: View<V = Seq<T>> {
    /// Removes the elements at the given positions.
    ///
    /// The positions must be strictly ascending — hence unique — and within
    /// bounds of the collection.  The surviving elements keep their relative
    /// order; the length shrinks by the number of positions.
    fn drain_at_sorted_unchecked(&mut self, positions: &[usize])
        requires
            valid_positions(positions@, old(self)@.len()),
        ensures
            final(self)@ == drained(old(self)@, positions@),
    ;
}

impl<T> DrainAtSortedUnchecked<T> for Vec<T> {
    /// One forward pass.  `read` walks the elements as they lay before the
    /// call, `pi` walks the
    /// removal positions; every element whose position is not named is moved
    /// down to `write`, the next free survivor slot, which trails `read` by
    /// exactly the number of elements removed so far.  The move is a swap, so
    /// the removed elements end up in the tail beyond the last survivor and
    /// are destroyed, each exactly once, by the final truncation.
    fn drain_at_sorted_unchecked(&mut self, positions: &[usize]) {
        let ghost s0: Seq<T> = self@;
        let n: usize = self.len();
        let mut read: usize = 0;
        let mut write: usize = 0;
        let mut pi: usize = 0;
        while read < n
            invariant
                n == s0.len(),
                self@.len() == n,
                valid_positions(positions@, n as nat),
                read <= n,
                pi <= positions@.len(),
                write + pi == read,
                forall|j: int| 0 <= j < pi ==> (positions@[j] as int) < read,
                pi < positions@.len() ==> read <= positions@[pi as int] as int,
                self@.subrange(read as int, n as int) == s0.subrange(read as int, n as int),
                self@.subrange(0, write as int) == drained(
                    s0.subrange(0, read as int),
                    positions@.subrange(0, pi as int),
                ),
            decreases n - read,
        {
            let ghost pre: Seq<T> = self@;
            let ghost ps_seen: Seq<usize> = positions@.subrange(0, pi as int);
            assert(pre[read as int] == s0[read as int]) by {
                assert(pre.subrange(read as int, n as int)[0] == pre[read as int]);
                assert(s0.subrange(read as int, n as int)[0] == s0[read as int]);
            }
            if pi < positions.len() && positions[pi] == read {
                // The element at `read` is to be removed: leave it behind.
                proof {
                    lemma_drained_push_removed(
                        s0.subrange(0, read as int),
                        s0[read as int],
                        ps_seen,
                        positions@[pi as int],
                    );
                    assert(s0.subrange(0, read as int).push(s0[read as int]) =~= s0.subrange(
                        0,
                        read as int + 1,
                    ));
                    assert(ps_seen.push(positions@[pi as int]) =~= positions@.subrange(
                        0,
                        pi as int + 1,
                    ));
                }
                pi = pi + 1;
                proof {
                    assert(self@.subrange(read as int + 1, n as int) =~= s0.subrange(
                        read as int + 1,
                        n as int,
                    )) by {
                        assert forall|j: int| read + 1 <= j < n implies self@[j] == s0[j] by {
                            assert(pre.subrange(read as int, n as int)[j - read] == pre[j]);
                            assert(s0.subrange(read as int, n as int)[j - read] == s0[j]);
                        }
                    }
                }
            } else {
                // The element at `read` survives: move it down to `write`.
                vec_swap(self, write, read);
                proof {
                    assert(valid_positions(ps_seen, read as nat));
                    lemma_drained_push_keep(
                        s0.subrange(0, read as int),
                        s0[read as int],
                        ps_seen,
                    );
                    assert(s0.subrange(0, read as int).push(s0[read as int]) =~= s0.subrange(
                        0,
                        read as int + 1,
                    ));
                    assert(self@.subrange(0, write as int + 1) =~= pre.subrange(
                        0,
                        write as int,
                    ).push(s0[read as int]));
                    assert(self@.subrange(read as int + 1, n as int) =~= s0.subrange(
                        read as int + 1,
                        n as int,
                    )) by {
                        assert forall|j: int| read + 1 <= j < n implies pre[j] == s0[j] by {
                            assert(pre.subrange(read as int, n as int)[j - read] == pre[j]);
                            assert(s0.subrange(read as int, n as int)[j - read] == s0[j]);
                        }
                    }
                }
                write = write + 1;
            }
            read = read + 1;
        }
        proof {
            assert(pi == positions@.len());
            assert(s0.subrange(0, n as int) =~= s0);
            assert(positions@.subrange(0, pi as int) =~= positions@);
        }
        self.truncate(write);
    }
}

/// Standalone form of
/// [`DrainAtSortedUnchecked::drain_at_sorted_unchecked`], for call sites
/// that prefer a free function.
pub fn drain_at_sorted_unchecked<T, C: DrainAtSortedUnchecked<T>>(
    collection: &mut C,
    positions: &[usize],
)
    requires
        valid_positions(positions@, old(collection)@.len()),
    ensures
        final(collection)@ == drained(old(collection)@, positions@),
{
    collection.drain_at_sorted_unchecked(positions);
}

} // verus!
