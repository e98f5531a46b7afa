//! Properties of [`drained`] that hold for every sequence and every valid
//! removal-position sequence, proved once and for all.

use vstd::prelude::*;

use crate::model::{drained, lemma_valid_drop_last, valid_positions};

verus! {

/// How many entries of `ps` are smaller than `i`: for a valid `ps`, the
/// distance an element at position `i` moves left during compaction.
pub open spec fn count_below(ps: Seq<usize>, i: int) -> int
    decreases ps.len(),
{
    if ps.len() == 0 {
        0
    } else {
        count_below(ps.drop_last(), i) + if (ps.last() as int) < i {
            1int
        } else {
            0int
        }
    }
}

proof fn lemma_count_below_bounds(ps: Seq<usize>, i: int)
    ensures
        0 <= count_below(ps, i) <= ps.len(),
    decreases ps.len(),
{
    if ps.len() > 0 {
        lemma_count_below_bounds(ps.drop_last(), i);
    }
}

proof fn lemma_count_below_all_lt(ps: Seq<usize>, i: int)
    requires
        forall|j: int| 0 <= j < ps.len() ==> (#[trigger] ps[j] as int) < i,
    ensures
        count_below(ps, i) == ps.len(),
    decreases ps.len(),
{
    if ps.len() > 0 {
        assert forall|j: int| 0 <= j < ps.drop_last().len() implies (#[trigger] ps.drop_last()[j]
            as int) < i by {
            assert(ps.drop_last()[j] == ps[j]);
        }
        lemma_count_below_all_lt(ps.drop_last(), i);
    }
}

/// A scan threshold one higher counts at most one more entry — exactly one
/// more when some entry equals `i`, none when no entry does.
proof fn lemma_count_below_step(ps: Seq<usize>, i: int)
    requires
        forall|a: int, b: int| 0 <= a < b < ps.len() ==> ps[a] < ps[b],
    ensures
        count_below(ps, i) <= count_below(ps, i + 1) <= count_below(ps, i) + 1,
        (forall|j: int| 0 <= j < ps.len() ==> (#[trigger] ps[j] as int) != i) ==> count_below(
            ps,
            i + 1,
        ) == count_below(ps, i),
    decreases ps.len(),
{
    if ps.len() > 0 {
        let ps1 = ps.drop_last();
        assert(forall|j: int| 0 <= j < ps1.len() ==> #[trigger] ps1[j] == ps[j]);
        lemma_count_below_step(ps1, i);
        if ps.last() as int == i {
            // Uniqueness: no earlier entry can also equal `i`.
            assert forall|j: int| 0 <= j < ps1.len() implies (#[trigger] ps1[j] as int) != i by {
                assert(ps[j] < ps[ps.len() - 1]);
            }
        }
    }
}

/// Raising the scan threshold by a distance raises the count by at most
/// that distance, and never lowers it.
proof fn lemma_count_below_lipschitz(ps: Seq<usize>, i1: int, i2: int)
    requires
        forall|a: int, b: int| 0 <= a < b < ps.len() ==> ps[a] < ps[b],
        i1 <= i2,
    ensures
        count_below(ps, i1) <= count_below(ps, i2) <= count_below(ps, i1) + (i2 - i1),
    decreases i2 - i1,
{
    if i1 < i2 {
        lemma_count_below_step(ps, i1);
        lemma_count_below_lipschitz(ps, i1 + 1, i2);
    }
}

/// Between a surviving position and any later position, the removal count
/// grows by less than the distance: strictly fewer than `i2 - i1` removed
/// positions lie in `[i1, i2)`, since `i1` itself survives.
proof fn lemma_count_below_window(ps: Seq<usize>, i1: int, i2: int)
    requires
        forall|a: int, b: int| 0 <= a < b < ps.len() ==> ps[a] < ps[b],
        i1 < i2,
        forall|j: int| 0 <= j < ps.len() ==> (#[trigger] ps[j] as int) != i1,
    ensures
        count_below(ps, i2) - count_below(ps, i1) <= i2 - i1 - 1,
{
    lemma_count_below_step(ps, i1);
    lemma_count_below_lipschitz(ps, i1 + 1, i2);
}

/// Order preservation, the relative-order half: two surviving elements land
/// in the drained sequence in the same order they held in `s`.
pub proof fn lemma_drained_order<T>(s: Seq<T>, ps: Seq<usize>, i1: int, i2: int)
    requires
        valid_positions(ps, s.len()),
        0 <= i1 < i2 < s.len(),
        forall|j: int| 0 <= j < ps.len() ==> (#[trigger] ps[j] as int) != i1,
        forall|j: int| 0 <= j < ps.len() ==> (#[trigger] ps[j] as int) != i2,
    ensures
        0 <= i1 - count_below(ps, i1) < i2 - count_below(ps, i2) < drained(s, ps).len(),
        drained(s, ps)[i1 - count_below(ps, i1)] == s[i1],
        drained(s, ps)[i2 - count_below(ps, i2)] == s[i2],
{
    lemma_drained_survivor(s, ps, i1);
    lemma_drained_survivor(s, ps, i2);
    lemma_count_below_window(ps, i1, i2);
}

/// Length invariant: removing a valid position set shortens the sequence by
/// exactly the number of positions.
pub proof fn lemma_drained_len<T>(s: Seq<T>, ps: Seq<usize>)
    requires
        valid_positions(ps, s.len()),
    ensures
        drained(s, ps).len() == s.len() - ps.len(),
    decreases ps.len(),
{
    if ps.len() > 0 {
        lemma_valid_drop_last(ps, s.len());
        lemma_drained_len(s.remove(ps.last() as int), ps.drop_last());
    }
}

/// No-op on an empty removal set: nothing is removed and nothing moves.
pub proof fn lemma_drained_empty<T>(s: Seq<T>)
    ensures
        drained(s, Seq::<usize>::empty()) == s,
{
}

/// Removing a single position, wherever it lies, removes exactly that
/// element and leaves every other element in place and in order.
pub proof fn lemma_drained_singleton<T>(s: Seq<T>, p: usize)
    requires
        (p as int) < s.len(),
    ensures
        drained(s, seq![p]) == s.remove(p as int),
{
    assert(seq![p].drop_last() =~= Seq::<usize>::empty());
    assert(seq![p].last() == p);
    assert(drained(s.remove(p as int), Seq::<usize>::empty()) == s.remove(p as int));
}

/// Order preservation: every element whose position is not named survives,
/// and lands at its old position minus the number of removed positions
/// before it.  Together with [`lemma_drained_len`] this places each of the
/// `s.len() - ps.len()` survivors, so it pins the result completely: the
/// survivors keep their relative order and exactly the named elements are
/// gone.
pub proof fn lemma_drained_survivor<T>(s: Seq<T>, ps: Seq<usize>, i: int)
    requires
        valid_positions(ps, s.len()),
        0 <= i < s.len(),
        forall|j: int| 0 <= j < ps.len() ==> (#[trigger] ps[j] as int) != i,
    ensures
        0 <= i - count_below(ps, i) < drained(s, ps).len(),
        drained(s, ps)[i - count_below(ps, i)] == s[i],
    decreases ps.len(),
{
    lemma_drained_len(s, ps);
    lemma_count_below_bounds(ps, i);
    if ps.len() == 0 {
    } else {
        let l = ps.last() as int;
        let s1 = s.remove(l);
        let ps1 = ps.drop_last();
        lemma_valid_drop_last(ps, s.len());
        assert(valid_positions(ps1, s1.len()));
        assert(forall|j: int| 0 <= j < ps1.len() ==> #[trigger] ps1[j] == ps[j]);
        if i < l {
            assert(s1[i] == s[i]);
            lemma_drained_survivor(s1, ps1, i);
            assert(count_below(ps, i) == count_below(ps1, i));
        } else {
            // `i > l`: every entry of `ps` is below `i`, so the element at
            // `i` sits at `i - 1` once `l` is removed, and moves left by
            // all of `ps`.
            assert(i > l);
            assert forall|j: int| 0 <= j < ps1.len() implies (#[trigger] ps1[j] as int) < i
                - 1 by {
                assert(ps[j] < ps.last());
            }
            assert(s1[i - 1] == s[i]);
            lemma_drained_survivor(s1, ps1, i - 1);
            lemma_count_below_all_lt(ps1, i - 1);
            lemma_count_below_all_lt(ps1, i);
            assert(count_below(ps, i) == ps1.len() + 1);
            assert((i - 1) - count_below(ps1, i - 1) == i - count_below(ps, i));
        }
    }
}

} // verus!
