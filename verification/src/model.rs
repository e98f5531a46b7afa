//! The mathematical model of batch removal at sorted positions.
//!
//! `drained(s, ps)` is the sequence that remains after the elements of `s`
//! at the positions listed in `ps` have been removed.  It is defined by
//! removing the positions from right to left: removing the largest position
//! first leaves every smaller position pointing at the same element, so the
//! recursion needs no re-indexing.

use vstd::prelude::*;

verus! {

/// A removal-position sequence is valid for a sequence of length `n` when
/// its entries are strictly ascending (hence unique) and all in `[0, n)`.
pub open spec fn valid_positions(ps: Seq<usize>, n: nat) -> bool {
    &&& forall|i: int, j: int| 0 <= i < j < ps.len() ==> ps[i] < ps[j]
    &&& forall|i: int| 0 <= i < ps.len() ==> (ps[i] as nat) < n
}

/// The result of removing from `s` the elements at the positions in `ps`,
/// where `ps` is ascending, unique and in bounds.
pub open spec fn drained<T>(s: Seq<T>, ps: Seq<usize>) -> Seq<T>
    recommends
        valid_positions(ps, s.len()),
    decreases ps.len(),
{
    if ps.len() == 0 {
        s
    } else {
        drained(s.remove(ps.last() as int), ps.drop_last())
    }
}

/// Dropping the last entry of a valid position sequence leaves one that is
/// valid for a sequence shorter by one element.
pub proof fn lemma_valid_drop_last(ps: Seq<usize>, n: nat)
    requires
        valid_positions(ps, n),
        ps.len() > 0,
    ensures
        valid_positions(ps.drop_last(), (ps.last() as nat)),
        ps.last() as nat <= n - 1,
{
    assert forall|i: int| 0 <= i < ps.drop_last().len() implies (ps.drop_last()[i] as nat)
        < ps.last() as nat by {
        assert(ps.drop_last()[i] == ps[i]);
        assert(ps[i] < ps[ps.len() - 1]);
    }
}

/// Removing an interior element commutes with appending one at the end.
pub proof fn lemma_push_remove_commute<T>(s: Seq<T>, x: T, i: int)
    requires
        0 <= i < s.len(),
    ensures
        s.push(x).remove(i) == s.remove(i).push(x),
{
    assert(s.push(x).remove(i) =~= s.remove(i).push(x));
}

/// Appending an element that no position names leaves it appended to the
/// drained sequence: `drained` only ever touches positions inside `s`.
pub proof fn lemma_drained_push_keep<T>(s: Seq<T>, x: T, ps: Seq<usize>)
    requires
        valid_positions(ps, s.len()),
    ensures
        drained(s.push(x), ps) == drained(s, ps).push(x),
    decreases ps.len(),
{
    if ps.len() > 0 {
        let l = ps.last() as int;
        lemma_valid_drop_last(ps, s.len());
        assert(valid_positions(ps.drop_last(), (s.len() - 1) as nat));
        lemma_push_remove_commute(s, x, l);
        lemma_drained_push_keep(s.remove(l), x, ps.drop_last());
    }
}

/// Appending an element and also naming its position removes it again:
/// the drained sequence is unchanged.
pub proof fn lemma_drained_push_removed<T>(s: Seq<T>, x: T, ps: Seq<usize>, p: usize)
    requires
        p as int == s.len(),
    ensures
        drained(s.push(x), ps.push(p)) == drained(s, ps),
{
    assert(ps.push(p).last() == p);
    assert(ps.push(p).drop_last() =~= ps);
    assert(s.push(x).remove(p as int) =~= s);
}

} // verus!
