//! The mathematical model of a sweep: keeping an order-preserving selection
//! of a sequence of entries, driven by one boolean verdict per entry.
//!
//! A broadcast keeps exactly the entries whose handle still resolved, and an
//! identity-based removal keeps exactly the entries whose resolved identity
//! did not match the target.  Both are instances of `select`, which picks the
//! entries at the positions marked `true`, in their original order.

use vstd::prelude::*;

verus! {

/// The positions marked `true` in `keep`, in increasing order.
pub open spec fn kept_indices(keep: Seq<bool>) -> Seq<int>
    decreases keep.len(),
{
    if keep.len() == 0 {
        Seq::empty()
    } else {
        let front = kept_indices(keep.drop_last());
        if keep.last() {
            front.push(keep.len() - 1)
        } else {
            front
        }
    }
}

/// The entries of `s` at the positions marked `true` in `keep`, in their
/// original order.
pub open spec fn select<A>(s: Seq<A>, keep: Seq<bool>) -> Seq<A> {
    kept_indices(keep).map_values(|i: int| s[i])
}

/// How many positions are marked `true`.
pub open spec fn count_true(keep: Seq<bool>) -> int
    decreases keep.len(),
{
    if keep.len() == 0 {
        0
    } else {
        count_true(keep.drop_last()) + if keep.last() {
            1int
        } else {
            0int
        }
    }
}

/// Every kept position lies inside `keep` and is indeed marked `true`.
pub proof fn lemma_kept_indices_in_range(keep: Seq<bool>)
    ensures
        forall|j: int|
            0 <= j < kept_indices(keep).len() ==> 0 <= #[trigger] kept_indices(keep)[j]
                < keep.len() && keep[kept_indices(keep)[j]],
    decreases keep.len(),
{
    if keep.len() > 0 {
        lemma_kept_indices_in_range(keep.drop_last());
        let front = kept_indices(keep.drop_last());
        assert forall|j: int| 0 <= j < kept_indices(keep).len() implies 0 <= #[trigger] kept_indices(
            keep,
        )[j] < keep.len() && keep[kept_indices(keep)[j]] by {
            if j < front.len() {
                assert(kept_indices(keep)[j] == front[j]);
                assert(keep.drop_last()[front[j]] == keep[front[j]]);
            }
        }
    }
}

/// Law of order preservation: the kept positions come out in strictly
/// increasing order, so a sweep never reorders the surviving entries.
pub proof fn lemma_kept_indices_increasing(keep: Seq<bool>)
    ensures
        forall|p: int, q: int|
            0 <= p < q < kept_indices(keep).len() ==> #[trigger] kept_indices(keep)[p]
                < #[trigger] kept_indices(keep)[q],
    decreases keep.len(),
{
    if keep.len() > 0 {
        lemma_kept_indices_increasing(keep.drop_last());
        lemma_kept_indices_in_range(keep.drop_last());
        let front = kept_indices(keep.drop_last());
        assert forall|p: int, q: int|
            0 <= p < q < kept_indices(keep).len() implies #[trigger] kept_indices(keep)[p]
            < #[trigger] kept_indices(keep)[q] by {
            if q < front.len() {
                assert(kept_indices(keep)[p] == front[p]);
                assert(kept_indices(keep)[q] == front[q]);
            } else {
                assert(kept_indices(keep)[p] == front[p]);
                assert(front[p] < keep.drop_last().len());
            }
        }
    }
}

/// A position survives a sweep exactly when its verdict is `true`.
pub proof fn lemma_kept_indices_iff(keep: Seq<bool>, i: int)
    requires
        0 <= i < keep.len(),
    ensures
        kept_indices(keep).contains(i) <==> keep[i],
    decreases keep.len(),
{
    lemma_kept_indices_in_range(keep.drop_last());
    if i < keep.len() - 1 {
        lemma_kept_indices_iff(keep.drop_last(), i);
        assert(keep.drop_last()[i] == keep[i]);
        if kept_indices(keep.drop_last()).contains(i) {
            let j = choose|j: int|
                0 <= j < kept_indices(keep.drop_last()).len() && kept_indices(keep.drop_last())[j]
                    == i;
            if keep.last() {
                assert(kept_indices(keep)[j] == i);
            }
        }
        if kept_indices(keep).contains(i) {
            let j = choose|j: int|
                0 <= j < kept_indices(keep).len() && kept_indices(keep)[j] == i;
            if keep.last() {
                assert(j < kept_indices(keep).len() - 1);
                assert(kept_indices(keep.drop_last())[j] == i);
            }
        }
    } else {
        if keep.last() {
            assert(kept_indices(keep).last() == i);
        } else {
            assert(forall|j: int|
                0 <= j < kept_indices(keep.drop_last()).len() ==> #[trigger] kept_indices(
                    keep.drop_last(),
                )[j] < i);
        }
    }
}

/// There are as many kept positions as `true` verdicts.
pub proof fn lemma_kept_indices_count(keep: Seq<bool>)
    ensures
        kept_indices(keep).len() == count_true(keep),
    decreases keep.len(),
{
    if keep.len() > 0 {
        lemma_kept_indices_count(keep.drop_last());
    }
}

/// Law of delivery count: a sweep keeps exactly as many entries as there are
/// `true` verdicts.  A broadcast delivers once per live entry, so the number
/// of survivors equals the number of deliveries it made.
pub proof fn lemma_select_count<A>(s: Seq<A>, keep: Seq<bool>)
    ensures
        select(s, keep).len() == count_true(keep),
{
    lemma_kept_indices_count(keep);
}

/// Law of sweep stability: when every verdict is `true`, the selection is the
/// whole sequence.  A broadcast that finds every entry alive keeps all of
/// them, so a second broadcast with no further destructions reaches exactly
/// the same entries as the first.
pub proof fn lemma_select_all_kept<A>(s: Seq<A>, keep: Seq<bool>)
    requires
        keep.len() == s.len(),
        forall|i: int| 0 <= i < keep.len() ==> keep[i],
    ensures
        select(s, keep) == s,
    decreases keep.len(),
{
    if keep.len() == 0 {
        assert(select(s, keep) =~= s);
    } else {
        lemma_select_all_kept(s.drop_last(), keep.drop_last());
        lemma_kept_indices_in_range(keep.drop_last());
        assert(kept_indices(keep) =~= kept_indices(keep.drop_last()).push(keep.len() - 1));
        assert(select(s.drop_last(), keep.drop_last()) =~= kept_indices(
            keep.drop_last(),
        ).map_values(|i: int| s[i]));
        assert(select(s, keep) =~= select(s.drop_last(), keep.drop_last()).push(s.last()));
        assert(select(s, keep) =~= s);
    }
}

/// Law of the empty sweep: when no verdict is `true`, nothing is selected.
/// A broadcast over a fully stale container leaves it empty.
pub proof fn lemma_select_none_kept<A>(s: Seq<A>, keep: Seq<bool>)
    requires
        forall|i: int| 0 <= i < keep.len() ==> !keep[i],
    ensures
        select(s, keep) == Seq::<A>::empty(),
    decreases keep.len(),
{
    if keep.len() > 0 {
        lemma_select_none_kept(s, keep.drop_last());
    }
    assert(select(s, keep) =~= Seq::<A>::empty());
}

/// Extending the verdicts by one step extends the selection by the next
/// entry exactly when the new verdict is `true`.
pub proof fn lemma_select_step<A>(s: Seq<A>, keep: Seq<bool>, b: bool)
    requires
        keep.len() < s.len(),
    ensures
        select(s, keep.push(b)) == if b {
            select(s, keep).push(s[keep.len() as int])
        } else {
            select(s, keep)
        },
{
    assert(keep.push(b).drop_last() =~= keep);
    if b {
        assert(kept_indices(keep.push(b)) =~= kept_indices(keep).push(keep.len() as int));
        assert(select(s, keep.push(b)) =~= select(s, keep).push(s[keep.len() as int]));
    } else {
        assert(kept_indices(keep.push(b)) =~= kept_indices(keep));
        assert(select(s, keep.push(b)) =~= select(s, keep));
    }
}

} // verus!
