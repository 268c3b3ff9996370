//! Facts about sums of integer sequences.
use vstd::prelude::*;
use crate::model::seq_sum;

verus! {

/// Appending `v` adds `v` to the sum.
pub proof fn lemma_seq_sum_push(s: Seq<int>, v: int)
    ensures
        seq_sum(s.push(v)) == seq_sum(s) + v,
{
    assert(s.push(v).drop_last() =~= s);
}

/// Replacing element `j` by `v` changes the sum by `v - s[j]`.
pub proof fn lemma_seq_sum_update(s: Seq<int>, j: int, v: int)
    requires
        0 <= j < s.len(),
    ensures
        seq_sum(s.update(j, v)) == seq_sum(s) - s[j] + v,
    decreases s.len(),
{
    let u = s.update(j, v);
    if j == s.len() - 1 {
        assert(u.drop_last() =~= s.drop_last());
    } else {
        lemma_seq_sum_update(s.drop_last(), j, v);
        assert(u.drop_last() =~= s.drop_last().update(j, v));
    }
}

/// A sum of non-negative numbers is at least each of them, and at least 0.
pub proof fn lemma_seq_sum_bounds(s: Seq<int>)
    requires
        forall|i: int| 0 <= i < s.len() ==> 0 <= #[trigger] s[i],
    ensures
        seq_sum(s) >= 0,
        forall|i: int| 0 <= i < s.len() ==> #[trigger] s[i] <= seq_sum(s),
    decreases s.len(),
{
    if s.len() > 0 {
        let t = s.drop_last();
        lemma_seq_sum_bounds(t);
        assert forall|i: int| 0 <= i < s.len() implies #[trigger] s[i] <= seq_sum(s) by {
            if i < s.len() - 1 {
                assert(t[i] == s[i]);
            }
        }
    }
}

/// A sum of zeros is zero.
pub proof fn lemma_seq_sum_zeros(s: Seq<int>)
    requires
        forall|i: int| 0 <= i < s.len() ==> #[trigger] s[i] == 0,
    ensures
        seq_sum(s) == 0,
    decreases s.len(),
{
    if s.len() > 0 {
        lemma_seq_sum_zeros(s.drop_last());
    }
}

/// Sums are monotone in each element.
pub proof fn lemma_seq_sum_le(s: Seq<int>, t: Seq<int>)
    requires
        s.len() == t.len(),
        forall|i: int| 0 <= i < s.len() ==> #[trigger] s[i] <= t[i],
    ensures
        seq_sum(s) <= seq_sum(t),
    decreases s.len(),
{
    if s.len() > 0 {
        lemma_seq_sum_le(s.drop_last(), t.drop_last());
    }
}


/// A prefix of non-negative numbers sums to at most the whole.
pub proof fn lemma_seq_sum_prefix_le(s: Seq<int>, k: int)
    requires
        0 <= k <= s.len(),
        forall|i: int| 0 <= i < s.len() ==> 0 <= #[trigger] s[i],
    ensures
        seq_sum(s.take(k)) <= seq_sum(s),
    decreases s.len(),
{
    if k < s.len() {
        lemma_seq_sum_prefix_le(s.drop_last(), k);
        assert(s.drop_last().take(k) =~= s.take(k));
    } else {
        assert(s.take(k) =~= s);
    }
}

/// The sum of the first `k + 1` numbers is the sum of the first `k` plus the next.
pub proof fn lemma_seq_sum_take_next(s: Seq<int>, k: int)
    requires
        0 <= k < s.len(),
    ensures
        seq_sum(s.take(k + 1)) == seq_sum(s.take(k)) + s[k],
{
    assert(s.take(k + 1).drop_last() =~= s.take(k));
}


/// When each element is at most its partner and the sums are equal, every
/// element equals its partner.
pub proof fn lemma_seq_sum_eq_pointwise(s: Seq<int>, t: Seq<int>, j: int)
    requires
        s.len() == t.len(),
        forall|i: int| 0 <= i < s.len() ==> #[trigger] s[i] <= t[i],
        seq_sum(s) == seq_sum(t),
        0 <= j < s.len(),
    ensures
        s[j] == t[j],
    decreases s.len(),
{
    let k = s.len() - 1;
    lemma_seq_sum_le(s.drop_last(), t.drop_last());
    if j < k {
        assert(s.last() <= t.last());
        lemma_seq_sum_eq_pointwise(s.drop_last(), t.drop_last(), j);
    }
}

} // verus!
