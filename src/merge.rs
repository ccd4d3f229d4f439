//! The lockstep merge of two non-decreasing sequences, as a spec function,
//! and what it keeps of its inputs.

use crate::codec::is_sorted;
use vstd::prelude::*;

verus! {

/// The values that a lockstep walk over `a` and `b` emits: on equal heads
/// the value is emitted once and both sides advance; otherwise the side
/// with the smaller head advances. The walk stops when either side is spent.
pub open spec fn merge(a: Seq<usize>, b: Seq<usize>) -> Seq<usize>
    decreases a.len() + b.len(),
{
    if a.len() == 0 || b.len() == 0 {
        Seq::empty()
    } else if a[0] == b[0] {
        seq![a[0]] + merge(a.drop_first(), b.drop_first())
    } else if a[0] < b[0] {
        merge(a.drop_first(), b)
    } else {
        merge(a, b.drop_first())
    }
}

/// Every value of the merge lies within any bounds that hold of all of `a`.
pub proof fn lemma_merge_within(a: Seq<usize>, b: Seq<usize>, lo: int, hi: int)
    requires
        forall|i: int| 0 <= i < a.len() ==> lo <= #[trigger] a[i] <= hi,
    ensures
        forall|k: int| 0 <= k < merge(a, b).len() ==> lo <= #[trigger] merge(a, b)[k] <= hi,
    decreases a.len() + b.len(),
{
    if a.len() == 0 || b.len() == 0 {
    } else if a[0] == b[0] {
        lemma_merge_within(a.drop_first(), b.drop_first(), lo, hi);
        let rest = merge(a.drop_first(), b.drop_first());
        assert forall|k: int| 0 <= k < merge(a, b).len() implies lo <= #[trigger] merge(a, b)[k]
            <= hi by {
            if k > 0 {
                assert(merge(a, b)[k] == rest[k - 1]);
            } else {
                assert(lo <= a[0] <= hi);
            }
        }
    } else if a[0] < b[0] {
        lemma_merge_within(a.drop_first(), b, lo, hi);
        assert(merge(a, b) == merge(a.drop_first(), b));
    } else {
        lemma_merge_within(a, b.drop_first(), lo, hi);
        assert(merge(a, b) == merge(a, b.drop_first()));
    }
}

/// The merge of a non-decreasing `a` with any `b` is non-decreasing.
pub proof fn lemma_merge_sorted(a: Seq<usize>, b: Seq<usize>)
    requires
        is_sorted(a),
    ensures
        is_sorted(merge(a, b)),
    decreases a.len() + b.len(),
{
    if a.len() == 0 || b.len() == 0 {
    } else if a[0] == b[0] {
        let tail = a.drop_first();
        lemma_merge_sorted(tail, b.drop_first());
        lemma_merge_within(tail, b.drop_first(), a[0] as int, usize::MAX as int);
        let rest = merge(tail, b.drop_first());
        let r = merge(a, b);
        assert(r == seq![a[0]] + rest);
        assert forall|i: int, j: int| 0 <= i <= j < r.len() implies r[i] <= r[j] by {
            if i > 0 {
                assert(r[i] == rest[i - 1]);
                assert(r[j] == rest[j - 1]);
            } else if j > 0 {
                assert(r[j] == rest[j - 1]);
            }
        }
    } else if a[0] < b[0] {
        lemma_merge_sorted(a.drop_first(), b);
    } else {
        lemma_merge_sorted(a, b.drop_first());
    }
}

} // verus!
