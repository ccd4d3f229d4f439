//! Laws that relate the operations of `IntegerList`.

use crate::codec::{is_encodable, is_sorted};
use crate::framing::{lemma_framed_not_empty, lemma_prefix_not_framed, well_framed};
use crate::list::IntegerList;
use vstd::prelude::*;

verus! {

/// Round trip: the bytes of a well-formed list are well framed and not
/// empty, so `from_bytes` on them gives back an equal list, holding the
/// same integers.
pub proof fn lemma_bytes_round_trip(l: IntegerList)
    requires
        l.wf(),
    ensures
        well_framed(l.bytes()),
        l.bytes().len() > 0,
{
    lemma_framed_not_empty(l.bytes());
}

/// Truncation: every strict prefix of a list's bytes is refused by the
/// frame check, so `from_bytes` fails on it.
pub proof fn lemma_truncated_bytes_rejected(l: IntegerList, k: int)
    requires
        l.wf(),
        0 <= k < l.bytes().len(),
    ensures
        !well_framed(l.bytes().take(k)),
{
    lemma_prefix_not_framed(l.bytes(), k);
}

/// Determinism: two lists that hold the same integers have the same bytes.
pub proof fn lemma_bytes_deterministic(a: IntegerList, b: IntegerList)
    requires
        a.wf(),
        b.wf(),
        a@ == b@,
    ensures
        a.bytes() == b.bytes(),
{
}

/// Logical round trip: the integers of a list are accepted by `new`, and a
/// list built from them is equal to the first.
pub proof fn lemma_logical_round_trip(l: IntegerList, m: IntegerList)
    requires
        l.wf(),
        m.wf(),
        m@ == l@,
    ensures
        is_encodable(l@),
        m == l,
{
}

/// Order: a list yields its integers in non-decreasing order.
pub proof fn lemma_values_sorted(l: IntegerList)
    requires
        l.wf(),
    ensures
        is_sorted(l@),
{
}

} // verus!
