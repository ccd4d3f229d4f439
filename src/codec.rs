//! The Elias-Fano encoding of `sucds`, as this library relies on it.
//!
//! `EliasFano` is opaque here. What an encoding holds, what `from_ints`
//! builds and what `serialize_into` writes are given names; the wrappers
//! below state the outside behaviour over those names.

use crate::framing::well_framed;
use sucds::EliasFano;
use sucds::Searial;
use vstd::prelude::*;

verus! {

#[verifier::external_type_specification]
#[verifier::external_body]
pub struct ExEliasFano(sucds::EliasFano);

/// The integers an encoding holds, in order.
pub uninterp spec fn ef_values(ef: EliasFano) -> Seq<usize>;

/// The encoding that `EliasFano::from_ints` builds from `ints`.
pub uninterp spec fn ef_of_ints(ints: Seq<usize>) -> EliasFano;

/// The bytes that `Searial::serialize_into` writes for an encoding.
pub uninterp spec fn ef_bytes(ef: EliasFano) -> Seq<u8>;

/// `s` is non-decreasing.
pub open spec fn is_sorted(s: Seq<usize>) -> bool {
    forall|i: int, j: int| 0 <= i <= j < s.len() ==> s[i] <= s[j]
}

/// `s` is a sequence that an encoding can hold: non-empty, non-decreasing,
/// and with a last element below `usize::MAX` (the encoding's exclusive
/// upper bound is one past the last element).
pub open spec fn is_encodable(s: Seq<usize>) -> bool {
    &&& s.len() > 0
    &&& is_sorted(s)
    &&& s.last() < usize::MAX
}

/// `ef` is exactly what `from_ints` builds from the integers it holds, and
/// its bytes are well framed.
pub open spec fn is_built(ef: EliasFano) -> bool {
    &&& is_encodable(ef_values(ef))
    &&& ef == ef_of_ints(ef_values(ef))
    &&& well_framed(ef_bytes(ef))
}

/// Relies on `EliasFano::from_ints`: it fails exactly on an empty or a
/// decreasing input, and otherwise builds an encoding that holds the input.
/// `serialize_into` writes any encoding in the layout that `well_framed`
/// walks: each vector is its length followed by exactly that many items.
/// It computes `last + 1`, so a last element of `usize::MAX` is left out.
#[verifier::external_body]
pub(crate) fn ef_from_ints(ints: &[usize]) -> (r: Option<EliasFano>)
    requires
        ints@.len() > 0 ==> ints@.last() < usize::MAX,
    ensures
        r is Some <==> (ints@.len() > 0 && is_sorted(ints@)),
        r is Some ==> r->0 == ef_of_ints(ints@),
        r is Some ==> ef_values(r->0) == ints@,
        r is Some ==> well_framed(ef_bytes(r->0)),
{
    EliasFano::from_ints(ints).ok()
}

/// Relies on `EliasFano::select`: it returns the `k`-th integer held.
#[verifier::external_body]
pub(crate) fn ef_select(ef: &EliasFano, k: usize) -> (r: usize)
    requires
        is_built(*ef),
        k < ef_values(*ef).len(),
    ensures
        r == ef_values(*ef)[k as int],
{
    ef.select(k)
}

/// Relies on `EliasFano::len`: the number of integers held.
#[verifier::external_body]
pub(crate) fn ef_len(ef: &EliasFano) -> (r: usize)
    requires
        is_built(*ef),
    ensures
        r == ef_values(*ef).len(),
{
    ef.len()
}

/// Relies on `Searial::serialize_into` for `EliasFano`, writing into a
/// `Vec<u8>`, whose `Write` never fails.
#[verifier::external_body]
pub(crate) fn ef_serialize(ef: &EliasFano) -> (r: Vec<u8>)
    ensures
        r@ == ef_bytes(*ef),
{
    let mut out: Vec<u8> = Vec::new();
    let _ = ef.serialize_into(&mut out);
    out
}

/// Relies on `Searial::deserialize_from` for `EliasFano`: it reads back the
/// fields in the order `serialize_into` wrote them, so the bytes of an
/// encoding that `from_ints` built give that encoding again. It reserves
/// each vector's declared length before reading the items; on well-framed
/// bytes every such length fits in the bytes given, and every read succeeds.
#[verifier::external_body]
pub(crate) fn ef_deserialize(data: &[u8]) -> (r: Option<EliasFano>)
    requires
        well_framed(data@),
    ensures
        r is Some,
        forall|s: Seq<usize>|
            is_encodable(s) && data@ == #[trigger] ef_bytes(ef_of_ints(s)) ==> r == Some(
                ef_of_ints(s),
            ) && ef_values(r->0) == s,
{
    EliasFano::deserialize_from(data).ok()
}

/// Relies on the derived `Clone` of `EliasFano`: a field-by-field copy.
pub assume_specification[ <sucds::EliasFano as Clone>::clone ](ef: &sucds::EliasFano) -> (r:
    sucds::EliasFano)
    ensures
        r == *ef,
;

/// Relies on the derived `PartialEq` of `EliasFano`: fields compared one by
/// one, so two encodings are equal exactly when they are the same value.
#[verifier::external_body]
pub(crate) fn ef_eq(a: &EliasFano, b: &EliasFano) -> (r: bool)
    ensures
        r == (*a == *b),
{
    a == b
}

} // verus!
