//! `IntegerList`: a validated, immutable list of non-decreasing integers over
//! one Elias-Fano encoding.

use crate::codec::{
    ef_bytes, ef_deserialize, ef_eq, ef_from_ints, ef_len, ef_select, ef_serialize,
    ef_values, is_built, is_encodable,
};
use crate::framing::{is_well_framed, lemma_framed_not_empty, well_framed};
use crate::merge::{lemma_merge_sorted, lemma_merge_within, merge};
use sucds::EliasFano;
use vstd::prelude::*;

verus! {

/// The errors of building or reading back a list.
#[derive(Debug, Clone, Copy, PartialEq, Eq, Structural)]
pub enum EliasFanoError {
    /// The provided input is invalid.
    InvalidInput,
    /// Failed to deserialize data into type.
    FailedDeserialize,
}

/// A list of non-decreasing integers, held in an Elias-Fano encoding that
/// gives access to each element without decoding the rest.
#[derive(Clone, Debug)]
pub struct IntegerList(pub EliasFano);

impl View for IntegerList {
    type V = Seq<usize>;

    /// The integers the list holds, in order.
    open spec fn view(&self) -> Seq<usize> {
        ef_values(self.0)
    }
}

impl IntegerList {
    /// The list holds a valid sequence, encoded exactly as building it from
    /// that sequence does.
    pub open spec fn wf(&self) -> bool {
        is_built(self.0)
    }

    /// The byte form of the list.
    pub open spec fn bytes(&self) -> Seq<u8> {
        ef_bytes(self.0)
    }

    /// Creates a list from non-decreasing integers.
    ///
    /// Fails with `InvalidInput` on an empty or a decreasing input, and on
    /// one whose last element is `usize::MAX`, which the encoding cannot hold.
    pub fn new(list: &[usize]) -> (r: Result<Self, EliasFanoError>)
        ensures
            r is Ok <==> is_encodable(list@),
            r is Err ==> r == Err::<Self, EliasFanoError>(EliasFanoError::InvalidInput),
            r is Ok ==> r->Ok_0.wf() && r->Ok_0@ == list@,
    {
        let n = list.len();
        if n == 0 || list[n - 1] == usize::MAX {
            return Err(EliasFanoError::InvalidInput);
        }
        match ef_from_ints(list) {
            Some(ef) => Ok(IntegerList(ef)),
            None => Err(EliasFanoError::InvalidInput),
        }
    }

    /// Creates a list from integers that the caller knows to be valid.
    pub fn new_pre_sorted(list: &[usize]) -> (r: Self)
        requires
            is_encodable(list@),
        ensures
            r.wf(),
            r@ == list@,
    {
        IntegerList(ef_from_ints(list).unwrap())
    }
    /// Intersects two lists by walking both in lockstep: equal values are
    /// kept once per matched pair, and the side with the smaller value moves
    /// on. Returns `None` when nothing is shared.
    pub fn intersection(&self, other: &Self) -> (r: Option<Self>)
        requires
            self.wf(),
            other.wf(),
        ensures
            r is None <==> merge(self@, other@).len() == 0,
            r is Some ==> r->0.wf() && r->0@ == merge(self@, other@),
    {
        let n = ef_len(&self.0);
        let m = ef_len(&other.0);
        let mut result: Vec<usize> = Vec::new();
        let mut i: usize = 0;
        let mut j: usize = 0;
        assert(self@.skip(0) =~= self@);
        assert(other@.skip(0) =~= other@);
        assert(result@ + merge(self@, other@) =~= merge(self@, other@));
        while i < n && j < m
            invariant
                self.wf(),
                other.wf(),
                n == self@.len(),
                m == other@.len(),
                i <= n,
                j <= m,
                merge(self@, other@) == result@ + merge(self@.skip(i as int), other@.skip(j as int)),
            decreases n - i + m - j,
        {
            let x = ef_select(&self.0, i);
            let y = ef_select(&other.0, j);
            let ghost a = self@.skip(i as int);
            let ghost b = other@.skip(j as int);
            assert(a.drop_first() =~= self@.skip(i + 1));
            assert(b.drop_first() =~= other@.skip(j + 1));
            if x == y {
                result.push(x);
                i = i + 1;
                j = j + 1;
                assert(merge(a, b) == seq![x] + merge(a.drop_first(), b.drop_first()));
                assert(merge(self@, other@) =~= result@ + merge(
                    self@.skip(i as int),
                    other@.skip(j as int),
                ));
            } else if x < y {
                i = i + 1;
            } else {
                j = j + 1;
            }
        }
        assert(merge(self@.skip(i as int), other@.skip(j as int)) =~= Seq::<usize>::empty());
        assert(result@ =~= merge(self@, other@));
        if result.len() == 0 {
            None
        } else {
            proof {
                lemma_merge_sorted(self@, other@);
                lemma_merge_within(self@, other@, 0, self@.last() as int);
            }
            Some(IntegerList::new_pre_sorted(result.as_slice()))
        }
    }
    /// The number of integers held.
    pub fn len(&self) -> (r: usize)
        requires
            self.wf(),
        ensures
            r == self@.len(),
    {
        ef_len(&self.0)
    }

    /// The `i`-th integer, read without decoding the others.
    pub fn get(&self, i: usize) -> (r: usize)
        requires
            self.wf(),
            i < self@.len(),
        ensures
            r == self@[i as int],
    {
        ef_select(&self.0, i)
    }

    /// The integers from position `start` on, in order; none when `start`
    /// is past the end.
    pub fn iter(&self, start: usize) -> (r: Vec<usize>)
        requires
            self.wf(),
        ensures
            start <= self@.len() ==> r@ == self@.skip(start as int),
            start > self@.len() ==> r@.len() == 0,
    {
        let n = ef_len(&self.0);
        let mut out: Vec<usize> = Vec::new();
        let mut k: usize = start;
        while k < n
            invariant
                self.wf(),
                n == self@.len(),
                start <= k,
                k <= n || out@.len() == 0,
                k < n ==> out@ =~= self@.subrange(start as int, k as int),
                k >= n && start <= n ==> out@ =~= self@.subrange(start as int, n as int),
            decreases n - k,
        {
            let v = ef_select(&self.0, k);
            out.push(v);
            k = k + 1;
        }
        out
    }

    /// All the integers, in order: the list's logical form.
    pub fn to_vec(&self) -> (r: Vec<usize>)
        requires
            self.wf(),
        ensures
            r@ == self@,
    {
        let r = self.iter(0);
        assert(self@.skip(0) =~= self@);
        r
    }

    /// Serializes the list into bytes.
    pub fn to_bytes(&self) -> (r: Vec<u8>)
        ensures
            r@ == self.bytes(),
            self.wf() ==> well_framed(r@) && r@.len() > 0,
    {
        let r = ef_serialize(&self.0);
        proof {
            if self.wf() {
                lemma_framed_not_empty(r@);
            }
        }
        r
    }

    /// Appends the list's bytes to `buf`.
    pub fn to_mut_bytes(&self, buf: &mut Vec<u8>)
        ensures
            final(buf)@ == old(buf)@ + self.bytes(),
    {
        let mut bytes = ef_serialize(&self.0);
        buf.append(&mut bytes);
    }

    /// Reads a list back from its bytes. Bytes whose declared lengths do not
    /// all fit, exactly, fail with `FailedDeserialize`; the bytes of a valid
    /// list give that list back.
    pub fn from_bytes(data: &[u8]) -> (r: Result<Self, EliasFanoError>)
        ensures
            r is Ok <==> well_framed(data@),
            r is Err ==> r == Err::<Self, EliasFanoError>(EliasFanoError::FailedDeserialize),
            data@.len() == 0 ==> r is Err,
            forall|l: IntegerList|
                l.wf() && data@ == #[trigger] l.bytes() ==> r is Ok && r->Ok_0.wf() && r->Ok_0@
                    == l@ && r->Ok_0 == l,
    {
        proof {
            if well_framed(data@) {
                lemma_framed_not_empty(data@);
            }
        }
        if !is_well_framed(data) {
            return Err(EliasFanoError::FailedDeserialize);
        }
        match ef_deserialize(data) {
            Some(ef) => Ok(IntegerList(ef)),
            None => Err(EliasFanoError::FailedDeserialize),
        }
    }
}

impl PartialEq for IntegerList {
    fn eq(&self, other: &IntegerList) -> (r: bool) {
        ef_eq(&self.0, &other.0)
    }
}

impl vstd::std_specs::cmp::PartialEqSpecImpl for IntegerList {
    open spec fn obeys_eq_spec() -> bool {
        true
    }

    open spec fn eq_spec(&self, other: &IntegerList) -> bool {
        self.0 == other.0
    }
}

impl Eq for IntegerList {

}

} // verus!
