//! The framing of an encoding's bytes: the length-prefixed layout that the
//! encoding is written in, walked without decoding, so that bytes whose
//! declared lengths do not fit are refused before they are read.
//!
//! The layout, in order: a bit vector (a vector of words, then a bit
//! count); a select index (three vectors of 8-, 2- and 8-byte items, then a
//! count and a flag byte); a tag byte, followed by a second select index
//! when it is non-zero; a second bit vector; and two 8-byte words. A vector
//! is an 8-byte little-endian item count followed by its items.

use vstd::prelude::*;

verus! {

/// The little-endian value of the eight bytes of `d` from `p`.
pub open spec fn le_word(d: Seq<u8>, p: int) -> int {
    d[p] as int + 256 * (d[p + 1] as int + 256 * (d[p + 2] as int + 256 * (d[p + 3] as int + 256
        * (d[p + 4] as int + 256 * (d[p + 5] as int + 256 * (d[p + 6] as int + 256 * (
    d[p + 7] as int)))))))
}

/// The end of `k` bytes that start at `at`, if they fit.
pub open spec fn fixed_end(d: Seq<u8>, at: Option<int>, k: int) -> Option<int> {
    match at {
        Some(p) => if 0 <= p && p + k <= d.len() {
            Some(p + k)
        } else {
            None
        },
        None => None,
    }
}

/// The end of a vector of `elem`-byte items that starts at `at`, if its
/// count and its items fit.
pub open spec fn vec_end(d: Seq<u8>, at: Option<int>, elem: int) -> Option<int> {
    match at {
        Some(p) => if 0 <= p && p + 8 <= d.len() && p + 8 + le_word(d, p) * elem <= d.len() {
            Some(p + 8 + le_word(d, p) * elem)
        } else {
            None
        },
        None => None,
    }
}

/// The end of a bit vector: its words, then its bit count.
pub open spec fn bitvec_end(d: Seq<u8>, at: Option<int>) -> Option<int> {
    fixed_end(d, vec_end(d, at, 8), 8)
}

/// The end of a select index: three vectors, a count and a flag byte.
pub open spec fn index_end(d: Seq<u8>, at: Option<int>) -> Option<int> {
    fixed_end(d, fixed_end(d, vec_end(d, vec_end(d, vec_end(d, at, 8), 2), 8), 8), 1)
}

/// The end of a tag byte and, where the tag is non-zero, a select index.
pub open spec fn opt_index_end(d: Seq<u8>, at: Option<int>) -> Option<int> {
    match at {
        Some(p) => if 0 <= p && p + 1 <= d.len() {
            if d[p] != 0 {
                index_end(d, Some(p + 1))
            } else {
                Some(p + 1)
            }
        } else {
            None
        },
        None => None,
    }
}

/// The end of a whole encoding read from the start of `d`, if it fits.
pub open spec fn frame_end(d: Seq<u8>) -> Option<int> {
    let a = index_end(d, bitvec_end(d, Some(0)));
    fixed_end(d, fixed_end(d, bitvec_end(d, opt_index_end(d, a)), 8), 8)
}

/// `d` holds exactly one encoding whose declared lengths all fit.
pub open spec fn well_framed(d: Seq<u8>) -> bool {
    frame_end(d) == Some(d.len() as int)
}

/// An executable position, seen as a spec position.
pub open spec fn pos(at: Option<usize>) -> Option<int> {
    match at {
        Some(p) => Some(p as int),
        None => None,
    }
}

fn read_word(d: &[u8], p: usize) -> (r: u64)
    requires
        p + 8 <= d@.len(),
    ensures
        r as int == le_word(d@, p as int),
{
    let n = d.len();
    assert(p + 7 < n);
    let mut v: u64 = d[p + 7] as u64;
    v = v * 256 + d[p + 6] as u64;
    v = v * 256 + d[p + 5] as u64;
    v = v * 256 + d[p + 4] as u64;
    v = v * 256 + d[p + 3] as u64;
    v = v * 256 + d[p + 2] as u64;
    v = v * 256 + d[p + 1] as u64;
    v = v * 256 + d[p] as u64;
    v
}

fn fixed_step(d: &[u8], at: Option<usize>, k: usize) -> (r: Option<usize>)
    ensures
        pos(r) == fixed_end(d@, pos(at), k as int),
{
    match at {
        Some(p) => if p <= d.len() && k <= d.len() - p {
            Some(p + k)
        } else {
            None
        },
        None => None,
    }
}

fn vec_step(d: &[u8], at: Option<usize>, elem: u64) -> (r: Option<usize>)
    ensures
        pos(r) == vec_end(d@, pos(at), elem as int),
{
    match at {
        Some(p) => if p <= d.len() && 8 <= d.len() - p {
            let count = read_word(d, p);
            let rest = d.len() - p - 8;
            assert(rest as int <= u64::MAX) by {
                assert(usize::MAX as int <= u64::MAX as int);
            }
            match count.checked_mul(elem) {
                Some(n) => if n <= rest as u64 {
                    Some(p + 8 + n as usize)
                } else {
                    None
                },
                None => None,
            }
        } else {
            None
        },
        None => None,
    }
}

fn bitvec_step(d: &[u8], at: Option<usize>) -> (r: Option<usize>)
    ensures
        pos(r) == bitvec_end(d@, pos(at)),
{
    let w = vec_step(d, at, 8);
    fixed_step(d, w, 8)
}

fn index_step(d: &[u8], at: Option<usize>) -> (r: Option<usize>)
    ensures
        pos(r) == index_end(d@, pos(at)),
{
    let a = vec_step(d, at, 8);
    let b = vec_step(d, a, 2);
    let c = vec_step(d, b, 8);
    let e = fixed_step(d, c, 8);
    fixed_step(d, e, 1)
}

fn opt_index_step(d: &[u8], at: Option<usize>) -> (r: Option<usize>)
    ensures
        pos(r) == opt_index_end(d@, pos(at)),
{
    match at {
        Some(p) => if p < d.len() {
            if d[p] != 0 {
                index_step(d, Some(p + 1))
            } else {
                Some(p + 1)
            }
        } else {
            None
        },
        None => None,
    }
}

/// Whether `d` holds exactly one encoding whose declared lengths all fit.
pub fn is_well_framed(d: &[u8]) -> (r: bool)
    ensures
        r == well_framed(d@),
{
    let a = bitvec_step(d, Some(0));
    let b = index_step(d, a);
    let c = opt_index_step(d, b);
    let e = bitvec_step(d, c);
    let f = fixed_step(d, e, 8);
    let g = fixed_step(d, f, 8);
    match g {
        Some(end) => end == d.len(),
        None => false,
    }
}

proof fn lemma_fixed_prefix(d: Seq<u8>, k: int, at: Option<int>, n: int)
    requires
        0 <= k <= d.len(),
    ensures
        fixed_end(d.take(k), at, n) is Some ==> fixed_end(d, at, n) == fixed_end(d.take(k), at, n),
{
}

proof fn lemma_vec_prefix(d: Seq<u8>, k: int, at: Option<int>, elem: int)
    requires
        0 <= k <= d.len(),
    ensures
        vec_end(d.take(k), at, elem) is Some ==> vec_end(d, at, elem) == vec_end(
            d.take(k),
            at,
            elem,
        ),
{
    if let Some(p) = at {
        if 0 <= p && p + 8 <= k {
            let t = d.take(k);
            assert(t[p] == d[p] && t[p + 1] == d[p + 1] && t[p + 2] == d[p + 2] && t[p + 3] == d[
                p + 3] && t[p + 4] == d[p + 4] && t[p + 5] == d[p + 5] && t[p + 6] == d[p + 6]
                && t[p + 7] == d[p + 7]);
            assert(le_word(t, p) == le_word(d, p));
        }
    }
}

proof fn lemma_bitvec_prefix(d: Seq<u8>, k: int, at: Option<int>)
    requires
        0 <= k <= d.len(),
    ensures
        bitvec_end(d.take(k), at) is Some ==> bitvec_end(d, at) == bitvec_end(d.take(k), at),
{
    let t = d.take(k);
    lemma_vec_prefix(d, k, at, 8);
    lemma_fixed_prefix(d, k, vec_end(t, at, 8), 8);
}

proof fn lemma_index_prefix(d: Seq<u8>, k: int, at: Option<int>)
    requires
        0 <= k <= d.len(),
    ensures
        index_end(d.take(k), at) is Some ==> index_end(d, at) == index_end(d.take(k), at),
{
    let t = d.take(k);
    let a = vec_end(t, at, 8);
    let b = vec_end(t, a, 2);
    let c = vec_end(t, b, 8);
    let e = fixed_end(t, c, 8);
    lemma_vec_prefix(d, k, at, 8);
    lemma_vec_prefix(d, k, a, 2);
    lemma_vec_prefix(d, k, b, 8);
    lemma_fixed_prefix(d, k, c, 8);
    lemma_fixed_prefix(d, k, e, 1);
}

proof fn lemma_opt_index_prefix(d: Seq<u8>, k: int, at: Option<int>)
    requires
        0 <= k <= d.len(),
    ensures
        opt_index_end(d.take(k), at) is Some ==> opt_index_end(d, at) == opt_index_end(
            d.take(k),
            at,
        ),
{
    if let Some(p) = at {
        if 0 <= p && p + 1 <= k {
            assert(d.take(k)[p] == d[p]);
            lemma_index_prefix(d, k, Some(p + 1));
        }
    }
}

/// A strict prefix of well-framed bytes is not well framed: bytes cut short
/// are refused.
pub proof fn lemma_prefix_not_framed(d: Seq<u8>, k: int)
    requires
        well_framed(d),
        0 <= k < d.len(),
    ensures
        !well_framed(d.take(k)),
{
    let t = d.take(k);
    let a0 = bitvec_end(t, Some(0));
    let a = index_end(t, a0);
    let b = opt_index_end(t, a);
    let c = bitvec_end(t, b);
    let e = fixed_end(t, c, 8);
    lemma_bitvec_prefix(d, k, Some(0));
    lemma_index_prefix(d, k, a0);
    lemma_opt_index_prefix(d, k, a);
    lemma_bitvec_prefix(d, k, b);
    lemma_fixed_prefix(d, k, c, 8);
    lemma_fixed_prefix(d, k, e, 8);
}

/// Well-framed bytes are never empty.
pub proof fn lemma_framed_not_empty(d: Seq<u8>)
    requires
        well_framed(d),
    ensures
        d.len() > 0,
{
}

} // verus!
