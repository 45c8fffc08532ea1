//! The four-dimensional Legendre expansion: a degree bound, the univariate
//! basis, and one coefficient slot per multi-index.
//!
//! Coefficient slots hold raw IEEE 754 double bit patterns. The engine never
//! does arithmetic on the encoded values; it counts, indexes and prunes them,
//! and all of that bookkeeping is exact on the bit patterns. Consumers that
//! estimate coefficients by quadrature decode the patterns, compute, and store
//! the encoded results back wholesale.

use vstd::prelude::*;
use vstd::pervasive::VecAdditionalExecFns;
use crate::basis::{LegendreBasis, basis_is_legendre};
use crate::error::LegendreError;
use crate::magnitude::{
    MAGNITUDE_MASK, abs_bits, sparsify_threshold, sorted_magnitude_keys,
    lemma_sorted_magnitudes_len,
};
use crate::multi_index::{
    count_level2, count_level3, count_level4, block_sum, index_tuple, split_first, tuple_count,
    tuple_rank, valid_tuple, lemma_block_sum_le, lemma_block_sum_mono, lemma_block_sum_step,
    lemma_index_in_range, lemma_rank_in_range, lemma_split_first_correct,
};
use crate::MAX_DEGREE;

verus! {

/// Bit pattern of the IEEE 754 double equal to one: the placeholder value
/// every coefficient slot starts from before a fit overwrites the vector.
pub const ONE_BITS: u64 = 0x3FF0_0000_0000_0000;

/// A tensor-product Legendre expansion of four variables: the fitted
/// surrogate. Built once for a degree; coefficients are overwritten wholesale
/// by a fit and may be pruned in place afterwards.
#[derive(Clone, Debug)]
pub struct Legendre4d {
    /// One coefficient per multi-index, in canonical (lexicographic) order,
    /// each held as the bit pattern of an IEEE 754 double.
    pub coefficients: Vec<u64>,
    /// The univariate basis shared by all four dimensions.
    pub basis: LegendreBasis,
    /// The bound on the total degree of every multi-index.
    pub degree: usize,
}

impl Legendre4d {
    /// The structural invariant: the basis belongs to the degree and the
    /// coefficient vector has exactly one slot per multi-index.
    pub open spec fn well_formed(self) -> bool {
        &&& self.degree <= MAX_DEGREE
        &&& self.basis.degree == self.degree
        &&& basis_is_legendre(self.basis)
        &&& self.coefficients@.len() == tuple_count(4, self.degree as int)
    }

    /// Builds an expansion for `degree`: the Legendre basis and one
    /// placeholder coefficient per multi-index. Degrees above [`MAX_DEGREE`]
    /// are rejected rather than silently truncated.
    pub fn new(degree: usize) -> (r: Result<Legendre4d, LegendreError>)
        ensures
            match r {
                Ok(e) => {
                    &&& degree <= MAX_DEGREE
                    &&& e.degree == degree
                    &&& e.well_formed()
                    &&& forall|p: int|
                        0 <= p < e.coefficients@.len() ==> e.coefficients@[p] == ONE_BITS
                },
                Err(err) => err == LegendreError::InvalidDegree && degree > MAX_DEGREE,
            },
    {
        if degree > MAX_DEGREE {
            return Err(LegendreError::InvalidDegree);
        }
        let total = count_level4(degree);
        let mut coefficients: Vec<u64> = Vec::new();
        let mut p: usize = 0;
        while p < total
            invariant
                p <= total,
                coefficients@.len() == p as int,
                forall|q: int| 0 <= q < p as int ==> coefficients@[q] == ONE_BITS,
            decreases total - p,
        {
            coefficients.push(ONE_BITS);
            p = p + 1;
        }
        let basis = LegendreBasis::new(degree);
        Ok(Legendre4d { coefficients, basis, degree })
    }

    /// The number of multi-indices (and coefficients) for `degree`: the
    /// binomial coefficient `C(degree + 4, 4)`, computed in closed form.
    pub fn num_polys(degree: usize) -> (r: usize)
        requires
            degree <= MAX_DEGREE,
        ensures
            r as int == tuple_count(4, degree as int),
    {
        count_level4(degree)
    }

    /// The multi-index at a linear index, for the canonical lexicographic
    /// order; `IndexOutOfRange` exactly when the index is not below the
    /// multi-index count.
    #[verifier::loop_isolation(false)]
    pub fn poly_index_to_multi_index(index: usize, degree: usize) -> (r: Result<
        (usize, usize, usize, usize),
        LegendreError,
    >)
        requires
            degree <= MAX_DEGREE,
        ensures
            match r {
                Ok(t) => {
                    &&& (index as int) < tuple_count(4, degree as int)
                    &&& index_tuple(index as int, degree as int) == (
                        t.0 as int,
                        t.1 as int,
                        t.2 as int,
                        t.3 as int,
                    )
                    &&& valid_tuple(t.0 as int, t.1 as int, t.2 as int, t.3 as int, degree as int)
                    &&& tuple_rank(t.0 as int, t.1 as int, t.2 as int, t.3 as int, degree as int)
                        == index as int
                },
                Err(e) => {
                    &&& e == LegendreError::IndexOutOfRange
                    &&& index as int >= tuple_count(4, degree as int)
                },
            },
    {
        let total = count_level4(degree);
        if index >= total {
            return Err(LegendreError::IndexOutOfRange);
        }
        // Strip the first component: walk past whole blocks of tuples that
        // share a leading value.
        let mut i: usize = 0;
        let mut rem: usize = index;
        let mut cnt3: usize = count_level3(degree);
        while rem >= cnt3
            invariant
                i <= degree,
                (rem as int) < tuple_count(4, degree as int - i as int),
                cnt3 as int == tuple_count(3, degree as int - i as int),
                ({
                    let (c, r2) = split_first(4, rem as int, degree as int - i as int);
                    split_first(4, index as int, degree as int) == (c + i as int, r2)
                }),
            decreases degree - i,
        {
            proof {
                let di = degree as int - i as int;
                assert(tuple_count(4, di) == tuple_count(3, di) + tuple_count(4, di - 1));
                assert(di - 1 >= 0) by {
                    if di - 1 < 0 {
                        assert(tuple_count(4, di - 1) == 0);
                    }
                }
                let (c2, r2) = split_first(4, rem as int - tuple_count(3, di), di - 1);
                assert(split_first(4, rem as int, di) == (c2 + 1, r2));
            }
            rem = rem - cnt3;
            i = i + 1;
            cnt3 = count_level3(degree - i);
        }
        proof {
            assert(split_first(4, rem as int, degree as int - i as int) == (0int, rem as int));
            lemma_split_first_correct(4, index as int, degree as int);
        }
        let ghost r1 = rem as int;
        // Second component, within the block of the first.
        let d1: usize = degree - i;
        let mut j: usize = 0;
        let mut cnt2: usize = count_level2(d1);
        while rem >= cnt2
            invariant
                j <= d1,
                (rem as int) < tuple_count(3, d1 as int - j as int),
                cnt2 as int == tuple_count(2, d1 as int - j as int),
                ({
                    let (c, r2) = split_first(3, rem as int, d1 as int - j as int);
                    split_first(3, r1, d1 as int) == (c + j as int, r2)
                }),
            decreases d1 - j,
        {
            proof {
                let dj = d1 as int - j as int;
                assert(tuple_count(3, dj) == tuple_count(2, dj) + tuple_count(3, dj - 1));
                assert(dj - 1 >= 0) by {
                    if dj - 1 < 0 {
                        assert(tuple_count(3, dj - 1) == 0);
                    }
                }
                let (c2, r2) = split_first(3, rem as int - tuple_count(2, dj), dj - 1);
                assert(split_first(3, rem as int, dj) == (c2 + 1, r2));
            }
            rem = rem - cnt2;
            j = j + 1;
            cnt2 = count_level2(d1 - j);
        }
        proof {
            assert(split_first(3, rem as int, d1 as int - j as int) == (0int, rem as int));
            lemma_split_first_correct(3, r1, d1 as int);
        }
        let ghost r2 = rem as int;
        // Third component; what remains after it is the fourth.
        let d2: usize = d1 - j;
        let mut k: usize = 0;
        let mut cnt1: usize = d2 + 1;
        while rem >= cnt1
            invariant
                k <= d2,
                (rem as int) < tuple_count(2, d2 as int - k as int),
                cnt1 as int == tuple_count(1, d2 as int - k as int),
                ({
                    let (c, r3) = split_first(2, rem as int, d2 as int - k as int);
                    split_first(2, r2, d2 as int) == (c + k as int, r3)
                }),
            decreases d2 - k,
        {
            proof {
                let dk = d2 as int - k as int;
                assert(tuple_count(2, dk) == tuple_count(1, dk) + tuple_count(2, dk - 1));
                assert(dk - 1 >= 0) by {
                    if dk - 1 < 0 {
                        assert(tuple_count(2, dk - 1) == 0);
                    }
                }
                let (c2, r3) = split_first(2, rem as int - tuple_count(1, dk), dk - 1);
                assert(split_first(2, rem as int, dk) == (c2 + 1, r3));
            }
            rem = rem - cnt1;
            k = k + 1;
            cnt1 = (d2 - k) + 1;
        }
        proof {
            assert(split_first(2, rem as int, d2 as int - k as int) == (0int, rem as int));
            assert(index_tuple(index as int, degree as int) == (
                i as int,
                j as int,
                k as int,
                rem as int,
            ));
            lemma_index_in_range(index as int, degree as int);
        }
        Ok((i, j, k, rem))
    }

    /// The linear index of a multi-index, for the canonical lexicographic
    /// order; `IndexOutOfRange` exactly when the component sum exceeds the
    /// degree.
    #[verifier::loop_isolation(false)]
    pub fn poly_multi_index_to_index(
        i: usize,
        j: usize,
        k: usize,
        l: usize,
        degree: usize,
    ) -> (r: Result<usize, LegendreError>)
        requires
            degree <= MAX_DEGREE,
        ensures
            match r {
                Ok(n) => {
                    &&& valid_tuple(i as int, j as int, k as int, l as int, degree as int)
                    &&& n as int == tuple_rank(i as int, j as int, k as int, l as int, degree as int)
                    &&& (n as int) < tuple_count(4, degree as int)
                    &&& index_tuple(n as int, degree as int) == (
                        i as int,
                        j as int,
                        k as int,
                        l as int,
                    )
                },
                Err(e) => {
                    &&& e == LegendreError::IndexOutOfRange
                    &&& !valid_tuple(i as int, j as int, k as int, l as int, degree as int)
                },
            },
    {
        if i > degree || j > degree - i || k > degree - i - j || l > degree - i - j - k {
            return Err(LegendreError::IndexOutOfRange);
        }
        proof {
            lemma_rank_in_range(i as int, j as int, k as int, l as int, degree as int);
            lemma_block_sum_le(4, i as int, degree as int);
            lemma_block_sum_le(3, j as int, degree as int - i as int);
            lemma_block_sum_le(2, k as int, degree as int - i as int - j as int);
        }
        let total = count_level4(degree);
        let mut n: usize = 0;
        let mut ci: usize = 0;
        while ci < i
            invariant
                ci <= i,
                n as int == block_sum(4, ci as int, degree as int),
            decreases i - ci,
        {
            let t3 = count_level3(degree - ci);
            proof {
                lemma_block_sum_step(4, ci as int, degree as int);
                lemma_block_sum_mono(4, ci as int + 1, i as int, degree as int);
            }
            n = n + t3;
            ci = ci + 1;
        }
        let mut cj: usize = 0;
        while cj < j
            invariant
                cj <= j,
                n as int == block_sum(4, i as int, degree as int) + block_sum(
                    3,
                    cj as int,
                    degree as int - i as int,
                ),
            decreases j - cj,
        {
            let t2 = count_level2(degree - i - cj);
            proof {
                lemma_block_sum_step(3, cj as int, degree as int - i as int);
                lemma_block_sum_mono(3, cj as int + 1, j as int, degree as int - i as int);
            }
            n = n + t2;
            cj = cj + 1;
        }
        let mut ck: usize = 0;
        while ck < k
            invariant
                ck <= k,
                n as int == block_sum(4, i as int, degree as int) + block_sum(
                    3,
                    j as int,
                    degree as int - i as int,
                ) + block_sum(2, ck as int, degree as int - i as int - j as int),
            decreases k - ck,
        {
            let t1 = (degree - i - j - ck) + 1;
            proof {
                let dk = degree as int - i as int - j as int;
                assert(tuple_count(1, dk - ck as int) == dk - ck as int + 1);
                lemma_block_sum_step(2, ck as int, dk);
                lemma_block_sum_mono(2, ck as int + 1, k as int, dk);
            }
            n = n + t1;
            ck = ck + 1;
        }
        let n = n + l;
        Ok(n)
    }

    /// Installs the result of a fit: one quadrature estimate per multi-index,
    /// computed from `sample_count` samples. The estimates themselves are
    /// floating-point work done by the caller on the basis data; this method
    /// holds the fit's contract, in particular that an empty sample
    /// collection is an explicit error (never a silent division by zero) and
    /// leaves the expansion untouched.
    pub fn fit(&mut self, sample_count: usize, values: Vec<u64>) -> (r: Result<
        (),
        LegendreError,
    >)
        requires
            values@.len() == tuple_count(4, old(self).degree as int),
        ensures
            match r {
                Ok(()) => {
                    &&& sample_count > 0
                    &&& final(self).coefficients@ == values@
                    &&& final(self).degree == old(self).degree
                    &&& final(self).basis == old(self).basis
                },
                Err(e) => {
                    &&& e == LegendreError::EmptyInput
                    &&& sample_count == 0
                    &&& *final(self) == *old(self)
                },
            },
    {
        if sample_count == 0 {
            return Err(LegendreError::EmptyInput);
        }
        self.coefficients = values;
        Ok(())
    }

    /// Prunes the coefficient vector in place to (at most) `size` nonzero
    /// entries: the magnitude keys are sorted ascending, the key `size`
    /// places before the end becomes the threshold, and every entry whose
    /// magnitude key does not exceed the threshold is zeroed.
    ///
    /// This is a threshold cut, not a strict top-`size` selection: entries
    /// tied with the threshold are zeroed too, so fewer than `size` nonzero
    /// entries may survive. With pairwise distinct magnitudes exactly the
    /// `size` largest survive ([`crate::magnitude::lemma_threshold_cut_exact`]).
    /// Keeping at least the current number of nonzero entries zeroes only
    /// entries that already encode a signed zero.
    pub fn make_sparse(&mut self, size: usize)
        requires
            size < old(self).coefficients@.len(),
        ensures
            final(self).degree == old(self).degree,
            final(self).basis == old(self).basis,
            final(self).coefficients@.len() == old(self).coefficients@.len(),
            forall|p: int|
                0 <= p < old(self).coefficients@.len() ==> final(self).coefficients@[p] == (
                if abs_bits(old(self).coefficients@[p]) <= sparsify_threshold(
                    old(self).coefficients@,
                    size as int,
                ) {
                    0u64
                } else {
                    old(self).coefficients@[p]
                }),
    {
        let len = self.coefficients.len();
        let sorted = sorted_magnitude_keys(&self.coefficients);
        proof {
            lemma_sorted_magnitudes_len(self.coefficients@);
        }
        let threshold = sorted[len - 1 - size];
        let mut q: usize = 0;
        while q < len
            invariant
                q <= len,
                len == old(self).coefficients@.len(),
                self.coefficients@.len() == len,
                self.degree == old(self).degree,
                self.basis == old(self).basis,
                threshold == sparsify_threshold(old(self).coefficients@, size as int),
                forall|w: int|
                    0 <= w < q as int ==> self.coefficients@[w] == (if abs_bits(
                        old(self).coefficients@[w],
                    ) <= threshold {
                        0u64
                    } else {
                        old(self).coefficients@[w]
                    }),
                forall|w: int|
                    q as int <= w < len ==> self.coefficients@[w] == old(self).coefficients@[w],
            decreases len - q,
        {
            let b = self.coefficients[q];
            if (b & MAGNITUDE_MASK) <= threshold {
                self.coefficients.set(q, 0);
            }
            q = q + 1;
        }
    }

    /// Replaces the coefficient vector wholesale, one encoded value per
    /// multi-index; this is how a fit's quadrature results are installed.
    pub fn set_coefficients(&mut self, values: Vec<u64>)
        requires
            values@.len() == tuple_count(4, old(self).degree as int),
        ensures
            final(self).coefficients@ == values@,
            final(self).degree == old(self).degree,
            final(self).basis == old(self).basis,
    {
        self.coefficients = values;
    }
}

} // verus!
