//! The four-dimensional multi-index space of bounded total degree.
//!
//! A multi-index is a tuple `(i, j, k, l)` of nonnegative integers with
//! `i + j + k + l <= degree`. The canonical order is lexicographic, the order
//! in which nested bounded loops (`i` outermost, `l` innermost) would emit the
//! tuples. This module gives the mathematical model of that order: the size of
//! the space, the rank of a tuple within it, and the tuple at a given rank,
//! together with proofs that rank and unrank are exact inverses and that the
//! size is the binomial coefficient `C(degree + dims, dims)`.

use vstd::prelude::*;
use crate::combinatorics::{binom, binomial_exec, lemma_binom_one};
use crate::MAX_DEGREE;

verus! {

/// How many `dims`-tuples of nonnegative integers have component sum at most
/// `d`; zero for negative `d`.
pub open spec fn tuple_count(dims: int, d: int) -> int
    decreases dims, d + 1,
{
    if d < 0 {
        0
    } else if dims <= 1 {
        d + 1
    } else {
        tuple_count(dims - 1, d) + tuple_count(dims, d - 1)
    }
}

/// How many `dims`-tuples of component sum at most `d` have first component
/// below `c`: the lexicographic rank of the first tuple whose leading
/// component is `c`.
pub open spec fn block_sum(dims: int, c: int, d: int) -> int
    decreases c,
{
    if c <= 0 {
        0
    } else {
        tuple_count(dims - 1, d) + block_sum(dims, c - 1, d - 1)
    }
}

/// Splits a lexicographic rank `n` within the `dims`-dimensional space of
/// degree `d` into the first tuple component and the rank of the remaining
/// `(dims - 1)`-tuple within its block.
pub open spec fn split_first(dims: int, n: int, d: int) -> (int, int)
    decreases d,
{
    if d <= 0 || n < tuple_count(dims - 1, d) {
        (0, n)
    } else {
        let (c, r) = split_first(dims, n - tuple_count(dims - 1, d), d - 1);
        (c + 1, r)
    }
}

/// Whether `(i, j, k, l)` is a valid multi-index for total degree `d`.
pub open spec fn valid_tuple(i: int, j: int, k: int, l: int, d: int) -> bool {
    0 <= i && 0 <= j && 0 <= k && 0 <= l && i + j + k + l <= d
}

/// The lexicographic rank of the multi-index `(i, j, k, l)` among all valid
/// multi-indices for total degree `d`.
pub open spec fn tuple_rank(i: int, j: int, k: int, l: int, d: int) -> int {
    block_sum(4, i, d) + block_sum(3, j, d - i) + block_sum(2, k, d - i - j) + l
}

/// The multi-index at lexicographic rank `n` for total degree `d`.
pub open spec fn index_tuple(n: int, d: int) -> (int, int, int, int) {
    let (i, r1) = split_first(4, n, d);
    let (j, r2) = split_first(3, r1, d - i);
    let (k, l) = split_first(2, r2, d - i - j);
    (i, j, k, l)
}

/// The space is empty exactly for negative degree, and never negative in size.
pub proof fn lemma_tuple_count_nonneg(dims: int, d: int)
    ensures
        tuple_count(dims, d) >= 0,
        d >= 0 ==> tuple_count(dims, d) >= 1,
    decreases dims, d + 1,
{
    if d < 0 {
    } else if dims <= 1 {
    } else {
        lemma_tuple_count_nonneg(dims - 1, d);
        lemma_tuple_count_nonneg(dims, d - 1);
    }
}

/// Extending a block sum by one more leading component adds that component's
/// block, whose size is the count of the remaining dimensions at the reduced
/// degree.
pub proof fn lemma_block_sum_step(dims: int, c: int, d: int)
    requires
        0 <= c,
    ensures
        block_sum(dims, c + 1, d) == block_sum(dims, c, d) + tuple_count(dims - 1, d - c),
    decreases c,
{
    assert(block_sum(dims, c + 1, d) == tuple_count(dims - 1, d) + block_sum(dims, c, d - 1));
    if c == 0 {
        assert(block_sum(dims, 0, d - 1) == 0);
    } else {
        lemma_block_sum_step(dims, c - 1, d - 1);
        assert(block_sum(dims, c, d) == tuple_count(dims - 1, d) + block_sum(dims, c - 1, d - 1));
    }
}

/// Block sums stay between zero and the size of the whole space.
pub proof fn lemma_block_sum_le(dims: int, c: int, d: int)
    requires
        2 <= dims,
        0 <= c <= d + 1,
    ensures
        0 <= block_sum(dims, c, d) <= tuple_count(dims, d),
    decreases c,
{
    if c == 0 {
        lemma_tuple_count_nonneg(dims, d);
    } else {
        lemma_block_sum_le(dims, c - 1, d - 1);
        lemma_tuple_count_nonneg(dims - 1, d);
    }
}

/// Block sums grow with the leading component.
pub proof fn lemma_block_sum_mono(dims: int, c1: int, c2: int, d: int)
    requires
        0 <= c1 <= c2,
    ensures
        block_sum(dims, c1, d) <= block_sum(dims, c2, d),
    decreases c2 - c1,
{
    if c1 < c2 {
        lemma_block_sum_step(dims, c2 - 1, d);
        lemma_tuple_count_nonneg(dims - 1, d - (c2 - 1));
        lemma_block_sum_mono(dims, c1, c2 - 1, d);
    }
}

/// Splitting an in-range rank yields an in-range leading component, an
/// in-range remainder, and a decomposition `rank == block_sum + remainder`.
pub proof fn lemma_split_first_correct(dims: int, n: int, d: int)
    requires
        2 <= dims,
        0 <= d,
        0 <= n < tuple_count(dims, d),
    ensures
        ({
            let (c, r) = split_first(dims, n, d);
            &&& 0 <= c <= d
            &&& 0 <= r < tuple_count(dims - 1, d - c)
            &&& block_sum(dims, c, d) + r == n
        }),
    decreases d,
{
    if d == 0 {
        assert(tuple_count(dims, -1) == 0);
        assert(tuple_count(dims, 0) == tuple_count(dims - 1, 0));
        assert(n < tuple_count(dims - 1, 0));
    } else if n < tuple_count(dims - 1, d) {
    } else {
        lemma_split_first_correct(dims, n - tuple_count(dims - 1, d), d - 1);
    }
}

/// The converse: every decomposition `block_sum + remainder` is an in-range
/// rank, and splitting it recovers the components.
pub proof fn lemma_block_sum_split(dims: int, c: int, r: int, d: int)
    requires
        2 <= dims,
        0 <= c <= d,
        0 <= r < tuple_count(dims - 1, d - c),
    ensures
        ({
            let n = block_sum(dims, c, d) + r;
            &&& 0 <= n < tuple_count(dims, d)
            &&& split_first(dims, n, d) == (c, r)
        }),
    decreases c,
{
    if c == 0 {
        lemma_tuple_count_nonneg(dims, d - 1);
    } else {
        lemma_block_sum_split(dims, c - 1, r, d - 1);
        lemma_tuple_count_nonneg(dims - 1, d);
        let n = block_sum(dims, c, d) + r;
        assert(n - tuple_count(dims - 1, d) == block_sum(dims, c - 1, d - 1) + r);
        lemma_block_sum_le(dims, c - 1, d - 1);
    }
}

/// Every valid multi-index has an in-range rank, and taking the tuple at that
/// rank gives the multi-index back.
pub proof fn lemma_rank_in_range(i: int, j: int, k: int, l: int, d: int)
    requires
        valid_tuple(i, j, k, l, d),
    ensures
        0 <= tuple_rank(i, j, k, l, d) < tuple_count(4, d),
        index_tuple(tuple_rank(i, j, k, l, d), d) == (i, j, k, l),
{
    assert(tuple_count(1, d - i - j - k) == d - i - j - k + 1);
    lemma_block_sum_split(2, k, l, d - i - j);
    let n2 = block_sum(2, k, d - i - j) + l;
    lemma_block_sum_split(3, j, n2, d - i);
    let n1 = block_sum(3, j, d - i) + n2;
    lemma_block_sum_split(4, i, n1, d);
}

/// Every in-range rank names a valid multi-index, whose rank is the one we
/// started from.
pub proof fn lemma_index_in_range(n: int, d: int)
    requires
        0 <= d,
        0 <= n < tuple_count(4, d),
    ensures
        ({
            let (i, j, k, l) = index_tuple(n, d);
            &&& valid_tuple(i, j, k, l, d)
            &&& tuple_rank(i, j, k, l, d) == n
        }),
{
    lemma_split_first_correct(4, n, d);
    let (i, r1) = split_first(4, n, d);
    lemma_split_first_correct(3, r1, d - i);
    let (j, r2) = split_first(3, r1, d - i);
    lemma_split_first_correct(2, r2, d - i - j);
    let (k, l) = split_first(2, r2, d - i - j);
    assert(tuple_count(1, d - i - j - k) == d - i - j - k + 1);
}

/// The size of the space in closed form: `tuple_count(dims, d)` is the
/// binomial coefficient `C(d + dims, dims)`.
pub proof fn lemma_tuple_count_binom(dims: int, d: int)
    requires
        1 <= dims,
        0 <= d,
    ensures
        tuple_count(dims, d) == binom(d + dims, dims),
    decreases dims, d,
{
    if dims == 1 {
        lemma_binom_one(d + 1);
    } else {
        lemma_tuple_count_binom(dims - 1, d);
        if d == 0 {
            assert(tuple_count(dims, -1) == 0);
            assert(binom(dims - 1, dims) == 0);
        } else {
            lemma_tuple_count_binom(dims, d - 1);
        }
    }
}

/// The size of the two-dimensional space of total degree at most `d`.
pub(crate) fn count_level2(d: usize) -> (r: usize)
    requires
        d <= MAX_DEGREE,
    ensures
        r as int == tuple_count(2, d as int),
{
    let b = binomial_exec(d + 2, 2);
    proof {
        lemma_tuple_count_binom(2, d as int);
    }
    b
}

/// The size of the three-dimensional space of total degree at most `d`.
pub(crate) fn count_level3(d: usize) -> (r: usize)
    requires
        d <= MAX_DEGREE,
    ensures
        r as int == tuple_count(3, d as int),
{
    let b = binomial_exec(d + 3, 3);
    proof {
        lemma_tuple_count_binom(3, d as int);
    }
    b
}

/// The size of the four-dimensional space of total degree at most `d`: the
/// number of multi-indices the engine enumerates.
pub(crate) fn count_level4(d: usize) -> (r: usize)
    requires
        d <= MAX_DEGREE,
    ensures
        r as int == tuple_count(4, d as int),
{
    let b = binomial_exec(d + 4, 4);
    proof {
        lemma_tuple_count_binom(4, d as int);
    }
    b
}

} // verus!
