//! Magnitude order on encoded coefficients, and the sparsification threshold.
//!
//! A coefficient slot holds the bit pattern of an IEEE 754 double. Clearing
//! the sign bit yields the pattern of the value's absolute magnitude, and for
//! the finite, non-NaN values a fit produces, the unsigned order of these
//! magnitude keys coincides with the order of absolute values. Sparsification
//! therefore sorts the magnitude keys, reads the threshold key, and zeroes
//! every entry whose key does not exceed it, all exact on the bit patterns.

use vstd::prelude::*;
use vstd::multiset::Multiset;
use vstd::relations::{sorted_by, total_ordering};
use vstd::seq_lib::lemma_sorted_unique;

verus! {

/// All bits of an IEEE 754 double except the sign bit.
pub const MAGNITUDE_MASK: u64 = 0x7FFF_FFFF_FFFF_FFFF;

/// The magnitude key of an encoded coefficient: its bit pattern with the sign
/// cleared.
pub open spec fn abs_bits(b: u64) -> u64 {
    b & MAGNITUDE_MASK
}

/// The unsigned order on magnitude keys.
pub open spec fn key_le() -> spec_fn(u64, u64) -> bool {
    |a: u64, b: u64| a <= b
}

/// The magnitude keys of a coefficient vector, slot by slot.
pub open spec fn magnitude_keys(s: Seq<u64>) -> Seq<u64> {
    s.map_values(|b: u64| abs_bits(b))
}

/// The magnitude keys in ascending order.
pub open spec fn sorted_magnitudes(s: Seq<u64>) -> Seq<u64> {
    magnitude_keys(s).sort_by(key_le())
}

/// The sparsification threshold for keeping (at most) `keep` coefficients:
/// the key that ends up `keep` places before the end of the ascending order.
/// Every entry whose key does not exceed it is zeroed.
pub open spec fn sparsify_threshold(s: Seq<u64>, keep: int) -> u64 {
    sorted_magnitudes(s)[s.len() - 1 - keep]
}

/// How many entries of a coefficient vector carry a magnitude key above `t`:
/// with the pointwise contract of sparsification, exactly the entries that
/// survive a cut at threshold `t`.
pub open spec fn keys_above(s: Seq<u64>, t: u64) -> nat {
    magnitude_keys(s).filter(|x: u64| t < x).len()
}

/// Sorting the magnitude keys keeps their number: one key per coefficient.
pub proof fn lemma_sorted_magnitudes_len(s: Seq<u64>)
    ensures
        sorted_magnitudes(s).len() == s.len(),
{
    broadcast use vstd::seq_lib::group_to_multiset_ensures;

    lemma_key_le_total();
    magnitude_keys(s).lemma_sort_by_ensures(key_le());
    assert(magnitude_keys(s).to_multiset().len() == magnitude_keys(s).len());
    assert(sorted_magnitudes(s).to_multiset().len() == sorted_magnitudes(s).len());
}

/// The unsigned order on keys is a total order.
proof fn lemma_key_le_total()
    ensures
        total_ordering(key_le()),
{
}

/// A sequence's filter is no longer than the sequence, and is the whole
/// sequence when every element satisfies the predicate.
proof fn lemma_filter_len_all(s: Seq<u64>, p: spec_fn(u64) -> bool)
    requires
        forall|q: int| 0 <= q < s.len() ==> p(#[trigger] s[q]),
    ensures
        s.filter(p).len() == s.len(),
    decreases s.len(),
{
    broadcast use vstd::seq_lib::group_filter_ensures;

    if s.len() == 0 {
    } else {
        let rest = s.drop_last();
        lemma_filter_len_all(rest, p);
        rest.lemma_filter_len_push(p, s.last());
        assert(s =~= rest.push(s.last()));
    }
}

/// A sequence's filter length seen on the multiset: filtering commutes with
/// forgetting the order, so permutations have equal filter lengths.
proof fn lemma_filter_len_multiset(s: Seq<u64>, p: spec_fn(u64) -> bool)
    ensures
        s.to_multiset().filter(p).len() == s.filter(p).len(),
    decreases s.len(),
{
    broadcast use vstd::seq_lib::group_to_multiset_ensures;
    broadcast use vstd::multiset::group_multiset_axioms;
    broadcast use vstd::seq_lib::group_filter_ensures;

    if s.len() == 0 {
        assert(s.to_multiset() =~= Multiset::<u64>::empty());
        assert(s.to_multiset().filter(p) =~= Multiset::<u64>::empty());
    } else {
        let rest = s.drop_last();
        let x = s.last();
        lemma_filter_len_multiset(rest, p);
        rest.lemma_filter_len_push(p, x);
        assert(s =~= rest.push(x));
        assert(s.to_multiset() == rest.to_multiset().insert(x));
        let m = rest.to_multiset();
        if p(x) {
            assert(m.insert(x).filter(p) =~= m.filter(p).insert(x));
            vstd::multiset::lemma_insert_len(m.filter(p), x);
        } else {
            assert(m.insert(x).filter(p) =~= m.filter(p));
        }
    }
}

/// Sequences with the same elements have filters of the same length.
proof fn lemma_filter_len_permuted(a: Seq<u64>, b: Seq<u64>, p: spec_fn(u64) -> bool)
    requires
        a.to_multiset() == b.to_multiset(),
    ensures
        a.filter(p).len() == b.filter(p).len(),
{
    lemma_filter_len_multiset(a, p);
    lemma_filter_len_multiset(b, p);
}

/// Facts shared by the threshold-cut lemmas: lengths, and the filter length
/// carried over to the sorted order.
proof fn lemma_threshold_setup(coeffs: Seq<u64>, keep: int)
    requires
        0 <= keep < coeffs.len(),
    ensures
        ({
            let keys = magnitude_keys(coeffs);
            let s = sorted_magnitudes(coeffs);
            &&& s.len() == coeffs.len()
            &&& sorted_by(s, key_le())
            &&& s.to_multiset() == keys.to_multiset()
            &&& keys_above(coeffs, sparsify_threshold(coeffs, keep)) == s.filter(
                |x: u64| sparsify_threshold(coeffs, keep) < x,
            ).len()
        }),
{
    broadcast use vstd::seq_lib::group_to_multiset_ensures;

    let keys = magnitude_keys(coeffs);
    let s = sorted_magnitudes(coeffs);
    lemma_key_le_total();
    keys.lemma_sort_by_ensures(key_le());
    assert(keys.to_multiset().len() == keys.len());
    assert(s.to_multiset().len() == s.len());
    lemma_filter_len_permuted(keys, s, |x: u64| sparsify_threshold(coeffs, keep) < x);
}

/// A cut at the threshold never leaves more than `keep` entries: at most
/// `keep` magnitude keys exceed the key standing `keep` places before the end
/// of the ascending order. (With ties at the threshold, fewer may remain.)
pub proof fn lemma_threshold_cut_at_most(coeffs: Seq<u64>, keep: int)
    requires
        0 <= keep < coeffs.len(),
    ensures
        keys_above(coeffs, sparsify_threshold(coeffs, keep)) <= keep,
{
    broadcast use vstd::seq_lib::group_filter_ensures;

    lemma_threshold_setup(coeffs, keep);
    let t = sparsify_threshold(coeffs, keep);
    let p = |x: u64| t < x;
    let s = sorted_magnitudes(coeffs);
    let m = coeffs.len() - keep;
    let prefix = s.take(m);
    let suffix = s.skip(m);
    assert(s =~= prefix + suffix);
    Seq::<u64>::filter_distributes_over_add(prefix, suffix, p);
    assert forall|q: int| 0 <= q < prefix.len() implies !p(#[trigger] prefix[q]) by {
        if q < m - 1 {
            assert(key_le()(s[q], s[m - 1]));
        }
    }
    prefix.lemma_all_neg_filter_empty(p);
    suffix.lemma_filter_len(p);
}

/// With pairwise distinct magnitudes the threshold cut is an exact top-`keep`
/// selection: exactly `keep` entries carry a magnitude key above the
/// threshold, so exactly the `keep` largest survive.
pub proof fn lemma_threshold_cut_exact(coeffs: Seq<u64>, keep: int)
    requires
        0 <= keep < coeffs.len(),
        magnitude_keys(coeffs).no_duplicates(),
    ensures
        keys_above(coeffs, sparsify_threshold(coeffs, keep)) == keep,
{
    broadcast use vstd::seq_lib::group_filter_ensures;

    lemma_threshold_setup(coeffs, keep);
    let keys = magnitude_keys(coeffs);
    let t = sparsify_threshold(coeffs, keep);
    let p = |x: u64| t < x;
    let s = sorted_magnitudes(coeffs);
    let m = coeffs.len() - keep;
    keys.lemma_multiset_has_no_duplicates();
    s.lemma_multiset_has_no_duplicates_conv();
    let prefix = s.take(m);
    let suffix = s.skip(m);
    assert(s =~= prefix + suffix);
    Seq::<u64>::filter_distributes_over_add(prefix, suffix, p);
    assert forall|q: int| 0 <= q < prefix.len() implies !p(#[trigger] prefix[q]) by {
        if q < m - 1 {
            assert(key_le()(s[q], s[m - 1]));
        }
    }
    prefix.lemma_all_neg_filter_empty(p);
    assert forall|q: int| 0 <= q < suffix.len() implies p(#[trigger] suffix[q]) by {
        assert(suffix[q] == s[m + q]);
        assert(key_le()(s[m - 1], s[m + q]));
        assert(s[m - 1] != s[m + q]);
    }
    lemma_filter_len_all(suffix, p);
}

/// Keeping at least as many entries as carry a nonzero magnitude puts the
/// threshold at a zero key, so a cut only rewrites entries that already
/// encode a signed zero: on the encoded values it is a no-op.
pub proof fn lemma_threshold_cut_noop(coeffs: Seq<u64>, keep: int)
    requires
        0 <= keep < coeffs.len(),
        keys_above(coeffs, 0) <= keep,
    ensures
        sparsify_threshold(coeffs, keep) == 0,
{
    broadcast use vstd::seq_lib::group_filter_ensures;

    lemma_threshold_setup(coeffs, keep);
    let t = sparsify_threshold(coeffs, keep);
    let p = |x: u64| 0u64 < x;
    let s = sorted_magnitudes(coeffs);
    lemma_filter_len_permuted(magnitude_keys(coeffs), s, p);
    if t != 0 {
        let m = coeffs.len() - 1 - keep;
        let prefix = s.take(m);
        let suffix = s.skip(m);
        assert(s =~= prefix + suffix);
        Seq::<u64>::filter_distributes_over_add(prefix, suffix, p);
        assert forall|q: int| 0 <= q < suffix.len() implies p(#[trigger] suffix[q]) by {
            assert(suffix[q] == s[m + q]);
            if q > 0 {
                assert(key_le()(s[m], s[m + q]));
            }
        }
        lemma_filter_len_all(suffix, p);
        prefix.lemma_filter_len(p);
        assert(s.filter(p).len() >= keep + 1);
    }
}

/// An ascending copy of the magnitude keys of `coeffs`, by insertion into
/// sorted position: the engine's observability hook for the magnitude
/// distribution, and the order the sparsification threshold is read from.
pub fn sorted_magnitude_keys(coeffs: &Vec<u64>) -> (r: Vec<u64>)
    ensures
        r@ == sorted_magnitudes(coeffs@),
{
    broadcast use vstd::seq_lib::group_to_multiset_ensures;

    let mut keys: Vec<u64> = Vec::new();
    let mut p: usize = 0;
    while p < coeffs.len()
        invariant
            p <= coeffs@.len(),
            keys@.len() == p as int,
            forall|q: int| 0 <= q < p as int ==> keys@[q] == abs_bits(#[trigger] coeffs@[q]),
        decreases coeffs@.len() - p,
    {
        let b = coeffs[p];
        keys.push(b & MAGNITUDE_MASK);
        p = p + 1;
    }
    assert(keys@ =~= magnitude_keys(coeffs@));
    let mut out: Vec<u64> = Vec::new();
    let mut idx: usize = 0;
    proof {
        assert(keys@.take(0) =~= Seq::<u64>::empty());
        assert(out@ =~= Seq::<u64>::empty());
        assert(out@.to_multiset() =~= keys@.take(0).to_multiset());
    }
    while idx < keys.len()
        invariant
            idx <= keys@.len(),
            sorted_by(out@, key_le()),
            out@.len() == idx as int,
            out@.to_multiset() == keys@.take(idx as int).to_multiset(),
        decreases keys@.len() - idx,
    {
        let x = keys[idx];
        let mut pos: usize = 0;
        while pos < out.len() && out[pos] <= x
            invariant
                pos <= out@.len(),
                forall|q: int| 0 <= q < pos as int ==> (#[trigger] out@[q]) <= x,
            decreases out@.len() - pos,
        {
            pos = pos + 1;
        }
        proof {
            broadcast use vstd::seq_lib::group_to_multiset_ensures;

            let pi = pos as int;
            let inserted = out@.insert(pi, x);
            out@.insert_ensures(pi, x);
            assert forall|a: int, b: int| 0 <= a < b < inserted.len() implies key_le()(
                inserted[a],
                inserted[b],
            ) by {
                if a > pi {
                    assert(inserted[(a - 1) + 1] == out@[a - 1]);
                }
                if b > pi {
                    assert(inserted[(b - 1) + 1] == out@[b - 1]);
                }
                if b == pi {
                    // inserted[b] == x and a < pos, where the scan saw out[a] <= x
                } else if a == pi {
                    // inserted[a] == x; the scan stopped with x < out[pos] <= out[b - 1]
                    assert(key_le()(out@[pi], out@[b - 1]));
                } else if a > pi {
                    assert(key_le()(out@[a - 1], out@[b - 1]));
                } else if b > pi {
                    // out[a] <= x < out[pos] <= out[b - 1], or directly sorted
                    if b - 1 == pi {
                        assert(out@[a] <= x);
                    } else {
                        assert(key_le()(out@[a], out@[b - 1]));
                    }
                }
            }
            assert(out@.insert(pi, x).to_multiset() == out@.to_multiset().insert(x));
            assert(keys@.take(idx as int + 1) =~= keys@.take(idx as int).push(x));
            assert(keys@.take(idx as int).push(x).to_multiset() == keys@.take(
                idx as int,
            ).to_multiset().insert(x));
        }
        out.insert(pos, x);
        idx = idx + 1;
    }
    proof {
        assert(keys@.take(keys@.len() as int) =~= keys@);
        lemma_key_le_total();
        keys@.lemma_sort_by_ensures(key_le());
        lemma_sorted_unique(out@, keys@.sort_by(key_le()), key_le());
        assert(out@ == sorted_magnitudes(coeffs@));
    }
    out
}

} // verus!
