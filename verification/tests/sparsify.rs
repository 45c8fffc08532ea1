//! The sparsifier: threshold-cut semantics on the coefficient bit patterns.

use polynomial_optics::legendre::Legendre4d;

fn expansion_with(values: &[f64]) -> Legendre4d {
    // degree 1 has five coefficients
    let mut e = Legendre4d::new(1).unwrap();
    assert_eq!(Legendre4d::num_polys(1), values.len());
    e.set_coefficients(values.iter().map(|v| v.to_bits()).collect());
    e
}

fn decoded(e: &Legendre4d) -> Vec<f64> {
    e.coefficients.iter().map(|b| f64::from_bits(*b)).collect()
}

#[test]
fn distinct_magnitudes_keep_exactly_the_largest() {
    let mut e = expansion_with(&[3.0, -7.5, 0.25, 1.5, 10.0]);
    e.make_sparse(2);
    assert_eq!(decoded(&e), vec![0.0, -7.5, 0.0, 0.0, 10.0]);

    let mut e = expansion_with(&[3.0, -7.5, 0.25, 1.5, 10.0]);
    e.make_sparse(4);
    assert_eq!(decoded(&e), vec![3.0, -7.5, 0.0, 1.5, 10.0]);
}

#[test]
fn ties_at_the_threshold_may_over_prune() {
    // keeping three of [2, -2, 1, 3, 5] cuts at magnitude 2, and the tie
    // zeroes both entries of that magnitude: only two survive
    let mut e = expansion_with(&[2.0, -2.0, 1.0, 3.0, 5.0]);
    e.make_sparse(3);
    assert_eq!(decoded(&e), vec![0.0, 0.0, 0.0, 3.0, 5.0]);
}

#[test]
fn keeping_all_nonzero_entries_is_a_noop() {
    let mut e = expansion_with(&[0.0, 0.0, 4.0, 0.0, -9.0]);
    e.make_sparse(3);
    assert_eq!(decoded(&e), vec![0.0, 0.0, 4.0, 0.0, -9.0]);
}

#[test]
fn negative_zero_counts_as_zero_magnitude() {
    let mut e = expansion_with(&[-0.0, 1.0, -2.0, 4.0, 8.0]);
    e.make_sparse(3);
    let got = decoded(&e);
    assert_eq!(got[0], 0.0);
    assert!(got[0].is_sign_positive());
    assert_eq!(&got[1..], &[0.0, -2.0, 4.0, 8.0]);
}

#[test]
fn threshold_entry_itself_is_zeroed() {
    // the cut is inclusive: the entry standing at the threshold goes too
    let mut e = expansion_with(&[1.0, 2.0, 3.0, 4.0, 5.0]);
    e.make_sparse(1);
    assert_eq!(decoded(&e), vec![0.0, 0.0, 0.0, 0.0, 5.0]);
}
