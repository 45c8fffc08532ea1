//! The multi-index space: counts, the canonical order, and the bijection.

use polynomial_optics::error::LegendreError;
use polynomial_optics::legendre::Legendre4d;

/// `C(n, 4)` computed independently of the library.
fn choose4(n: usize) -> usize {
    n * (n - 1) * (n - 2) * (n - 3) / 24
}

#[test]
fn count_matches_closed_form() {
    for degree in 0..=12 {
        assert_eq!(Legendre4d::num_polys(degree), choose4(degree + 4));
    }
    assert_eq!(Legendre4d::num_polys(0), 1);
    assert_eq!(Legendre4d::num_polys(2), 15);
    assert_eq!(Legendre4d::num_polys(6), 210);
}

#[test]
fn enumeration_matches_nested_loops() {
    // The canonical order is the one nested bounded loops would produce.
    for degree in 0..=5usize {
        let mut expected = Vec::new();
        for i in 0..=degree {
            for j in 0..=degree - i {
                for k in 0..=degree - i - j {
                    for l in 0..=degree - i - j - k {
                        expected.push((i, j, k, l));
                    }
                }
            }
        }
        assert_eq!(expected.len(), Legendre4d::num_polys(degree));
        for (n, t) in expected.iter().enumerate() {
            assert_eq!(Legendre4d::poly_index_to_multi_index(n, degree), Ok(*t));
            assert_eq!(
                Legendre4d::poly_multi_index_to_index(t.0, t.1, t.2, t.3, degree),
                Ok(n)
            );
        }
    }
}

#[test]
fn round_trip_both_ways() {
    for degree in [0usize, 1, 3, 6] {
        let count = Legendre4d::num_polys(degree);
        for n in 0..count {
            let (i, j, k, l) = Legendre4d::poly_index_to_multi_index(n, degree).unwrap();
            assert!(i + j + k + l <= degree);
            assert_eq!(
                Legendre4d::poly_multi_index_to_index(i, j, k, l, degree),
                Ok(n)
            );
        }
    }
}

#[test]
fn index_out_of_range_is_reported() {
    let count = Legendre4d::num_polys(3);
    assert_eq!(
        Legendre4d::poly_index_to_multi_index(count, 3),
        Err(LegendreError::IndexOutOfRange)
    );
    assert_eq!(
        Legendre4d::poly_index_to_multi_index(usize::MAX, 3),
        Err(LegendreError::IndexOutOfRange)
    );
    // component sum above the degree
    assert_eq!(
        Legendre4d::poly_multi_index_to_index(2, 1, 1, 0, 3),
        Err(LegendreError::IndexOutOfRange)
    );
    assert_eq!(
        Legendre4d::poly_multi_index_to_index(0, 0, 0, 4, 3),
        Err(LegendreError::IndexOutOfRange)
    );
    // the boundary itself is fine
    assert!(Legendre4d::poly_multi_index_to_index(3, 0, 0, 0, 3).is_ok());
    assert_eq!(
        LegendreError::IndexOutOfRange.describe(),
        "index outside the valid multi-index set"
    );
}

#[test]
fn new_rejects_oversized_degree() {
    assert!(Legendre4d::new(4).is_ok());
    assert!(Legendre4d::new(20).is_ok());
    assert_eq!(
        Legendre4d::new(21).map(|_| ()),
        Err(LegendreError::InvalidDegree)
    );
    assert_eq!(
        LegendreError::InvalidDegree.describe(),
        "total degree exceeds the supported bound"
    );
}

#[test]
fn new_fills_placeholder_coefficients() {
    let e = Legendre4d::new(2).unwrap();
    assert_eq!(e.degree, 2);
    assert_eq!(e.coefficients.len(), 15);
    for c in &e.coefficients {
        assert_eq!(*c, 1.0f64.to_bits());
    }
    assert_eq!(e.basis.basis.len(), 3);
}
