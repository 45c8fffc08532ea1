//! Fitting and evaluating expansions: a plain floating-point harness over the
//! exact data the library exposes, mirroring the quadrature the engine is
//! specified with.

use polynomial_optics::basis::Polynomial;
use polynomial_optics::error::LegendreError;
use polynomial_optics::legendre::Legendre4d;

fn poly_value(p: &Polynomial, x: f64) -> f64 {
    let norm = ((p.norm2_num as f64) / (p.norm2_den as f64)).sqrt();
    let mut acc = 0.0f64;
    for m in &p.terms {
        acc += (m.coeff_num as f64) / (m.coeff_den as f64) * x.powi(m.exponent as i32);
    }
    norm * acc
}

/// One fitted coefficient: `(16 / N) * sum_s w_s v_s B_m(x_s)`.
fn fit(e: &mut Legendre4d, pts: &[(f64, f64, f64, f64, f64)], wts: Option<&[f64]>) {
    let degree = e.degree;
    let count = Legendre4d::num_polys(degree);
    let mut values: Vec<u64> = Vec::with_capacity(count);
    for idx in 0..count {
        let (i, j, k, l) = Legendre4d::poly_index_to_multi_index(idx, degree).unwrap();
        let mut sum = 0.0f64;
        for (s, p) in pts.iter().enumerate() {
            let w = wts.map_or(1.0, |w| w[s]);
            sum += w
                * p.4
                * poly_value(&e.basis.basis[i], p.0)
                * poly_value(&e.basis.basis[j], p.1)
                * poly_value(&e.basis.basis[k], p.2)
                * poly_value(&e.basis.basis[l], p.3);
        }
        values.push((sum / pts.len() as f64 * 16.0).to_bits());
    }
    assert_eq!(values.len(), count);
    e.fit(pts.len(), values).unwrap();
}

fn eval(e: &Legendre4d, x: (f64, f64, f64, f64)) -> f64 {
    let degree = e.degree;
    let mut acc = 0.0f64;
    for (idx, bits) in e.coefficients.iter().enumerate() {
        let c = f64::from_bits(*bits);
        if c == 0.0 {
            continue; // zero coefficients contribute nothing
        }
        let (i, j, k, l) = Legendre4d::poly_index_to_multi_index(idx, degree).unwrap();
        acc += c
            * poly_value(&e.basis.basis[i], x.0)
            * poly_value(&e.basis.basis[j], x.1)
            * poly_value(&e.basis.basis[k], x.2)
            * poly_value(&e.basis.basis[l], x.3);
    }
    acc
}

/// Tensor grid of three-node Gauss quadrature points with matching fitter
/// weights: the fit then computes the projection integrals exactly for low
/// degrees.
fn gauss_samples(f: impl Fn(f64, f64, f64, f64) -> f64) -> (Vec<(f64, f64, f64, f64, f64)>, Vec<f64>) {
    let nodes = [-(0.6f64).sqrt(), 0.0, (0.6f64).sqrt()];
    let weights = [5.0 / 9.0, 8.0 / 9.0, 5.0 / 9.0];
    let mut pts = Vec::new();
    let mut wts = Vec::new();
    let n_samples = 81.0f64;
    for a in 0..3 {
        for b in 0..3 {
            for c in 0..3 {
                for d in 0..3 {
                    let (x0, x1, x2, x3) = (nodes[a], nodes[b], nodes[c], nodes[d]);
                    pts.push((x0, x1, x2, x3, f(x0, x1, x2, x3)));
                    wts.push(weights[a] * weights[b] * weights[c] * weights[d] * n_samples / 16.0);
                }
            }
        }
    }
    (pts, wts)
}

/// A small linear-congruential generator, enough for uniform sample points.
fn lcg(state: &mut u64) -> f64 {
    *state = state.wrapping_mul(6364136223846793005).wrapping_add(1442695040888963407);
    ((*state >> 11) as f64) / ((1u64 << 53) as f64) * 2.0 - 1.0
}

#[test]
fn constant_function_fit() {
    // 100 samples of the constant 5, equal weight: the single coefficient
    // reproduces 5 everywhere
    let mut e = Legendre4d::new(0).unwrap();
    let mut state = 7u64;
    let mut pts = Vec::new();
    for _ in 0..100 {
        pts.push((lcg(&mut state), lcg(&mut state), lcg(&mut state), lcg(&mut state), 5.0));
    }
    fit(&mut e, &pts, None);
    assert_eq!(e.coefficients.len(), 1);
    for x in [(0.0, 0.0, 0.0, 0.0), (0.9, -0.4, 0.3, -1.0), (2.0, 0.0, -3.0, 0.5)] {
        assert!((eval(&e, x) - 5.0).abs() < 1e-9, "{}", eval(&e, x));
    }
}

#[test]
fn recovers_single_linear_term() {
    // degree 2, 4 variables: 15 multi-indices; fitting f(x) = x0 exactly
    // recovers one coefficient and zeroes the rest
    let mut e = Legendre4d::new(2).unwrap();
    assert_eq!(e.coefficients.len(), 15);
    let (pts, wts) = gauss_samples(|x0, _, _, _| x0);
    fit(&mut e, &pts, Some(&wts));
    let linear = Legendre4d::poly_multi_index_to_index(1, 0, 0, 0, 2).unwrap();
    for (idx, bits) in e.coefficients.iter().enumerate() {
        let c = f64::from_bits(*bits);
        if idx == linear {
            // projection of x0: sqrt(2/3) from the linear axis, sqrt(2) from
            // each constant axis
            assert!((c - (16.0f64 / 3.0).sqrt()).abs() < 1e-9, "{}", c);
        } else {
            assert!(c.abs() < 1e-9, "index {}: {}", idx, c);
        }
    }
    let v = eval(&e, (0.3, 0.0, 0.0, 0.0));
    assert!((v - 0.3).abs() < 1e-9, "{}", v);
    let w = eval(&e, (-0.8, 0.5, -0.2, 0.7));
    assert!((w + 0.8).abs() < 1e-9, "{}", w);
}

#[test]
fn round_trip_known_polynomial() {
    // fit a known degree-2 polynomial from exact quadrature samples, then
    // evaluate at held-out points
    let f = |x0: f64, x1: f64, x2: f64, x3: f64| {
        1.0 + 2.0 * x0 - x1 + 0.5 * x2 * x3 - 0.25 * x0 * x0
    };
    let mut e = Legendre4d::new(2).unwrap();
    let (pts, wts) = gauss_samples(f);
    fit(&mut e, &pts, Some(&wts));
    let mut state = 99u64;
    for _ in 0..25 {
        let x = (lcg(&mut state), lcg(&mut state), lcg(&mut state), lcg(&mut state));
        let got = eval(&e, x);
        let want = f(x.0, x.1, x.2, x.3);
        assert!((got - want).abs() < 1e-9, "{:?}: {} vs {}", x, got, want);
    }
}

#[test]
fn round_trip_uniform_samples() {
    // the same round trip from plain uniformly distributed samples of equal
    // weight: quadrature noise shrinks with the sample count
    let f = |x0: f64, x1: f64, x2: f64, x3: f64| 0.5 + x0 - 2.0 * x3;
    let mut e = Legendre4d::new(1).unwrap();
    let mut state = 12345u64;
    let mut pts = Vec::new();
    for _ in 0..60000 {
        let (x0, x1, x2, x3) = (lcg(&mut state), lcg(&mut state), lcg(&mut state), lcg(&mut state));
        pts.push((x0, x1, x2, x3, f(x0, x1, x2, x3)));
    }
    fit(&mut e, &pts, None);
    for x in [(0.0, 0.0, 0.0, 0.0), (0.5, -0.5, 0.25, -0.75), (-0.9, 0.1, 0.8, 0.4)] {
        let got = eval(&e, x);
        let want = f(x.0, x.1, x.2, x.3);
        assert!((got - want).abs() < 0.05, "{:?}: {} vs {}", x, got, want);
    }
}

#[test]
fn all_zero_coefficients_evaluate_to_zero() {
    let mut e = Legendre4d::new(3).unwrap();
    let count = Legendre4d::num_polys(3);
    e.set_coefficients(vec![0.0f64.to_bits(); count]);
    for x in [
        (0.0, 0.0, 0.0, 0.0),
        (1.0, 1.0, 1.0, 1.0),
        (-0.3, 0.9, 2.5, -4.0),
    ] {
        assert_eq!(eval(&e, x), 0.0);
    }
}

#[test]
fn empty_input_is_an_error() {
    let mut e = Legendre4d::new(1).unwrap();
    let before = e.coefficients.clone();
    let count = Legendre4d::num_polys(1);
    assert_eq!(
        e.fit(0, vec![0u64; count]),
        Err(LegendreError::EmptyInput)
    );
    assert_eq!(e.coefficients, before);
    assert_eq!(e.fit(3, vec![0u64; count]), Ok(()));
    assert_eq!(
        LegendreError::EmptyInput.describe(),
        "cannot fit from an empty sample collection"
    );
}

#[test]
fn sparsified_fit_still_evaluates() {
    // pruning coefficients that a fit left at zero does not change values
    let mut e = Legendre4d::new(2).unwrap();
    let (pts, wts) = gauss_samples(|x0, _, _, _| x0);
    fit(&mut e, &pts, Some(&wts));
    let before = eval(&e, (0.3, 0.0, 0.0, 0.0));
    e.make_sparse(1);
    let after = eval(&e, (0.3, 0.0, 0.0, 0.0));
    assert!((before - after).abs() < 1e-9);
    let survivors = e
        .coefficients
        .iter()
        .filter(|b| f64::from_bits(**b) != 0.0)
        .count();
    assert_eq!(survivors, 1);
}
