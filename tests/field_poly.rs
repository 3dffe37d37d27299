use whir::field::{Fp, MODULUS};
use whir::poly::{eq_poly_outside, pow2_usize, CoefficientList, EvaluationsList, MultilinearPoint};

fn f(x: u64) -> Fp {
    Fp::from_u64(x)
}

fn fs(xs: &[u64]) -> Vec<Fp> {
    xs.iter().map(|&x| Fp::from_u64(x)).collect()
}

#[test]
fn field_arithmetic() {
    assert_eq!(f(3).add(&f(4)), f(7));
    assert_eq!(f(3).mul(&f(4)), f(12));
    assert_eq!(f(10).sub(&f(4)), f(6));
    assert_eq!(f(MODULUS - 1).add(&f(1)), Fp::zero());
    assert_eq!(f(0).sub(&f(1)), f(MODULUS - 1));
    assert_eq!(f(MODULUS), Fp::zero());
    assert_eq!(f(MODULUS + 5).value(), 5);
    assert_eq!(f(MODULUS - 1).mul(&f(MODULUS - 1)), Fp::one());
    assert_ne!(f(1), f(2));
}

#[test]
fn lists_count_their_variables() {
    let e = EvaluationsList::new(fs(&[1, 2, 3, 4, 5, 6, 7, 8]));
    assert_eq!(e.num_variables(), 3);
    let c = CoefficientList::new(fs(&[1]));
    assert_eq!(c.num_variables(), 0);
    assert_eq!(c.num_coeffs(), 1);
    assert_eq!(EvaluationsList::zeros(2).evals(), &fs(&[0, 0, 0, 0]));
    assert_eq!(pow2_usize(10), 1024);
}

#[test]
fn coefficient_evaluation() {
    let poly = CoefficientList::new(fs(&[1, 2, 3, 4]));
    assert_eq!(poly.evaluate(&MultilinearPoint(fs(&[1, 1]))), f(10));
    // 1 + 2 x1 + 3 x0 + 4 x0 x1 at (2, 3)
    assert_eq!(poly.evaluate(&MultilinearPoint(fs(&[2, 3]))), f(37));
    assert_eq!(poly.evaluate(&MultilinearPoint(fs(&[0, 0]))), f(1));
}

#[test]
fn evaluation_form_extension() {
    // the same polynomial as above, on the corners 00, 01, 10, 11
    let evals = EvaluationsList::new(fs(&[1, 3, 4, 10]));
    assert_eq!(evals.eval_extension(&MultilinearPoint(fs(&[2, 3]))), f(37));
    assert_eq!(evals.eval_extension(&MultilinearPoint(fs(&[1, 0]))), f(4));
}

#[test]
fn lagrange_basis_values() {
    let p = MultilinearPoint(fs(&[2, 3]));
    // corner 0b01: (1 - 2) * 3
    assert_eq!(p.eq_poly(1), f(0).sub(&f(3)));
    // corner 0b10: 2 * (1 - 3)
    assert_eq!(p.eq_poly(2), f(0).sub(&f(4)));
    assert_eq!(p.eq_poly(3), f(6));
    assert_eq!(p.eq_poly(0), f(2));
    let corner = MultilinearPoint(fs(&[1, 0]));
    assert_eq!(corner.eq_poly(2), f(1));
    assert_eq!(corner.eq_poly(3), f(0));
}

#[test]
fn equality_polynomial_of_two_points() {
    let a = MultilinearPoint(fs(&[2, 3]));
    let b = MultilinearPoint(fs(&[5, 7]));
    // (10 + 4) * (21 + 12)
    assert_eq!(eq_poly_outside(&a, &b), f(462));
    let empty = MultilinearPoint(vec![]);
    assert_eq!(eq_poly_outside(&empty, &empty), f(1));
}

#[test]
fn univariate_expansion() {
    let p = MultilinearPoint::expand_from_univariate(f(3), 3);
    assert_eq!(p.0, fs(&[81, 9, 3]));
    assert_eq!(p.num_variables(), 3);
    assert_eq!(MultilinearPoint::expand_from_univariate(f(3), 0).0, fs(&[]));
}

#[test]
fn lagrange_basis_enumerates_corners() {
    let p = MultilinearPoint(fs(&[2, 3]));
    let basis = p.lagrange_basis();
    assert_eq!(basis.len(), 4);
    for (c, (corner, value)) in basis.iter().enumerate() {
        assert_eq!(*corner, c);
        assert_eq!(*value, p.eq_poly(c));
    }
    assert_eq!(basis[3].1, f(6));
    let empty = MultilinearPoint(vec![]);
    assert_eq!(empty.lagrange_basis(), vec![(0usize, f(1))]);
}

#[test]
fn corners_and_evaluation_form() {
    assert_eq!(MultilinearPoint::corner(6, 3).0, fs(&[1, 1, 0]));
    assert_eq!(MultilinearPoint::corner(1, 3).0, fs(&[0, 0, 1]));
    let poly = CoefficientList::new(fs(&[5, 1, 2, 0, 3, 0, 0, 7]));
    let evals = poly.to_evaluations();
    assert_eq!(evals.num_variables(), 3);
    // f = 5 + x2 + 2 x1 + 3 x0 + 7 x0 x1 x2
    assert_eq!(evals.evals(), &fs(&[5, 6, 7, 8, 8, 9, 10, 18]));
    let x = MultilinearPoint(fs(&[4, 9, 2]));
    assert_eq!(evals.eval_extension(&x), poly.evaluate(&x));
}
