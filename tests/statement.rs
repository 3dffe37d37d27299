use whir::field::Fp;
use whir::poly::{CoefficientList, EvaluationsList, MultilinearPoint};
use whir::statement::{Statement, StatementVerifier, Weights};

fn f(x: u64) -> Fp {
    Fp::from_u64(x)
}

fn fs(xs: &[u64]) -> Vec<Fp> {
    xs.iter().map(|&x| Fp::from_u64(x)).collect()
}

fn dot(a: &[Fp], b: &[Fp]) -> Fp {
    let mut s = Fp::zero();
    for (x, y) in a.iter().zip(b.iter()) {
        s = s.add(&x.mul(y));
    }
    s
}

#[test]
fn weights_num_variables() {
    assert_eq!(Weights::evaluation(MultilinearPoint(fs(&[1, 2, 3]))).num_variables(), 3);
    assert_eq!(Weights::linear(EvaluationsList::new(fs(&[1, 2]))).num_variables(), 1);
    assert_eq!(Weights::linear_verifier(5, f(9)).num_variables(), 5);
}

#[test]
fn accumulate_evaluation_at_a_corner() {
    let w = Weights::evaluation(MultilinearPoint(fs(&[1, 0])));
    let mut acc = EvaluationsList::new(fs(&[1, 1, 1, 1]));
    w.accumulate(&mut acc, f(5));
    assert_eq!(acc.evals(), &fs(&[1, 1, 6, 1]));
}

#[test]
fn accumulate_linear_and_verifier() {
    let w = Weights::linear(EvaluationsList::new(fs(&[1, 2, 3, 4])));
    let mut acc = EvaluationsList::new(fs(&[10, 0, 0, 1]));
    w.accumulate(&mut acc, f(2));
    assert_eq!(acc.evals(), &fs(&[12, 4, 6, 9]));
    let v = Weights::linear_verifier(2, f(77));
    v.accumulate(&mut acc, f(3));
    assert_eq!(acc.evals(), &fs(&[12, 4, 6, 9]));
}

#[test]
fn weighted_sums() {
    let poly = EvaluationsList::new(fs(&[1, 3, 4, 10]));
    let lin = Weights::linear(EvaluationsList::new(fs(&[2, 0, 1, 5])));
    assert_eq!(lin.weighted_sum(&poly), f(2 + 4 + 50));
    let ev = Weights::evaluation(MultilinearPoint(fs(&[2, 3])));
    assert_eq!(ev.weighted_sum(&poly), f(37));
    let ver = Weights::linear_verifier(2, f(123));
    assert_eq!(ver.weighted_sum(&poly), f(123));
}

#[test]
fn compute_after_folding() {
    let r = MultilinearPoint(fs(&[5, 7]));
    let ev = Weights::evaluation(MultilinearPoint(fs(&[2, 3])));
    assert_eq!(ev.compute(&r), f(462));
    let lin = Weights::linear(EvaluationsList::new(fs(&[2, 0, 1, 5])));
    assert_eq!(lin.compute(&r), Fp::zero());
    assert_eq!(Weights::linear_verifier(2, f(8)).compute(&r), f(8));
}

#[test]
fn combine_is_the_documented_weighted_sum() {
    for n in 1..=4usize {
        let size = 1usize << n;
        let point = MultilinearPoint((0..n).map(|i| f(3 + i as u64)).collect());
        let lin_vec: Vec<Fp> = (0..size).map(|i| f(7 * i as u64 + 1)).collect();
        let mut st = Statement::new(n);
        st.add_constraint(Weights::evaluation(point.clone()), f(11));
        st.add_constraint(Weights::linear(EvaluationsList::new(lin_vec.clone())), f(13));
        st.add_constraint(Weights::linear_verifier(n, f(99)), f(17));
        let r = f(5);
        let (evals, sum) = st.combine(r);
        // naive: accumulate each claim alone, scaled by r^i, and add up
        let mut expected = vec![Fp::zero(); size];
        let mut power = Fp::one();
        let mut expected_sum = Fp::zero();
        for (w, t) in &st.constraints {
            let mut single = EvaluationsList::zeros(n);
            w.accumulate(&mut single, Fp::one());
            for c in 0..size {
                expected[c] = expected[c].add(&single.index(c).mul(&power));
            }
            expected_sum = expected_sum.add(&t.mul(&power));
            power = power.mul(&r);
        }
        assert_eq!(evals.evals(), &expected);
        assert_eq!(sum, expected_sum);
        assert_eq!(sum, f(11 + 5 * 13 + 25 * 17));
        for c in 0..size {
            let lag = point.eq_poly(c);
            assert_eq!(evals.index(c), lag.add(&f(5).mul(&lin_vec[c])));
        }
    }
}

#[test]
fn evaluation_constraint_is_met_by_the_true_value() {
    let table = fs(&[9, 1, 4, 4, 7, 2, 8, 5]);
    let poly = EvaluationsList::new(table.clone());
    let x = MultilinearPoint(fs(&[123, 456, 789]));
    let target = poly.eval_extension(&x);
    let w = Weights::evaluation(x.clone());
    assert_eq!(w.weighted_sum(&poly), target);
    let mut st = Statement::new(3);
    st.add_constraint(w, target);
    for r in [0u64, 1, 5, 1000] {
        let (evals, sum) = st.combine(f(r));
        assert_eq!(sum, target);
        assert_eq!(dot(evals.evals(), &table), target);
    }
}

#[test]
fn linear_constraint_matches_accumulation() {
    let table = fs(&[3, 1, 4, 1, 5, 9, 2, 6]);
    let weight = fs(&[2, 7, 1, 8, 2, 8, 1, 8]);
    let poly = EvaluationsList::new(table.clone());
    let w = Weights::linear(EvaluationsList::new(weight.clone()));
    let ws = w.weighted_sum(&poly);
    assert_eq!(ws, dot(&weight, &table));
    assert_eq!(ws, f(6 + 7 + 4 + 8 + 10 + 72 + 2 + 48));
    let mut acc = EvaluationsList::zeros(3);
    w.accumulate(&mut acc, Fp::one());
    assert_eq!(dot(acc.evals(), &table), ws);
}

#[test]
fn insertion_order_decides_the_powers() {
    let wa = Weights::linear_verifier(1, f(0));
    let wb = Weights::linear_verifier(1, f(0));
    let r = f(5);
    let mut ab = Statement::new(1);
    ab.add_constraint(wa.clone(), f(2));
    ab.add_constraint(wb.clone(), f(3));
    let mut ba = Statement::new(1);
    ba.add_constraint(wb.clone(), f(3));
    ba.add_constraint(wa.clone(), f(2));
    assert_eq!(ab.combine(r).1, f(2 + 15));
    assert_eq!(ba.combine(r).1, f(3 + 10));
    let mut front = Statement::new(1);
    front.add_constraint(wa.clone(), f(2));
    front.add_constraint_in_front(wb.clone(), f(3));
    assert_eq!(front.combine(r).1, ba.combine(r).1);
    let e1 = Weights::evaluation(MultilinearPoint(fs(&[0])));
    let e2 = Weights::evaluation(MultilinearPoint(fs(&[1])));
    let mut s1 = Statement::new(1);
    s1.add_constraint(e1.clone(), f(2));
    s1.add_constraint_in_front(e2.clone(), f(3));
    let mut s2 = Statement::new(1);
    s2.add_constraint(e2, f(3));
    s2.add_constraint(e1, f(2));
    assert_eq!(s1.combine(r).0.evals(), s2.combine(r).0.evals());
    assert_eq!(s1.combine(r).0.evals(), &fs(&[5, 1]));
}

#[test]
fn several_in_front_keep_their_order() {
    let mut st = Statement::new(1);
    st.add_constraint(Weights::linear_verifier(1, f(0)), f(1));
    st.add_constraints_in_front(vec![
        (Weights::linear_verifier(1, f(0)), f(2)),
        (Weights::linear_verifier(1, f(0)), f(3)),
    ]);
    let targets: Vec<Fp> = st.constraints.iter().map(|c| c.1).collect();
    assert_eq!(targets, fs(&[2, 3, 1]));
    assert_eq!(st.num_variables(), 1);
    assert_eq!(st.combine(f(10)).1, f(2 + 30 + 100));
}

#[test]
fn empty_statement_combines_to_zero() {
    let st = Statement::new(2);
    let (evals, sum) = st.combine(f(5));
    assert_eq!(evals.evals(), &fs(&[0, 0, 0, 0]));
    assert_eq!(sum, Fp::zero());
}

#[test]
fn verifier_statement_keeps_claims() {
    let mut sv = StatementVerifier::new(4);
    sv.add_constraint(Some(f(3)), f(4));
    sv.add_constraint(None, f(5));
    assert_eq!(sv.num_variables(), 4);
    assert_eq!(sv.constraints, vec![(Some(f(3)), f(4)), (None, f(5))]);
}

#[test]
fn concrete_scenario_two_variables() {
    let coeffs = CoefficientList::new(fs(&[1, 2, 3, 4]));
    let x = MultilinearPoint(fs(&[1, 1]));
    let claimed_value = coeffs.evaluate(&x);
    assert_eq!(claimed_value, f(10));
    let mut st = Statement::new(2);
    st.add_constraint(Weights::evaluation(x), claimed_value);
    let (evals, sum) = st.combine(f(5));
    assert_eq!(sum, claimed_value);
    let evaluation_form = coeffs.to_evaluations();
    // the polynomial on the corners 00, 01, 10, 11
    assert_eq!(evaluation_form.evals(), &fs(&[1, 3, 4, 10]));
    assert_eq!(dot(evals.evals(), evaluation_form.evals()), claimed_value);
}
