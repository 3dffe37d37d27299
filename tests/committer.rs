use whir::committer::{Committer, WhirConfig};
use whir::field::Fp;
use whir::poly::CoefficientList;

fn f(x: u64) -> Fp {
    Fp::from_u64(x)
}

fn fs(xs: &[u64]) -> Vec<Fp> {
    xs.iter().map(|&x| Fp::from_u64(x)).collect()
}

fn config() -> WhirConfig {
    WhirConfig {
        domain_size: 16,
        folding_factor: 2,
        committment_ood_samples: 2,
        num_variables: 2,
    }
}

#[test]
fn expansion_factor() {
    let c = Committer::new(config());
    let poly = CoefficientList::new(fs(&[1, 2, 3, 4]));
    assert_eq!(c.expansion(&poly), 4);
    assert_eq!(c.fold_size(), 4);
}

#[test]
fn leaves_group_the_folded_table() {
    let c = Committer::new(config());
    let folded: Vec<Fp> = (0..16u64).map(f).collect();
    let leaves = c.leaves(&folded);
    assert_eq!(leaves.len(), 16 / 4);
    for (j, leaf) in leaves.iter().enumerate() {
        assert_eq!(leaf, &folded[j * 4..(j + 1) * 4].to_vec());
    }
    let ragged: Vec<Fp> = (0..6u64).map(f).collect();
    let short = c.leaves(&ragged);
    assert_eq!(short, vec![fs(&[0, 1, 2, 3])]);
    assert_eq!(c.leaves(&vec![]).len(), 0);
}

#[test]
fn out_of_domain_answers() {
    let c = Committer::new(config());
    let poly = CoefficientList::new(fs(&[1, 2, 3, 4]));
    // at point x the answer is 1 + 2x + 3x^2 + 4x^3
    let answers = c.ood_answers(&poly, &fs(&[2, 0, 1]));
    assert_eq!(answers, fs(&[49, 1, 10]));
}

#[test]
fn commit_is_deterministic() {
    let c = Committer::new(config());
    let poly = CoefficientList::new(fs(&[1, 2, 3, 4]));
    let folded: Vec<Fp> = (0..16u64).map(|i| f(i * i)).collect();
    let points = fs(&[2, 3]);
    let w1 = c.commit(poly.clone(), folded.clone(), points.clone());
    let w2 = c.commit(poly.clone(), folded.clone(), points.clone());
    assert_eq!(w1.ood_answers, w2.ood_answers);
    assert_eq!(w1.ood_answers, fs(&[49, 1 + 6 + 27 + 108]));
    assert_eq!(w1.merkle_leaves, folded);
    assert_eq!(w1.ood_points, points);
    assert_eq!(w1.polynomial.coeffs(), poly.coeffs());
    assert_eq!(c.leaves(&w1.merkle_leaves), c.leaves(&w2.merkle_leaves));
}
