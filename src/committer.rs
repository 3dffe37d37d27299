//! The computing half of committing to a polynomial: the expansion factor, the
//! grouping of folded evaluations into Merkle leaves, and the answers at the
//! out-of-domain points. Hashing the leaves and talking to the transcript is
//! left to the caller, which hands the results back in.
use crate::field::{reduce, vals, Fp};
use crate::poly::{coeff_eval, pow2_usize, univariate_point, CoefficientList, MultilinearPoint};
use vstd::arithmetic::div_mod::lemma_fundamental_div_mod_converse;
use vstd::arithmetic::power2::pow2;
use vstd::prelude::*;

verus! {

/// The parts of the protocol's configuration that committing reads.
#[derive(Clone, Copy, Debug)]
pub struct WhirConfig {
    /// Size of the starting evaluation domain.
    pub domain_size: usize,
    /// Folding factor of the first round.
    pub folding_factor: usize,
    /// How many out-of-domain samples bind the commitment.
    pub committment_ood_samples: usize,
    /// Number of variables of the committed polynomial.
    pub num_variables: usize,
}

/// What the prover keeps of a commitment, but for the Merkle tree itself.
#[derive(Clone, Debug)]
pub struct Witness {
    pub polynomial: CoefficientList,
    pub merkle_leaves: Vec<Fp>,
    pub ood_points: Vec<Fp>,
    pub ood_answers: Vec<Fp>,
}

/// The polynomial's answer at each out-of-domain point, expanded to a
/// multilinear point of `n` coordinates.
pub open spec fn ood_answers_spec(coeffs: Seq<Fp>, points: Seq<Fp>, n: nat) -> Seq<int> {
    Seq::new(
        points.len(),
        |i: int| reduce(coeff_eval(vals(coeffs), univariate_point(points[i].val(), n))),
    )
}

/// The leaves of a folded table: consecutive chunks of `size` values, a
/// remainder shorter than `size` left out.
pub open spec fn is_leaf_grouping(leaves: Seq<Vec<Fp>>, folded: Seq<Fp>, size: nat) -> bool {
    &&& leaves.len() == folded.len() / size
    &&& forall|j: int|
        0 <= j < leaves.len() ==> #[trigger] leaves[j]@ == folded.subrange(
            j * size,
            j * size + size,
        )
}

pub struct Committer(pub WhirConfig);

impl Committer {
    /// The witness that committing `polynomial` with `folded` as its folded
    /// table and `points` as its out-of-domain points yields.
    pub open spec fn commit_result(
        &self,
        polynomial: CoefficientList,
        folded: Seq<Fp>,
        points: Seq<Fp>,
        w: Witness,
    ) -> bool {
        &&& w.polynomial@ == polynomial@
        &&& w.polynomial.nv() == polynomial.nv()
        &&& w.merkle_leaves@ == folded
        &&& w.ood_points@ == points
        &&& vals(w.ood_answers@) == ood_answers_spec(polynomial@, points, self.0.num_variables as nat)
    }

    pub fn new(config: WhirConfig) -> (r: Committer)
        ensures
            r.0 == config,
    {
        Committer(config)
    }

    /// How many times larger the starting domain is than the coefficient table.
    pub fn expansion(&self, polynomial: &CoefficientList) -> (r: usize)
        requires
            polynomial@.len() > 0,
            (self.0.domain_size as int) % (polynomial@.len() as int) == 0,
        ensures
            r * polynomial@.len() == self.0.domain_size,
    {
        let n = polynomial.num_coeffs();
        let r = self.0.domain_size / n;
        proof {
            vstd::arithmetic::div_mod::lemma_fundamental_div_mod(self.0.domain_size as int, n as int);
            assert((r as int) * (n as int) == (n as int) * (r as int)) by (nonlinear_arith);
        }
        r
    }

    /// The number of folded values per leaf, `2^folding_factor`.
    pub fn fold_size(&self) -> (r: usize)
        requires
            pow2(self.0.folding_factor as nat) <= usize::MAX,
        ensures
            r == pow2(self.0.folding_factor as nat),
    {
        pow2_usize(self.0.folding_factor)
    }

    /// Groups the folded table into leaves of `2^folding_factor` values each,
    /// in order.
    pub fn leaves(&self, folded_evals: &Vec<Fp>) -> (r: Vec<Vec<Fp>>)
        requires
            pow2(self.0.folding_factor as nat) <= usize::MAX,
        ensures
            is_leaf_grouping(r@, folded_evals@, pow2(self.0.folding_factor as nat)),
    {
        let size = self.fold_size();
        proof {
            vstd::arithmetic::power2::lemma_pow2_pos(self.0.folding_factor as nat);
        }
        let n = folded_evals.len();
        let mut leaves: Vec<Vec<Fp>> = Vec::new();
        let mut start: usize = 0;
        assert(0 * size == 0) by (nonlinear_arith);
        while n - start >= size
            invariant
                size > 0,
                n == folded_evals@.len(),
                start <= n,
                start == leaves@.len() * size,
                forall|j: int|
                    0 <= j < leaves@.len() ==> #[trigger] leaves@[j]@ == folded_evals@.subrange(
                        j * size,
                        j * size + size,
                    ),
            decreases n - start,
        {
            let leaf = copy_range(folded_evals, start, start + size);
            proof {
                let l = leaves@.len() as int;
                assert((l + 1) * size == l * size + size) by (nonlinear_arith);
            }
            leaves.push(leaf);
            start = start + size;
        }
        proof {
            lemma_fundamental_div_mod_converse(
                n as int,
                size as int,
                leaves@.len() as int,
                (n - start) as int,
            );
        }
        leaves
    }

    /// The polynomial's answers at the out-of-domain points.
    pub fn ood_answers(&self, polynomial: &CoefficientList, ood_points: &Vec<Fp>) -> (r: Vec<Fp>)
        requires
            polynomial.wf(),
            polynomial.nv() == self.0.num_variables,
        ensures
            vals(r@) == ood_answers_spec(polynomial@, ood_points@, self.0.num_variables as nat),
    {
        let mut answers: Vec<Fp> = Vec::new();
        let n = ood_points.len();
        while answers.len() < n
            invariant
                n == ood_points@.len(),
                answers.len() <= n,
                polynomial.wf(),
                polynomial.nv() == self.0.num_variables,
                forall|i: int|
                    0 <= i < answers.len() ==> #[trigger] answers@[i].val()
                        == ood_answers_spec(polynomial@, ood_points@, self.0.num_variables as nat)[i],
            decreases n - answers.len(),
        {
            let i = answers.len();
            let point = MultilinearPoint::expand_from_univariate(ood_points[i], self.0.num_variables);
            let a = polynomial.evaluate(&point);
            answers.push(a);
        }
        proof {
            assert(vals(answers@) =~= ood_answers_spec(polynomial@, ood_points@, self.0.num_variables as nat));
        }
        answers
    }

    /// Assembles the witness of a commitment: the polynomial, its folded table
    /// (the flat contents of the leaves), and the out-of-domain points with the
    /// polynomial's answers at them.
    pub fn commit(&self, polynomial: CoefficientList, folded_evals: Vec<Fp>, ood_points: Vec<Fp>) -> (r: Witness)
        requires
            polynomial.wf(),
            polynomial.nv() == self.0.num_variables,
            ood_points@.len() == self.0.committment_ood_samples,
        ensures
            self.commit_result(polynomial, folded_evals@, ood_points@, r),
    {
        let ood_answers = self.ood_answers(&polynomial, &ood_points);
        Witness { polynomial, merkle_leaves: folded_evals, ood_points, ood_answers }
    }
}

/// Committing is deterministic: any two witnesses that committing the same
/// polynomial with the same folded table and out-of-domain points may yield
/// agree, and so do any two leaf groupings of the same folded table.
pub proof fn lemma_commit_deterministic(
    committer: Committer,
    polynomial: CoefficientList,
    folded: Seq<Fp>,
    points: Seq<Fp>,
    w1: Witness,
    w2: Witness,
    leaves1: Seq<Vec<Fp>>,
    leaves2: Seq<Vec<Fp>>,
    size: nat,
)
    requires
        committer.commit_result(polynomial, folded, points, w1),
        committer.commit_result(polynomial, folded, points, w2),
        is_leaf_grouping(leaves1, folded, size),
        is_leaf_grouping(leaves2, folded, size),
    ensures
        w1.polynomial@ == w2.polynomial@,
        w1.merkle_leaves@ == w2.merkle_leaves@,
        w1.ood_points@ == w2.ood_points@,
        vals(w1.ood_answers@) == vals(w2.ood_answers@),
        leaves1.len() == leaves2.len(),
        forall|j: int| 0 <= j < leaves1.len() ==> #[trigger] leaves1[j]@ == leaves2[j]@,
{
}

/// The values `lo .. hi` of `v`, copied.
fn copy_range(v: &Vec<Fp>, lo: usize, hi: usize) -> (r: Vec<Fp>)
    requires
        lo <= hi <= v@.len(),
    ensures
        r@ == v@.subrange(lo as int, hi as int),
{
    let mut out: Vec<Fp> = Vec::new();
    let mut i: usize = lo;
    while i < hi
        invariant
            lo <= i <= hi,
            hi <= v@.len(),
            out@ == v@.subrange(lo as int, i as int),
        decreases hi - i,
    {
        out.push(v[i]);
        proof {
            assert(out@ =~= v@.subrange(lo as int, i + 1));
        }
        i = i + 1;
    }
    out
}

} // verus!
