//! Constraints on a multilinear polynomial and their batching by a random
//! linear combination.
use crate::field::{
    lemma_from_reduced, lemma_reduce_add, lemma_reduce_fma, lemma_reduce_mul, lemma_reduce_step,
    lemma_reduce_twice,
    reduce, vals, Fp,
};
use crate::poly::{
    eq_outside, eq_poly_outside, lag, mle_eval, mle_sum, EvaluationsList, MultilinearPoint,
};
use vstd::arithmetic::power::pow;
use vstd::arithmetic::power2::pow2;
use vstd::prelude::*;

verus! {

/// `sum_{c < k} a[c] * b[c]`.
pub open spec fn dot(a: Seq<int>, b: Seq<int>, k: nat) -> int
    decreases k,
{
    if k == 0 {
        0
    } else {
        dot(a, b, (k - 1) as nat) + a[k - 1] * b[k - 1]
    }
}

/// The shape of one constraint.
#[derive(Clone, Debug)]
pub enum Weights {
    /// The polynomial's value at `point`.
    Evaluation { point: MultilinearPoint },
    /// The inner product of the polynomial's evaluation table with `weight`.
    Linear { weight: EvaluationsList },
    /// The verifier's stand-in: only the scalar `term`, no vector.
    LinearVerifier { num_variables: usize, term: Fp },
}

impl Weights {
    /// The dimension this weight expects.
    pub open spec fn nv(&self) -> nat {
        match self {
            Weights::Evaluation { point } => point.0@.len(),
            Weights::Linear { weight } => weight.nv(),
            Weights::LinearVerifier { num_variables, .. } => *num_variables as nat,
        }
    }

    /// An explicit weight vector has one entry per corner.
    pub open spec fn wf(&self) -> bool {
        match self {
            Weights::Linear { weight } => weight.wf(),
            _ => true,
        }
    }

    /// The entry of this weight's evaluation-space vector at corner `c`.
    pub open spec fn weight_at(&self, c: nat) -> int {
        match self {
            Weights::Evaluation { point } => lag(vals(point.0@), c),
            Weights::Linear { weight } => weight@[c as int].val(),
            Weights::LinearVerifier { .. } => 0,
        }
    }

    /// `sum_{c < k} weight_at(c) * poly[c]`.
    pub open spec fn dot_prefix(&self, poly: Seq<int>, k: nat) -> int
        decreases k,
    {
        if k == 0 {
            0
        } else {
            self.dot_prefix(poly, (k - 1) as nat) + self.weight_at((k - 1) as nat) * poly[k - 1]
        }
    }

    /// The functional applied to an evaluation table.
    pub open spec fn weighted_sum_spec(&self, poly: Seq<int>) -> int {
        match self {
            Weights::LinearVerifier { term, .. } => term.val(),
            _ => self.dot_prefix(poly, poly.len()),
        }
    }

    /// The contribution after folding with `randomness`.
    pub open spec fn compute_spec(&self, randomness: Seq<int>) -> int {
        match self {
            Weights::Evaluation { point } => eq_outside(vals(point.0@), randomness),
            Weights::Linear { .. } => 0,
            Weights::LinearVerifier { term, .. } => term.val(),
        }
    }

    pub fn evaluation(point: MultilinearPoint) -> (r: Weights)
        ensures
            r == (Weights::Evaluation { point }),
    {
        Weights::Evaluation { point }
    }

    pub fn linear(weight: EvaluationsList) -> (r: Weights)
        ensures
            r == (Weights::Linear { weight }),
    {
        Weights::Linear { weight }
    }

    pub fn linear_verifier(num_variables: usize, term: Fp) -> (r: Weights)
        ensures
            r == (Weights::LinearVerifier { num_variables, term }),
    {
        Weights::LinearVerifier { num_variables, term }
    }

    pub fn num_variables(&self) -> (r: usize)
        ensures
            r == self.nv(),
    {
        match self {
            Weights::Evaluation { point } => point.num_variables(),
            Weights::Linear { weight } => weight.num_variables(),
            Weights::LinearVerifier { num_variables, .. } => *num_variables,
        }
    }

    /// Adds `factor` times this weight's evaluation-space vector to
    /// `accumulator`, corner by corner.
    pub fn accumulate(&self, accumulator: &mut EvaluationsList, factor: Fp)
        requires
            self.wf(),
            old(accumulator).wf(),
            self.nv() == old(accumulator).nv(),
        ensures
            final(accumulator).nv() == old(accumulator).nv(),
            final(accumulator)@.len() == old(accumulator)@.len(),
            forall|c: int|
                0 <= c < old(accumulator)@.len() ==> #[trigger] final(accumulator)@[c].val()
                    == reduce(old(accumulator)@[c].val() + factor.val() * self.weight_at(c as nat)),
    {
        let n = accumulator.num_evals();
        match self {
            Weights::LinearVerifier { .. } => {
                assert forall|c: int| 0 <= c < n implies #[trigger] accumulator@[c].val() == reduce(
                    accumulator@[c].val() + factor.val() * self.weight_at(c as nat),
                ) by {
                    lemma_from_reduced(accumulator@[c]);
                }
                return ;
            },
            _ => {},
        }
        let basis = match self {
            Weights::Evaluation { point } => point.lagrange_basis(),
            _ => Vec::new(),
        };
        assert forall|j: int| 0 <= j < basis@.len() implies #[trigger] basis@[j].1.val() == reduce(
            self.weight_at(j as nat),
        ) by {
            assert(basis@[j].0 == j);
        }
        let mut c: usize = 0;
        while c < n
            invariant
                self is Evaluation ==> basis@.len() == n,
                forall|j: int|
                    0 <= j < basis@.len() ==> #[trigger] basis@[j].1.val() == reduce(
                        self.weight_at(j as nat),
                    ),
                c <= n,
                n == old(accumulator)@.len(),
                accumulator@.len() == n,
                accumulator.nv() == old(accumulator).nv(),
                self.wf(),
                old(accumulator).wf(),
                self.nv() == old(accumulator).nv(),
                !(self is LinearVerifier),
                forall|j: int|
                    0 <= j < c ==> #[trigger] accumulator@[j].val() == reduce(
                        old(accumulator)@[j].val() + factor.val() * self.weight_at(j as nat),
                    ),
                forall|j: int| c <= j < n ==> #[trigger] accumulator@[j] == old(accumulator)@[j],
            decreases n - c,
        {
            let w = match self {
                Weights::Evaluation { .. } => basis[c].1,
                Weights::Linear { weight } => weight.index(c),
                Weights::LinearVerifier { .. } => Fp::zero(),
            };
            let old_v = accumulator.index(c);
            let t = factor.mul(&w);
            let new_v = old_v.add(&t);
            proof {
                let wv = self.weight_at(c as nat);
                lemma_from_reduced(factor);
                lemma_from_reduced(old_v);
                assert(w.val() == reduce(wv)) by {
                    if self is Linear {
                        lemma_from_reduced(w);
                    }
                }
                lemma_reduce_mul(factor.val(), wv);
                lemma_reduce_add(old_v.val(), factor.val() * wv);
            }
            accumulator.set(c, new_v);
            c = c + 1;
        }
    }

    /// The functional applied directly to an evaluation table: the inner
    /// product for an explicit weight, the multilinear extension at the point
    /// for an evaluation, the stored scalar for the verifier's stand-in.
    pub fn weighted_sum(&self, poly: &EvaluationsList) -> (r: Fp)
        requires
            self.wf(),
            self is Linear ==> self.nv() == poly.nv(),
            poly.wf(),
        ensures
            r.val() == reduce(self.weighted_sum_spec(vals(poly@))),
    {
        match self {
            Weights::Linear { weight } => {
                let n = poly.num_evals();
                let mut sum = Fp::zero();
                let mut c: usize = 0;
                proof {
                    lemma_from_reduced(sum);
                }
                while c < n
                    invariant
                        c <= n,
                        n == poly@.len(),
                        weight@.len() == n,
                        *self == (Weights::Linear { weight: *weight }),
                        sum.val() == reduce(self.dot_prefix(vals(poly@), c as nat)),
                    decreases n - c,
                {
                    let w = weight.index(c);
                    let e = poly.index(c);
                    let t = w.mul(&e);
                    proof {
                        lemma_from_reduced(t);
                        lemma_reduce_add(self.dot_prefix(vals(poly@), c as nat), t.val());
                        lemma_reduce_twice(self.dot_prefix(vals(poly@), c as nat));
                    }
                    sum = sum.add(&t);
                    c = c + 1;
                }
                sum
            },
            Weights::LinearVerifier { term, .. } => {
                proof {
                    lemma_from_reduced(*term);
                }
                *term
            },
            Weights::Evaluation { point } => {
                let r = poly.eval_extension(point);
                proof {
                    lemma_mle_is_dot(self, vals(poly@), poly@.len() as nat);
                }
                r
            },
        }
    }

    /// This weight's contribution to a running claim after folding with
    /// `folding_randomness`.
    pub fn compute(&self, folding_randomness: &MultilinearPoint) -> (r: Fp)
        requires
            self is Evaluation ==> self.nv() == folding_randomness.0@.len(),
        ensures
            r.val() == reduce(self.compute_spec(vals(folding_randomness.0@))),
    {
        match self {
            Weights::Evaluation { point } => eq_poly_outside(point, folding_randomness),
            Weights::LinearVerifier { term, .. } => {
                proof {
                    lemma_from_reduced(*term);
                }
                *term
            },
            Weights::Linear { .. } => {
                let r = Fp::zero();
                proof {
                    lemma_from_reduced(r);
                }
                r
            },
        }
    }
}

/// `sum_i r^i * weights_i(c)` over the constraints in order.
pub open spec fn combined_weight(cs: Seq<(Weights, Fp)>, r: int, c: nat) -> int
    decreases cs.len(),
{
    if cs.len() == 0 {
        0
    } else {
        combined_weight(cs.drop_last(), r, c) + pow(r, (cs.len() - 1) as nat) * cs.last().0.weight_at(c)
    }
}

/// `sum_i r^i * target_i` over the constraints in order.
pub open spec fn combined_target(cs: Seq<(Weights, Fp)>, r: int) -> int
    decreases cs.len(),
{
    if cs.len() == 0 {
        0
    } else {
        combined_target(cs.drop_last(), r) + pow(r, (cs.len() - 1) as nat) * cs.last().1.val()
    }
}

/// Every constraint has a well-formed weight of dimension `n`.
pub open spec fn constraints_fit(cs: Seq<(Weights, Fp)>, n: nat) -> bool {
    forall|i: int| 0 <= i < cs.len() ==> #[trigger] cs[i].0.wf() && cs[i].0.nv() == n
}

/// An ordered list of claims `(weights, target)` on one polynomial.
#[derive(Clone, Debug)]
pub struct Statement {
    pub num_variables: usize,
    pub constraints: Vec<(Weights, Fp)>,
}

impl Statement {
    /// The dimension of the polynomial the claims are about.
    pub open spec fn nv(&self) -> nat {
        self.num_variables as nat
    }

    pub open spec fn wf(&self) -> bool {
        constraints_fit(self.constraints@, self.nv())
    }

    pub fn new(num_variables: usize) -> (r: Statement)
        ensures
            r.nv() == num_variables,
            r.constraints@ == Seq::<(Weights, Fp)>::empty(),
            r.wf(),
    {
        Statement { num_variables, constraints: Vec::new() }
    }

    pub fn num_variables(&self) -> (r: usize)
        ensures
            r == self.nv(),
    {
        self.num_variables
    }

    /// Appends a claim.
    pub fn add_constraint(&mut self, weights: Weights, sum: Fp)
        requires
            weights.nv() == old(self).nv(),
        ensures
            final(self).nv() == old(self).nv(),
            final(self).constraints@ == old(self).constraints@.push((weights, sum)),
            old(self).wf() && weights.wf() ==> final(self).wf(),
    {
        self.constraints.push((weights, sum));
    }

    /// Puts a claim ahead of all others.
    pub fn add_constraint_in_front(&mut self, weights: Weights, sum: Fp)
        requires
            weights.nv() == old(self).nv(),
        ensures
            final(self).nv() == old(self).nv(),
            final(self).constraints@ == seq![(weights, sum)] + old(self).constraints@,
            old(self).wf() && weights.wf() ==> final(self).wf(),
    {
        self.constraints.insert(0, (weights, sum));
        proof {
            assert(self.constraints@ =~= seq![(weights, sum)] + old(self).constraints@);
        }
    }

    /// Puts several claims, in their order, ahead of all others.
    pub fn add_constraints_in_front(&mut self, constraints: Vec<(Weights, Fp)>)
        requires
            forall|i: int|
                0 <= i < constraints@.len() ==> #[trigger] constraints@[i].0.nv() == old(self).nv(),
        ensures
            final(self).nv() == old(self).nv(),
            final(self).constraints@ == constraints@ + old(self).constraints@,
            old(self).wf() && constraints_fit(constraints@, old(self).nv()) ==> final(self).wf(),
    {
        let mut front = constraints;
        front.append(&mut self.constraints);
        self.constraints = front;
    }

    /// Batches all claims with the powers of `challenge`: claim `i` is scaled
    /// by `challenge^i`. Returns the combined evaluation-space vector and the
    /// combined target.
    pub fn combine(&self, challenge: Fp) -> (r: (EvaluationsList, Fp))
        requires
            self.wf(),
            pow2(self.nv()) <= usize::MAX,
        ensures
            r.0.wf(),
            r.0.nv() == self.nv(),
            forall|c: int|
                0 <= c < r.0@.len() ==> #[trigger] r.0@[c].val() == reduce(
                    combined_weight(self.constraints@, challenge.val(), c as nat),
                ),
            r.1.val() == reduce(combined_target(self.constraints@, challenge.val())),
    {
        let ghost cs = self.constraints@;
        let ghost x = challenge.val();
        let mut combined_evals = EvaluationsList::zeros(self.num_variables);
        let mut combined_sum = Fp::zero();
        let mut challenge_power = Fp::one();
        proof {
            lemma_from_reduced(combined_sum);
            lemma_from_reduced(challenge_power);
            vstd::arithmetic::power::lemma_pow0(x);
            assert forall|c: int| 0 <= c < combined_evals@.len() implies #[trigger] combined_evals@[c].val()
                == reduce(combined_weight(cs.take(0), x, c as nat)) by {
                lemma_from_reduced(combined_evals@[c]);
            }
        }
        let k = self.constraints.len();
        let mut i: usize = 0;
        while i < k
            invariant
                i <= k,
                k == cs.len(),
                cs == self.constraints@,
                x == challenge.val(),
                self.wf(),
                combined_evals.wf(),
                combined_evals.nv() == self.nv(),
                forall|c: int|
                    0 <= c < combined_evals@.len() ==> #[trigger] combined_evals@[c].val()
                        == reduce(combined_weight(cs.take(i as int), x, c as nat)),
                combined_sum.val() == reduce(combined_target(cs.take(i as int), x)),
                challenge_power.val() == reduce(pow(x, i as nat)),
            decreases k - i,
        {
            let pair = &self.constraints[i];
            let ghost before = combined_evals@;
            assert(cs[i as int].0.wf() && cs[i as int].0.nv() == self.nv());
            pair.0.accumulate(&mut combined_evals, challenge_power);
            let t = pair.1.mul(&challenge_power);
            combined_sum = combined_sum.add(&t);
            proof {
                let next = cs.take(i + 1);
                assert(next.drop_last() =~= cs.take(i as int));
                assert(next.last() == cs[i as int]);
                let p = pow(x, i as nat);
                assert forall|c: int| 0 <= c < combined_evals@.len() implies #[trigger] combined_evals@[c].val()
                    == reduce(combined_weight(next, x, c as nat)) by {
                    let w = cs[i as int].0.weight_at(c as nat);
                    let prev = combined_weight(cs.take(i as int), x, c as nat);
                    lemma_reduce_fma(prev, p, w);
                    assert(combined_weight(next, x, c as nat) == prev + p * w);
                    assert(before[c].val() == reduce(prev));
                }
                let tv = cs[i as int].1.val();
                let prev_t = combined_target(cs.take(i as int), x);
                lemma_from_reduced(pair.1);
                lemma_reduce_mul(tv, p);
                lemma_reduce_add(prev_t, tv * p);
                lemma_reduce_twice(prev_t);
                lemma_reduce_twice(tv * p);
                assert(combined_target(next, x) == prev_t + p * tv);
                assert(tv * p == p * tv) by (nonlinear_arith);
                lemma_from_reduced(challenge);
                lemma_reduce_mul(p, x);
                reveal(pow);
                assert(pow(x, (i + 1) as nat) == x * p);
                assert(x * p == p * x) by (nonlinear_arith);
            }
            challenge_power = challenge_power.mul(&challenge);
            i = i + 1;
        }
        proof {
            assert(cs.take(k as int) =~= cs);
        }
        (combined_evals, combined_sum)
    }
}

/// The verifier's mirror of a statement: per claim, the scalar it computed
/// itself (if any) and the target.
#[derive(Clone, Debug)]
pub struct StatementVerifier {
    pub num_variables: usize,
    pub constraints: Vec<(Option<Fp>, Fp)>,
}

impl StatementVerifier {
    /// The dimension of the polynomial the claims are about.
    pub open spec fn nv(&self) -> nat {
        self.num_variables as nat
    }

    pub fn new(num_variables: usize) -> (r: StatementVerifier)
        ensures
            r.nv() == num_variables,
            r.constraints@ == Seq::<(Option<Fp>, Fp)>::empty(),
    {
        StatementVerifier { num_variables, constraints: Vec::new() }
    }

    pub fn num_variables(&self) -> (r: usize)
        ensures
            r == self.nv(),
    {
        self.num_variables
    }

    /// Appends a claim.
    pub fn add_constraint(&mut self, term: Option<Fp>, sum: Fp)
        ensures
            final(self).nv() == old(self).nv(),
            final(self).constraints@ == old(self).constraints@.push((term, sum)),
    {
        self.constraints.push((term, sum));
    }
}

/// The combined vector of `cs` on a table of `n` corners, as `combine`
/// returns it.
pub open spec fn combined_vector(cs: Seq<(Weights, Fp)>, r: int, n: nat) -> Seq<int> {
    Seq::new(n, |c: int| reduce(combined_weight(cs, r, c as nat)))
}

/// What accumulating each claim alone into a zero table, with factor
/// `r^i` in the field, leaves at corner `c`, summed over the claims.
pub open spec fn separate_weight(cs: Seq<(Weights, Fp)>, r: int, c: nat) -> int
    decreases cs.len(),
{
    if cs.len() == 0 {
        0
    } else {
        separate_weight(cs.drop_last(), r, c) + reduce(
            0 + reduce(pow(r, (cs.len() - 1) as nat)) * cs.last().0.weight_at(c),
        )
    }
}

/// Each claim's target times `r^i` in the field, summed over the claims.
pub open spec fn separate_target(cs: Seq<(Weights, Fp)>, r: int) -> int
    decreases cs.len(),
{
    if cs.len() == 0 {
        0
    } else {
        separate_target(cs.drop_last(), r) + reduce(
            cs.last().1.val() * reduce(pow(r, (cs.len() - 1) as nat)),
        )
    }
}

/// Batching is linear: at every corner, the combined vector is the field sum
/// of what accumulating each claim on its own into a zero table, with factor
/// `r^i`, leaves there; the combined target is the field sum of the targets
/// scaled by `r^i`.
pub proof fn lemma_combine_is_linear(cs: Seq<(Weights, Fp)>, r: int, c: nat)
    ensures
        reduce(combined_weight(cs, r, c)) == reduce(separate_weight(cs, r, c)),
        reduce(combined_target(cs, r)) == reduce(separate_target(cs, r)),
{
    lemma_weight_is_linear(cs, r, c);
    lemma_target_is_linear(cs, r);
}

proof fn lemma_weight_is_linear(cs: Seq<(Weights, Fp)>, r: int, c: nat)
    ensures
        reduce(combined_weight(cs, r, c)) == reduce(separate_weight(cs, r, c)),
    decreases cs.len(),
{
    if cs.len() > 0 {
        let rest = cs.drop_last();
        lemma_weight_is_linear(rest, r, c);
        let p = pow(r, (cs.len() - 1) as nat);
        let w = cs.last().0.weight_at(c);
        let a = combined_weight(rest, r, c);
        let s = separate_weight(rest, r, c);
        let q = reduce(p) * w;
        assert(combined_weight(cs, r, c) == a + p * w);
        assert(separate_weight(cs, r, c) == s + reduce(0 + q));
        lemma_reduce_step(s, a, p, w);
        lemma_reduce_add(s, q);
        lemma_reduce_add(s, reduce(q));
        lemma_reduce_twice(q);
    }
}

proof fn lemma_target_is_linear(cs: Seq<(Weights, Fp)>, r: int)
    ensures
        reduce(combined_target(cs, r)) == reduce(separate_target(cs, r)),
    decreases cs.len(),
{
    if cs.len() > 0 {
        let rest = cs.drop_last();
        lemma_target_is_linear(rest, r);
        let p = pow(r, (cs.len() - 1) as nat);
        let t = cs.last().1.val();
        let a = combined_target(rest, r);
        let s = separate_target(rest, r);
        let q = t * reduce(p);
        assert(combined_target(cs, r) == a + p * t);
        assert(separate_target(cs, r) == s + reduce(q));
        assert(q == reduce(p) * t) by (nonlinear_arith)
            requires
                q == t * reduce(p),
        ;
        lemma_reduce_step(s, a, p, t);
        lemma_reduce_add(s, q);
        lemma_reduce_add(s, reduce(q));
        lemma_reduce_twice(q);
    }
}

/// The inner product of a vector of reduced Lagrange values of `x` with an
/// evaluation table is, in the field, the table's multilinear extension at `x`.
proof fn lemma_dot_lagrange(v: Seq<int>, x: Seq<int>, poly: Seq<int>, k: nat)
    requires
        k <= v.len(),
        forall|c: int| 0 <= c < v.len() ==> #[trigger] v[c] == reduce(lag(x, c as nat)),
    ensures
        reduce(dot(v, poly, k)) == reduce(mle_sum(poly, x, k)),
    decreases k,
{
    if k > 0 {
        let j = (k - 1) as nat;
        lemma_dot_lagrange(v, x, poly, j);
        lemma_reduce_step(dot(v, poly, j), mle_sum(poly, x, j), lag(x, j), poly[j as int]);
    }
}

/// A statement of the one claim `P(x) = target`: whatever the challenge, the
/// combined target is `target`, and the combined vector's inner product with
/// an evaluation table `P` is, in the field, `P`'s multilinear extension at `x`,
/// which is also what `weighted_sum` gives for the claim.
pub proof fn lemma_single_evaluation(x: MultilinearPoint, target: Fp, poly: Seq<int>, r: int)
    ensures
        combined_target(seq![(Weights::Evaluation { point: x }, target)], r) == target.val(),
        reduce(
            dot(
                combined_vector(
                    seq![(Weights::Evaluation { point: x }, target)],
                    r,
                    poly.len(),
                ),
                poly,
                poly.len(),
            ),
        ) == reduce(mle_eval(poly, vals(x.0@))),
        (Weights::Evaluation { point: x }).weighted_sum_spec(poly) == mle_eval(poly, vals(x.0@)),
{
    let w = Weights::Evaluation { point: x };
    let cs = seq![(w, target)];
    vstd::arithmetic::power::lemma_pow0(r);
    assert(cs.drop_last() =~= Seq::<(Weights, Fp)>::empty());
    assert(cs.last() == (w, target));
    assert(combined_target(Seq::<(Weights, Fp)>::empty(), r) == 0);
    assert(combined_target(cs, r) == 0 + pow(r, 0) * target.val());
    let v = combined_vector(cs, r, poly.len());
    assert forall|c: int| 0 <= c < v.len() implies #[trigger] v[c] == reduce(
        lag(vals(x.0@), c as nat),
    ) by {
        assert(combined_weight(Seq::<(Weights, Fp)>::empty(), r, c as nat) == 0);
        assert(combined_weight(cs, r, c as nat) == 0 + pow(r, 0) * w.weight_at(c as nat));
    }
    lemma_dot_lagrange(v, vals(x.0@), poly, poly.len());
    lemma_mle_is_dot(&w, poly, poly.len());
}

/// For an explicit weight vector, `weighted_sum` is its inner product with the
/// table: the same, in the field, as the inner product with what accumulating
/// the weight into a zero table with factor one leaves.
pub proof fn lemma_linear_weighted_sum(weight: EvaluationsList, poly: Seq<int>)
    requires
        weight.wf(),
        poly.len() == weight@.len(),
    ensures
        (Weights::Linear { weight }).weighted_sum_spec(poly) == dot(vals(weight@), poly, poly.len()),
        reduce(
            dot(
                Seq::new(
                    poly.len(),
                    |c: int| reduce(0 + 1 * (Weights::Linear { weight }).weight_at(c as nat)),
                ),
                poly,
                poly.len(),
            ),
        ) == reduce((Weights::Linear { weight }).weighted_sum_spec(poly)),
{
    let w = Weights::Linear { weight };
    let acc = Seq::new(poly.len(), |c: int| reduce(0 + 1 * w.weight_at(c as nat)));
    assert forall|c: int| 0 <= c < acc.len() implies #[trigger] acc[c] == vals(weight@)[c] by {
        lemma_from_reduced(weight@[c]);
    }
    assert(acc =~= vals(weight@));
    lemma_linear_is_dot(weight, poly, poly.len());
}

/// An explicit weight's dot prefix is the inner product with its values.
proof fn lemma_linear_is_dot(weight: EvaluationsList, poly: Seq<int>, k: nat)
    requires
        k <= weight@.len(),
    ensures
        (Weights::Linear { weight }).dot_prefix(poly, k) == dot(vals(weight@), poly, k),
    decreases k,
{
    if k > 0 {
        lemma_linear_is_dot(weight, poly, (k - 1) as nat);
    }
}

/// Putting claim `b` in front of a statement that holds only claim `a` gives
/// the list that adding `b` and then `a` gives; the front claim is scaled by
/// `r^0` and the other by `r^1`.
pub proof fn lemma_in_front_order(a: (Weights, Fp), b: (Weights, Fp), r: int, c: nat)
    ensures
        seq![b] + seq![a] == Seq::<(Weights, Fp)>::empty().push(b).push(a),
        combined_target(seq![b] + seq![a], r) == b.1.val() + r * a.1.val(),
        combined_weight(seq![b] + seq![a], r, c) == b.0.weight_at(c) + r * a.0.weight_at(c),
{
    let cs = seq![b] + seq![a];
    assert(cs =~= Seq::<(Weights, Fp)>::empty().push(b).push(a));
    assert(cs.drop_last() =~= seq![b]);
    assert(cs.drop_last().drop_last() =~= Seq::<(Weights, Fp)>::empty());
    let e = Seq::<(Weights, Fp)>::empty();
    vstd::arithmetic::power::lemma_pow0(r);
    vstd::arithmetic::power::lemma_pow1(r);
    assert(cs.last() == a);
    assert(cs.drop_last().last() == b);
    assert(combined_target(e, r) == 0);
    assert(combined_target(seq![b], r) == 0 + pow(r, 0) * b.1.val());
    assert(combined_target(cs, r) == combined_target(seq![b], r) + pow(r, 1) * a.1.val());
    assert(combined_weight(e, r, c) == 0);
    assert(combined_weight(seq![b], r, c) == 0 + pow(r, 0) * b.0.weight_at(c));
    assert(combined_weight(cs, r, c) == combined_weight(seq![b], r, c) + pow(r, 1) * a.0.weight_at(c));
}

/// For an evaluation weight, the multilinear extension is the weighted sum.
proof fn lemma_mle_is_dot(w: &Weights, poly: Seq<int>, k: nat)
    requires
        w is Evaluation,
    ensures
        mle_sum(poly, vals(w->point.0@), k) == w.dot_prefix(poly, k),
    decreases k,
{
    if k > 0 {
        lemma_mle_is_dot(w, poly, (k - 1) as nat);
    }
}

} // verus!
