//! Points of the hypercube's extension and multilinear polynomials in
//! evaluation and coefficient form.
use crate::field::{
    lemma_from_reduced, lemma_reduce_add, lemma_reduce_mul, lemma_reduce_twice, reduce, vals, Fp,
};
use vstd::arithmetic::power::pow;
use vstd::arithmetic::power2::{lemma_pow2_pos, lemma_pow2_strictly_increases, lemma_pow2_unfold, pow2};
use vstd::prelude::*;

verus! {

/// The Lagrange basis polynomial of hypercube corner `c` at `point`. The last
/// coordinate of the point goes with the lowest bit of `c`.
pub open spec fn lag(point: Seq<int>, c: nat) -> int
    decreases point.len(),
{
    if point.len() == 0 {
        1
    } else {
        let x = point.last();
        lag(point.drop_last(), c / 2) * (if c % 2 == 1 {
            x
        } else {
            1 - x
        })
    }
}

/// The equality polynomial of two points, `prod_i (p_i q_i + (1 - p_i)(1 - q_i))`.
pub open spec fn eq_outside(p: Seq<int>, q: Seq<int>) -> int
    decreases p.len(),
{
    if p.len() == 0 || q.len() == 0 {
        1
    } else {
        eq_outside(p.drop_last(), q.drop_last()) * (p.last() * q.last() + (1 - p.last()) * (1
            - q.last()))
    }
}

/// `sum_{c < k} lag(point, c) * evals[c]`.
pub open spec fn mle_sum(evals: Seq<int>, point: Seq<int>, k: nat) -> int
    decreases k,
{
    if k == 0 {
        0
    } else {
        mle_sum(evals, point, (k - 1) as nat) + lag(point, (k - 1) as nat) * evals[k - 1]
    }
}

/// The multilinear extension of an evaluation table, at `point`.
pub open spec fn mle_eval(evals: Seq<int>, point: Seq<int>) -> int {
    mle_sum(evals, point, evals.len())
}

/// A coefficient table evaluated at `point`; the first coordinate goes with the
/// highest bit of a coefficient's index.
pub open spec fn coeff_eval(coeffs: Seq<int>, point: Seq<int>) -> int
    decreases point.len(),
{
    if point.len() == 0 {
        coeffs[0]
    } else {
        let h = coeffs.len() / 2;
        coeff_eval(coeffs.take(h as int), point.drop_first()) + point[0] * coeff_eval(
            coeffs.skip(h as int),
            point.drop_first(),
        )
    }
}

/// The point `(x^(2^(n-1)), ..., x^2, x)`.
pub open spec fn univariate_point(x: int, n: nat) -> Seq<int> {
    Seq::new(n, |i: int| reduce(pow(x, pow2((n - 1 - i) as nat))))
}

/// Hypercube corner `c` of `n` coordinates, the first coordinate the highest
/// bit.
pub open spec fn corner_point(c: nat, n: nat) -> Seq<int> {
    Seq::new(n, |i: int| ((c / pow2((n - 1 - i) as nat)) % 2) as int)
}

/// A length that is a power of two.
pub open spec fn is_pow2_len(n: int) -> bool {
    exists|k: nat| pow2(k) == n
}

/// The number of variables of a table of `n` entries, `n` a power of two.
fn log2_len(n: usize) -> (r: usize)
    requires
        is_pow2_len(n as int),
    ensures
        pow2(r as nat) == n,
{
    let ghost j = choose|j: nat| pow2(j) == n;
    let mut k: usize = 0;
    let mut p: usize = 1;
    proof {
        lemma_pow2_pos(j);
        vstd::arithmetic::power2::lemma2_to64();
    }
    while p < n
        invariant
            p == pow2(k as nat),
            1 <= p <= n,
            k <= p,
            k <= j,
            pow2(j) == n,
        decreases n - p,
    {
        proof {
            if j <= k {
                if j < k {
                    lemma_pow2_strictly_increases(j, k as nat);
                }
                assert(false);
            }
            if k + 1 < j {
                lemma_pow2_strictly_increases((k + 1) as nat, j);
            }
            lemma_pow2_unfold((k + 1) as nat);
        }
        p = p * 2;
        k = k + 1;
    }
    k
}

/// A point with one coordinate per variable.
#[derive(Clone, Debug)]
pub struct MultilinearPoint(pub Vec<Fp>);

impl MultilinearPoint {
    pub fn num_variables(&self) -> (r: usize)
        ensures
            r == self.0@.len(),
    {
        self.0.len()
    }

    /// The Lagrange basis polynomial of `corner`, evaluated at this point.
    pub fn eq_poly(&self, corner: usize) -> (r: Fp)
        ensures
            r.val() == reduce(lag(vals(self.0@), corner as nat)),
    {
        let r = lag_prefix(&self.0, self.0.len(), corner);
        proof {
            assert(vals(self.0@).take(self.0@.len() as int) =~= vals(self.0@));
        }
        r
    }

    /// Every corner of the hypercube, in order, paired with its Lagrange basis
    /// polynomial evaluated at this point.
    pub fn lagrange_basis(&self) -> (r: Vec<(usize, Fp)>)
        requires
            pow2(self.0@.len() as nat) <= usize::MAX,
        ensures
            r@.len() == pow2(self.0@.len() as nat),
            forall|c: int|
                0 <= c < r@.len() ==> #[trigger] r@[c].0 == c && r@[c].1.val() == reduce(
                    lag(vals(self.0@), c as nat),
                ),
    {
        let size = pow2_usize(self.0.len());
        let mut basis: Vec<(usize, Fp)> = Vec::new();
        while basis.len() < size
            invariant
                basis.len() <= size,
                forall|c: int|
                    0 <= c < basis@.len() ==> #[trigger] basis@[c].0 == c && basis@[c].1.val()
                        == reduce(lag(vals(self.0@), c as nat)),
            decreases size - basis.len(),
        {
            let c = basis.len();
            basis.push((c, self.eq_poly(c)));
        }
        basis
    }

    /// Hypercube corner `c` as a point of `n` coordinates.
    pub fn corner(c: usize, n: usize) -> (r: MultilinearPoint)
        requires
            pow2(n as nat) <= usize::MAX,
        ensures
            r.0@.len() == n,
            vals(r.0@) == corner_point(c as nat, n as nat),
    {
        let mut coords: Vec<Fp> = Vec::new();
        while coords.len() < n
            invariant
                coords.len() <= n,
                pow2(n as nat) <= usize::MAX,
                forall|i: int|
                    0 <= i < coords.len() ==> #[trigger] coords@[i].val() == corner_point(
                        c as nat,
                        n as nat,
                    )[i],
            decreases n - coords.len(),
        {
            let i = coords.len();
            proof {
                if ((n - 1 - i) as nat) < n as nat {
                    lemma_pow2_strictly_increases((n - 1 - i) as nat, n as nat);
                }
                lemma_pow2_pos((n - 1 - i) as nat);
            }
            let d = pow2_usize(n - 1 - i);
            let bit = (c / d) % 2;
            let x = Fp::from_u64(bit as u64);
            proof {
                vstd::arithmetic::div_mod::lemma_small_mod(bit as nat, crate::field::modulus() as nat);
            }
            coords.push(x);
        }
        let r = MultilinearPoint(coords);
        proof {
            assert(vals(r.0@) =~= corner_point(c as nat, n as nat));
        }
        r
    }

    /// The point `(x^(2^(n-1)), ..., x^2, x)` of `n` coordinates.
    pub fn expand_from_univariate(x: Fp, n: usize) -> (r: MultilinearPoint)
        ensures
            r.0@.len() == n,
            vals(r.0@) == univariate_point(x.val(), n as nat),
    {
        let mut squares: Vec<Fp> = Vec::new();
        let mut cur = x;
        proof {
            lemma_from_reduced(x);
            vstd::arithmetic::power::lemma_pow1(x.val());
            vstd::arithmetic::power2::lemma2_to64();
        }
        while squares.len() < n
            invariant
                squares.len() <= n,
                cur.val() == reduce(pow(x.val(), pow2(squares.len() as nat))),
                forall|i: int|
                    0 <= i < squares.len() ==> #[trigger] squares@[i].val() == reduce(
                        pow(x.val(), pow2(i as nat)),
                    ),
            decreases n - squares.len(),
        {
            let ghost k = squares.len() as nat;
            squares.push(cur);
            proof {
                let e = pow2(k);
                lemma_pow2_unfold(k + 1);
                vstd::arithmetic::power::lemma_pow_adds(x.val(), e, e);
                lemma_reduce_mul(pow(x.val(), e), pow(x.val(), e));
                assert(pow2(k + 1) == e + e);
            }
            cur = cur.mul(&cur);
        }
        let mut coords: Vec<Fp> = Vec::new();
        while coords.len() < n
            invariant
                squares.len() == n,
                coords.len() <= n,
                forall|i: int|
                    0 <= i < squares.len() ==> #[trigger] squares@[i].val() == reduce(
                        pow(x.val(), pow2(i as nat)),
                    ),
                forall|i: int|
                    0 <= i < coords.len() ==> #[trigger] coords@[i].val() == reduce(
                        pow(x.val(), pow2((n - 1 - i) as nat)),
                    ),
            decreases n - coords.len(),
        {
            let j = n - 1 - coords.len();
            coords.push(squares[j]);
        }
        let r = MultilinearPoint(coords);
        proof {
            assert(vals(r.0@) =~= univariate_point(x.val(), n as nat));
        }
        r
    }
}

/// The Lagrange basis polynomial of corner `c`, over the first `len` coordinates
/// of `point`.
fn lag_prefix(point: &Vec<Fp>, len: usize, c: usize) -> (r: Fp)
    requires
        len <= point@.len(),
    ensures
        r.val() == reduce(lag(vals(point@).take(len as int), c as nat)),
    decreases len,
{
    if len == 0 {
        let r = Fp::one();
        proof {
            lemma_from_reduced(r);
        }
        r
    } else {
        let rest = lag_prefix(point, len - 1, c / 2);
        let x = point[len - 1];
        let f = if c % 2 == 1 {
            x
        } else {
            Fp::one().sub(&x)
        };
        proof {
            let s = vals(point@).take(len as int);
            assert(s.drop_last() =~= vals(point@).take(len - 1));
            assert(s.last() == x.val());
            let fac = if c % 2 == 1 {
                x.val()
            } else {
                1 - x.val()
            };
            lemma_from_reduced(x);
            assert(f.val() == reduce(fac));
            lemma_reduce_mul(lag(vals(point@).take(len - 1), (c / 2) as nat), fac);
        }
        rest.mul(&f)
    }
}

/// The equality polynomial of two points of the same dimension.
pub fn eq_poly_outside(left: &MultilinearPoint, right: &MultilinearPoint) -> (r: Fp)
    requires
        left.0@.len() == right.0@.len(),
    ensures
        r.val() == reduce(eq_outside(vals(left.0@), vals(right.0@))),
{
    let n = left.0.len();
    let mut acc = Fp::one();
    let mut i: usize = 0;
    proof {
        lemma_from_reduced(acc);
    }
    while i < n
        invariant
            i <= n,
            n == left.0@.len(),
            n == right.0@.len(),
            acc.val() == reduce(
                eq_outside(vals(left.0@).take(i as int), vals(right.0@).take(i as int)),
            ),
        decreases n - i,
    {
        let a = left.0[i];
        let b = right.0[i];
        let one = Fp::one();
        let ab = a.mul(&b);
        let na = one.sub(&a);
        let nb = one.sub(&b);
        let nab = na.mul(&nb);
        let t = ab.add(&nab);
        proof {
            let (x, y) = (a.val(), b.val());
            lemma_reduce_mul(1 - x, 1 - y);
            lemma_reduce_add(x * y, (1 - x) * (1 - y));
            assert(t.val() == reduce(x * y + (1 - x) * (1 - y)));
            let pp = vals(left.0@).take(i + 1);
            let qq = vals(right.0@).take(i + 1);
            assert(pp.drop_last() =~= vals(left.0@).take(i as int));
            assert(qq.drop_last() =~= vals(right.0@).take(i as int));
            lemma_reduce_mul(
                eq_outside(vals(left.0@).take(i as int), vals(right.0@).take(i as int)),
                x * y + (1 - x) * (1 - y),
            );
            lemma_from_reduced(t);
        }
        acc = acc.mul(&t);
        i = i + 1;
    }
    proof {
        assert(vals(left.0@).take(n as int) =~= vals(left.0@));
        assert(vals(right.0@).take(n as int) =~= vals(right.0@));
    }
    acc
}

/// A multilinear polynomial given by its values on the hypercube's corners.
#[derive(Clone, Debug)]
pub struct EvaluationsList {
    evals: Vec<Fp>,
    num_variables: usize,
}

impl View for EvaluationsList {
    type V = Seq<Fp>;

    closed spec fn view(&self) -> Seq<Fp> {
        self.evals@
    }
}

impl EvaluationsList {
    /// The number of variables.
    pub closed spec fn nv(&self) -> nat {
        self.num_variables as nat
    }

    /// One value per corner.
    pub open spec fn wf(&self) -> bool {
        self@.len() == pow2(self.nv())
    }

    /// Takes the values of the `2^n` corners.
    pub fn new(evals: Vec<Fp>) -> (r: EvaluationsList)
        requires
            is_pow2_len(evals@.len() as int),
        ensures
            r@ == evals@,
            r.wf(),
    {
        let num_variables = log2_len(evals.len());
        EvaluationsList { evals, num_variables }
    }

    /// The polynomial that is zero on every corner of `n` variables.
    pub fn zeros(n: usize) -> (r: EvaluationsList)
        requires
            pow2(n as nat) <= usize::MAX,
        ensures
            r.wf(),
            r.nv() == n,
            forall|c: int| 0 <= c < r@.len() ==> #[trigger] r@[c].val() == 0,
    {
        let size = pow2_usize(n);
        let mut evals: Vec<Fp> = Vec::new();
        while evals.len() < size
            invariant
                evals.len() <= size,
                forall|c: int| 0 <= c < evals.len() ==> #[trigger] evals@[c].val() == 0,
            decreases size - evals.len(),
        {
            evals.push(Fp::zero());
        }
        EvaluationsList { evals, num_variables: n }
    }

    pub fn num_variables(&self) -> (r: usize)
        ensures
            r == self.nv(),
    {
        self.num_variables
    }

    pub fn num_evals(&self) -> (r: usize)
        ensures
            r == self@.len(),
    {
        self.evals.len()
    }

    pub fn evals(&self) -> (r: &Vec<Fp>)
        ensures
            r@ == self@,
    {
        &self.evals
    }

    /// The value at `corner`.
    pub fn index(&self, corner: usize) -> (r: Fp)
        requires
            corner < self@.len(),
        ensures
            r == self@[corner as int],
    {
        self.evals[corner]
    }

    /// Replaces the value at `corner`.
    pub fn set(&mut self, corner: usize, v: Fp)
        requires
            corner < old(self)@.len(),
        ensures
            final(self)@ == old(self)@.update(corner as int, v),
            final(self).nv() == old(self).nv(),
    {
        self.evals.set(corner, v);
    }

    /// The multilinear extension at `point`:
    /// `sum_c lag(point, c) * evals[c]`.
    pub fn eval_extension(&self, point: &MultilinearPoint) -> (r: Fp)
        ensures
            r.val() == reduce(mle_eval(vals(self@), vals(point.0@))),
    {
        let n = self.evals.len();
        let mut sum = Fp::zero();
        let mut c: usize = 0;
        proof {
            vstd::arithmetic::div_mod::lemma_small_mod(0, crate::field::modulus() as nat);
        }
        while c < n
            invariant
                c <= n,
                n == self@.len(),
                sum.val() == reduce(mle_sum(vals(self@), vals(point.0@), c as nat)),
            decreases n - c,
        {
            let l = point.eq_poly(c);
            let e = self.evals[c];
            let t = l.mul(&e);
            proof {
                let lv = lag(vals(point.0@), c as nat);
                lemma_from_reduced(e);
                lemma_reduce_mul(lv, e.val());
                lemma_reduce_add(mle_sum(vals(self@), vals(point.0@), c as nat), lv * e.val());
                lemma_reduce_twice(mle_sum(vals(self@), vals(point.0@), c as nat));
                lemma_reduce_twice(lv * e.val());
            }
            sum = sum.add(&t);
            c = c + 1;
        }
        sum
    }
}

/// `2^n` as a machine integer.
pub fn pow2_usize(n: usize) -> (r: usize)
    requires
        pow2(n as nat) <= usize::MAX,
    ensures
        r == pow2(n as nat),
{
    let mut p: usize = 1;
    let mut k: usize = 0;
    proof {
        vstd::arithmetic::power2::lemma2_to64();
    }
    while k < n
        invariant
            k <= n,
            p == pow2(k as nat),
            pow2(n as nat) <= usize::MAX,
        decreases n - k,
    {
        proof {
            lemma_pow2_unfold((k + 1) as nat);
            if k + 1 < n {
                lemma_pow2_strictly_increases((k + 1) as nat, n as nat);
            }
        }
        p = p * 2;
        k = k + 1;
    }
    p
}

/// A multilinear polynomial given by its `2^n` coefficients.
#[derive(Clone, Debug)]
pub struct CoefficientList {
    coeffs: Vec<Fp>,
    num_variables: usize,
}

impl View for CoefficientList {
    type V = Seq<Fp>;

    closed spec fn view(&self) -> Seq<Fp> {
        self.coeffs@
    }
}

impl CoefficientList {
    /// The number of variables.
    pub closed spec fn nv(&self) -> nat {
        self.num_variables as nat
    }

    /// One coefficient per monomial.
    pub open spec fn wf(&self) -> bool {
        self@.len() == pow2(self.nv())
    }

    /// Takes the `2^n` coefficients.
    pub fn new(coeffs: Vec<Fp>) -> (r: CoefficientList)
        requires
            is_pow2_len(coeffs@.len() as int),
        ensures
            r@ == coeffs@,
            r.wf(),
    {
        let num_variables = log2_len(coeffs.len());
        CoefficientList { coeffs, num_variables }
    }

    pub fn num_variables(&self) -> (r: usize)
        ensures
            r == self.nv(),
    {
        self.num_variables
    }

    pub fn num_coeffs(&self) -> (r: usize)
        ensures
            r == self@.len(),
    {
        self.coeffs.len()
    }

    pub fn coeffs(&self) -> (r: &Vec<Fp>)
        ensures
            r@ == self@,
    {
        &self.coeffs
    }

    /// The polynomial at `point`.
    pub fn evaluate(&self, point: &MultilinearPoint) -> (r: Fp)
        requires
            self.wf(),
            point.0@.len() == self.nv(),
        ensures
            r.val() == reduce(coeff_eval(vals(self@), vals(point.0@))),
    {
        let n = self.coeffs.len();
        let r = eval_range(&self.coeffs, 0, n, &point.0, 0);
        proof {
            assert(vals(self@).subrange(0, n as int) =~= vals(self@));
            assert(vals(point.0@).skip(0) =~= vals(point.0@));
        }
        r
    }
}

impl CoefficientList {
    /// The same polynomial in evaluation form: its value at every corner of
    /// the hypercube.
    pub fn to_evaluations(&self) -> (r: EvaluationsList)
        requires
            self.wf(),
        ensures
            r.wf(),
            r.nv() == self.nv(),
            forall|c: int|
                0 <= c < r@.len() ==> #[trigger] r@[c].val() == reduce(
                    coeff_eval(vals(self@), corner_point(c as nat, self.nv())),
                ),
    {
        let n = self.num_variables;
        let size = self.coeffs.len();
        let mut evals: Vec<Fp> = Vec::new();
        while evals.len() < size
            invariant
                self.wf(),
                size == pow2(n as nat),
                n == self.nv(),
                evals.len() <= size,
                forall|c: int|
                    0 <= c < evals.len() ==> #[trigger] evals@[c].val() == reduce(
                        coeff_eval(vals(self@), corner_point(c as nat, n as nat)),
                    ),
            decreases size - evals.len(),
        {
            let c = evals.len();
            let point = MultilinearPoint::corner(c, n);
            evals.push(self.evaluate(&point));
        }
        EvaluationsList { evals, num_variables: n }
    }
}

/// The coefficients `lo .. lo + len` evaluated at the coordinates `k ..` of
/// `point`.
fn eval_range(coeffs: &Vec<Fp>, lo: usize, len: usize, point: &Vec<Fp>, k: usize) -> (r: Fp)
    requires
        k <= point@.len(),
        len == pow2((point@.len() - k) as nat),
        lo + len <= coeffs@.len(),
    ensures
        r.val() == reduce(
            coeff_eval(vals(coeffs@).subrange(lo as int, lo + len), vals(point@).skip(k as int)),
        ),
    decreases point@.len() - k,
{
    let ghost sub = vals(coeffs@).subrange(lo as int, lo + len);
    let ghost pt = vals(point@).skip(k as int);
    if k == point.len() {
        proof {
            vstd::arithmetic::power2::lemma2_to64();
        }
        let r = coeffs[lo];
        proof {
            lemma_from_reduced(r);
        }
        r
    } else {
        let ghost m = (point@.len() - k) as nat;
        proof {
            lemma_pow2_unfold(m);
        }
        let half = len / 2;
        let total = coeffs.len();
        assert(half + half == len && lo + len <= total);
        let a = eval_range(coeffs, lo, half, point, k + 1);
        let b = eval_range(coeffs, lo + half, half, point, k + 1);
        let x = point[k];
        let xb = x.mul(&b);
        proof {
            assert(sub.take(half as int) =~= vals(coeffs@).subrange(lo as int, lo + half));
            assert(sub.skip(half as int) =~= vals(coeffs@).subrange(lo + half, lo + len));
            assert(pt.drop_first() =~= vals(point@).skip(k + 1));
            let ea = coeff_eval(sub.take(half as int), pt.drop_first());
            let eb = coeff_eval(sub.skip(half as int), pt.drop_first());
            lemma_from_reduced(x);
            lemma_reduce_mul(x.val(), eb);
            lemma_reduce_add(ea, x.val() * eb);
        }
        a.add(&xb)
    }
}

} // verus!
