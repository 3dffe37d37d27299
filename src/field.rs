//! The prime field with modulus `2^64 - 2^32 + 1`.
use vstd::arithmetic::div_mod::{
    lemma_add_mod_noop, lemma_mod_bound, lemma_mod_twice, lemma_mul_mod_noop, lemma_sub_mod_noop,
};
use vstd::prelude::*;

verus! {

/// The field's modulus.
pub const MODULUS: u64 = 18446744069414584321;

/// The modulus as a mathematical integer.
pub open spec fn modulus() -> int {
    MODULUS as int
}

/// Reduction of an integer into the canonical range `[0, modulus())`.
pub open spec fn reduce(x: int) -> int {
    x % modulus()
}

/// An element of the field. Any `u64` is accepted as a representative; the
/// element it stands for is its residue modulo `MODULUS`.
#[derive(Clone, Copy, Debug)]
pub struct Fp {
    repr: u64,
}

impl Fp {
    /// The element, as an integer in `[0, modulus())`.
    pub closed spec fn val(self) -> int {
        (self.repr as int) % modulus()
    }

    pub fn zero() -> (r: Fp)
        ensures
            r.val() == 0,
    {
        proof {
            vstd::arithmetic::div_mod::lemma_small_mod(0, modulus() as nat);
        }
        Fp { repr: 0 }
    }

    pub fn one() -> (r: Fp)
        ensures
            r.val() == 1,
    {
        proof {
            vstd::arithmetic::div_mod::lemma_small_mod(1, modulus() as nat);
        }
        Fp { repr: 1 }
    }

    /// The residue of `x`.
    pub fn from_u64(x: u64) -> (r: Fp)
        ensures
            r.val() == reduce(x as int),
    {
        Fp { repr: x }
    }

    /// The canonical representative, in `[0, MODULUS)`.
    pub fn value(&self) -> (r: u64)
        ensures
            r as int == self.val(),
    {
        self.repr % MODULUS
    }

    pub fn add(&self, o: &Fp) -> (r: Fp)
        ensures
            r.val() == reduce(self.val() + o.val()),
    {
        let s: u128 = (self.repr as u128 + o.repr as u128) % (MODULUS as u128);
        proof {
            lemma_add_mod_noop(self.repr as int, o.repr as int, modulus());
            lemma_mod_twice(s as int, modulus());
        }
        Fp { repr: s as u64 }
    }

    pub fn sub(&self, o: &Fp) -> (r: Fp)
        ensures
            r.val() == reduce(self.val() - o.val()),
    {
        let a: u64 = self.repr % MODULUS;
        let b: u64 = o.repr % MODULUS;
        let d: u64 = if a >= b {
            a - b
        } else {
            a + (MODULUS - b)
        };
        proof {
            let m = modulus();
            lemma_sub_mod_noop(self.repr as int, o.repr as int, m);
            lemma_mod_bound(d as int, m);
            if a >= b {
                vstd::arithmetic::div_mod::lemma_small_mod(d as nat, m as nat);
            } else {
                vstd::arithmetic::div_mod::lemma_mod_sub_multiples_vanish(d as int, m);
                vstd::arithmetic::div_mod::lemma_small_mod(d as nat, m as nat);
                assert(-m + d == a - b);
            }
            lemma_mod_twice(self.repr as int, m);
        }
        Fp { repr: d }
    }

    pub fn mul(&self, o: &Fp) -> (r: Fp)
        ensures
            r.val() == reduce(self.val() * o.val()),
    {
        let a: u128 = self.repr as u128;
        let b: u128 = o.repr as u128;
        assert(a * b <= 0xffff_ffff_ffff_ffff_ffff_ffff_ffff_ffffu128) by (nonlinear_arith)
            requires
                a <= 0xffff_ffff_ffff_ffff,
                b <= 0xffff_ffff_ffff_ffff,
        ;
        let p: u128 = (a * b) % (MODULUS as u128);
        proof {
            lemma_mul_mod_noop(self.repr as int, o.repr as int, modulus());
            lemma_mod_twice(p as int, modulus());
        }
        Fp { repr: p as u64 }
    }

    /// Whether the two elements are the same.
    pub fn equals(&self, o: &Fp) -> (r: bool)
        ensures
            r == (self.val() == o.val()),
    {
        self.repr % MODULUS == o.repr % MODULUS
    }
}

/// The element of a reduced integer is that integer.
pub proof fn lemma_from_reduced(x: Fp)
    ensures
        reduce(x.val()) == x.val(),
{
    lemma_mod_twice(x.repr as int, modulus());
}

/// Reducing the operands of a sum does not change the reduced sum.
pub proof fn lemma_reduce_add(x: int, y: int)
    ensures
        reduce(reduce(x) + reduce(y)) == reduce(x + y),
{
    lemma_add_mod_noop(x, y, modulus());
}

/// Reducing the operands of a product does not change the reduced product.
pub proof fn lemma_reduce_mul(x: int, y: int)
    ensures
        reduce(reduce(x) * reduce(y)) == reduce(x * y),
{
    lemma_mul_mod_noop(x, y, modulus());
}

/// Reducing twice is reducing once.
pub proof fn lemma_reduce_twice(x: int)
    ensures
        reduce(reduce(x)) == reduce(x),
{
    lemma_mod_twice(x, modulus());
}

/// Reducing the accumulator and the factor of `a + p * w` does not change the
/// reduced result.
pub proof fn lemma_reduce_fma(a: int, p: int, w: int)
    ensures
        reduce(reduce(a) + reduce(p) * w) == reduce(a + p * w),
{
    let m = modulus();
    lemma_reduce_add(reduce(a), reduce(p) * w);
    lemma_reduce_twice(a);
    vstd::arithmetic::div_mod::lemma_mul_mod_noop_left(p, w, m);
    lemma_reduce_add(a, p * w);
}

/// Adding `l * p` to congruent accumulators, with `l` reduced on one side
/// only, keeps them congruent.
pub proof fn lemma_reduce_step(d: int, m: int, l: int, p: int)
    requires
        reduce(d) == reduce(m),
    ensures
        reduce(d + reduce(l) * p) == reduce(m + l * p),
{
    lemma_reduce_add(d, reduce(l) * p);
    vstd::arithmetic::div_mod::lemma_mul_mod_noop_left(l, p, modulus());
    lemma_reduce_add(m, l * p);
}

impl PartialEq for Fp {
    fn eq(&self, o: &Fp) -> (r: bool) {
        self.equals(o)
    }
}

impl vstd::std_specs::cmp::PartialEqSpecImpl for Fp {
    open spec fn obeys_eq_spec() -> bool {
        true
    }

    open spec fn eq_spec(&self, o: &Fp) -> bool {
        self.val() == o.val()
    }
}

/// The integers that a sequence of elements stands for.
pub open spec fn vals(s: Seq<Fp>) -> Seq<int> {
    s.map_values(|x: Fp| x.val())
}

} // verus!
