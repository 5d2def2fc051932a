//! Arithmetic in the prime field of order `MODULUS`.
//!
//! A field element is stored as any `u64` representative; its value is the
//! residue of that representative. Every operation returns the canonical
//! representative, in `[0, MODULUS)`.

use vstd::prelude::*;
use vstd::arithmetic::div_mod::*;

verus! {

/// The field order, 2^64 - 2^32 + 1, a prime.
pub const MODULUS: u64 = 18446744069414584321;

/// The field order as an integer.
pub open spec fn p() -> int {
    MODULUS as int
}

/// Sum in the field.
pub open spec fn fadd(a: int, b: int) -> int {
    (a + b) % p()
}

/// Difference in the field.
pub open spec fn fsub(a: int, b: int) -> int {
    (a - b) % p()
}

/// Product in the field.
pub open spec fn fmul(a: int, b: int) -> int {
    (a * b) % p()
}

/// Product in the field of every value of `s` (one for an empty sequence).
pub open spec fn fprod(s: Seq<int>) -> int
    decreases s.len(),
{
    if s.len() == 0 {
        1
    } else {
        fmul(fprod(s.drop_last()), s.last())
    }
}

/// Sum over the integers of every value of `s`.
pub open spec fn isum(s: Seq<int>) -> int
    decreases s.len(),
{
    if s.len() == 0 {
        0
    } else {
        isum(s.drop_last()) + s.last()
    }
}

/// Sum in the field of every value of `s`.
pub open spec fn fsum(s: Seq<int>) -> int {
    isum(s) % p()
}

/// An element of the prime field of order `MODULUS`.
#[derive(Clone, Copy, Debug)]
pub struct Fr {
    pub repr: u64,
}

/// The field values of a sequence of elements.
pub open spec fn vals(s: Seq<Fr>) -> Seq<int> {
    s.map_values(|f: Fr| f@)
}

/// Every value of `s` is a field value, that is in `[0, MODULUS)`.
pub open spec fn in_field(s: Seq<int>) -> bool {
    forall|i: int| 0 <= i < s.len() ==> 0 <= #[trigger] s[i] < p()
}

pub proof fn lemma_vals_in_field(s: Seq<Fr>)
    ensures
        vals(s).len() == s.len(),
        in_field(vals(s)),
{
    assert forall|i: int| 0 <= i < vals(s).len() implies 0 <= #[trigger] vals(s)[i] < p() by {
        lemma_mod_bound(s[i].repr as int, p());
    }
}

impl Fr {
    /// The value of the element: the residue of its representative.
    pub open spec fn view(&self) -> int {
        (self.repr as int) % p()
    }

    pub fn zero() -> (r: Fr)
        ensures
            r@ == 0,
            r.repr == 0,
    {
        Fr { repr: 0 }
    }

    pub fn one() -> (r: Fr)
        ensures
            r@ == 1,
            r.repr == 1,
    {
        proof {
            lemma_small_mod(1, p() as nat);
        }
        Fr { repr: 1 }
    }

    /// The element `x mod MODULUS`.
    pub fn from_u64(x: u64) -> (r: Fr)
        ensures
            r@ == x as int % p(),
            r.repr < MODULUS,
    {
        Fr { repr: x % MODULUS }
    }

    /// The element `x mod MODULUS`, for negative `x` too.
    pub fn from_i64(x: i64) -> (r: Fr)
        ensures
            r@ == x as int % p(),
            r.repr < MODULUS,
    {
        if x >= 0 {
            Fr { repr: (x as u64) % MODULUS }
        } else {
            let a: u64 = (-(x as i128)) as u64;
            assert(0 < a < MODULUS);
            proof {
                lemma_mod_add_multiples_vanish(x as int, p());
                lemma_small_mod((p() - a) as nat, p() as nat);
            }
            Fr { repr: MODULUS - a }
        }
    }

    /// The canonical representative of the element's value.
    pub fn value(&self) -> (r: u64)
        ensures
            r as int == self@,
    {
        self.repr % MODULUS
    }

    pub fn add(&self, o: &Fr) -> (r: Fr)
        ensures
            r@ == fadd(self@, o@),
            r.repr < MODULUS,
    {
        let s: u128 = (self.repr as u128) + (o.repr as u128);
        let v: u64 = (s % (MODULUS as u128)) as u64;
        proof {
            lemma_add_mod_noop(self.repr as int, o.repr as int, p());
            lemma_small_mod(v as nat, p() as nat);
        }
        Fr { repr: v }
    }

    pub fn sub(&self, o: &Fr) -> (r: Fr)
        ensures
            r@ == fsub(self@, o@),
            r.repr < MODULUS,
    {
        let a: u64 = self.repr % MODULUS;
        let b: u64 = o.repr % MODULUS;
        let v: u64 = if a >= b {
            a - b
        } else {
            MODULUS - b + a
        };
        proof {
            lemma_small_mod(v as nat, p() as nat);
            lemma_mod_add_multiples_vanish(a - b, p());
        }
        Fr { repr: v }
    }

    pub fn mul(&self, o: &Fr) -> (r: Fr)
        ensures
            r@ == fmul(self@, o@),
            r.repr < MODULUS,
    {
        let a: u64 = self.repr;
        let b: u64 = o.repr;
        assert((a as int) * (b as int) <= 0xffff_ffff_ffff_ffffu64 * 0xffff_ffff_ffff_ffffu64)
            by (nonlinear_arith)
            requires
                a <= 0xffff_ffff_ffff_ffffu64,
                b <= 0xffff_ffff_ffff_ffffu64,
        ;
        let prod: u128 = (a as u128) * (b as u128);
        let v: u64 = (prod % (MODULUS as u128)) as u64;
        proof {
            lemma_mul_mod_noop(a as int, b as int, p());
            lemma_small_mod(v as nat, p() as nat);
        }
        Fr { repr: v }
    }
}

impl PartialEq for Fr {
    /// Two elements are equal when their values are.
    fn eq(&self, o: &Fr) -> (r: bool) {
        self.repr % MODULUS == o.repr % MODULUS
    }
}

impl vstd::std_specs::cmp::PartialEqSpecImpl for Fr {
    open spec fn obeys_eq_spec() -> bool {
        true
    }

    open spec fn eq_spec(&self, o: &Fr) -> bool {
        self@ == o@
    }
}

impl Eq for Fr {

}

} // verus!
