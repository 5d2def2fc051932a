//! The equality polynomial `eq(x, r) = prod_i (x_i r_i + (1 - x_i)(1 - r_i))`.
//!
//! Bit ordering: entry `k` of the dense table is the Boolean assignment whose
//! first coordinate is the most significant bit of `k` (see `bits`).

use vstd::prelude::*;
use vstd::arithmetic::div_mod::*;
use vstd::arithmetic::power2::*;
use crate::field::{fadd, fmul, fsub, fsum, in_field, isum, p, vals, Fr};

verus! {

/// One factor of the equality polynomial: `x r + (1 - x)(1 - r)`.
pub open spec fn eq_term(x: int, r: int) -> int {
    fadd(fmul(x, r), fmul(fsub(1, x), fsub(1, r)))
}

/// `eq(x, r)` over the coordinates of `r` (the first `r.len()` ones of `x`).
pub open spec fn eq_eval(r: Seq<int>, x: Seq<int>) -> int
    decreases r.len(),
{
    if r.len() == 0 {
        1
    } else {
        fmul(
            eq_eval(r.drop_last(), x.take(r.len() - 1)),
            eq_term(x[r.len() - 1], r.last()),
        )
    }
}

/// The table of an extra coordinate `c`: each entry `t[i]` splits into
/// `t[i] (1 - c)` at `2i` and `t[i] c` at `2i + 1`.
pub open spec fn expand(t: Seq<int>, c: int) -> Seq<int> {
    Seq::new(
        2 * t.len(),
        |i: int|
            if i % 2 == 0 {
                fmul(t[i / 2], fsub(1, c))
            } else {
                fmul(t[i / 2], c)
            },
    )
}

/// The dense table of `eq(., r)` over the Boolean hypercube, built one
/// coordinate at a time.
pub open spec fn eq_table(r: Seq<int>) -> Seq<int>
    decreases r.len(),
{
    if r.len() == 0 {
        seq![1]
    } else {
        expand(eq_table(r.drop_last()), r.last())
    }
}

/// The `n` bits of `k`, most significant first, as field values.
pub open spec fn bits(k: int, n: nat) -> Seq<int>
    decreases n,
{
    if n == 0 {
        seq![]
    } else {
        bits(k / 2, (n - 1) as nat).push(k % 2)
    }
}

pub proof fn lemma_bits_len(k: int, n: nat)
    ensures
        bits(k, n).len() == n,
    decreases n,
{
    if n > 0 {
        lemma_bits_len(k / 2, (n - 1) as nat);
    }
}

pub proof fn lemma_eq_table_len(r: Seq<int>)
    ensures
        eq_table(r).len() == pow2(r.len()),
    decreases r.len(),
{
    lemma2_to64();
    if r.len() > 0 {
        lemma_eq_table_len(r.drop_last());
        lemma_pow2_unfold(r.len());
    }
}

/// Splitting a value by `1 - c` and `c` keeps the field sum of a table.
proof fn lemma_expand_sum(t: Seq<int>, c: int)
    ensures
        fsum(expand(t, c)) == fsum(t),
    decreases t.len(),
{
    if t.len() > 0 {
        let u = t.drop_last();
        let a = t.last();
        let e = expand(t, c);
        lemma_expand_sum(u, c);
        assert(e.drop_last().drop_last() =~= expand(u, c));
        let a0 = fmul(a, fsub(1, c));
        let a1 = fmul(a, c);
        assert(e[e.len() - 2] == a0);
        assert(e[e.len() - 1] == a1);
        assert(e.len() == 2 * t.len());
        assert(e.drop_last().last() == a0);
        assert(isum(e.drop_last()) == isum(expand(u, c)) + a0);
        assert(isum(e) == isum(e.drop_last()) + a1);
        lemma_mul_mod_noop_right(a, 1 - c, p());
        lemma_add_mod_noop(a * (1 - c), a * c, p());
        assert(a * (1 - c) + a * c == a) by (nonlinear_arith);
        assert((a0 + a1) % p() == a % p());
        lemma_add_mod_noop(isum(expand(u, c)), a0 + a1, p());
        lemma_add_mod_noop(isum(u), a, p());
        assert(isum(e) == isum(expand(u, c)) + (a0 + a1));
    }
}

/// Partition of unity: the entries of the table of `eq(., r)` sum to one.
pub proof fn lemma_eq_table_sums_to_one(r: Seq<int>)
    ensures
        eq_table(r).len() == pow2(r.len()),
        fsum(eq_table(r)) == 1,
    decreases r.len(),
{
    lemma_eq_table_len(r);
    if r.len() == 0 {
        let s = seq![1int];
        assert(s.drop_last() =~= Seq::<int>::empty());
        assert(isum(s.drop_last()) == 0);
        assert(isum(s) == 1);
        lemma_small_mod(1, p() as nat);
    } else {
        lemma_eq_table_sums_to_one(r.drop_last());
        lemma_expand_sum(eq_table(r.drop_last()), r.last());
    }
}

/// The table and the polynomial agree: entry `k` of the table of `eq(., r)` is
/// `eq(x, r)` at the Boolean assignment `x` whose bits, most significant first,
/// are those of `k`.
pub proof fn lemma_table_matches_eval(r: Seq<int>, k: int)
    requires
        in_field(r),
        0 <= k < pow2(r.len()),
    ensures
        eq_table(r).len() == pow2(r.len()),
        eq_eval(r, bits(k, r.len())) == eq_table(r)[k],
    decreases r.len(),
{
    lemma_eq_table_len(r);
    reveal(pow2);
    if r.len() > 0 {
        let n = r.len();
        let u = r.drop_last();
        let c = r.last();
        let x = bits(k, n);
        lemma_pow2_unfold(n);
        assert(0 <= k / 2 < pow2((n - 1) as nat));
        lemma_table_matches_eval(u, k / 2);
        assert(x == bits(k / 2, (n - 1) as nat).push(k % 2));
        lemma_bits_len(k / 2, (n - 1) as nat);
        assert(x.take(n - 1) =~= bits(k / 2, (n - 1) as nat));
        assert(0 <= c < p());
        lemma_small_mod(1, p() as nat);
        lemma_small_mod(0, p() as nat);
        lemma_small_mod(c as nat, p() as nat);
        lemma_mod_bound(1 - c, p());
        lemma_small_mod(((1 - c) % p()) as nat, p() as nat);
        if k % 2 == 0 {
            let y = fsub(1, c);
            assert(fmul(0, c) == 0);
            assert(fsub(1, 0) == 1);
            assert(fmul(1, y) == y);
            assert(fadd(0, y) == y);
            assert(eq_term(0, c) == fsub(1, c));
        } else {
            assert(fmul(1, c) == c);
            assert(fsub(1, 1) == 0);
            assert(fmul(0, fsub(1, c)) == 0);
            assert(fadd(c, 0) == c);
            assert(eq_term(1, c) == c);
        }
    }
}

/// The equality polynomial `eq(., r)` for a fixed point `r`.
pub struct EqPolynomial {
    pub r: Vec<Fr>,
}

impl EqPolynomial {
    pub fn new(r: Vec<Fr>) -> (e: EqPolynomial)
        ensures
            e.r@ == r@,
    {
        EqPolynomial { r }
    }

    /// `eq(point, r)` at any point with as many coordinates as `r`.
    pub fn evaluate(&self, point: &Vec<Fr>) -> (v: Fr)
        requires
            point.len() == self.r.len(),
        ensures
            v@ == eq_eval(vals(self.r@), vals(point@)),
    {
        let n = self.r.len();
        let ghost rv = vals(self.r@);
        let ghost xv = vals(point@);
        let one = Fr::one();
        let mut acc = Fr::one();
        let mut i: usize = 0;
        while i < n
            invariant
                n == self.r.len(),
                n == point.len(),
                i <= n,
                rv == vals(self.r@),
                xv == vals(point@),
                one@ == 1,
                acc@ == eq_eval(rv.take(i as int), xv),
            decreases n - i,
        {
            let x = &point[i];
            let c = &self.r[i];
            let term = x.mul(c).add(&one.sub(x).mul(&one.sub(c)));
            proof {
                let ri = rv.take(i + 1);
                assert(ri.drop_last() =~= rv.take(i as int));
                assert(eq_eval(rv.take(i as int), xv) == eq_eval(rv.take(i as int), xv.take(i as int)))
                    by {
                        lemma_eq_eval_prefix(rv.take(i as int), xv, xv.take(i as int));
                    }
            }
            acc = acc.mul(&term);
            i = i + 1;
        }
        assert(rv.take(n as int) =~= rv);
        acc
    }

    /// The dense table of `eq(., r)`: `2^n` entries, entry `k` at the Boolean
    /// assignment given by the bits of `k`, most significant first.
    pub fn evals(&self) -> (t: Vec<Fr>)
        ensures
            t.len() == pow2(self.r.len() as nat),
            vals(t@) == eq_table(vals(self.r@)),
    {
        let n = self.r.len();
        let ghost rv = vals(self.r@);
        let mut table: Vec<Fr> = Vec::new();
        table.push(Fr::one());
        assert(vals(table@) =~= eq_table(rv.take(0)));
        let mut j: usize = 0;
        while j < n
            invariant
                n == self.r.len(),
                j <= n,
                rv == vals(self.r@),
                vals(table@) == eq_table(rv.take(j as int)),
            decreases n - j,
        {
            let c = self.r[j];
            let c0 = Fr::one().sub(&c);
            let ghost t = vals(table@);
            let mut next: Vec<Fr> = Vec::new();
            let mut k: usize = 0;
            while k < table.len()
                invariant
                    k <= table.len(),
                    t == vals(table@),
                    c0@ == fsub(1, c@),
                    next.len() == 2 * k,
                    forall|i: int| 0 <= i < 2 * k ==> #[trigger] next@[i]@ == expand(t, c@)[i],
                decreases table.len() - k,
            {
                next.push(table[k].mul(&c0));
                next.push(table[k].mul(&c));
                k = k + 1;
            }
            proof {
                assert(vals(next@) =~= expand(t, c@));
                assert(rv.take(j + 1).drop_last() =~= rv.take(j as int));
            }
            table = next;
            j = j + 1;
        }
        proof {
            assert(rv.take(n as int) =~= rv);
            lemma_eq_table_len(rv);
        }
        table
    }
}

/// `eq_eval` reads only the first `r.len()` coordinates of `x`.
pub proof fn lemma_eq_eval_prefix(r: Seq<int>, x: Seq<int>, y: Seq<int>)
    requires
        x.len() >= r.len(),
        y.len() >= r.len(),
        forall|i: int| 0 <= i < r.len() ==> x[i] == y[i],
    ensures
        eq_eval(r, x) == eq_eval(r, y),
    decreases r.len(),
{
    if r.len() > 0 {
        let m = r.len() - 1;
        lemma_eq_eval_prefix(r.drop_last(), x.take(m), y.take(m));
    }
}

/// The `n` low bits of `x`, most significant first, as field elements: the
/// Boolean point whose entry in an equality table is entry `x`.
pub fn index_to_field_bitvector(x: usize, n: usize) -> (b: Vec<Fr>)
    ensures
        b.len() == n,
        vals(b@) == bits(x as int, n as nat),
    decreases n,
{
    if n == 0 {
        let b: Vec<Fr> = Vec::new();
        assert(vals(b@) =~= bits(x as int, 0));
        b
    } else {
        let mut b = index_to_field_bitvector(x / 2, n - 1);
        let ghost before = b@;
        let bit = Fr::from_u64((x % 2) as u64);
        proof {
            lemma_small_mod((x % 2) as nat, p() as nat);
        }
        b.push(bit);
        assert(vals(b@) =~= vals(before).push(x as int % 2));
        b
    }
}

} // verus!
