//! Dense multilinear polynomials given by their values on the Boolean hypercube.

use vstd::prelude::*;
use vstd::arithmetic::div_mod::*;
use vstd::arithmetic::power2::*;
use crate::field::{fmul, fsub, fsum, in_field, isum, p, vals, Fr};
use crate::eq_poly::{bits, eq_table, expand, lemma_bits_len, lemma_eq_table_len, EqPolynomial};

verus! {

/// `n` is the least number of variables whose hypercube holds `len` values.
pub open spec fn fits_tightly(len: nat, n: nat) -> bool {
    len <= pow2(n) && (n == 0 || pow2((n - 1) as nat) < len)
}

/// `z` followed by zeros up to `2^n` values.
pub open spec fn padded(z: Seq<int>, n: nat) -> Seq<int> {
    Seq::new(pow2(n), |k: int| if k < z.len() { z[k] } else { 0 })
}

/// Entrywise products of two tables over the integers.
pub open spec fn products(e: Seq<int>, z: Seq<int>) -> Seq<int> {
    Seq::new(z.len(), |k: int| e[k] * z[k])
}

/// The multilinear extension of the table `z` at the point `x`:
/// `sum_k eq(bits(k), x) z[k]` in the field.
pub open spec fn mle_eval(z: Seq<int>, x: Seq<int>) -> int {
    fsum(products(eq_table(x), z))
}

/// The tables of `s`, one after the other.
pub open spec fn concat(s: Seq<Seq<int>>) -> Seq<int>
    decreases s.len(),
{
    if s.len() == 0 {
        Seq::empty()
    } else {
        concat(s.drop_last()) + s.last()
    }
}

/// The value tables of a sequence of polynomials.
pub open spec fn tables(polys: Seq<DensePolynomial>) -> Seq<Seq<int>> {
    polys.map_values(|d: DensePolynomial| vals(d.z@))
}

/// The table of `eq(., x)` at a Boolean point `x = bits(j, n)` is one at
/// entry `j` and zero elsewhere.
pub proof fn lemma_eq_table_at_bits(j: int, n: nat)
    requires
        0 <= j < pow2(n),
    ensures
        eq_table(bits(j, n)).len() == pow2(n),
        forall|i: int|
            0 <= i < pow2(n) ==> #[trigger] eq_table(bits(j, n))[i] == if i == j {
                1int
            } else {
                0int
            },
    decreases n,
{
    lemma_bits_len(j, n);
    lemma_eq_table_len(bits(j, n));
    lemma2_to64();
    lemma_small_mod(1, p() as nat);
    lemma_small_mod(0, p() as nat);
    if n > 0 {
        let x = bits(j, n);
        let u = bits(j / 2, (n - 1) as nat);
        let b = j % 2;
        lemma_pow2_unfold(n);
        lemma_bits_len(j / 2, (n - 1) as nat);
        lemma_eq_table_at_bits(j / 2, (n - 1) as nat);
        assert(x == u.push(b));
        assert(x.drop_last() =~= u);
        let t = eq_table(u);
        assert(eq_table(x) == expand(t, b));
        assert(fsub(1, 0) == 1);
        assert(fsub(1, 1) == 0);
        assert(fmul(1, 1) == 1);
        assert(fmul(1, 0) == 0);
        assert(fmul(0, 1) == 0);
        assert(fmul(0, 0) == 0);
        assert forall|i: int| 0 <= i < pow2(n) implies #[trigger] eq_table(x)[i] == if i == j {
            1int
        } else {
            0int
        } by {
            assert(0 <= i / 2 < pow2((n - 1) as nat));
            assert(t[i / 2] == if i / 2 == j / 2 { 1int } else { 0int });
        }
    }
}

proof fn lemma_isum_zero(s: Seq<int>)
    requires
        forall|i: int| 0 <= i < s.len() ==> s[i] == 0,
    ensures
        isum(s) == 0,
    decreases s.len(),
{
    if s.len() > 0 {
        lemma_isum_zero(s.drop_last());
    }
}

/// A sum whose terms vanish but at `j` is the term at `j`.
proof fn lemma_isum_single(s: Seq<int>, j: int)
    requires
        0 <= j < s.len(),
        forall|i: int| 0 <= i < s.len() && i != j ==> s[i] == 0,
    ensures
        isum(s) == s[j],
    decreases s.len(),
{
    if j == s.len() - 1 {
        lemma_isum_zero(s.drop_last());
    } else {
        lemma_isum_single(s.drop_last(), j);
    }
}

/// On the Boolean hypercube the multilinear extension of a table takes the
/// table's values: at the point whose bits, most significant first, are those
/// of `j`, it is entry `j`.
pub proof fn lemma_mle_on_hypercube(z: Seq<int>, n: nat, j: int)
    requires
        z.len() == pow2(n),
        in_field(z),
        0 <= j < pow2(n),
    ensures
        mle_eval(z, bits(j, n)) == z[j],
{
    lemma_eq_table_at_bits(j, n);
    let e = eq_table(bits(j, n));
    let ps = products(e, z);
    assert forall|i: int| 0 <= i < ps.len() && i != j implies ps[i] == 0 by {
        assert(e[i] == 0);
    }
    assert(e[j] == 1);
    lemma_isum_single(ps, j);
    lemma_small_mod(z[j] as nat, p() as nat);
}

/// A multilinear polynomial in `num_vars` variables, given by its `2^num_vars`
/// values on the hypercube (most significant variable first).
pub struct DensePolynomial {
    pub num_vars: usize,
    pub z: Vec<Fr>,
}

impl DensePolynomial {
    pub open spec fn wf(&self) -> bool {
        self.z.len() == pow2(self.num_vars as nat)
    }

    /// The polynomial whose table is `z` padded with zeros to the next power of two.
    pub fn new(z: Vec<Fr>) -> (d: DensePolynomial)
        requires
            z.len() <= usize::MAX / 2,
        ensures
            d.wf(),
            fits_tightly(z.len() as nat, d.num_vars as nat),
            vals(d.z@) == padded(vals(z@), d.num_vars as nat),
    {
        let mut size: usize = 1;
        let mut nv: usize = 0;
        proof {
            lemma2_to64();
        }
        while size < z.len()
            invariant
                z.len() <= usize::MAX / 2,
                size == pow2(nv as nat),
                1 <= size,
                nv < size,
                nv == 0 || pow2((nv - 1) as nat) < z.len(),
            decreases usize::MAX - size,
        {
            proof {
                lemma_pow2_unfold((nv + 1) as nat);
            }
            size = size * 2;
            nv = nv + 1;
        }
        let ghost zv = vals(z@);
        let mut out = z;
        let zero = Fr::zero();
        while out.len() < size
            invariant
                out.len() <= size,
                size == pow2(nv as nat),
                zv.len() <= out.len(),
                zero@ == 0,
                forall|k: int| 0 <= k < out.len() ==> #[trigger] out@[k]@ == padded(zv, nv as nat)[k],
            decreases size - out.len(),
        {
            out.push(zero);
        }
        let d = DensePolynomial { num_vars: nv, z: out };
        assert(vals(d.z@) =~= padded(zv, nv as nat));
        d
    }

    /// The value of the polynomial at any point with `num_vars` coordinates.
    pub fn evaluate(&self, x: &Vec<Fr>) -> (v: Fr)
        requires
            self.wf(),
            x.len() == self.num_vars,
        ensures
            v@ == mle_eval(vals(self.z@), vals(x@)),
    {
        let xc = x.clone();
        assert(xc@ =~= x@);
        let chis = EqPolynomial::new(xc).evals();
        let ghost e = eq_table(vals(x@));
        let ghost zv = vals(self.z@);
        let n = self.z.len();
        let mut acc = Fr::zero();
        let mut k: usize = 0;
        proof {
            lemma_small_mod(0, p() as nat);
        }
        while k < n
            invariant
                n == self.z.len(),
                n == chis.len(),
                k <= n,
                e == vals(chis@),
                zv == vals(self.z@),
                acc@ == isum(products(e, zv).take(k as int)) % p(),
            decreases n - k,
        {
            let t = chis[k].mul(&self.z[k]);
            proof {
                let ps = products(e, zv);
                assert(ps.take(k + 1).drop_last() =~= ps.take(k as int));
                lemma_add_mod_noop(isum(ps.take(k as int)), e[k as int] * zv[k as int], p());
                lemma_mod_twice(isum(ps.take(k as int)), p());
                lemma_mod_twice(e[k as int] * zv[k as int], p());
                lemma_add_mod_noop(acc@, t@, p());
            }
            acc = acc.add(&t);
            k = k + 1;
        }
        assert(products(e, zv).take(n as int) =~= products(e, zv));
        acc
    }

    /// One polynomial whose table is the tables of `polys` one after the
    /// other, padded with zeros to the next power of two.
    pub fn merge(polys: &Vec<DensePolynomial>) -> (d: DensePolynomial)
        requires
            concat(tables(polys@)).len() <= usize::MAX / 2,
        ensures
            d.wf(),
            fits_tightly(concat(tables(polys@)).len(), d.num_vars as nat),
            vals(d.z@) == padded(concat(tables(polys@)), d.num_vars as nat),
    {
        let ghost ts = tables(polys@);
        let mut out: Vec<Fr> = Vec::new();
        let mut i: usize = 0;
        assert(vals(out@) =~= concat(ts.take(0)));
        while i < polys.len()
            invariant
                i <= polys.len(),
                ts == tables(polys@),
                vals(out@) == concat(ts.take(i as int)),
            decreases polys.len() - i,
        {
            let z = &polys[i].z;
            let mut k: usize = 0;
            assert(vals(out@) =~= concat(ts.take(i as int)) + ts[i as int].take(0));
            while k < z.len()
                invariant
                    k <= z.len(),
                    i < polys.len(),
                    z == polys@[i as int].z,
                    ts == tables(polys@),
                    vals(out@) == concat(ts.take(i as int)) + ts[i as int].take(k as int),
                decreases z.len() - k,
            {
                let ghost before = out@;
                out.push(z[k]);
                assert(vals(out@) =~= vals(before).push(z@[k as int]@));
                assert(ts[i as int].take(k + 1) =~= ts[i as int].take(k as int).push(z@[k as int]@));
                assert(vals(out@) =~= concat(ts.take(i as int)) + ts[i as int].take(k + 1));
                k = k + 1;
            }
            assert(ts[i as int].take(z.len() as int) =~= ts[i as int]);
            assert(ts.take(i + 1).drop_last() =~= ts.take(i as int));
            i = i + 1;
        }
        assert(ts.take(polys.len() as int) =~= ts);
        DensePolynomial::new(out)
    }
}

} // verus!
