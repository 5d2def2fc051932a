//! The container that materializes the subtables once, reads them along each
//! memory's lookup indices, and merges the results into one dense polynomial.

use vstd::prelude::*;
use vstd::arithmetic::power2::*;
use vstd::arithmetic::mul::*;
use crate::field::{vals, Fr};
use crate::dense::{concat, fits_tightly, padded, tables, DensePolynomial};
use crate::strategy::{points, SubtableStrategy};

verus! {

/// The first `s` entries of `t` read at the indices `idx`.
pub open spec fn lookups(t: Seq<int>, idx: Seq<usize>, s: nat) -> Seq<int> {
    Seq::new(s, |k: int| t[idx[k] as int])
}

/// The values that the memories read at step `k`, one per memory.
pub open spec fn column(polys: Seq<DensePolynomial>, k: int) -> Seq<int> {
    Seq::new(polys.len(), |i: int| vals(polys[i].z@)[k])
}

/// Lookup indices: one stream of `s` indices per chunk, each below `m`.
pub open spec fn streams_fit(nz: Seq<Vec<usize>>, m: nat, s: nat) -> bool {
    forall|i: int|
        0 <= i < nz.len() ==> #[trigger] nz[i].len() == s && (forall|k: int|
            0 <= k < s ==> (#[trigger] nz[i]@[k]) < m)
}

/// At most one number of variables fits a length tightly.
pub proof fn lemma_fits_tightly_unique(len: nat, a: nat, b: nat)
    requires
        fits_tightly(len, a),
        fits_tightly(len, b),
    ensures
        a == b,
{
    if a < b {
        if a < b - 1 {
            lemma_pow2_strictly_increases(a, (b - 1) as nat);
        }
    } else if b < a {
        if b < a - 1 {
            lemma_pow2_strictly_increases(b, (a - 1) as nat);
        }
    }
}

/// A tight power of two is less than twice the length, plus one.
proof fn lemma_fits_tightly_bound(len: nat, n: nat)
    requires
        fits_tightly(len, n),
    ensures
        pow2(n) <= 2 * len + 1,
{
    lemma2_to64();
    if n > 0 {
        lemma_pow2_unfold(n);
    }
}

/// Tables of one common length `l` concatenate to `count * l` values.
proof fn lemma_concat_len(ts: Seq<Seq<int>>, l: nat)
    requires
        forall|i: int| 0 <= i < ts.len() ==> #[trigger] ts[i].len() == l,
    ensures
        concat(ts).len() == ts.len() * l,
    decreases ts.len(),
{
    if ts.len() > 0 {
        lemma_concat_len(ts.drop_last(), l);
        lemma_mul_is_distributive_add_other_way(l as int, (ts.len() - 1) as int, 1);
    }
}

/// The materialized subtables of strategy `S`, the lookup polynomial of each
/// memory, and their merge.
pub struct Subtables<S: SubtableStrategy> {
    pub subtable_entries: Vec<Vec<Fr>>,
    pub lookup_polys: Vec<DensePolynomial>,
    pub combined_poly: DensePolynomial,
    pub num_steps: usize,
    pub strategy: core::marker::PhantomData<S>,
}

/// The values memory `i` of strategy `S` reads over `s` steps.
pub open spec fn memory_lookups<S: SubtableStrategy>(
    r: Seq<Seq<int>>,
    nz: Seq<Vec<usize>>,
    i: nat,
    s: nat,
) -> Seq<int> {
    lookups(
        S::spec_subtable(r, S::spec_subtable_of(i) as int),
        nz[S::spec_dimension_of(i) as int]@,
        s,
    )
}

impl<S: SubtableStrategy> Subtables<S> {
    /// Every lookup polynomial holds a value for each step.
    pub open spec fn wf(&self) -> bool {
        forall|i: int|
            0 <= i < self.lookup_polys.len() ==> #[trigger] self.lookup_polys@[i].z.len()
                >= self.num_steps
    }

    /// Builds the container from the lookup indices `nz` (one stream of `s`
    /// indices per chunk, `s` being the number of steps), the evaluation
    /// points `r` (one per chunk), and the subtable size `m`.
    pub fn new(nz: &Vec<Vec<usize>>, r: &Vec<Vec<Fr>>, m: usize, s: usize) -> (st: Subtables<S>)
        requires
            nz.len() == r.len(),
            S::spec_points_fit(points(r@), m as nat),
            streams_fit(nz@, m as nat, s as nat),
            s <= usize::MAX / 4,
            S::spec_num_memories(r.len() as nat) * (2 * s + 1) <= usize::MAX / 2,
        ensures
            st.wf(),
            st.num_steps == s,
            st.subtable_entries.len() == S::spec_num_subtables(r.len() as nat),
            forall|j: int|
                0 <= j < st.subtable_entries.len() ==> vals((#[trigger] st.subtable_entries@[j])@)
                    == S::spec_subtable(points(r@), j),
            st.lookup_polys.len() == S::spec_num_memories(r.len() as nat),
            forall|i: int|
                0 <= i < st.lookup_polys.len() ==> {
                    let d = #[trigger] st.lookup_polys@[i];
                    &&& d.wf()
                    &&& fits_tightly(s as nat, d.num_vars as nat)
                    &&& vals(d.z@) == padded(
                        memory_lookups::<S>(points(r@), nz@, i as nat, s as nat),
                        d.num_vars as nat,
                    )
                },
            st.combined_poly.wf(),
            fits_tightly(concat(tables(st.lookup_polys@)).len(), st.combined_poly.num_vars as nat),
            vals(st.combined_poly.z@) == padded(
                concat(tables(st.lookup_polys@)),
                st.combined_poly.num_vars as nat,
            ),
    {
        let ghost pts = points(r@);
        let subtable_entries = S::materialize_subtables(m, r);
        let c = S::num_memories(r.len());
        let mut lookup_polys: Vec<DensePolynomial> = Vec::new();
        let mut i: usize = 0;
        while i < c
            invariant
                pts == points(r@),
                c == S::spec_num_memories(r.len() as nat),
                i <= c,
                nz.len() == r.len(),
                s <= usize::MAX / 4,
                streams_fit(nz@, m as nat, s as nat),
                subtable_entries.len() == S::spec_num_subtables(r.len() as nat),
                forall|j: int|
                    0 <= j < subtable_entries.len() ==> (#[trigger] subtable_entries@[j]).len() == m,
                forall|j: int|
                    0 <= j < subtable_entries.len() ==> vals((#[trigger] subtable_entries@[j])@)
                        == S::spec_subtable(pts, j),
                lookup_polys.len() == i,
                forall|j: int|
                    0 <= j < i ==> {
                        let d = #[trigger] lookup_polys@[j];
                        &&& d.wf()
                        &&& fits_tightly(s as nat, d.num_vars as nat)
                        &&& vals(d.z@) == padded(
                            memory_lookups::<S>(pts, nz@, j as nat, s as nat),
                            d.num_vars as nat,
                        )
                    },
            decreases c - i,
        {
            let sub = S::memory_to_subtable_index(i);
            let dim = S::memory_to_dimension_index(i);
            proof {
                S::lemma_memory_maps_in_range(r.len() as nat, i as nat);
            }
            let table = &subtable_entries[sub];
            let idx = &nz[dim];
            assert(idx.len() == s && table.len() == m);
            let ghost want = memory_lookups::<S>(pts, nz@, i as nat, s as nat);
            let mut e: Vec<Fr> = Vec::new();
            let mut k: usize = 0;
            while k < s
                invariant
                    k <= s,
                    idx.len() == s,
                    table.len() == m,
                    forall|q: int| 0 <= q < s ==> (#[trigger] idx@[q]) < m,
                    want == lookups(vals(table@), idx@, s as nat),
                    e.len() == k,
                    forall|q: int| 0 <= q < k ==> #[trigger] e@[q]@ == want[q],
                decreases s - k,
            {
                e.push(table[idx[k]]);
                k = k + 1;
            }
            assert(vals(e@) =~= want);
            let d = DensePolynomial::new(e);
            lookup_polys.push(d);
            i = i + 1;
        }
        let ghost ts = tables(lookup_polys@);
        proof {
            if c > 0 {
                let n0 = lookup_polys@[0].num_vars as nat;
                assert forall|j: int| 0 <= j < ts.len() implies #[trigger] ts[j].len() == pow2(
                    n0,
                ) by {
                    lemma_fits_tightly_unique(
                        s as nat,
                        n0,
                        lookup_polys@[j].num_vars as nat,
                    );
                }
                lemma_concat_len(ts, pow2(n0));
                lemma_fits_tightly_bound(s as nat, n0);
                lemma_mul_inequality(pow2(n0) as int, 2 * s + 1, c as int);
                lemma_mul_is_commutative(c as int, pow2(n0) as int);
                lemma_mul_is_commutative(c as int, 2 * s + 1);
            } else {
                assert(ts =~= Seq::<Seq<int>>::empty());
            }
        }
        let combined_poly = DensePolynomial::merge(&lookup_polys);
        Subtables {
            subtable_entries,
            lookup_polys,
            combined_poly,
            num_steps: s,
            strategy: core::marker::PhantomData,
        }
    }

    /// For each step, the combination of the values that the memories read
    /// there.
    pub fn combined_lookups(&self) -> (g: Vec<Fr>)
        requires
            self.wf(),
        ensures
            g.len() == self.num_steps,
            forall|k: int|
                0 <= k < self.num_steps ==> (#[trigger] g@[k])@ == S::spec_combine(
                    column(self.lookup_polys@, k),
                ),
    {
        let mut g: Vec<Fr> = Vec::new();
        let mut k: usize = 0;
        while k < self.num_steps
            invariant
                self.wf(),
                k <= self.num_steps,
                g.len() == k,
                forall|q: int|
                    0 <= q < k ==> (#[trigger] g@[q])@ == S::spec_combine(
                        column(self.lookup_polys@, q),
                    ),
            decreases self.num_steps - k,
        {
            let mut col: Vec<Fr> = Vec::new();
            let mut i: usize = 0;
            while i < self.lookup_polys.len()
                invariant
                    self.wf(),
                    k < self.num_steps,
                    i <= self.lookup_polys.len(),
                    col.len() == i,
                    forall|q: int|
                        0 <= q < i ==> #[trigger] col@[q]@ == column(self.lookup_polys@, k as int)[q],
                decreases self.lookup_polys.len() - i,
            {
                assert(self.lookup_polys@[i as int].z.len() >= self.num_steps);
                col.push(self.lookup_polys[i].z[k]);
                i = i + 1;
            }
            assert(vals(col@) =~= column(self.lookup_polys@, k as int));
            let v = S::combine_lookups(&col);
            g.push(v);
            k = k + 1;
        }
        g
    }
}

} // verus!
