//! The equality-based subtable strategy: one subtable per chunk, the table of
//! the equality polynomial at that chunk's point, combined by multiplication.

use vstd::prelude::*;
use vstd::arithmetic::power2::*;
use crate::field::{fprod, vals, Fr};
use crate::eq_poly::{eq_eval, eq_table, lemma_eq_table_len, lemma_table_matches_eval, EqPolynomial};
use crate::strategy::{points, points_in_field, SubtableStrategy};

verus! {

/// The equality-based ("Spark") strategy over `C` chunks of `M` entries each.
/// Its operations are associated functions; the chunk count and table size are
/// passed to them.
pub enum SparkSubtableStrategy {
    /// Subtables are equality-polynomial tables, combined by multiplication.
    Equality,
}

impl SubtableStrategy for SparkSubtableStrategy {
    open spec fn spec_num_subtables(c: nat) -> nat {
        c
    }

    open spec fn spec_num_memories(c: nat) -> nat {
        c
    }

    open spec fn spec_subtable_of(i: nat) -> nat {
        i
    }

    open spec fn spec_dimension_of(i: nat) -> nat {
        i
    }

    /// Each chunk's point has `log2(m)` coordinates.
    open spec fn spec_points_fit(r: Seq<Seq<int>>, m: nat) -> bool {
        forall|i: int| 0 <= i < r.len() ==> pow2(#[trigger] r[i].len()) == m
    }

    open spec fn spec_subtable(r: Seq<Seq<int>>, j: int) -> Seq<int> {
        eq_table(r[j])
    }

    open spec fn spec_point_fits(r: Seq<Seq<int>>, j: int, n: nat) -> bool {
        n == r[j].len()
    }

    open spec fn spec_subtable_mle(r: Seq<Seq<int>>, j: int, x: Seq<int>) -> int {
        eq_eval(r[j], x)
    }

    /// The product of the values.
    open spec fn spec_combine(v: Seq<int>) -> int {
        fprod(v)
    }

    /// A product of `c` values has degree `c`.
    open spec fn spec_g_degree(c: nat) -> nat {
        c
    }

    proof fn lemma_memory_maps_in_range(c: nat, i: nat) {
    }

    proof fn lemma_subtable_mle_on_hypercube(r: Seq<Seq<int>>, m: nat, j: int, n: nat, k: int) {
        assert(pow2(r[j].len()) == m);
        lemma_eq_table_len(r[j]);
        lemma_table_matches_eval(r[j], k);
    }

    fn num_subtables(c: usize) -> (n: usize) {
        c
    }

    fn num_memories(c: usize) -> (n: usize) {
        c
    }

    fn materialize_subtables(m: usize, r: &Vec<Vec<Fr>>) -> (t: Vec<Vec<Fr>>) {
        let ghost pts = points(r@);
        let mut t: Vec<Vec<Fr>> = Vec::new();
        let mut i: usize = 0;
        while i < r.len()
            invariant
                i <= r.len(),
                pts == points(r@),
                Self::spec_points_fit(pts, m as nat),
                t.len() == i,
                forall|j: int|
                    0 <= j < i ==> (#[trigger] t@[j]).len() == m && vals(t@[j]@) == eq_table(
                        pts[j],
                    ),
            decreases r.len() - i,
        {
            let ri = r[i].clone();
            assert(ri@ =~= r@[i as int]@);
            let evals = EqPolynomial::new(ri).evals();
            assert(pow2(pts[i as int].len()) == m);
            t.push(evals);
            i = i + 1;
        }
        t
    }

    fn memory_to_subtable_index(memory_index: usize) -> (i: usize) {
        memory_index
    }

    fn memory_to_dimension_index(memory_index: usize) -> (i: usize) {
        memory_index
    }

    fn evaluate_subtable_mle(subtable_index: usize, r: &Vec<Vec<Fr>>, point: &Vec<Fr>) -> (v:
        Fr) {
        let ri = r[subtable_index].clone();
        assert(ri@ =~= r@[subtable_index as int]@);
        EqPolynomial::new(ri).evaluate(point)
    }

    fn combine_lookups(vals_at_step: &Vec<Fr>) -> (v: Fr) {
        let ghost s = vals(vals_at_step@);
        let mut acc = Fr::one();
        let mut i: usize = 0;
        assert(s.take(0) =~= Seq::<int>::empty());
        while i < vals_at_step.len()
            invariant
                i <= vals_at_step.len(),
                s == vals(vals_at_step@),
                acc@ == fprod(s.take(i as int)),
            decreases vals_at_step.len() - i,
        {
            assert(s.take(i + 1).drop_last() =~= s.take(i as int));
            acc = acc.mul(&vals_at_step[i]);
            i = i + 1;
        }
        assert(s.take(vals_at_step.len() as int) =~= s);
        acc
    }

    fn g_poly_degree(c: usize) -> (d: usize) {
        c
    }
}

} // verus!
