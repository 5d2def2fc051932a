//! The contract that every subtable strategy meets: how many subtables and
//! memories there are, how memories map onto subtables and chunks, how a
//! subtable is materialized and evaluated, and how per-memory values combine.

use vstd::prelude::*;
use vstd::arithmetic::power2::*;
use crate::field::{in_field, vals, Fr};
use crate::eq_poly::bits;

verus! {

/// The field values of each chunk's evaluation point.
pub open spec fn points(r: Seq<Vec<Fr>>) -> Seq<Seq<int>> {
    r.map_values(|v: Vec<Fr>| vals(v@))
}

/// Every coordinate of every point is a field value.
pub open spec fn points_in_field(r: Seq<Seq<int>>) -> bool {
    forall|i: int| 0 <= i < r.len() ==> in_field(#[trigger] r[i])
}

pub proof fn lemma_points_in_field(r: Seq<Vec<Fr>>)
    ensures
        points(r).len() == r.len(),
        points_in_field(points(r)),
{
    assert forall|i: int| 0 <= i < points(r).len() implies in_field(#[trigger] points(r)[i]) by {
        crate::field::lemma_vals_in_field(r[i]@);
    }
}

/// A family of subtables over `c` chunks, each chunk with its own evaluation
/// point.
pub trait SubtableStrategy {
    /// Number of distinct subtables for `c` chunks.
    spec fn spec_num_subtables(c: nat) -> nat;

    /// Number of memories reading those subtables for `c` chunks.
    spec fn spec_num_memories(c: nat) -> nat;

    /// The subtable that memory `i` reads.
    spec fn spec_subtable_of(i: nat) -> nat;

    /// The chunk whose lookup indices memory `i` follows.
    spec fn spec_dimension_of(i: nat) -> nat;

    /// The chunk points `r` suit subtables of `m` entries.
    spec fn spec_points_fit(r: Seq<Seq<int>>, m: nat) -> bool;

    /// The entries of subtable `j` for the chunk points `r`.
    spec fn spec_subtable(r: Seq<Seq<int>>, j: int) -> Seq<int>;

    /// Subtable `j` is a multilinear polynomial in `n` variables.
    spec fn spec_point_fits(r: Seq<Seq<int>>, j: int, n: nat) -> bool;

    /// The multilinear extension of subtable `j` at `x`.
    spec fn spec_subtable_mle(r: Seq<Seq<int>>, j: int, x: Seq<int>) -> int;

    /// The combination of the values that the memories read at one step.
    spec fn spec_combine(v: Seq<int>) -> int;

    /// The degree of `spec_combine` as a polynomial in its inputs.
    spec fn spec_g_degree(c: nat) -> nat;

    /// Memories map to subtables and chunks that exist.
    proof fn lemma_memory_maps_in_range(c: nat, i: nat)
        requires
            i < Self::spec_num_memories(c),
        ensures
            Self::spec_subtable_of(i) < Self::spec_num_subtables(c),
            Self::spec_dimension_of(i) < c,
    ;

    /// The multilinear extension of a subtable takes the subtable's entries on
    /// the hypercube, most significant variable first.
    proof fn lemma_subtable_mle_on_hypercube(r: Seq<Seq<int>>, m: nat, j: int, n: nat, k: int)
        requires
            points_in_field(r),
            Self::spec_points_fit(r, m),
            0 <= j < Self::spec_num_subtables(r.len()),
            Self::spec_point_fits(r, j, n),
            0 <= k < pow2(n),
        ensures
            pow2(n) == m,
            Self::spec_subtable(r, j).len() == m,
            Self::spec_subtable_mle(r, j, bits(k, n)) == Self::spec_subtable(r, j)[k],
    ;

    fn num_subtables(c: usize) -> (n: usize)
        ensures
            n == Self::spec_num_subtables(c as nat),
    ;

    fn num_memories(c: usize) -> (n: usize)
        ensures
            n == Self::spec_num_memories(c as nat),
    ;

    /// The dense table of every subtable.
    fn materialize_subtables(m: usize, r: &Vec<Vec<Fr>>) -> (t: Vec<Vec<Fr>>)
        requires
            Self::spec_points_fit(points(r@), m as nat),
        ensures
            t.len() == Self::spec_num_subtables(r.len() as nat),
            forall|j: int|
                0 <= j < t.len() ==> (#[trigger] t@[j]).len() == m && vals(t@[j]@)
                    == Self::spec_subtable(points(r@), j),
    ;

    fn memory_to_subtable_index(memory_index: usize) -> (i: usize)
        ensures
            i == Self::spec_subtable_of(memory_index as nat),
    ;

    fn memory_to_dimension_index(memory_index: usize) -> (i: usize)
        ensures
            i == Self::spec_dimension_of(memory_index as nat),
    ;

    /// The multilinear extension of subtable `subtable_index` at `point`,
    /// computed from the chunk points without materializing the table.
    fn evaluate_subtable_mle(subtable_index: usize, r: &Vec<Vec<Fr>>, point: &Vec<Fr>) -> (v:
        Fr)
        requires
            subtable_index < Self::spec_num_subtables(r.len() as nat),
            Self::spec_point_fits(points(r@), subtable_index as int, point.len() as nat),
        ensures
            v@ == Self::spec_subtable_mle(points(r@), subtable_index as int, vals(point@)),
    ;

    /// One value from the values that the memories read at one step.
    fn combine_lookups(vals_at_step: &Vec<Fr>) -> (v: Fr)
        ensures
            v@ == Self::spec_combine(vals(vals_at_step@)),
    ;

    fn g_poly_degree(c: usize) -> (d: usize)
        ensures
            d == Self::spec_g_degree(c as nat),
    ;
}

} // verus!
