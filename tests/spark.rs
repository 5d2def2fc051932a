use spark_subtables::dense::DensePolynomial;
use spark_subtables::eq_poly::{index_to_field_bitvector, EqPolynomial};
use spark_subtables::field::{Fr, MODULUS};
use spark_subtables::spark::SparkSubtableStrategy;
use spark_subtables::strategy::SubtableStrategy;
use spark_subtables::subtables::Subtables;

fn fr(x: i64) -> Fr {
    Fr::from_i64(x)
}

fn sum(v: &[Fr]) -> Fr {
    let mut acc = Fr::zero();
    for x in v {
        acc = acc.add(x);
    }
    acc
}

#[test]
fn forms_valid_merged_dense_poly() {
    let log_m = 2;
    let r_x: Vec<Fr> = vec![fr(3), fr(4)];
    let r_y: Vec<Fr> = vec![fr(5), fr(6)];
    let eq_index_bits = 2;

    let subtable_evals = Subtables::<SparkSubtableStrategy>::new(&vec![vec![0, 2], vec![2, 2]], &vec![r_x, r_y], 1 << log_m, 2);

    for (x, expected) in vec![(0, 6), (1, -9), (2, -25), (3, -25)] {
        let calculated = subtable_evals
            .combined_poly
            .evaluate(&index_to_field_bitvector(x, eq_index_bits));
        assert_eq!(calculated, fr(expected));
    }
}

#[test]
fn field_arithmetic_wraps_modulo_order() {
    assert_eq!(fr(-1).value(), MODULUS - 1);
    assert_eq!(Fr::from_u64(MODULUS).value(), 0);
    assert_eq!(fr(2).sub(&fr(5)), fr(-3));
    assert_eq!(fr(-1).mul(&fr(-1)), Fr::one());
    assert_eq!(fr(-1).add(&fr(3)).value(), 2);
    assert_eq!(Fr { repr: MODULUS + 7 }, fr(7));
    assert_ne!(fr(7), fr(8));
}

#[test]
fn eq_evals_partition_of_unity() {
    for r in [vec![], vec![fr(3)], vec![fr(3), fr(4)], vec![fr(7), fr(-2), fr(11), fr(123456789)]] {
        let n = r.len();
        let evals = EqPolynomial::new(r).evals();
        assert_eq!(evals.len(), 1 << n);
        assert_eq!(sum(&evals), Fr::one());
    }
}

#[test]
fn eq_evals_bit_order_most_significant_first() {
    // eq(x, (3, 4)) at x = 00, 01, 10, 11
    let evals = EqPolynomial::new(vec![fr(3), fr(4)]).evals();
    assert_eq!(evals, vec![fr(6), fr(-8), fr(-9), fr(12)]);
    assert_eq!(EqPolynomial::new(vec![]).evals(), vec![Fr::one()]);
}

#[test]
fn eq_evaluate_matches_table_on_hypercube() {
    let r = vec![fr(5), fr(-6), fr(9)];
    let e = EqPolynomial::new(r);
    let evals = e.evals();
    for k in 0..8 {
        assert_eq!(e.evaluate(&index_to_field_bitvector(k, 3)), evals[k]);
    }
    // off the hypercube: (2*5 + (-1)(-4)) * (3*(-6) + (-2)(7)) * (0*9 + 1*(-8))
    let v = e.evaluate(&vec![fr(2), fr(3), fr(0)]);
    assert_eq!(v, fr(14 * -32 * -8));
}

#[test]
fn subtable_mle_agrees_with_eq_polynomial() {
    let r = vec![vec![fr(3), fr(4)], vec![fr(5), fr(6)]];
    let point = vec![fr(10), fr(-7)];
    for i in 0..2 {
        let direct = EqPolynomial::new(r[i].clone()).evaluate(&point);
        assert_eq!(SparkSubtableStrategy::evaluate_subtable_mle(i, &r, &point), direct);
    }
    // (10*3 + (-9)(-2)) * ((-7)*4 + 8*(-3))
    assert_eq!(SparkSubtableStrategy::evaluate_subtable_mle(0, &r, &point), fr(48 * -52));
}

#[test]
fn combiner_is_product_of_degree_c() {
    assert_eq!(SparkSubtableStrategy::combine_lookups(&vec![fr(2), fr(-3), fr(7)]), fr(-42));
    assert_eq!(SparkSubtableStrategy::combine_lookups(&vec![]), Fr::one());
    assert_eq!(SparkSubtableStrategy::g_poly_degree(3), 3);
    assert_eq!(SparkSubtableStrategy::num_subtables(4), 4);
    assert_eq!(SparkSubtableStrategy::num_memories(4), 4);
    assert_eq!(SparkSubtableStrategy::memory_to_subtable_index(5), 5);
    assert_eq!(SparkSubtableStrategy::memory_to_dimension_index(5), 5);
}

#[test]
fn materialized_lookups_match_direct_tables() {
    let r = vec![vec![fr(3), fr(4)], vec![fr(5), fr(6)]];
    let nz = vec![vec![0, 2, 3], vec![2, 2, 1]];
    let st = Subtables::<SparkSubtableStrategy>::new(&nz, &r, 4, 3);
    let tables = SparkSubtableStrategy::materialize_subtables(4, &r);
    assert_eq!(st.subtable_entries, tables);
    for i in 0..2 {
        let direct = EqPolynomial::new(r[i].clone()).evals();
        assert_eq!(st.lookup_polys[i].num_vars, 2);
        for s in 0..3 {
            assert_eq!(st.lookup_polys[i].z[s], direct[nz[i][s]]);
        }
        assert_eq!(st.lookup_polys[i].z[3], Fr::zero());
    }
    assert_eq!(st.combined_poly.num_vars, 3);
    assert_eq!(
        st.combined_poly.z,
        vec![fr(6), fr(-9), fr(12), fr(0), fr(-25), fr(-25), fr(-24), fr(0)]
    );
}

#[test]
fn combined_lookups_multiply_per_step() {
    let r = vec![vec![fr(3), fr(4)], vec![fr(5), fr(6)]];
    let st = Subtables::<SparkSubtableStrategy>::new(&vec![vec![0, 2], vec![2, 2]], &r, 4, 2);
    assert_eq!(st.combined_lookups(), vec![fr(6 * -25), fr(-9 * -25)]);
}

#[test]
fn dense_polynomial_pads_to_power_of_two() {
    let d = DensePolynomial::new(vec![fr(1), fr(2), fr(3)]);
    assert_eq!(d.num_vars, 2);
    assert_eq!(d.z, vec![fr(1), fr(2), fr(3), fr(0)]);
    let e = DensePolynomial::new(vec![]);
    assert_eq!(e.num_vars, 0);
    assert_eq!(e.z, vec![fr(0)]);
    // (1-x0)(1-x1)*1 + (1-x0)x1*2 + x0(1-x1)*3 at (2, 5): (-1)(-4) + (-1)(5)(2) + 2(-4)(3)
    assert_eq!(d.evaluate(&vec![fr(2), fr(5)]), fr(4 - 10 - 24));
}

#[test]
fn dense_polynomial_merge_concatenates() {
    let a = DensePolynomial::new(vec![fr(1), fr(2)]);
    let b = DensePolynomial::new(vec![fr(3), fr(4)]);
    let c = DensePolynomial::new(vec![fr(5), fr(6)]);
    let m = DensePolynomial::merge(&vec![a, b, c]);
    assert_eq!(m.num_vars, 3);
    assert_eq!(m.z, vec![fr(1), fr(2), fr(3), fr(4), fr(5), fr(6), fr(0), fr(0)]);
}

#[test]
fn bitvector_is_most_significant_first() {
    assert_eq!(index_to_field_bitvector(6, 3), vec![fr(1), fr(1), fr(0)]);
    assert_eq!(index_to_field_bitvector(1, 2), vec![fr(0), fr(1)]);
    assert_eq!(index_to_field_bitvector(5, 0), vec![]);
}
