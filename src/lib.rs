//! Table decomposition for lookup arguments: equality polynomials over a prime
//! field, the equality-based ("Spark") subtable strategy, and the container that
//! materializes subtables and merges the per-memory lookup polynomials.

pub mod field;
pub mod eq_poly;
pub mod dense;
pub mod strategy;
pub mod spark;
pub mod subtables;

