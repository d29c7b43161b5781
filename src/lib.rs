//! Approximating pi by counting integer lattice points inside circles.
//!
//! The number of lattice points on the circle of radius sqrt(r) is four
//! times the product, over the prime factorization of r, of the sums of the
//! non-principal character modulo 4 over the powers of each prime.

pub mod character;
pub mod seq_arith;
pub mod factorize;
pub mod lattice;
