//! Lattice points on the circle of radius sqrt(r), and their total over
//! all radii up to a bound.

use vstd::prelude::*;
use crate::character::{
    lemma_chi_powers_sum, power, sum_chi, sum_chi_spec,
};
use crate::factorize::{
    factor_powers, factorization_of, factorize, is_prime, is_prime_factorization,
};
use crate::seq_arith::{
    lemma_prefix_prod_le, lemma_prod_nonneg, lemma_prod_permutation, lemma_sum_permutation, seq_prod,
    seq_sum,
};
use rayon::iter::{IntoParallelIterator, ParallelIterator};

verus! {

/// The sums of chi over the powers of each prime of a factorization.
pub open spec fn prime_sums(f: Seq<(u32, u32)>) -> Seq<int> {
    f.map_values(|pe: (u32, u32)| sum_chi_spec(pe.0 as int, pe.1 as nat))
}

/// The number of lattice points (x, y) with x^2 + y^2 = n: four times the
/// product of the prime sums over the prime factorization of `n`.
pub open spec fn lattice_points_spec(n: nat) -> int {
    4 * seq_prod(prime_sums(factorization_of(n)))
}

/// p^e >= 2 for a base of at least 2 and a positive exponent.
proof fn lemma_power_at_least_two(p: int, e: nat)
    requires
        p >= 2,
        e >= 1,
    ensures
        power(p, e) >= 2,
        2 * (e + 1) <= power(p, e) || p < 5,
    decreases e,
{
    assert(power(p, 1) == p) by {
        assert(power(p, 0) == 1);
    }
    if e > 1 {
        let j = (e - 1) as nat;
        lemma_power_at_least_two(p, j);
        let a = power(p, j);
        assert(power(p, e) == a * p);
        assert(a * p >= 2) by (nonlinear_arith)
            requires
                a >= 2,
                p >= 2,
        ;
        assert(p >= 5 ==> 2 * (e + 1) <= a * p) by (nonlinear_arith)
            requires
                a >= 2,
                p >= 5 ==> 2 * (j + 1) <= a,
                e == j + 1,
        ;
    }
}

/// For a base p >= 2 and an exponent e >= 1 the prime sum is non-negative
/// and at most half of p^e.
proof fn lemma_prime_sum_bound(p: int, e: nat)
    requires
        p >= 2,
        e >= 1,
    ensures
        0 <= sum_chi_spec(p, e),
        2 * sum_chi_spec(p, e) <= power(p, e),
{
    lemma_chi_powers_sum(p, e + 1);
    lemma_power_at_least_two(p, e);
    assert(p % 4 == 1 ==> p >= 5);
}

/// Over a sequence of (base, exponent) pairs with bases >= 2 and positive
/// exponents, the product of the prime sums is non-negative, at most the
/// product of the powers, and at most half of it when the sequence is not
/// empty.
proof fn lemma_prime_sums_bound(f: Seq<(u32, u32)>)
    requires
        forall|i: int| 0 <= i < f.len() ==> #[trigger] f[i].0 >= 2 && f[i].1 >= 1,
    ensures
        0 <= seq_prod(prime_sums(f)) <= seq_prod(factor_powers(f)),
        f.len() >= 1 ==> 2 * seq_prod(prime_sums(f)) <= seq_prod(factor_powers(f)),
    decreases f.len(),
{
    if f.len() > 0 {
        let g = f.drop_last();
        assert(prime_sums(f).drop_last() =~= prime_sums(g));
        assert(factor_powers(f).drop_last() =~= factor_powers(g));
        lemma_prime_sums_bound(g);
        let (p, e) = f.last();
        lemma_prime_sum_bound(p as int, e as nat);
        let a = seq_prod(prime_sums(g));
        let b = seq_prod(factor_powers(g));
        let s = sum_chi_spec(p as int, e as nat);
        let q = power(p as int, e as nat);
        assert(0 <= a * s <= b * q && 2 * (a * s) <= b * q) by (nonlinear_arith)
            requires
                0 <= a <= b,
                0 <= s,
                2 * s <= q,
        ;
    }
}

/// A factorization has bases of at least 2 and positive exponents, and its
/// prime powers are all at least 1.
proof fn lemma_factorization_shape(n: int, f: Seq<(u32, u32)>)
    requires
        is_prime_factorization(n, f),
    ensures
        forall|i: int| 0 <= i < f.len() ==> #[trigger] f[i].0 >= 2 && f[i].1 >= 1,
        forall|k: int| 0 <= k < f.len() ==> #[trigger] factor_powers(f)[k] >= 1,
{
    assert forall|i: int| 0 <= i < f.len() implies #[trigger] f[i].0 >= 2 && f[i].1 >= 1 by {
        assert(is_prime(f[i].0 as int));
    }
    assert forall|k: int| 0 <= k < f.len() implies #[trigger] factor_powers(f)[k] >= 1 by {
        assert(is_prime(f[k].0 as int));
        lemma_power_at_least_two(f[k].0 as int, f[k].1 as nat);
    }
}

/// The lattice-point count of radius 1 is 4, and of a radius n >= 2 it is
/// at most 2n.
pub proof fn lemma_lattice_points_bound(n: nat)
    requires
        n >= 1,
        is_prime_factorization(n as int, factorization_of(n)),
    ensures
        n == 1 ==> lattice_points_spec(n) == 4,
        n >= 2 ==> 0 <= lattice_points_spec(n) <= 2 * n,
        0 <= lattice_points_spec(n),
{
    let f = factorization_of(n);
    lemma_factorization_shape(n as int, f);
    lemma_prime_sums_bound(f);
    if f.len() == 0 {
        assert(prime_sums(f) =~= Seq::<int>::empty());
        assert(factor_powers(f) =~= Seq::<int>::empty());
        assert(seq_prod(prime_sums(f)) == 1);
    } else {
        let w = factor_powers(f);
        lemma_prefix_prod_le(w, 1);
        assert(w.subrange(0, 1).drop_last() =~= Seq::<int>::empty());
        lemma_power_at_least_two(f[0].0 as int, f[0].1 as nat);
        assert(seq_prod(w.subrange(0, 1).drop_last()) == 1);
        assert(w.subrange(0, 1).last() == w[0]);
        assert(seq_prod(w.subrange(0, 1)) == w[0]);
        assert(seq_prod(w) >= 2);
        assert(n != 1);
    }
}

/// An upper bound of the lattice-point count of radius `n`: 4 for radius
/// 1, and 2n beyond.
pub open spec fn lattice_points_cap(n: nat) -> int {
    if n <= 1 {
        4
    } else {
        2 * n as int
    }
}

/// Counts the lattice points on the circle whose squared radius has the
/// factorization `factors`: four times the product of the prime sums.
pub fn num_latice_points_of_factors(factors: &Vec<(u32, u32)>) -> (r: u64)
    requires
        forall|j: int| 0 <= j < factors@.len() ==> #[trigger] factors@[j].0 >= 2 && factors@[j].1 >= 1,
        seq_prod(factor_powers(factors@)) <= u32::MAX,
    ensures
        r as int == 4 * seq_prod(prime_sums(factors@)),
{
    let ghost f = factors@;
    assert forall|k: int| 0 <= k < f.len() implies #[trigger] factor_powers(f)[k] >= 1 by {
        lemma_power_at_least_two(f[k].0 as int, f[k].1 as nat);
    }
    let mut points: u64 = 1;
    let mut i: usize = 0;
    while i < factors.len()
        invariant
            f == factors@,
            forall|j: int| 0 <= j < f.len() ==> #[trigger] f[j].0 >= 2 && f[j].1 >= 1,
            forall|k: int| 0 <= k < f.len() ==> #[trigger] factor_powers(f)[k] >= 1,
            seq_prod(factor_powers(f)) <= u32::MAX,
            i <= f.len(),
            points as int == seq_prod(prime_sums(f.subrange(0, i as int))),
            points <= u32::MAX,
        decreases f.len() - i,
    {
        let (prime, pow) = factors[i];
        let s: u64 = sum_chi(prime, pow);
        proof {
            let g = f.subrange(0, i + 1);
            assert(g.drop_last() =~= f.subrange(0, i as int));
            assert(prime_sums(g).drop_last() =~= prime_sums(f.subrange(0, i as int)));
            assert(factor_powers(g) =~= factor_powers(f).subrange(0, i + 1));
            lemma_prime_sums_bound(g);
            lemma_prefix_prod_le(factor_powers(f), i + 1);
        }
        points = points * s;
        i = i + 1;
    }
    proof {
        assert(f.subrange(0, f.len() as int) =~= f);
    }
    4 * points
}

/// Counts the lattice points (x, y) with x^2 + y^2 = n.
pub fn num_latice_points_sqrtn(n: u32) -> (r: u64)
    requires
        n >= 1,
    ensures
        r as int == lattice_points_spec(n as nat),
        r <= lattice_points_cap(n as nat),
{
    let factors = factorize(n);
    proof {
        lemma_factorization_shape(n as int, factors@);
        lemma_lattice_points_bound(n as nat);
    }
    num_latice_points_of_factors(&factors)
}

/// The lattice-point counts of the radii 1, 2, ..., n, in this order.
pub open spec fn radius_counts(n: nat) -> Seq<int> {
    Seq::new(n, |i: int| lattice_points_spec((i + 1) as nat))
}

/// The total number of lattice points over all radii 1..=n.
pub open spec fn total_spec(n: nat) -> int {
    seq_sum(radius_counts(n))
}

/// Adding radius k + 1 adds its lattice-point count to the total.
pub proof fn lemma_total_step(k: nat)
    ensures
        total_spec(k + 1) == total_spec(k) + lattice_points_spec(k + 1),
        total_spec(0) == 0,
{
    assert(radius_counts(0) =~= Seq::<int>::empty());
    assert(radius_counts(k + 1).drop_last() =~= radius_counts(k));
}

/// The number of radii handed to the workers at once.
const BLOCK: u32 = 65536;

/// Relies on rayon: `into_par_iter` over the range `lo..hi` of `u32` is an
/// indexed parallel iterator, and `collect` into a `Vec` keeps the order of
/// the range; each item is what `num_latice_points_sqrtn` returns for its
/// radius.
#[verifier::external_body]
fn par_lattice_points(lo: u32, hi: u32) -> (r: Vec<u64>)
    requires
        1 <= lo <= hi,
    ensures
        r@.len() == hi - lo,
        forall|i: int|
            0 <= i < r@.len() ==> #[trigger] r@[i] as int == lattice_points_spec((lo + i) as nat)
                && r@[i] <= lattice_points_cap((lo + i) as nat),
{
    (lo..hi).into_par_iter().map(|rad| num_latice_points_sqrtn(rad)).collect()
}

/// Adds the count of radius k + 1 to a total over the radii 1..=k, keeping
/// the total within (k + 1)(k + 2) + 2.
proof fn lemma_total_add(k: nat, total: int, c: int)
    requires
        0 <= total <= k * (k + 1) + 2,
        0 <= c <= lattice_points_cap(k + 1),
        k == 0 ==> total == 0,
    ensures
        0 <= total + c <= (k + 1) * (k + 2) + 2,
{
    assert(k * (k + 1) + 2 * (k + 1) == (k + 1) * (k + 2)) by (nonlinear_arith);
}

/// (k + 1)(k + 2) + 2 stays within u64 for every k + 1 within u32.
proof fn lemma_total_fits(k: nat)
    requires
        k + 1 <= u32::MAX,
    ensures
        (k + 1) * (k + 2) + 2 <= u64::MAX,
{
    assert((k + 1) * (k + 2) <= 4294967295 * 4294967296) by (nonlinear_arith)
        requires
            k + 1 <= 4294967295,
    ;
}

/// Counts the lattice points over all radii 1..=n, that is the integer
/// points (x, y) with 1 <= x^2 + y^2 <= n.
///
/// The radii are counted in parallel blocks; the integer total is exact.
pub fn num_latice_points_in_circle_sqrtn(n: u32) -> (r: u64)
    ensures
        r as int == total_spec(n as nat),
{
    proof {
        lemma_total_step(0);
    }
    if n == 0 {
        return 0;
    }
    let mut total: u64 = 0;
    let mut lo: u32 = 1;
    // Blocks lo..hi cover the radii below n; the radius n itself comes last,
    // so that no block end passes u32::MAX.
    while lo < n
        invariant
            1 <= lo <= n,
            total as int == total_spec((lo - 1) as nat),
            total <= (lo - 1) * lo + 2,
        decreases n - lo,
    {
        let hi: u32 = if n - lo > BLOCK {
            lo + BLOCK
        } else {
            n
        };
        let counts = par_lattice_points(lo, hi);
        let mut j: usize = 0;
        while j < counts.len()
            invariant
                1 <= lo < hi <= n,
                counts@.len() == hi - lo,
                forall|i: int|
                    0 <= i < counts@.len() ==> #[trigger] counts@[i] as int == lattice_points_spec(
                        (lo + i) as nat,
                    ) && counts@[i] <= lattice_points_cap((lo + i) as nat),
                j <= counts@.len(),
                total as int == total_spec((lo - 1 + j) as nat),
                total <= (lo - 1 + j) * (lo + j) + 2,
            decreases counts@.len() - j,
        {
            let c: u64 = counts[j];
            proof {
                let k = (lo - 1 + j) as nat;
                lemma_total_step(k);
                lemma_total_add(k, total as int, c as int);
                lemma_total_fits(k);
            }
            total = total + c;
            j = j + 1;
        }
        lo = hi;
    }
    let c: u64 = num_latice_points_sqrtn(n);
    proof {
        let k = (n - 1) as nat;
        lemma_total_step(k);
        lemma_total_add(k, total as int, c as int);
        lemma_total_fits(k);
    }
    total + c
}

/// Every lattice-point count is non-negative.
pub proof fn lemma_lattice_points_nonneg(n: nat)
    ensures
        lattice_points_spec(n) >= 0,
{
    let s = prime_sums(factorization_of(n));
    assert forall|k: int| 0 <= k < s.len() implies #[trigger] s[k] >= 0 by {
        let pe = factorization_of(n)[k];
        lemma_chi_powers_sum(pe.0 as int, pe.1 as nat + 1);
    }
    lemma_prod_nonneg(s);
}

/// The total never decreases when the bound on the radius grows by one.
pub proof fn lemma_total_monotone(n: nat)
    ensures
        total_spec(n) <= total_spec(n + 1),
{
    lemma_total_step(n);
    lemma_lattice_points_nonneg(n + 1);
}

/// The order in which the per-prime sums of one radius are multiplied does
/// not change its lattice-point count.
pub proof fn lemma_lattice_points_order_independent(n: nat, t: Seq<int>)
    requires
        t.to_multiset() == prime_sums(factorization_of(n)).to_multiset(),
    ensures
        4 * seq_prod(t) == lattice_points_spec(n),
{
    lemma_prod_permutation(prime_sums(factorization_of(n)), t);
}

/// The order in which the per-radius counts are added does not change the
/// total.
pub proof fn lemma_total_order_independent(n: nat, t: Seq<int>)
    requires
        t.to_multiset() == radius_counts(n).to_multiset(),
    ensures
        seq_sum(t) == total_spec(n),
{
    lemma_sum_permutation(radius_counts(n), t);
}

/// Two runs of the total for the same bound give the same value: the result
/// depends on the bound alone.
pub proof fn lemma_total_idempotent(n: u32, r1: u64, r2: u64)
    requires
        r1 as int == total_spec(n as nat),
        r2 as int == total_spec(n as nat),
    ensures
        r1 == r2,
{
}

} // verus!
