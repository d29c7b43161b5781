//! Prime factorization, obtained from the `prime_factorization` crate.

use vstd::prelude::*;
use crate::character::power;
use crate::seq_arith::seq_prod;

verus! {

/// `p` is a prime number.
pub open spec fn is_prime(p: int) -> bool {
    p >= 2 && forall|d: int| 2 <= d < p ==> #[trigger] (p % d) != 0
}

/// The prime powers p^e of a factorization given as (p, e) pairs.
pub open spec fn factor_powers(f: Seq<(u32, u32)>) -> Seq<int> {
    f.map_values(|pe: (u32, u32)| power(pe.0 as int, pe.1 as nat))
}

/// `f` lists distinct primes in ascending order, each with a positive
/// exponent, and the product of the prime powers is `n`.
pub open spec fn is_prime_factorization(n: int, f: Seq<(u32, u32)>) -> bool {
    &&& forall|i: int| 0 <= i < f.len() ==> is_prime(#[trigger] f[i].0 as int) && f[i].1 >= 1
    &&& forall|i: int, j: int| 0 <= i < j < f.len() ==> #[trigger] f[i].0 < #[trigger] f[j].0
    &&& seq_prod(factor_powers(f)) == n
}

/// The prime factorization of `n` as the factorizer reports it: (prime,
/// exponent) pairs in ascending order of the primes.
pub uninterp spec fn factorization_of(n: nat) -> Seq<(u32, u32)>;

/// Relies on `prime_factorization::Factorization::run` followed by
/// `Factorization::prime_factor_repr`: the distinct primes of `n` in
/// ascending order, each with its multiplicity, and nothing for `n == 1`.
/// A prime factorization is unique, so the result depends on `n` alone.
#[verifier::external_body]
pub(crate) fn factorize(n: u32) -> (r: Vec<(u32, u32)>)
    requires
        n >= 1,
    ensures
        r@ == factorization_of(n as nat),
        is_prime_factorization(n as int, r@),
{
    prime_factorization::Factorization::run(n).prime_factor_repr()
}

} // verus!
