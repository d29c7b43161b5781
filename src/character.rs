//! The character chi modulo 4 and its sums over the powers of one base.

use vstd::prelude::*;
use crate::seq_arith::{lemma_sum_permutation, seq_sum};
use vstd::arithmetic::div_mod::lemma_mul_mod_noop;

verus! {

/// chi(n) is 0 for even n, 1 for n = 1 (mod 4) and -1 for n = 3 (mod 4).
pub open spec fn chi_spec(n: int) -> int {
    if n % 2 == 0 {
        0
    } else if n % 4 == 1 {
        1
    } else {
        -1
    }
}

/// `b` raised to the power `e`.
pub open spec fn power(b: int, e: nat) -> int
    decreases e,
{
    if e == 0 {
        1
    } else {
        power(b, (e - 1) as nat) * b
    }
}

/// The terms chi(p^0), chi(p^1), ..., chi(p^(len - 1)).
pub open spec fn chi_powers(p: int, len: nat) -> Seq<int> {
    Seq::new(len, |k: int| chi_spec(power(p, k as nat)))
}

/// The sum of chi(p^k) over all k in 0..=max_pow.
pub open spec fn sum_chi_spec(p: int, max_pow: nat) -> int {
    seq_sum(chi_powers(p, max_pow + 1))
}

/// Computes chi(n) by looking at n mod 4 only.
pub fn chi(n: u32) -> (r: i8)
    ensures
        r as int == chi_spec(n as int),
{
    let n_rem_4: u32 = n % 4;
    if n_rem_4 == 1 {
        1
    } else if n_rem_4 == 3 {
        -1
    } else {
        0
    }
}

/// The closed form of the sum of chi over the first `len` powers of `p`.
pub open spec fn chi_powers_sum_closed(p: int, len: nat) -> int {
    if len == 0 {
        0
    } else if p % 2 == 0 {
        1
    } else if p % 4 == 1 {
        len as int
    } else {
        (len % 2) as int
    }
}

/// The residue of a power modulo 4 follows from the residue of its base.
pub proof fn lemma_power_mod4(p: int, k: nat)
    ensures
        power(p, k + 1) % 4 == (power(p, k) % 4) * (p % 4) % 4,
        k >= 1 && p % 2 == 0 ==> power(p, k) % 2 == 0,
        p % 4 == 1 ==> power(p, k) % 4 == 1,
        p % 4 == 3 ==> power(p, k) % 4 == (if k % 2 == 0 { 1int } else { 3int }),
    decreases k,
{
    lemma_mul_mod_noop(power(p, k), p, 4);
    if k > 0 {
        let j = (k - 1) as nat;
        lemma_power_mod4(p, j);
        lemma_mul_mod_noop(power(p, j), p, 2);
        assert(power(p, k) == power(p, j) * p);
    }
}

/// Extending the prefix of powers by one term adds chi of the next power.
pub proof fn lemma_chi_powers_step(p: int, len: nat)
    ensures
        seq_sum(chi_powers(p, len + 1)) == seq_sum(chi_powers(p, len)) + chi_spec(power(p, len)),
{
    assert(chi_powers(p, len + 1).drop_last() =~= chi_powers(p, len));
}

/// The sum of chi over the first `len` powers of `p` has a closed form.
pub proof fn lemma_chi_powers_sum(p: int, len: nat)
    ensures
        seq_sum(chi_powers(p, len)) == chi_powers_sum_closed(p, len),
        0 <= seq_sum(chi_powers(p, len)) <= len,
    decreases len,
{
    if len > 0 {
        let j = (len - 1) as nat;
        lemma_chi_powers_sum(p, j);
        lemma_chi_powers_step(p, j);
        lemma_power_mod4(p, j);
    } else {
        assert(chi_powers(p, 0) =~= Seq::<int>::empty());
    }
}

/// Computes the sum of chi(prime^k) over all k in 0..=max_pow.
///
/// Only the residue of each power modulo 4 is kept, so no power is ever
/// formed in full and nothing overflows.
pub fn sum_chi(prime: u32, max_pow: u32) -> (r: u64)
    ensures
        r as int == sum_chi_spec(prime as int, max_pow as nat),
{
    let p_rem_4: u32 = prime % 4;
    let last: u64 = max_pow as u64;
    let mut k: u64 = 0;
    let mut q: u32 = 1;
    let mut acc: i64 = 0;
    while k <= last
        invariant
            k <= last + 1,
            last == max_pow,
            p_rem_4 as int == prime as int % 4,
            q < 4,
            q as int == power(prime as int, k as nat) % 4,
            acc as int == seq_sum(chi_powers(prime as int, k as nat)),
            0 <= acc <= k,
        decreases last + 1 - k,
    {
        proof {
            lemma_chi_powers_step(prime as int, k as nat);
            lemma_power_mod4(prime as int, k as nat);
            lemma_chi_powers_sum(prime as int, (k + 1) as nat);
        }
        let c: i8 = chi(q);
        acc = acc + c as i64;
        q = (q * p_rem_4) % 4;
        k = k + 1;
    }
    acc as u64
}

/// chi takes only the values -1, 0 and 1, and is 0 exactly on even numbers.
pub proof fn lemma_chi_range(n: int)
    ensures
        chi_spec(n) == -1 || chi_spec(n) == 0 || chi_spec(n) == 1,
        chi_spec(n) == 0 <==> n % 2 == 0,
{
}

/// chi(4k + 1) = 1 and chi(4k + 3) = -1 for every k >= 0, and chi(0) = 0.
pub proof fn lemma_chi_residues(k: int)
    requires
        k >= 0,
    ensures
        chi_spec(4 * k + 1) == 1,
        chi_spec(4 * k + 3) == -1,
        chi_spec(0) == 0,
{
}

/// With no exponent beyond 0 the sum is chi(1) = 1, whatever the prime.
pub proof fn lemma_sum_chi_zero_pow(p: int)
    ensures
        sum_chi_spec(p, 0) == chi_spec(1),
        sum_chi_spec(p, 0) == 1,
{
    lemma_chi_powers_sum(p, 1);
    lemma_chi_powers_step(p, 0);
    assert(chi_powers(p, 0) =~= Seq::<int>::empty());
}

/// Every power of 2 beyond 2^0 is even, so the sum over the powers of 2 is 1.
pub proof fn lemma_sum_chi_two(max_pow: nat)
    ensures
        sum_chi_spec(2, max_pow) == 1,
{
    lemma_chi_powers_sum(2, max_pow + 1);
}

/// The order in which the terms chi(p^k) are added does not change the sum.
pub proof fn lemma_sum_chi_order_independent(p: int, max_pow: nat, t: Seq<int>)
    requires
        t.to_multiset() == chi_powers(p, max_pow + 1).to_multiset(),
    ensures
        seq_sum(t) == sum_chi_spec(p, max_pow),
{
    lemma_sum_permutation(chi_powers(p, max_pow + 1), t);
}

} // verus!
