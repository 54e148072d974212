//! Primality as a mathematical specification, with the number-theoretic
//! facts the sieve rests on: a composite number has a prime factor whose
//! square does not exceed it, and beyond every bound there is another prime.

use vstd::prelude::*;
use vstd::arithmetic::div_mod::lemma_fundamental_div_mod;
use vstd::arithmetic::div_mod::lemma_mod_multiples_basic;

verus! {

/// `n` is prime: at least 2, and no integer strictly between 1 and `n`
/// divides it.
pub open spec fn is_prime(n: int) -> bool {
    n >= 2 && forall|d: int| 2 <= d < n ==> #[trigger] (n % d) != 0
}

/// Divisibility is transitive: a multiple of a multiple of `c` is itself a
/// multiple of `c`.
pub proof fn lemma_divides_transitive(a: int, b: int, c: int)
    requires
        b >= 1,
        c >= 1,
        a % b == 0,
        b % c == 0,
    ensures
        a % c == 0,
{
    lemma_fundamental_div_mod(a, b);
    lemma_fundamental_div_mod(b, c);
    let k1 = a / b;
    let k2 = b / c;
    assert(a == (c * k2) * k1);
    assert((c * k2) * k1 == (k2 * k1) * c) by (nonlinear_arith);
    lemma_mod_multiples_basic(k2 * k1, c);
}

/// Every composite number has a prime factor whose square does not exceed it.
pub proof fn lemma_composite_has_small_factor(n: int)
    requires
        n >= 2,
        !is_prime(n),
    ensures
        exists|p: int|
            is_prime(p) && 2 <= p < n && p * p <= n && #[trigger] (n % p) == 0,
    decreases n,
{
    let d = choose|d: int| 2 <= d < n && #[trigger] (n % d) == 0;
    assert(2 <= d < n && n % d == 0);
    lemma_fundamental_div_mod(n, d);
    let e = n / d;
    assert(n == d * e);
    assert(e >= 2) by (nonlinear_arith)
        requires
            n == d * e,
            2 <= d < n,
            n >= 2;
    let f = if d <= e { d } else { e };
    assert(f * f <= n) by (nonlinear_arith)
        requires
            n == d * e,
            d >= 2,
            e >= 2,
            f == if d <= e { d } else { e };
    assert(f < n) by (nonlinear_arith)
        requires
            f * f <= n,
            f >= 2;
    if f == e {
        lemma_mod_multiples_basic(d, e);
        assert(d * e == e * d) by (nonlinear_arith);
    }
    assert(n % f == 0);
    if is_prime(f) {
        assert(is_prime(f) && 2 <= f < n && f * f <= n && n % f == 0);
    } else {
        lemma_composite_has_small_factor(f);
        let q = choose|q: int|
            is_prime(q) && 2 <= q < f && q * q <= f && #[trigger] (f % q) == 0;
        lemma_divides_transitive(n, f, q);
        assert(q * q <= f < n);
        assert(is_prime(q) && 2 <= q < n && q * q <= n && n % q == 0);
    }
}

/// Every number from 2 on has a prime factor no larger than itself.
pub proof fn lemma_has_prime_factor(n: int)
    requires
        n >= 2,
    ensures
        exists|p: int| is_prime(p) && 2 <= p <= n && #[trigger] (n % p) == 0,
{
    if is_prime(n) {
        lemma_mod_multiples_basic(1, n);
        assert(1 * n == n) by (nonlinear_arith);
        assert(is_prime(n) && 2 <= n <= n && n % n == 0);
    } else {
        lemma_composite_has_small_factor(n);
        let p = choose|p: int|
            is_prime(p) && 2 <= p < n && p * p <= n && #[trigger] (n % p) == 0;
        assert(is_prime(p) && 2 <= p <= n && n % p == 0);
    }
}

/// A number that some prime-square-bounded factor divides is composite.
pub proof fn lemma_multiple_not_prime(p: int, x: int)
    requires
        2 <= p,
        p * p <= x,
        x % p == 0,
    ensures
        !is_prime(x),
{
    assert(p < x) by (nonlinear_arith)
        requires
            p >= 2,
            p * p <= x;
    assert(2 <= p < x && x % p == 0);
}

/// Two distinct multiples of `p` lie at least `p` apart.
pub proof fn lemma_multiple_gap(p: int, a: int, b: int)
    requires
        p >= 1,
        a % p == 0,
        b % p == 0,
        a < b,
    ensures
        a + p <= b,
{
    lemma_fundamental_div_mod(a, p);
    lemma_fundamental_div_mod(b, p);
    let qa = a / p;
    let qb = b / p;
    assert(qa < qb) by (nonlinear_arith)
        requires
            p >= 1,
            a == p * qa,
            b == p * qb,
            a < b;
    assert(p * qa + p <= p * qb) by (nonlinear_arith)
        requires
            p >= 1,
            qa + 1 <= qb;
}

/// The factorial of `n`, the product of the numbers from 1 to `n`.
pub open spec fn fact(n: int) -> int
    decreases n,
{
    if n <= 1 {
        1
    } else {
        n * fact(n - 1)
    }
}

proof fn lemma_fact_pos(n: int)
    ensures
        fact(n) >= 1,
    decreases n,
{
    if n > 1 {
        lemma_fact_pos(n - 1);
        assert(n * fact(n - 1) >= 1) by (nonlinear_arith)
            requires
                n >= 2,
                fact(n - 1) >= 1;
    }
}

proof fn lemma_fact_divisible(n: int, d: int)
    requires
        2 <= d <= n,
    ensures
        fact(n) % d == 0,
    decreases n,
{
    if d == n {
        lemma_mod_multiples_basic(fact(n - 1), d);
        assert(n * fact(n - 1) == fact(n - 1) * d) by (nonlinear_arith)
            requires
                d == n;
    } else {
        lemma_fact_divisible(n - 1, d);
        lemma_fundamental_div_mod(fact(n - 1), d);
        let k = fact(n - 1) / d;
        assert(fact(n) == n * (d * k));
        assert(n * (d * k) == (n * k) * d) by (nonlinear_arith);
        lemma_mod_multiples_basic(n * k, d);
    }
}

/// Beyond every bound there is another prime: some prime factor of
/// `fact(n) + 1` must exceed `n`.
pub proof fn lemma_exists_prime_above(n: int)
    requires
        n >= 1,
    ensures
        exists|p: int| p > n && is_prime(p),
{
    let m = fact(n) + 1;
    lemma_fact_pos(n);
    lemma_has_prime_factor(m);
    let p = choose|p: int| is_prime(p) && 2 <= p <= m && #[trigger] (m % p) == 0;
    if p <= n {
        lemma_fact_divisible(n, p);
        lemma_fundamental_div_mod(m, p);
        lemma_fundamental_div_mod(fact(n), p);
        let a = m / p;
        let b = fact(n) / p;
        assert(1 == p * a - p * b);
        assert(false) by (nonlinear_arith)
            requires
                p >= 2,
                1 == p * a - p * b;
    }
    assert(p > n && is_prime(p));
}

} // verus!
