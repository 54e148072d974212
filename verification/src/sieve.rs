//! The incrementally growing Sieve of Eratosthenes.
//!
//! The generator produces the primes in increasing order, starting at 2. It
//! keeps every prime discovered so far, a boolean sieve, and the sieve's
//! limit; whenever a scan for the next prime runs past the limit, the sieve
//! is reallocated at double the length and reseeded from the discovered
//! primes, so the accumulated work is never repeated. The geometrically
//! growing allocations are what make the generator a natural stress load for
//! the allocator bridge.

use vstd::prelude::*;
use crate::primality::is_prime;
use crate::primality::lemma_composite_has_small_factor;
use crate::primality::lemma_multiple_not_prime;
use crate::primality::lemma_multiple_gap;
use crate::primality::lemma_exists_prime_above;
use vstd::arithmetic::div_mod::lemma_fundamental_div_mod;
use vstd::arithmetic::div_mod::lemma_mod_division_less_than_divisor;
use vstd::arithmetic::div_mod::lemma_mod_multiples_basic;
use vstd::arithmetic::div_mod::lemma_mod_add_multiples_vanish;
use vstd::arithmetic::power2::pow2;
use vstd::arithmetic::power2::lemma_pow2;
use vstd::arithmetic::power2::lemma_pow2_unfold;
use vstd::arithmetic::power::lemma_pow0;

verus! {

/// `p` crosses `x` off: `p` divides `x`, and `x` is at least `p * p`, the
/// first multiple the sieve ever crosses off for `p`.
pub open spec fn crossed_by(p: int, x: int) -> bool {
    x % p == 0 && p * p <= x
}

/// `x` is marked composite in a sieve seeded from `primes`: below 2, or
/// crossed off by one of the discovered primes.
pub open spec fn crossed(primes: Seq<usize>, x: int) -> bool {
    x < 2 || exists|j: int|
        0 <= j < primes.len() && #[trigger] crossed_by(primes[j] as int, x)
}

/// The index where the scan for the next prime starts: one past the last
/// discovered prime, or 2 when none has been discovered yet.
pub open spec fn scan_start(primes: Seq<usize>) -> int {
    if primes.len() == 0 {
        2
    } else {
        primes.last() as int + 1
    }
}

/// The incremental prime generator: the primes discovered so far, the
/// current sieve, and the sieve's length.
pub struct PrimeGenerator {
    pub primes: Vec<usize>,
    pub sieve: Vec<bool>,
    pub limit: usize,
}

impl PrimeGenerator {
    /// The generator's invariant: the sieve spans exactly `limit` entries;
    /// the discovered primes are prime, strictly increasing, and complete
    /// below the scan start; and an entry is marked possibly prime exactly
    /// when no discovered prime has crossed it off.
    pub open spec fn wf(self) -> bool {
        &&& self.sieve@.len() == self.limit
        &&& self.limit >= 10
        &&& scan_start(self.primes@) <= self.limit
        &&& forall|j: int|
            0 <= j < self.primes@.len() ==> is_prime(#[trigger] self.primes@[j] as int)
        &&& forall|j1: int, j2: int|
            0 <= j1 < j2 < self.primes@.len()
                ==> self.primes@[j1] < self.primes@[j2]
        &&& forall|q: int|
            2 <= q < scan_start(self.primes@) && #[trigger] is_prime(q)
                ==> exists|j: int| 0 <= j < self.primes@.len() && self.primes@[j] as int == q
        &&& forall|x: int|
            0 <= x < self.limit ==> #[trigger] self.sieve@[x] == !crossed(self.primes@, x)
    }

    /// A fresh generator: no primes discovered yet, and a sieve of length 10
    /// whose entries 0 and 1 are marked composite while everything else is
    /// still possibly prime.
    pub fn new() -> (g: Self)
        ensures
            g.wf(),
            g.primes@.len() == 0,
            g.limit == 10,
    {
        let mut sieve = filled_bool(10, true);
        sieve[0] = false;
        sieve[1] = false;
        let g = PrimeGenerator { primes: Vec::new(), sieve, limit: 10 };
        proof {
            assert forall|x: int| 0 <= x < g.limit implies #[trigger] g.sieve@[x]
                == !crossed(g.primes@, x) by {
                if crossed(g.primes@, x) && x >= 2 {
                    let j = choose|j: int|
                        0 <= j < g.primes@.len() && #[trigger] crossed_by(g.primes@[j] as int, x);
                    assert(false);
                }
            }
        }
        g
    }

    /// Crosses off every multiple of `p` from `p * p` up to the limit and
    /// leaves every other sieve entry as it was.
    fn cross_off(&mut self, p: usize)
        requires
            old(self).sieve@.len() == old(self).limit,
            old(self).limit >= 1,
            2 <= p,
        ensures
            final(self).limit == old(self).limit,
            final(self).primes@ == old(self).primes@,
            final(self).sieve@.len() == old(self).sieve@.len(),
            forall|x: int|
                0 <= x < final(self).limit
                    ==> #[trigger] final(self).sieve@[x]
                        == (old(self).sieve@[x] && !crossed_by(p as int, x)),
    {
        let ghost sieve0 = self.sieve@;
        let ghost primes0 = self.primes@;
        let limit = self.limit;
        if p <= (limit - 1) / p {
            proof {
                lemma_fundamental_div_mod(limit - 1, p as int);
                lemma_mod_division_less_than_divisor(limit - 1, p as int);
                assert(p * p <= limit - 1) by (nonlinear_arith)
                    requires
                        p as int <= (limit - 1) as int / (p as int),
                        (limit - 1) as int == (p as int) * ((limit - 1) as int / (p as int))
                            + (limit - 1) as int % (p as int),
                        0 <= (limit - 1) as int % (p as int),
                        p >= 2;
                lemma_mod_multiples_basic(p as int, p as int);
            }
            let mut m: usize = p * p;
            while m < self.limit
                invariant_except_break
                    self.limit == limit,
                    self.primes@ == primes0,
                    self.sieve@.len() == limit,
                    2 <= p,
                    (p as int) * (p as int) <= m,
                    (m as int) % (p as int) == 0,
                    forall|x: int|
                        0 <= x < limit
                            ==> #[trigger] self.sieve@[x]
                                == (sieve0[x] && !(crossed_by(p as int, x) && x < m)),
                ensures
                    self.limit == limit,
                    self.primes@ == primes0,
                    self.sieve@.len() == limit,
                    forall|x: int|
                        0 <= x < limit
                            ==> #[trigger] self.sieve@[x]
                                == (sieve0[x] && !crossed_by(p as int, x)),
                decreases self.limit - m,
            {
                let ghost m_old = m as int;
                self.sieve[m] = false;
                proof {
                    assert(crossed_by(p as int, m_old));
                }
                if self.limit - m <= p {
                    proof {
                        assert forall|x: int| 0 <= x < limit implies #[trigger] self.sieve@[x]
                            == (sieve0[x] && !crossed_by(p as int, x)) by {
                            if crossed_by(p as int, x) && x != m_old {
                                if x > m_old {
                                    lemma_multiple_gap(p as int, m_old, x);
                                    assert(false);
                                }
                            }
                        }
                    }
                    break;
                }
                m = m + p;
                proof {
                    lemma_mod_add_multiples_vanish(m_old, p as int);
                    assert((m as int) % (p as int) == 0);
                    assert forall|x: int| 0 <= x < limit implies #[trigger] self.sieve@[x]
                        == (sieve0[x] && !(crossed_by(p as int, x) && x < m)) by {
                        if crossed_by(p as int, x) && x < m && x != m_old && x > m_old {
                            lemma_multiple_gap(p as int, m_old, x);
                            assert(false);
                        }
                    }
                }
            }
        } else {
            proof {
                lemma_fundamental_div_mod(limit - 1, p as int);
                lemma_mod_division_less_than_divisor(limit - 1, p as int);
                assert(p * p > limit - 1) by (nonlinear_arith)
                    requires
                        p as int > (limit - 1) as int / (p as int),
                        (limit - 1) as int == (p as int) * ((limit - 1) as int / (p as int))
                            + (limit - 1) as int % (p as int),
                        (limit - 1) as int % (p as int) < p as int,
                        p >= 2;
                assert forall|x: int| 0 <= x < limit implies #[trigger] self.sieve@[x]
                    == (sieve0[x] && !crossed_by(p as int, x)) by {}
            }
        }
    }

    /// Doubles the limit: allocates a fresh sieve of the doubled length,
    /// marks 0 and 1 composite, and re-crosses the multiples of every
    /// discovered prime from its square on, so the knowledge accumulated so
    /// far is reused rather than recomputed. The discovered primes are
    /// untouched.
    pub fn expand_sieve(&mut self)
        requires
            old(self).wf(),
            old(self).limit * 2 <= usize::MAX,
        ensures
            final(self).wf(),
            final(self).primes@ == old(self).primes@,
            final(self).limit == old(self).limit * 2,
    {
        let ghost primes0 = self.primes@;
        let new_limit = self.limit * 2;
        let mut s = filled_bool(new_limit, true);
        s[0] = false;
        s[1] = false;
        self.sieve = s;
        self.limit = new_limit;
        let mut j: usize = 0;
        while j < self.primes.len()
            invariant
                self.limit == new_limit,
                new_limit >= 20,
                self.primes@ == primes0,
                j <= primes0.len(),
                self.sieve@.len() == new_limit,
                forall|t: int|
                    0 <= t < primes0.len() ==> is_prime(#[trigger] primes0[t] as int),
                forall|x: int|
                    0 <= x < new_limit
                        ==> #[trigger] self.sieve@[x]
                            == (x >= 2 && !(exists|t: int|
                                0 <= t < j && #[trigger] crossed_by(primes0[t] as int, x))),
            decreases primes0.len() - j,
        {
            let p = self.primes[j];
            proof {
                assert(is_prime(primes0[j as int] as int));
            }
            self.cross_off(p);
            proof {
                assert forall|x: int| 0 <= x < new_limit implies #[trigger] self.sieve@[x]
                    == (x >= 2 && !(exists|t: int|
                        0 <= t < j + 1 && #[trigger] crossed_by(primes0[t] as int, x))) by {
                    if exists|t: int|
                        0 <= t < j + 1 && #[trigger] crossed_by(primes0[t] as int, x) {
                        let t = choose|t: int|
                            0 <= t < j + 1 && #[trigger] crossed_by(primes0[t] as int, x);
                        if t < j {
                            assert(exists|t2: int|
                                0 <= t2 < j && #[trigger] crossed_by(primes0[t2] as int, x));
                        } else {
                            assert(crossed_by(p as int, x));
                        }
                        assert(!self.sieve@[x]);
                    } else {
                        assert(!crossed_by(p as int, x));
                        assert(!(exists|t2: int|
                            0 <= t2 < j && #[trigger] crossed_by(primes0[t2] as int, x)));
                        assert(self.sieve@[x] == (x >= 2));
                    }
                }
            }
            j = j + 1;
        }
        proof {
            assert forall|x: int| 0 <= x < self.limit implies #[trigger] self.sieve@[x]
                == !crossed(self.primes@, x) by {}
            assert(scan_start(self.primes@) <= self.limit);
        }
    }

    /// The first index at or after `start` that the sieve still marks as
    /// possibly prime, if the scan reaches one before the limit.
    fn find_in_sieve(&self, start: usize) -> (r: Option<usize>)
        requires
            self.sieve@.len() == self.limit,
        ensures
            match r {
                Some(i) => start <= i < self.limit && self.sieve@[i as int] && forall|x: int|
                    start <= x < i ==> !self.sieve@[x],
                None => forall|x: int| start <= x < self.limit ==> !self.sieve@[x],
            },
    {
        let mut i = start;
        while i < self.limit
            invariant
                start <= i,
                self.sieve@.len() == self.limit,
                forall|x: int| start <= x < i ==> !self.sieve@[x],
            decreases self.limit - i,
        {
            if self.sieve[i] {
                return Some(i);
            }
            i = i + 1;
        }
        None
    }

    /// Produces the next prime in increasing order.
    ///
    /// The scan begins one past the last discovered prime (at 2 on the first
    /// call) and walks the sieve up to the limit; the first entry still
    /// marked possibly prime is the result. It is appended to the discovered
    /// primes and its multiples are crossed off from its square on. The
    /// sieve is doubled exactly when a scan exhausts the limit without a
    /// find, and the scan then resumes from the same start: the limit is
    /// untouched when the result lies below it, and otherwise the result
    /// lands in the upper half of the grown sieve.
    ///
    /// The precondition asks for a prime at or past the scan start that is
    /// small enough for the doubled sieve length to stay representable in a
    /// machine word; that machine limit is what bounds the doubling.
    pub fn next_prime(&mut self) -> (r: usize)
        requires
            old(self).wf(),
            exists|q: int|
                is_prime(q) && scan_start(old(self).primes@) <= q <= usize::MAX as int / 2,
        ensures
            final(self).wf(),
            is_prime(r as int),
            scan_start(old(self).primes@) <= r < final(self).limit,
            forall|x: int| scan_start(old(self).primes@) <= x < r ==> !is_prime(x),
            final(self).primes@ == old(self).primes@.push(r),
            final(self).limit >= old(self).limit,
            exists|k: nat| final(self).limit as int == old(self).limit as int * pow2(k),
            r < old(self).limit ==> final(self).limit == old(self).limit,
            r >= old(self).limit ==> final(self).limit as int / 2 <= r as int,
    {
        let ghost primes0 = self.primes@;
        let ghost limit0 = self.limit;
        let ghost q = choose|q: int|
            is_prime(q) && scan_start(primes0) <= q <= usize::MAX as int / 2;
        let start: usize = if self.primes.len() == 0 {
            2
        } else {
            self.primes[self.primes.len() - 1] + 1
        };
        assert(start as int == scan_start(primes0));
        proof {
            lemma_pow2(0);
            lemma_pow0(2);
            assert(self.limit as int == limit0 as int * pow2(0));
        }
        let mut found = self.find_in_sieve(start);
        while found.is_none()
            invariant
                self.wf(),
                self.primes@ == primes0,
                self.limit >= limit0,
                exists|k: nat| self.limit as int == limit0 as int * pow2(k),
                self.limit == limit0 || (limit0 <= self.limit as int / 2 && forall|x: int|
                    start <= x < self.limit as int / 2 ==> !is_prime(x)),
                start as int == scan_start(primes0),
                is_prime(q),
                scan_start(primes0) <= q <= usize::MAX as int / 2,
                match found {
                    Some(i) => start <= i < self.limit && self.sieve@[i as int]
                        && forall|x: int| start <= x < i ==> !self.sieve@[x],
                    None => forall|x: int| start <= x < self.limit ==> !self.sieve@[x],
                },
            decreases (if self.limit as int <= q {
                q + 1 - self.limit as int
            } else {
                0
            }),
        {
            let ghost lim_before = self.limit;
            proof {
                assert forall|x: int| start <= x < lim_before as int implies !is_prime(x) by {
                    assert(!self.sieve@[x]);
                    lemma_crossed_not_prime(primes0, x);
                }
                assert(self.limit as int <= q);
            }
            let ghost k0 = choose|k: nat| self.limit as int == limit0 as int * pow2(k);
            self.expand_sieve();
            proof {
                lemma_pow2_unfold(k0 + 1);
                assert(self.limit as int == limit0 as int * pow2(k0 + 1)) by (nonlinear_arith)
                    requires
                        self.limit as int == 2 * (lim_before as int),
                        lim_before as int == limit0 as int * pow2(k0),
                        pow2(k0 + 1) == 2 * pow2(k0);
                assert(self.limit as int / 2 == lim_before as int);
            }
            found = self.find_in_sieve(start);
        }
        let i = found.unwrap();
        proof {
            assert forall|x: int| start <= x < i implies !is_prime(x) by {
                assert(!self.sieve@[x]);
                lemma_crossed_not_prime(primes0, x);
            }
            if !is_prime(i as int) {
                lemma_composite_has_small_factor(i as int);
                let f = choose|f: int|
                    is_prime(f) && 2 <= f < i && f * f <= i && #[trigger] ((i as int) % f) == 0;
                if f < start {
                    let t = choose|t: int|
                        0 <= t < primes0.len() && primes0[t] as int == f;
                    assert(crossed_by(primes0[t] as int, i as int));
                    assert(crossed(primes0, i as int));
                    assert(!self.sieve@[i as int]);
                }
                assert(false);
            }
            if self.limit != limit0 {
                assert(limit0 <= self.limit as int / 2);
                if (i as int) < self.limit as int / 2 {
                    assert(!is_prime(i as int));
                    assert(false);
                }
            }
        }
        let ghost prev_sieve = self.sieve@;
        self.primes.push(i);
        self.cross_off(i);
        proof {
            let primes1 = primes0.push(i);
            assert(self.primes@ == primes1);
            assert forall|x: int| 0 <= x < self.limit implies #[trigger] self.sieve@[x]
                == !crossed(primes1, x) by {
                assert(self.sieve@[x] == (prev_sieve[x] && !crossed_by(i as int, x)));
                if crossed(primes1, x) && x >= 2 {
                    let t = choose|t: int|
                        0 <= t < primes1.len() && #[trigger] crossed_by(primes1[t] as int, x);
                    if t < primes0.len() {
                        assert(crossed_by(primes0[t] as int, x));
                        assert(crossed(primes0, x));
                        assert(!prev_sieve[x]);
                    } else {
                        assert(crossed_by(i as int, x));
                    }
                    assert(!self.sieve@[x]);
                } else if !crossed(primes1, x) {
                    if x >= 2 {
                        assert(!crossed_by(primes1[primes0.len() as int] as int, x));
                        if crossed(primes0, x) {
                            let t = choose|t: int|
                                0 <= t < primes0.len()
                                    && #[trigger] crossed_by(primes0[t] as int, x);
                            assert(crossed_by(primes1[t] as int, x));
                            assert(false);
                        }
                        assert(prev_sieve[x]);
                        assert(self.sieve@[x]);
                    }
                }
            }
            assert forall|p2: int|
                2 <= p2 < scan_start(primes1) && #[trigger] is_prime(p2) implies exists|t: int|
                0 <= t < primes1.len() && primes1[t] as int == p2 by {
                assert(scan_start(primes1) == i as int + 1);
                if p2 < start {
                    let t = choose|t: int|
                        0 <= t < primes0.len() && primes0[t] as int == p2;
                    assert(primes1[t] as int == p2);
                } else if p2 == i as int {
                    assert(primes1[primes0.len() as int] as int == p2);
                }
            }
            assert forall|j1: int, j2: int|
                0 <= j1 < j2 < primes1.len() implies primes1[j1] < primes1[j2] by {
                if j2 == primes0.len() as int && primes0.len() > 0 {
                    assert(primes1[j1] == primes0[j1]);
                    assert(primes0[j1] <= primes0.last());
                }
            }
            assert(self.wf());
        }
        i
    }
}

/// The produced sequence is infinite: from every well-formed state there
/// is a further prime at or past the scan start, so production never runs
/// out mathematically; only the machine word bounds how far a sieve can
/// grow, which is what `next_prime` asks of its callers.
pub proof fn lemma_next_prime_exists(g: PrimeGenerator)
    requires
        g.wf(),
    ensures
        exists|q: int| is_prime(q) && scan_start(g.primes@) <= q,
{
    if g.primes@.len() > 0 {
        assert(is_prime(g.primes@[g.primes@.len() - 1] as int));
    }
    lemma_exists_prime_above(scan_start(g.primes@));
    let q = choose|q: int| q > scan_start(g.primes@) && is_prime(q);
    assert(is_prime(q) && scan_start(g.primes@) <= q);
}

/// Generator monotonicity: the discovered primes form a strictly
/// increasing sequence, so repeated calls produce strictly increasing
/// results, and no prime is ever produced twice.
pub proof fn lemma_produced_monotonic(g: PrimeGenerator)
    requires
        g.wf(),
    ensures
        forall|j1: int, j2: int|
            0 <= j1 < j2 < g.primes@.len() ==> g.primes@[j1] < g.primes@[j2],
{
}

/// Generator completeness: everything produced is prime, every prime below
/// the scan position has been produced, and everything produced lies below
/// the scan position — the discovered primes are exactly the primes below
/// the scan position, in order.
pub proof fn lemma_produced_complete(g: PrimeGenerator)
    requires
        g.wf(),
    ensures
        forall|j: int| 0 <= j < g.primes@.len() ==> is_prime(#[trigger] g.primes@[j] as int),
        forall|q: int|
            2 <= q < scan_start(g.primes@) && #[trigger] is_prime(q)
                ==> exists|j: int| 0 <= j < g.primes@.len() && g.primes@[j] as int == q,
        forall|j: int|
            0 <= j < g.primes@.len() ==> (#[trigger] g.primes@[j] as int) < scan_start(g.primes@),
{
    assert forall|j: int| 0 <= j < g.primes@.len() implies (#[trigger] g.primes@[j] as int)
        < scan_start(g.primes@) by {
        if j < g.primes@.len() - 1 {
            assert(g.primes@[j] < g.primes@[g.primes@.len() - 1]);
        }
    }
}

/// A sieve entry crossed off by a list of primes is composite.
proof fn lemma_crossed_not_prime(primes: Seq<usize>, x: int)
    requires
        crossed(primes, x),
        x >= 2,
        forall|j: int| 0 <= j < primes.len() ==> is_prime(#[trigger] primes[j] as int),
    ensures
        !is_prime(x),
{
    let j = choose|j: int|
        0 <= j < primes.len() && #[trigger] crossed_by(primes[j] as int, x);
    lemma_multiple_not_prime(primes[j] as int, x);
}

/// A vector holding `len` copies of `value`.
fn filled_bool(len: usize, value: bool) -> (r: Vec<bool>)
    ensures
        r@.len() == len,
        forall|i: int| 0 <= i < len ==> r@[i] == value,
{
    let mut r: Vec<bool> = Vec::new();
    let mut k: usize = 0;
    while k < len
        invariant
            k <= len,
            r@.len() == k,
            forall|i: int| 0 <= i < k ==> r@[i] == value,
        decreases len - k,
    {
        r.push(value);
        k = k + 1;
    }
    r
}

} // verus!
