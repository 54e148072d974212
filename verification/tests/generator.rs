use arena_sieve::sieve::PrimeGenerator;

#[test]
fn new_generator_shape() {
    let g = PrimeGenerator::new();
    assert_eq!(g.limit, 10);
    assert_eq!(g.primes.len(), 0);
    assert_eq!(g.sieve.len(), 10);
    assert!(!g.sieve[0]);
    assert!(!g.sieve[1]);
    assert!(g.sieve[2]);
}

#[test]
fn growth_worked_example() {
    // Starting at limit 10 the calls yield 2, 3, 5, 7; the fifth call finds
    // nothing in [8, 10), grows the sieve to 20 and yields 11; then 13, 17
    // and 19 follow before the next growth, to 40, yields 23.
    let mut g = PrimeGenerator::new();
    assert_eq!(g.next_prime(), 2);
    assert_eq!(g.next_prime(), 3);
    assert_eq!(g.next_prime(), 5);
    assert_eq!(g.next_prime(), 7);
    assert_eq!(g.limit, 10);
    assert_eq!(g.next_prime(), 11);
    assert_eq!(g.limit, 20);
    assert_eq!(g.next_prime(), 13);
    assert_eq!(g.next_prime(), 17);
    assert_eq!(g.next_prime(), 19);
    assert_eq!(g.limit, 20);
    assert_eq!(g.next_prime(), 23);
    assert_eq!(g.limit, 40);
}

#[test]
fn expansion_doubles_and_reseeds_from_known_primes() {
    let mut g = PrimeGenerator::new();
    assert_eq!(g.next_prime(), 2);
    assert_eq!(g.next_prime(), 3);
    let primes_before = g.primes.clone();
    g.expand_sieve();
    assert_eq!(g.limit, 20);
    assert_eq!(g.sieve.len(), 20);
    assert_eq!(g.primes, primes_before);
    // 0 and 1 are composite-marked, the multiples of 2 and 3 from their
    // squares on are crossed off, and everything else is still possibly
    // prime.
    let expected_open: [usize; 8] = [2, 3, 5, 7, 11, 13, 17, 19];
    for x in 0..20 {
        assert_eq!(g.sieve[x], expected_open.contains(&x));
    }
}

#[test]
fn first_primes_in_order() {
    let expected: [usize; 25] = [
        2, 3, 5, 7, 11, 13, 17, 19, 23, 29, 31, 37, 41, 43, 47, 53, 59, 61, 67, 71, 73, 79, 83,
        89, 97,
    ];
    let mut g = PrimeGenerator::new();
    for &p in expected.iter() {
        assert_eq!(g.next_prime(), p);
    }
}

#[test]
fn produced_sequence_strictly_increasing() {
    let mut g = PrimeGenerator::new();
    let mut last = 0;
    for _ in 0..100 {
        let p = g.next_prime();
        assert!(p > last);
        last = p;
    }
}

#[test]
fn yields_every_prime_up_to_bound_exactly_once() {
    // Trial division as an independent oracle: the generator must produce
    // exactly the primes up to 200, each once, in order.
    let mut oracle: Vec<usize> = Vec::new();
    for n in 2..=200usize {
        let mut composite = false;
        for d in 2..n {
            if n % d == 0 {
                composite = true;
            }
        }
        if !composite {
            oracle.push(n);
        }
    }
    let mut g = PrimeGenerator::new();
    let mut produced: Vec<usize> = Vec::new();
    loop {
        let p = g.next_prime();
        if p > 200 {
            break;
        }
        produced.push(p);
    }
    assert_eq!(produced, oracle);
}

#[test]
fn generator_state_stays_consistent() {
    // After any number of calls the discovered primes all lie below the
    // limit and the sieve keeps pace with the limit.
    let mut g = PrimeGenerator::new();
    for _ in 0..50 {
        let p = g.next_prime();
        assert!(p < g.limit);
        assert_eq!(g.sieve.len(), g.limit);
        assert_eq!(g.primes.last().copied(), Some(p));
    }
}
