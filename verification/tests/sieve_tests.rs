use fundamentals::sieve::SieveTable;

fn reference_is_prime(k: usize) -> bool {
    if k < 2 {
        return false;
    }
    let mut d = 2;
    while d < k {
        if k % d == 0 {
            return false;
        }
        d += 1;
    }
    true
}

#[test]
fn sieve_marks_known_prime_and_composite() {
    let mut s = SieveTable::new(10000);
    s.finalize();
    assert!(s.is_marked_prime(211));
    assert!(!s.is_marked_prime(9876));
}

#[test]
fn sieve_matches_reference_primality_check() {
    let mut s = SieveTable::new(10000);
    s.finalize();
    for k in 2..10000 {
        assert_eq!(s.is_marked_prime(k), reference_is_prime(k));
    }
}

#[test]
fn sieve_leaves_first_two_entries_as_initialized() {
    let mut s = SieveTable::new(10);
    s.finalize();
    assert!(s.is_marked_prime(0));
    assert!(s.is_marked_prime(1));
}

#[test]
fn sieve_handles_tiny_tables() {
    let mut s0 = SieveTable::new(0);
    s0.finalize();
    assert!(s0.finalized);

    let mut s1 = SieveTable::new(1);
    s1.finalize();
    assert!(s1.is_marked_prime(0));

    let mut s5 = SieveTable::new(5);
    s5.finalize();
    assert!(s5.is_marked_prime(2));
    assert!(s5.is_marked_prime(3));
    assert!(!s5.is_marked_prime(4));
}
