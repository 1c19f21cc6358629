//! A bounded sieve of Eratosthenes: a fixed-capacity table of boolean marks
//! over the index range `0..n`, where elimination passes strike the multiples
//! of each remaining candidate. Once finalized, entry `k` is true exactly
//! when `k` is prime, for every `k` in `2..n`.

use vstd::prelude::*;
use vstd::arithmetic::div_mod::lemma_fundamental_div_mod;
use vstd::arithmetic::div_mod::lemma_mod_multiples_basic;
use vstd::arithmetic::div_mod::lemma_small_mod;
use vstd::arithmetic::div_mod::lemma_sub_mod_noop;

verus! {

/// `k` is at least 2 and has no divisor strictly between 1 and itself.
pub open spec fn is_prime(k: int) -> bool {
    2 <= k && forall|d: int| 2 <= d < k ==> #[trigger] (k % d) != 0
}

/// Every composite number has a divisor no larger than its square root.
proof fn lemma_composite_has_small_divisor(k: int)
    requires
        2 <= k,
        !is_prime(k),
    ensures
        exists|d: int| 2 <= d && d * d <= k && #[trigger] (k % d) == 0,
{
    let d0: int = choose|d: int| 2 <= d < k && #[trigger] (k % d) == 0;
    lemma_fundamental_div_mod(k, d0);
    let e: int = k / d0;
    if d0 * d0 <= k {
        assert(2 <= d0 && d0 * d0 <= k && k % d0 == 0);
    } else {
        assert(k == d0 * e);
        assert(2 <= e) by (nonlinear_arith)
            requires
                k == d0 * e,
                2 <= d0 < k,
        ;
        assert(e * e <= k) by (nonlinear_arith)
            requires
                k == d0 * e,
                d0 * d0 > k,
                2 <= e,
                2 <= d0,
        ;
        lemma_mod_multiples_basic(d0, e);
        assert(2 <= e && e * e <= k && k % e == 0);
    }
}

/// Divisibility is transitive: if `p` divides `i` and `i` divides `k`, then
/// `p` divides `k`.
proof fn lemma_divides_transitive(p: int, i: int, k: int)
    requires
        2 <= p,
        2 <= i,
        0 <= k,
        i % p == 0,
        k % i == 0,
    ensures
        k % p == 0,
{
    lemma_fundamental_div_mod(i, p);
    lemma_fundamental_div_mod(k, i);
    assert(k == ((i / p) * (k / i)) * p) by (nonlinear_arith)
        requires
            i == p * (i / p),
            k == i * (k / i),
    ;
    lemma_mod_multiples_basic((i / p) * (k / i), p);
}

/// Two distinct multiples of `i` lie at least `i` apart.
proof fn lemma_multiple_gap(i: int, a: int, b: int)
    requires
        2 <= i,
        a % i == 0,
        b % i == 0,
        a < b,
    ensures
        a + i <= b,
{
    lemma_sub_mod_noop(b, a, i);
    lemma_small_mod(0nat, i as nat);
    if b - a < i {
        lemma_small_mod((b - a) as nat, i as nat);
    }
}

/// A fixed-capacity primality table. Its lifecycle is: construction marks
/// every entry true ("believed prime"), `finalize` runs the elimination
/// passes exactly once, and afterwards the table is read-only.
pub struct SieveTable {
    pub table: Vec<bool>,
    pub finalized: bool,
}

impl SieveTable {
    /// Every entry is still marked "believed prime".
    pub open spec fn all_marked(self) -> bool {
        forall|k: int| 0 <= k < self.table@.len() ==> self.table@[k]
    }

    /// A fresh table of `n` entries, all marked true, not yet finalized.
    pub fn new(n: usize) -> (s: SieveTable)
        ensures
            s.table@.len() == n,
            s.all_marked(),
            !s.finalized,
    {
        let mut table: Vec<bool> = Vec::new();
        let mut i: usize = 0;
        while i < n
            invariant
                i <= n,
                table@.len() == i,
                forall|k: int| 0 <= k < i ==> table@[k],
            decreases n - i,
        {
            table.push(true);
            i = i + 1;
        }
        SieveTable { table, finalized: false }
    }

    /// Runs the elimination passes and finalizes the table. Afterwards entry
    /// `k` is true if and only if `k` is prime, for every `k` in `2..n`;
    /// entries 0 and 1 keep their initial true marking.
    pub fn finalize(&mut self)
        requires
            !old(self).finalized,
            old(self).all_marked(),
        ensures
            final(self).finalized,
            final(self).table@.len() == old(self).table@.len(),
            forall|k: int|
                2 <= k < final(self).table@.len() ==> (final(self).table@[k] <==> is_prime(k)),
            forall|k: int| 0 <= k < 2 && k < final(self).table@.len() ==> final(self).table@[k],
    {
        let n: usize = self.table.len();
        let mut i: usize = 2;
        while i <= n / i
            invariant
                self.table@.len() == n,
                2 <= i,
                n > 0 ==> self.table@[0],
                n > 1 ==> self.table@[1],
                forall|k: int| 2 <= k < n && !(#[trigger] self.table@[k]) ==> !is_prime(k),
                forall|k: int, d: int|
                    2 <= k < n && self.table@[k] && 2 <= d < i && #[trigger] (k % d) == 0
                        ==> d * d > k,
            decreases n - i,
        {
            proof {
                lemma_fundamental_div_mod(n as int, i as int);
                assert(i * i <= n) by (nonlinear_arith)
                    requires
                        2 <= i,
                        i <= n / i,
                        n == i * (n / i) + n % i,
                        n % i >= 0,
                ;
                assert(i < n) by (nonlinear_arith)
                    requires
                        2 <= i,
                        i * i <= n,
                ;
            }
            if self.table[i] {
                proof {
                    lemma_mod_multiples_basic(i as int, i as int);
                }
                let mut j: usize = i * i;
                while j < n
                    invariant
                        self.table@.len() == n,
                        2 <= i < n,
                        i * i <= j,
                        j <= n || j == i * i,
                        (j as int) % (i as int) == 0 || j == n,
                        n > 0 ==> self.table@[0],
                        n > 1 ==> self.table@[1],
                        forall|k: int| 2 <= k < n && !(#[trigger] self.table@[k]) ==> !is_prime(k),
                        forall|k: int, d: int|
                            2 <= k < n && self.table@[k] && 2 <= d < i && #[trigger] (k % d) == 0
                                ==> d * d > k,
                        forall|m: int|
                            i * i <= m < j && #[trigger] (m % (i as int)) == 0 && m < n
                                ==> !self.table@[m],
                    decreases n - j,
                {
                    self.table[j] = false;
                    proof {
                        assert(i < j) by (nonlinear_arith)
                            requires
                                2 <= i,
                                i * i <= j,
                        ;
                        assert(!is_prime(j as int));
                    }
                    let ghost old_j: int = j as int;
                    if i < n - j {
                        j = j + i;
                    } else {
                        j = n;
                    }
                    proof {
                        lemma_mod_multiples_basic((old_j / (i as int)) + 1, i as int);
                        lemma_fundamental_div_mod(old_j, i as int);
                        assert((old_j + i) % (i as int) == 0) by {
                            assert(old_j + i == ((old_j / (i as int)) + 1) * (i as int))
                                by (nonlinear_arith)
                                requires
                                    old_j == (i as int) * (old_j / (i as int)),
                            ;
                        }
                        assert forall|m: int|
                            i * i <= m < j && #[trigger] (m % (i as int)) == 0 && m < n
                                implies !self.table@[m] by {
                            if m > old_j {
                                lemma_multiple_gap(i as int, old_j, m);
                            }
                        }
                    }
                }
                proof {
                    assert forall|k: int, d: int|
                        2 <= k < n && self.table@[k] && 2 <= d < i + 1 && #[trigger] (k % d) == 0
                            implies d * d > k by {
                        if d == i && i * i <= k {
                            assert((k % (i as int)) == 0);
                            assert(!self.table@[k]);
                        }
                    }
                }
            } else {
                proof {
                    assert(!is_prime(i as int));
                    lemma_composite_has_small_divisor(i as int);
                    let p: int = choose|p: int|
                        2 <= p && p * p <= i && #[trigger] ((i as int) % p) == 0;
                    assert(p < i) by (nonlinear_arith)
                        requires
                            2 <= p,
                            p * p <= i,
                            2 <= i,
                    ;
                    assert forall|k: int, d: int|
                        2 <= k < n && self.table@[k] && 2 <= d < i + 1 && #[trigger] (k % d) == 0
                            implies d * d > k by {
                        if d == i && i * i <= k {
                            lemma_divides_transitive(p, i as int, k);
                            assert(p * p <= k) by (nonlinear_arith)
                                requires
                                    p * p <= i,
                                    2 <= i,
                                    i * i <= k,
                            ;
                            assert(false);
                        }
                    }
                }
            }
            i = i + 1;
        }
        proof {
            lemma_fundamental_div_mod(n as int, i as int);
            assert(n < i * i) by (nonlinear_arith)
                requires
                    2 <= i,
                    n / i < i,
                    n == i * (n / i) + n % i,
                    n % i < i,
                    n % i >= 0,
            ;
            assert forall|k: int| 2 <= k < n && self.table@[k] implies is_prime(k) by {
                if !is_prime(k) {
                    lemma_composite_has_small_divisor(k);
                    let d: int = choose|d: int| 2 <= d && d * d <= k && #[trigger] (k % d) == 0;
                    assert(d < i) by (nonlinear_arith)
                        requires
                            0 <= d,
                            0 <= i,
                            d * d <= k,
                            k < n,
                            n < i * i,
                    ;
                    assert(false);
                }
            }
        }
        self.finalized = true;
    }

    /// Reads one entry of the table.
    pub fn is_marked_prime(&self, k: usize) -> (r: bool)
        requires
            k < self.table@.len(),
        ensures
            r == self.table@[k as int],
    {
        self.table[k]
    }
}

} // verus!
