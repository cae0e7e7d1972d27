//! Greatest common divisors and the arithmetic behind the randomized port
//! walk: a fixed step that is coprime with the range length visits every
//! residue exactly once before it returns to its starting point.

use vstd::prelude::*;
use vstd::calc;
use vstd::arithmetic::div_mod::lemma_add_mod_noop;
use vstd::arithmetic::div_mod::lemma_fundamental_div_mod;
use vstd::arithmetic::div_mod::lemma_mod_division_less_than_divisor;
use vstd::arithmetic::div_mod::lemma_mod_multiples_basic;
use vstd::arithmetic::div_mod::lemma_mod_multiples_vanish;
use vstd::arithmetic::div_mod::lemma_mul_mod_noop_left;
use vstd::arithmetic::div_mod::lemma_small_mod;
use vstd::arithmetic::div_mod::lemma_sub_mod_noop;

verus! {

/// The greatest common divisor, by Euclid's recursion.
pub open spec fn gcd(a: nat, b: nat) -> nat
    decreases b,
{
    if b == 0 {
        a
    } else {
        gcd(b, a % b)
    }
}

/// Coefficients of Bezout's identity: integers x and y with
/// `x * a + y * b == gcd(a, b)`.
pub proof fn lemma_bezout(a: nat, b: nat) -> (r: (int, int))
    ensures
        r.0 * a + r.1 * b == gcd(a, b),
    decreases b,
{
    if b == 0 {
        (1, 0)
    } else {
        let sub = lemma_bezout(b, a % b);
        let x = sub.0;
        let y = sub.1;
        let q = a as int / b as int;
        lemma_fundamental_div_mod(a as int, b as int);
        assert((a % b) as int == a as int - q * b as int);
        assert(x * b + y * (a as int - q * b as int) == y * a + (x - y * q) * b)
            by (nonlinear_arith);
        (y, x - y * q)
    }
}

/// If `s` is coprime with `n` and `i * s` is a multiple of `n`, then `i`
/// itself is a multiple of `n`.
pub proof fn lemma_coprime_factor_multiple(n: nat, s: nat, i: nat)
    requires
        n > 0,
        gcd(n, s) == 1,
        (i * s) % n == 0,
    ensures
        i % n == 0,
{
    let bz = lemma_bezout(n, s);
    let x = bz.0;
    let y = bz.1;
    assert(x * n + y * s == 1);
    lemma_fundamental_div_mod((i * s) as int, n as int);
    let k = (i * s) as int / n as int;
    assert(i as int * s as int == n * k + ((i * s) as int % n as int));
    assert(i as int * s as int == n * k);
    assert(i as int == (i as int * x + y * k) * n) by (nonlinear_arith)
        requires
            x * n + y * s == 1,
            i as int * s as int == n * k,
    ;
    lemma_mod_multiples_basic(i as int * x + y * k, n as int);
}

/// One position of the walk: where the walk stands after `k` steps of
/// size `s` from `first`, inside a cycle of length `n`.
pub open spec fn walk_index(first: nat, s: nat, n: nat, k: nat) -> nat {
    (first + k * s) % n
}

/// Taking one more step moves the walk by `s`, modulo the cycle length.
pub proof fn lemma_walk_step(first: nat, s: nat, n: nat, k: nat)
    requires
        n > 0,
    ensures
        walk_index(first, s, n, k + 1) == (walk_index(first, s, n, k) + s) % n,
{
    let a = (first + k * s) as int;
    let si = s as int;
    let ni = n as int;
    assert((k + 1) * s == k * s + s) by (nonlinear_arith);
    lemma_add_mod_noop(a, si, ni);
    lemma_mod_division_less_than_divisor(a, ni);
    lemma_small_mod(((first + k * s) % n) as nat, n);
    lemma_add_mod_noop(a % ni, si, ni);
    assert((a + si) % ni == ((a % ni) + si) % ni);
}

/// Distinct step counts below `n` put the walk at distinct positions, as
/// long as the step is coprime with the cycle length.
pub proof fn lemma_walk_injective(first: nat, s: nat, n: nat, j: nat, k: nat)
    requires
        n > 0,
        gcd(n, s) == 1,
        j < n,
        k < n,
        j != k,
    ensures
        walk_index(first, s, n, j) != walk_index(first, s, n, k),
{
    let lo = if j < k {
        j
    } else {
        k
    };
    let hi = if j < k {
        k
    } else {
        j
    };
    if walk_index(first, s, n, j) == walk_index(first, s, n, k) {
        let a = (first + lo * s) as int;
        let b = (first + hi * s) as int;
        let ni = n as int;
        assert(a % ni == b % ni);
        lemma_sub_mod_noop(b, a, ni);
        lemma_small_mod(0, n);
        assert((b - a) % ni == 0);
        assert(hi as int * s as int - lo as int * s as int == (hi - lo) * s as int)
            by (nonlinear_arith);
        assert(b - a == (hi - lo) * s as int);
        assert(((hi - lo) as nat * s) % n == 0);
        lemma_coprime_factor_multiple(n, s, (hi - lo) as nat);
        lemma_small_mod((hi - lo) as nat, n);
        assert(false);
    }
}

/// The walk reaches every residue `t` below `n` within its first `n`
/// steps: the constructed step count lands exactly on `t`.
pub proof fn lemma_walk_hits(first: nat, s: nat, n: nat, t: nat) -> (k: nat)
    requires
        n > 0,
        gcd(n, s) == 1,
        t < n,
    ensures
        k < n,
        walk_index(first, s, n, k) == t,
{
    let bz = lemma_bezout(n, s);
    let x = bz.0;
    let y = bz.1;
    assert(x * n + y * s == 1);
    let d = t as int - first as int;
    let k_int = (d * y) % n as int;
    lemma_mod_division_less_than_divisor(d * y, n as int);
    let k = k_int as nat;

    // k * s is congruent to d * y * s, which is congruent to d, modulo n.
    lemma_mul_mod_noop_left(d * y, s as int, n as int);
    assert(k_int * s % n as int == (d * y) * s % n as int);
    assert((d * y) * s == d - d * x * n) by (nonlinear_arith)
        requires
            x * n + y * s == 1,
    ;
    lemma_mod_multiples_vanish(-(d * x), d, n as int);
    assert(n as int * (-(d * x)) + d == d - d * x * n) by (nonlinear_arith);
    assert(k_int * s % n as int == d % n as int);

    // Therefore first + k * s is congruent to t.
    lemma_add_mod_noop(first as int, k_int * s, n as int);
    lemma_small_mod(first % n, n);
    lemma_mod_division_less_than_divisor(first as int, n as int);
    lemma_add_mod_noop(first as int % n as int, (k_int * s) % n as int, n as int);
    assert((first as int + k_int * s) % n as int == (first as int % n as int + d % n as int)
        % n as int);
    lemma_add_mod_noop(first as int, d, n as int);
    assert((first as int % n as int + d % n as int) % n as int == (first as int + d) % n as int);
    assert(first as int + d == t as int);
    lemma_small_mod(t, n);
    assert((first + k * s) as int == first as int + k_int * s);
    assert(walk_index(first, s, n, k) == t);
    k
}

/// After exactly `n` steps the walk is back at its starting position.
pub proof fn lemma_walk_full_cycle(first: nat, s: nat, n: nat)
    requires
        n > 0,
    ensures
        walk_index(first, s, n, n) == first % n,
{
    assert(n * s + first == n as int * s as int + first as int) by (nonlinear_arith);
    lemma_mod_multiples_vanish(s as int, first as int, n as int);
    assert((n as int * s as int + first as int) % n as int == first as int % n as int);
    assert((first + n * s) as int == n as int * s as int + first as int);
}

/// The walk never emits adjacent values in a row: with a step other
/// than one and other than one less than the cycle length, consecutive
/// positions never differ by exactly one.
pub proof fn lemma_walk_never_adjacent(first: nat, s: nat, n: nat, k: nat)
    requires
        n > 0,
        s < n,
        s != 1,
        s + 1 != n,
    ensures
        walk_index(first, s, n, k + 1) != walk_index(first, s, n, k) + 1,
        walk_index(first, s, n, k) != walk_index(first, s, n, k + 1) + 1,
{
    lemma_walk_step(first, s, n, k);
    let a = walk_index(first, s, n, k);
    lemma_mod_division_less_than_divisor((first + k * s) as int, n as int);
    assert(a < n);
    if a + s < n {
        lemma_small_mod((a + s) as nat, n);
        assert(walk_index(first, s, n, k + 1) == a + s);
    } else {
        lemma_mod_multiples_vanish(1, (a + s - n) as int, n as int);
        lemma_small_mod((a + s - n) as nat, n);
        assert(walk_index(first, s, n, k + 1) == a + s - n);
    }
}

/// Consecutive natural numbers are coprime.
pub proof fn lemma_gcd_consecutive(n: nat)
    requires
        n >= 1,
    ensures
        gcd(n, (n - 1) as nat) == 1,
{
    let m = (n - 1) as nat;
    if m == 0 {
        assert(gcd(n, 0) == n);
    } else if m == 1 {
        assert(n % m == 0) by {
            lemma_mod_multiples_basic(n as int, 1);
            assert(n as int * 1 == n as int) by (nonlinear_arith);
        }
        assert(gcd(n, m) == gcd(m, n % m));
        assert(gcd(1, 0) == 1);
    } else {
        assert(n == 1 * m + 1);
        assert(n % m == 1) by {
            vstd::arithmetic::div_mod::lemma_fundamental_div_mod_converse_mod(
                n as int,
                m as int,
                1,
                1,
            );
        }
        assert(gcd(n, m) == gcd(m, 1));
        assert(m % 1 == 0) by {
            lemma_mod_multiples_basic(m as int, 1);
            assert(m as int * 1 == m as int) by (nonlinear_arith);
        }
        assert(gcd(m, 1) == gcd(1, 0));
        assert(gcd(1, 0) == 1);
    }
}

} // verus!
