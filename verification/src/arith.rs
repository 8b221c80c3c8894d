//! Integer arithmetic shared by the lattice model: rounding division,
//! divisibility, greatest common divisors and least common multiples.

use vstd::prelude::*;
use vstd::arithmetic::div_mod::{lemma_fundamental_div_mod, lemma_mod_bound};
use vstd::arithmetic::div_mod::lemma_fundamental_div_mod_converse;
use vstd::arithmetic::div_mod::lemma_mod_multiples_basic;

verus! {

/// `x / p` rounded towards negative infinity, for a positive `p`.
pub open spec fn floor_div(x: int, p: int) -> int {
    x / p
}

/// `x / p` rounded towards positive infinity, for a positive `p`.
pub open spec fn ceil_div(x: int, p: int) -> int {
    -((-x) / p)
}

/// `floor_div(x, p)` is the one integer `q` with `q * p <= x < (q + 1) * p`.
pub proof fn lemma_floor_div_bracket(x: int, p: int)
    requires
        p > 0,
    ensures
        floor_div(x, p) * p <= x < floor_div(x, p) * p + p,
{
    lemma_fundamental_div_mod(x, p);
    lemma_mod_bound(x, p);
    assert(p * (x / p) == (x / p) * p) by (nonlinear_arith);
}

/// Any `q` with `q * p <= x < q * p + p` is `floor_div(x, p)`.
pub proof fn lemma_floor_div_unique(x: int, p: int, q: int)
    requires
        p > 0,
        q * p <= x < q * p + p,
    ensures
        floor_div(x, p) == q,
{
    assert(q * p == p * q) by (nonlinear_arith);
    lemma_fundamental_div_mod_converse(x, p, q, x - q * p);
}

/// `ceil_div(x, p)` is the one integer `q` with `q * p - p < x <= q * p`.
pub proof fn lemma_ceil_div_bracket(x: int, p: int)
    requires
        p > 0,
    ensures
        ceil_div(x, p) * p - p < x <= ceil_div(x, p) * p,
{
    lemma_floor_div_bracket(-x, p);
    let f = (-x) / p;
    assert((-f) * p == -(f * p)) by (nonlinear_arith);
}

/// Any `q` with `q * p - p < x <= q * p` is `ceil_div(x, p)`.
pub proof fn lemma_ceil_div_unique(x: int, p: int, q: int)
    requires
        p > 0,
        q * p - p < x <= q * p,
    ensures
        ceil_div(x, p) == q,
{
    assert((-q) * p == -(q * p)) by (nonlinear_arith);
    lemma_floor_div_unique(-x, p, -q);
}

/// Multiplying by a positive number keeps the order of two integers.
pub proof fn lemma_scale_le(a: int, b: int, p: int)
    requires
        p > 0,
        a <= b,
    ensures
        a * p <= b * p,
{
    assert(a * p <= b * p) by (nonlinear_arith)
        requires
            p > 0,
            a <= b,
    ;
}

/// Multiplying by a positive number keeps the strict order of two integers.
pub proof fn lemma_scale_lt(a: int, b: int, p: int)
    requires
        p > 0,
        a < b,
    ensures
        a * p < b * p,
{
    assert(a * p < b * p) by (nonlinear_arith)
        requires
            p > 0,
            a < b,
    ;
}

/// Rounding down never leaves the range between `x` and zero.
pub proof fn lemma_floor_div_range(x: int, p: int)
    requires
        p > 0,
    ensures
        x >= 0 ==> 0 <= floor_div(x, p) <= x,
        x < 0 ==> x <= floor_div(x, p) < 0,
{
    lemma_floor_div_bracket(x, p);
    let q = floor_div(x, p);
    if x >= 0 {
        if q < 0 {
            lemma_scale_le(q, -1, p);
        }
        if q > x {
            lemma_scale_le(x + 1, q, p);
            assert((x + 1) * p >= x + 1) by (nonlinear_arith)
                requires
                    p > 0,
                    x >= 0,
            ;
        }
    } else {
        if q >= 0 {
            lemma_scale_le(0, q, p);
        }
        if q < x {
            lemma_scale_le(q + 1, x, p);
            assert(x * p <= x) by (nonlinear_arith)
                requires
                    p > 0,
                    x < 0,
            ;
            assert((q + 1) * p == q * p + p) by (nonlinear_arith);
        }
    }
}

/// `x / p` rounded down, computed on machine integers.
pub fn div_floor(x: i64, p: i64) -> (q: i64)
    requires
        p > 0,
    ensures
        q == floor_div(x as int, p as int),
{
    proof {
        lemma_floor_div_range(x as int, p as int);
    }
    match x.checked_div_euclid(p) {
        Some(q) => q,
        None => 0,
    }
}

/// `x / p` rounded up, computed on machine integers.
pub fn div_ceil(x: i64, p: i64) -> (q: i64)
    requires
        p > 0,
    ensures
        q == ceil_div(x as int, p as int),
{
    let f: i64 = div_floor(x, p);
    proof {
        lemma_floor_div_bracket(x as int, p as int);
        lemma_floor_div_range(x as int, p as int);
        lemma_mod_bound(x as int, p as int);
        lemma_fundamental_div_mod(x as int, p as int);
        assert((p as int) * (f as int) == (f as int) * (p as int)) by (nonlinear_arith);
    }
    let r: i64 = match x.checked_rem_euclid(p) {
        Some(r) => r,
        None => 0,
    };
    if r == 0 {
        proof {
            lemma_ceil_div_unique(x as int, p as int, f as int);
        }
        f
    } else {
        proof {
            assert((f as int + 1) * (p as int) == (f as int) * (p as int) + (p as int))
                by (nonlinear_arith);
            lemma_ceil_div_unique(x as int, p as int, f as int + 1);
            if f as int == i64::MAX as int {
                lemma_scale_le(1, p as int, f as int);
                assert(false);
            }
        }
        f + 1
    }
}

/// Every multiple of a positive `d` leaves no remainder when divided by `d`.
pub proof fn lemma_multiple_mod(k: int, d: int)
    requires
        d > 0,
    ensures
        (k * d) % d == 0,
        (d * k) % d == 0,
{
    lemma_mod_multiples_basic(k, d);
    assert(k * d == d * k) by (nonlinear_arith);
}

/// A number that leaves no remainder when divided by a positive `d` is the
/// quotient times `d`.
pub proof fn lemma_mod_zero_multiple(n: int, d: int)
    requires
        d > 0,
        n % d == 0,
    ensures
        n == (n / d) * d,
{
    lemma_fundamental_div_mod(n, d);
    assert(d * (n / d) == (n / d) * d) by (nonlinear_arith);
}

/// The greatest common divisor of two natural numbers, by Euclid's rule.
pub open spec fn gcd(a: nat, b: nat) -> nat
    decreases b,
{
    if b == 0 {
        a
    } else {
        gcd(b, a % b)
    }
}

/// Coefficients `(x, y)` with `a * x + b * y == gcd(a, b)`.
pub open spec fn bezout(a: nat, b: nat) -> (int, int)
    decreases b,
{
    if b == 0 {
        (1, 0)
    } else {
        let (x, y) = bezout(b, a % b);
        (y, x - (a / b) * y)
    }
}

/// The greatest common divisor is positive where one of the numbers is, and
/// divides both.
pub proof fn lemma_gcd_divides(a: nat, b: nat)
    requires
        a > 0 || b > 0,
    ensures
        gcd(a, b) > 0,
        (a as int) % (gcd(a, b) as int) == 0,
        (b as int) % (gcd(a, b) as int) == 0,
    decreases b,
{
    if b == 0 {
        lemma_multiple_mod(1, a as int);
        lemma_multiple_mod(0, a as int);
    } else {
        let r = a % b;
        let q = a / b;
        lemma_mod_bound(a as int, b as int);
        lemma_gcd_divides(b, r);
        let g = gcd(b, r) as int;
        lemma_fundamental_div_mod(a as int, b as int);
        lemma_mod_zero_multiple(b as int, g);
        lemma_mod_zero_multiple(r as int, g);
        let bi = (b as int) / g;
        let ri = (r as int) / g;
        assert(a as int == (q * bi + ri) * g) by (nonlinear_arith)
            requires
                a as int == (b as int) * (q as int) + (r as int),
                b as int == bi * g,
                r as int == ri * g,
        ;
        lemma_multiple_mod(q * bi + ri, g);
    }
}

/// The coefficients of `bezout` combine the two numbers to their greatest
/// common divisor.
pub proof fn lemma_bezout(a: nat, b: nat)
    ensures
        a * bezout(a, b).0 + b * bezout(a, b).1 == gcd(a, b),
    decreases b,
{
    if b == 0 {
    } else {
        let r = a % b;
        let q = a / b;
        lemma_mod_bound(a as int, b as int);
        lemma_bezout(b, r);
        let (x, y) = bezout(b, r);
        let g = gcd(b, r) as int;
        lemma_fundamental_div_mod(a as int, b as int);
        assert(a * y + b * (x - q * y) == g) by (nonlinear_arith)
            requires
                a as int == (b as int) * (q as int) + (r as int),
                b * x + r * y == g,
        ;
    }
}

/// The least common multiple of two positive integers.
pub open spec fn lcm2(a: int, b: int) -> int {
    (a / (gcd(a as nat, b as nat) as int)) * b
}

/// `lcm2(a, b)` is positive and a multiple of both numbers.
pub proof fn lemma_lcm2_is_common_multiple(a: int, b: int)
    requires
        a > 0,
        b > 0,
    ensures
        lcm2(a, b) > 0,
        lcm2(a, b) % a == 0,
        lcm2(a, b) % b == 0,
{
    lemma_gcd_divides(a as nat, b as nat);
    let g = gcd(a as nat, b as nat) as int;
    lemma_mod_zero_multiple(a, g);
    lemma_mod_zero_multiple(b, g);
    let ai = a / g;
    let bi = b / g;
    if ai <= 0 {
        lemma_scale_le(ai, 0, g);
    }
    lemma_scale_lt(0, ai, b);
    assert(ai * b == bi * a) by (nonlinear_arith)
        requires
            a == ai * g,
            b == bi * g,
    ;
    lemma_multiple_mod(ai, b);
    lemma_multiple_mod(bi, a);
}

/// Every common multiple of two positive integers is a multiple of
/// `lcm2(a, b)`.
pub proof fn lemma_lcm2_divides_common_multiples(a: int, b: int, c: int)
    requires
        a > 0,
        b > 0,
        c % a == 0,
        c % b == 0,
    ensures
        c % lcm2(a, b) == 0,
{
    lemma_gcd_divides(a as nat, b as nat);
    lemma_bezout(a as nat, b as nat);
    lemma_lcm2_is_common_multiple(a, b);
    let g = gcd(a as nat, b as nat) as int;
    let (x, y) = bezout(a as nat, b as nat);
    let m = lcm2(a, b);
    lemma_mod_zero_multiple(a, g);
    lemma_mod_zero_multiple(c, a);
    lemma_mod_zero_multiple(c, b);
    let ai = a / g;
    let u = c / a;
    let v = c / b;
    let t = v * x + u * y;
    let ab = a * b;
    assert(c * g == c * (a * x) + c * (b * y)) by (nonlinear_arith)
        requires
            g == a * x + b * y,
    ;
    assert(c * (a * x) == ab * (v * x)) by (nonlinear_arith)
        requires
            c == v * b,
            ab == a * b,
    ;
    assert(c * (b * y) == ab * (u * y)) by (nonlinear_arith)
        requires
            c == u * a,
            ab == a * b,
    ;
    assert(ab * (v * x) + ab * (u * y) == ab * t) by (nonlinear_arith)
        requires
            t == v * x + u * y,
    ;
    assert(m * g == ab) by (nonlinear_arith)
        requires
            a == ai * g,
            m == ai * b,
            ab == a * b,
    ;
    assert((m * t) * g == (m * g) * t) by (nonlinear_arith);
    assert(c == m * t) by (nonlinear_arith)
        requires
            c * g == (m * t) * g,
            g > 0,
    ;
    lemma_multiple_mod(t, m);
}

/// A positive multiple of a positive `d` is at least `d`.
pub proof fn lemma_positive_multiple_ge(c: int, d: int)
    requires
        d > 0,
        c > 0,
        c % d == 0,
    ensures
        c >= d,
{
    lemma_mod_zero_multiple(c, d);
    if c / d <= 0 {
        lemma_scale_le(c / d, 0, d);
    }
    lemma_scale_le(1, c / d, d);
}

/// The greatest common divisor of a positive and a non-negative machine
/// integer.
pub fn gcd_i64(a: i64, b: i64) -> (g: i64)
    requires
        a > 0,
        b >= 0,
    ensures
        g == gcd(a as nat, b as nat),
        g > 0,
{
    let mut x: i64 = a;
    let mut y: i64 = b;
    while y != 0
        invariant
            x > 0,
            y >= 0,
            gcd(x as nat, y as nat) == gcd(a as nat, b as nat),
        decreases y,
    {
        proof {
            lemma_mod_bound(x as int, y as int);
        }
        let r: i64 = x % y;
        x = y;
        y = r;
    }
    assert(gcd(x as nat, 0) == x);
    x
}

} // verus!
