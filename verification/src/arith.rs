//! Number-theoretic specifications and lemmas shared by the exact-time model:
//! Euclid's gcd, divisibility and the facts that make reduced fractions unique.

use vstd::arithmetic::div_mod::*;
use vstd::arithmetic::mul::*;
use vstd::prelude::*;

verus! {

/// Euclid's greatest common divisor on naturals.
pub open spec fn gcd_spec(a: nat, b: nat) -> nat
    decreases b,
{
    if b == 0 {
        a
    } else {
        gcd_spec(b, a % b)
    }
}

/// Absolute value as a natural number.
pub open spec fn iabs(x: int) -> nat {
    if x < 0 {
        (-x) as nat
    } else {
        x as nat
    }
}

/// `d` divides `x` (for a positive divisor).
pub open spec fn divides(d: int, x: int) -> bool {
    d > 0 && x % d == 0
}

pub proof fn lemma_divides_mul(d: int, k: int)
    requires
        d > 0,
    ensures
        divides(d, d * k),
        divides(d, k * d),
{
    lemma_mod_multiples_basic(k, d);
    lemma_mul_is_commutative(d, k);
}

pub proof fn lemma_divides_elim(d: int, x: int)
    requires
        divides(d, x),
    ensures
        x == d * (x / d),
{
    lemma_fundamental_div_mod(x, d);
}

pub proof fn lemma_divides_lin(d: int, x: int, y: int, c: int)
    requires
        divides(d, x),
        divides(d, y),
    ensures
        divides(d, x + c * y),
        divides(d, x - c * y),
{
    lemma_divides_elim(d, x);
    lemma_divides_elim(d, y);
    let p = x / d;
    let q = y / d;
    assert(x + c * y == d * (p + c * q)) by (nonlinear_arith)
        requires
            x == d * p,
            y == d * q,
    ;
    assert(x - c * y == d * (p - c * q)) by (nonlinear_arith)
        requires
            x == d * p,
            y == d * q,
    ;
    lemma_divides_mul(d, p + c * q);
    lemma_divides_mul(d, p - c * q);
}

pub proof fn lemma_divides_le(d: int, x: int)
    requires
        divides(d, x),
        x > 0,
    ensures
        d <= x,
{
    lemma_divides_elim(d, x);
    let q = x / d;
    if q <= 0 {
        assert(d * q <= 0) by (nonlinear_arith)
            requires
                d > 0,
                q <= 0,
        ;
    } else {
        assert(d * q >= d) by (nonlinear_arith)
            requires
                d > 0,
                q >= 1,
        ;
    }
}

/// The gcd is positive when one argument is, and divides both arguments.
pub proof fn lemma_gcd_divides(a: nat, b: nat)
    ensures
        (a > 0 || b > 0) ==> gcd_spec(a, b) > 0,
        gcd_spec(a, b) > 0 ==> divides(gcd_spec(a, b) as int, a as int) && divides(
            gcd_spec(a, b) as int,
            b as int,
        ),
        a == 0 && b == 0 ==> gcd_spec(a, b) == 0,
    decreases b,
{
    if b == 0 {
        if a > 0 {
            lemma_mod_self_0(a as int);
            lemma_small_mod(0, a);
        }
    } else {
        let r = a % b;
        lemma_gcd_divides(b, r);
        let g = gcd_spec(b, r);
        assert(g > 0);
        lemma_fundamental_div_mod(a as int, b as int);
        assert(a as int == (b as int) * ((a as int) / (b as int)) + (r as int));
        lemma_divides_lin(g as int, r as int, b as int, (a as int) / (b as int));
        assert((r as int) + ((a as int) / (b as int)) * (b as int) == a as int) by (nonlinear_arith)
            requires
                a as int == (b as int) * ((a as int) / (b as int)) + (r as int),
        ;
    }
}

/// Every common divisor of `a` and `b` divides their gcd.
pub proof fn lemma_common_divisor_divides_gcd(a: nat, b: nat, c: int)
    requires
        divides(c, a as int),
        divides(c, b as int),
    ensures
        divides(c, gcd_spec(a, b) as int),
    decreases b,
{
    if b != 0 {
        let r = a % b;
        lemma_fundamental_div_mod(a as int, b as int);
        let q = (a as int) / (b as int);
        assert(r as int == (a as int) - q * (b as int)) by (nonlinear_arith)
            requires
                a as int == (b as int) * q + (r as int),
        ;
        lemma_divides_lin(c, a as int, b as int, q);
        lemma_common_divisor_divides_gcd(b, r, c);
    }
}

/// Scaling both arguments scales the gcd.
pub proof fn lemma_gcd_scale(k: nat, a: nat, b: nat)
    requires
        k > 0,
    ensures
        gcd_spec(k * a, k * b) == k * gcd_spec(a, b),
    decreases b,
{
    if b == 0 {
        assert(k * b == 0) by (nonlinear_arith)
            requires
                b == 0,
        ;
    } else {
        let r = a % b;
        let q = a / b;
        lemma_fundamental_div_mod(a as int, b as int);
        assert(k * b > 0) by (nonlinear_arith)
            requires
                k > 0,
                b > 0,
        ;
        assert((k * a) as int == (k * b) as int * (q as int) + (k * r) as int) by (nonlinear_arith)
            requires
                a as int == (b as int) * (q as int) + (r as int),
        ;
        assert(k * r < k * b) by (nonlinear_arith)
            requires
                r < b,
                k > 0,
        ;
        lemma_fundamental_div_mod_converse_mod(
            (k * a) as int,
            (k * b) as int,
            q as int,
            (k * r) as int,
        );
        assert((k * a) % (k * b) == k * r);
        lemma_gcd_scale(k, b, r);
    }
}

/// `gcd(a, 0) == a`, `gcd(0, b) == b` and `gcd(a, 1) == 1`.
pub proof fn lemma_gcd_basics(a: nat, b: nat)
    ensures
        gcd_spec(a, 0) == a,
        gcd_spec(0, b) == b,
        gcd_spec(a, 1) == 1,
{
    if b > 0 {
        lemma_small_mod(0, b);
        assert(gcd_spec(0, b) == gcd_spec(b, 0));
    }
    lemma_mod_basics_one(a);
    assert(gcd_spec(a, 1) == gcd_spec(1, a % 1));
    assert(gcd_spec(1, 0) == 1);
}

proof fn lemma_mod_basics_one(a: nat)
    ensures
        a % 1 == 0,
{
    lemma_mod_self_0(1);
    lemma_mod_multiples_basic(a as int, 1);
}

/// The gcd is symmetric.
pub proof fn lemma_gcd_comm(a: nat, b: nat)
    ensures
        gcd_spec(a, b) == gcd_spec(b, a),
{
    lemma_gcd_divides(a, b);
    lemma_gcd_divides(b, a);
    let g1 = gcd_spec(a, b);
    let g2 = gcd_spec(b, a);
    if a == 0 && b == 0 {
    } else {
        lemma_common_divisor_divides_gcd(b, a, g1 as int);
        lemma_common_divisor_divides_gcd(a, b, g2 as int);
        lemma_divides_le(g1 as int, g2 as int);
        lemma_divides_le(g2 as int, g1 as int);
    }
}

/// Dividing out the gcd leaves coprime parts.
pub proof fn lemma_gcd_reduce(a: nat, b: nat)
    requires
        gcd_spec(a, b) > 0,
    ensures
        gcd_spec(a / gcd_spec(a, b), b / gcd_spec(a, b)) == 1,
{
    let g = gcd_spec(a, b);
    lemma_gcd_divides(a, b);
    lemma_divides_elim(g as int, a as int);
    lemma_divides_elim(g as int, b as int);
    let a1 = a / g;
    let b1 = b / g;
    assert(a == g * a1 && b == g * b1);
    lemma_gcd_scale(g, a1, b1);
    assert(g * gcd_spec(a1, b1) == g * 1);
    lemma_mul_equality_converse(g as int, gcd_spec(a1, b1) as int, 1);
}

/// Euclid's lemma: if `b` divides `a * d` and `a`, `b` are coprime then `b` divides `d`.
pub proof fn lemma_coprime_divides(a: nat, b: nat, d: nat)
    requires
        b > 0,
        gcd_spec(a, b) == 1,
        divides(b as int, (a * d) as int),
    ensures
        divides(b as int, d as int),
{
    if d == 0 {
        lemma_small_mod(0, b);
    } else {
        lemma_gcd_scale(d, a, b);
        assert(d * a == a * d) by (nonlinear_arith);
        lemma_divides_mul(b as int, d as int);
        assert(d * b == b * d) by (nonlinear_arith);
        lemma_common_divisor_divides_gcd(d * a, d * b, b as int);
        assert(gcd_spec(d * a, d * b) == d * 1);
    }
}

} // verus!
