//! Exact rational musical time.
//!
//! All stored positions and durations are measured in **beats** (quarter notes)
//! as a reduced fraction [`RationalTime`]. Arbitrary subdivisions, odd
//! denominators, tuplets and polyrhythms are all representable exactly. An LCM
//! grid is computed only for rendering a shared step grid across patterns.

use crate::arith::{
    divides, gcd_spec, iabs, lemma_common_divisor_divides_gcd, lemma_coprime_divides, lemma_divides_elim,
    lemma_divides_le, lemma_divides_lin, lemma_divides_mul, lemma_gcd_basics, lemma_gcd_comm,
    lemma_gcd_divides, lemma_gcd_reduce, lemma_gcd_scale,
};
use vstd::arithmetic::div_mod::*;
use vstd::arithmetic::mul::*;
use vstd::prelude::*;
use vstd::std_specs::ops::{AddSpecImpl, DivSpecImpl, MulSpecImpl, NegSpecImpl, SubSpecImpl};

verus! {

/// Greatest common divisor (Euclid), always non-negative.
pub fn gcd(a: i64, b: i64) -> (r: i64)
    requires
        a > i64::MIN,
        b > i64::MIN,
    ensures
        r as nat == gcd_spec(iabs(a as int), iabs(b as int)),
        r >= 0,
{
    let mut x: i64 = if a < 0 {
        -a
    } else {
        a
    };
    let mut y: i64 = if b < 0 {
        -b
    } else {
        b
    };
    while y != 0
        invariant
            x >= 0,
            y >= 0,
            gcd_spec(x as nat, y as nat) == gcd_spec(iabs(a as int), iabs(b as int)),
        decreases y,
    {
        let t = y;
        y = x % y;
        x = t;
    }
    proof {
        lemma_gcd_basics(x as nat, 0);
    }
    x
}

/// `lcm(a, b)` as the original computes it: `|a| / gcd * |b|`, saturating at
/// `i64::MAX`, and `0` when either argument is `0`.
pub open spec fn lcm_spec(a: int, b: int) -> int {
    if a == 0 || b == 0 {
        0
    } else {
        let q = iabs(a) / gcd_spec(iabs(a), iabs(b));
        let p: int = (q * iabs(b)) as int;
        if p > i64::MAX {
            i64::MAX as int
        } else {
            p
        }
    }
}

/// Least common multiple, always non-negative, saturating at `i64::MAX`.
/// `lcm(0, x) == 0`.
pub fn lcm(a: i64, b: i64) -> (r: i64)
    requires
        a > i64::MIN,
        b > i64::MIN,
    ensures
        r == lcm_spec(a as int, b as int),
        r >= 0,
{
    if a == 0 || b == 0 {
        return 0;
    }
    let g = gcd(a, b);
    proof {
        lemma_gcd_divides(iabs(a as int), iabs(b as int));
    }
    let aa: i64 = if a < 0 {
        -a
    } else {
        a
    };
    let bb: i64 = if b < 0 {
        -b
    } else {
        b
    };
    let q = aa / g;
    if q > i64::MAX / bb {
        proof {
            assert((q as int) * (bb as int) > i64::MAX) by (nonlinear_arith)
                requires
                    q > i64::MAX / bb,
                    bb > 0,
            ;
        }
        i64::MAX
    } else {
        proof {
            assert((q as int) * (bb as int) <= i64::MAX) by (nonlinear_arith)
                requires
                    q <= i64::MAX / bb,
                    bb > 0,
                    q >= 0,
            ;
        }
        q * bb
    }
}

/// `n` fits in an `i64`.
pub open spec fn in_i64(n: int) -> bool {
    i64::MIN <= n <= i64::MAX
}

/// Inputs on which [`RationalTime::new`] neither negates nor takes the absolute
/// value of `i64::MIN`.
pub open spec fn new_ok(n: int, d: int) -> bool {
    &&& in_i64(n)
    &&& in_i64(d)
    &&& (d == 0 || (n > i64::MIN && d > i64::MIN))
}

/// An exact musical time/position in beats, stored as a reduced fraction
/// `num/den` with `den > 0`; the sign is carried in `num` and zero is `0/1`.
#[derive(Debug, Clone, Copy, PartialEq, Eq, Structural)]
pub struct RationalTime {
    num: i64,
    den: i64,
}

impl RationalTime {
    /// The numerator.
    pub closed spec fn numer(self) -> int {
        self.num as int
    }

    /// The denominator.
    pub closed spec fn denom(self) -> int {
        self.den as int
    }

    /// Normal form: positive denominator, numerator and denominator coprime.
    pub open spec fn wf(self) -> bool {
        &&& 0 < self.denom() <= i64::MAX
        &&& in_i64(self.numer())
        &&& gcd_spec(iabs(self.numer()), self.denom() as nat) == 1
    }

    /// Every value is kept in normal form.
    #[verifier::type_invariant]
    pub closed spec fn inv(self) -> bool {
        self.wf()
    }

    /// The invariant of a value is its normal form.
    pub proof fn lemma_inv_wf(x: RationalTime)
        requires
            x.inv(),
        ensures
            x.wf(),
    {
    }

    /// The reduced fraction equal to `n/d` (for `d != 0`); `n/1` when `d == 0`.
    pub closed spec fn ratio(n: int, d: int) -> RationalTime {
        if d == 0 {
            RationalTime { num: n as i64, den: 1 }
        } else {
            let n1 = if d < 0 {
                -n
            } else {
                n
            };
            let d1 = if d < 0 {
                -d
            } else {
                d
            };
            let g = gcd_spec(iabs(n1), d1 as nat) as int;
            RationalTime { num: (n1 / g) as i64, den: (d1 / g) as i64 }
        }
    }

    /// The whole number `n` as `n/1`.
    pub closed spec fn whole_spec(n: int) -> RationalTime {
        RationalTime { num: n as i64, den: 1 }
    }

    /// `a` and `b` denote the same rational number.
    pub open spec fn same_value(a: RationalTime, b: RationalTime) -> bool {
        a.numer() * b.denom() == b.numer() * a.denom()
    }

    /// `a` denotes a smaller rational number than `b` (denominators positive).
    pub open spec fn lt_value(a: RationalTime, b: RationalTime) -> bool {
        a.numer() * b.denom() < b.numer() * a.denom()
    }

    /// Flooring stays within `i64` (`-n + d` must fit for negative values).
    pub open spec fn floor_ok(self) -> bool {
        self.numer() >= 0 || -self.numer() + self.denom() <= i64::MAX
    }

    /// `floor(n/d)`.
    pub open spec fn floor_spec(self) -> int {
        self.numer() / self.denom()
    }

    pub proof fn lemma_wf(self)
        requires
            self.wf(),
        ensures
            self.numer() == 0 ==> self.denom() == 1,
    {
        if self.numer() == 0 {
            lemma_gcd_basics(0, self.denom() as nat);
        }
    }

    /// Properties of [`RationalTime::ratio`]: it is in normal form and denotes `n/d`.
    pub proof fn lemma_ratio(n: int, d: int)
        requires
            new_ok(n, d),
        ensures
            Self::ratio(n, d).wf(),
            d == 0 ==> Self::ratio(n, d).numer() == n && Self::ratio(n, d).denom() == 1,
            d != 0 ==> Self::ratio(n, d).numer() * d == n * Self::ratio(n, d).denom(),
            d > 0 && n == 0 ==> Self::ratio(n, d).numer() == 0,
            d != 0 ==> iabs(Self::ratio(n, d).numer()) <= iabs(n),
            d != 0 ==> Self::ratio(n, d).denom() <= iabs(d),
            d != 0 ==> (Self::ratio(n, d).numer() < 0 <==> n * d < 0),
    {
        if d == 0 {
            lemma_gcd_basics(iabs(n), 1);
        } else {
            let n1 = if d < 0 {
                -n
            } else {
                n
            };
            let d1 = if d < 0 {
                -d
            } else {
                d
            };
            assert(d1 > 0);
            assert(iabs(n1) == iabs(n));
            let g = gcd_spec(iabs(n1), d1 as nat);
            lemma_gcd_divides(iabs(n1), d1 as nat);
            assert(g > 0);
            lemma_gcd_reduce(iabs(n1), d1 as nat);
            lemma_divides_elim(g as int, iabs(n1) as int);
            lemma_divides_elim(g as int, d1);
            let q = (iabs(n1) as int) / (g as int);
            let e = d1 / (g as int);
            assert(d1 == g * e);
            assert(e > 0) by (nonlinear_arith)
                requires
                    d1 == g * e,
                    d1 > 0,
                    g > 0,
            ;
            assert(e <= d1) by (nonlinear_arith)
                requires
                    d1 == g * e,
                    e > 0,
                    g > 0,
            ;
            assert(q >= 0) by (nonlinear_arith)
                requires
                    iabs(n1) == g * q,
                    g > 0,
            ;
            assert(q <= iabs(n1)) by (nonlinear_arith)
                requires
                    iabs(n1) == g * q,
                    q >= 0,
                    g > 0,
            ;
            // the signed quotient n1 / g is +-q
            let sq: int = if n1 < 0 {
                -q
            } else {
                q
            };
            assert(n1 == g * sq) by (nonlinear_arith)
                requires
                    iabs(n1) == g * q,
                    sq == (if n1 < 0 {
                        -q
                    } else {
                        q
                    }),
                    iabs(n1) == (if n1 < 0 {
                        -n1
                    } else {
                        n1
                    }),
            ;
            lemma_div_multiples_vanish(sq, g as int);
            assert(n1 / (g as int) == sq);
            lemma_div_multiples_vanish(e, g as int);
            let r = Self::ratio(n, d);
            assert(r.numer() == sq);
            assert(r.denom() == e);
            assert(iabs(sq) == q);
            if d < 0 {
                assert(sq * d == n * e) by (nonlinear_arith)
                    requires
                        n1 == g * sq,
                        d1 == g * e,
                        n1 == -n,
                        d1 == -d,
                ;
            } else {
                assert(sq * d == n * e) by (nonlinear_arith)
                    requires
                        n1 == g * sq,
                        d1 == g * e,
                        n1 == n,
                        d1 == d,
                ;
            }
            if n * d < 0 {
                assert(n1 < 0) by (nonlinear_arith)
                    requires
                        n * d < 0,
                        n1 == (if d < 0 {
                            -n
                        } else {
                            n
                        }),
                ;
                assert(q > 0) by (nonlinear_arith)
                    requires
                        iabs(n1) == g * q,
                        n1 < 0,
                        g > 0,
                        iabs(n1) == -n1,
                ;
            } else {
                assert(n1 >= 0) by (nonlinear_arith)
                    requires
                        n * d >= 0,
                        d != 0,
                        n1 == (if d < 0 {
                            -n
                        } else {
                            n
                        }),
                ;
            }
            if n == 0 {
                assert(n1 == 0);
            }
        }
    }

    /// Two fractions in normal form that denote the same number are identical:
    /// this is why component-wise `==` is value equality.
    pub proof fn lemma_unique(a: RationalTime, b: RationalTime)
        requires
            a.wf(),
            b.wf(),
            Self::same_value(a, b),
        ensures
            a == b,
    {
        let an = a.numer();
        let ad = a.denom();
        let bn = b.numer();
        let bd = b.denom();
        // |a.n| * b.d == |b.n| * a.d
        assert(iabs(an) * bd == iabs(bn) * ad) by (nonlinear_arith)
            requires
                an * bd == bn * ad,
                ad > 0,
                bd > 0,
                iabs(an) == (if an < 0 {
                    -an
                } else {
                    an
                }),
                iabs(bn) == (if bn < 0 {
                    -bn
                } else {
                    bn
                }),
        ;
        // a.d divides |a.n| * b.d, and gcd(|a.n|, a.d) == 1, so a.d | b.d
        lemma_divides_mul(ad, iabs(bn) as int);
        assert(iabs(bn) * ad == ad * iabs(bn)) by (nonlinear_arith);
        lemma_coprime_divides(iabs(an), ad as nat, bd as nat);
        lemma_divides_mul(bd, iabs(an) as int);
        assert(iabs(an) * bd == bd * iabs(an)) by (nonlinear_arith);
        lemma_coprime_divides(iabs(bn), bd as nat, ad as nat);
        lemma_divides_le(ad, bd);
        lemma_divides_le(bd, ad);
        assert(ad == bd);
        assert(an == bn) by (nonlinear_arith)
            requires
                an * bd == bn * ad,
                ad == bd,
                ad > 0,
        ;
        Self::lemma_eq_fields(a, b);
    }

    proof fn lemma_eq_fields(a: RationalTime, b: RationalTime)
        requires
            a.numer() == b.numer(),
            a.denom() == b.denom(),
        ensures
            a == b,
    {
    }

    /// A value in normal form is its own reduced representative.
    pub proof fn lemma_ratio_of_wf(x: RationalTime)
        requires
            x.wf(),
        ensures
            Self::ratio(x.numer(), x.denom()) == x,
    {
        let r = Self::ratio(x.numer(), x.denom());
        x.lemma_wf();
        assert(x.numer() > i64::MIN || x.numer() == i64::MIN);
        if x.numer() == i64::MIN {
            // gcd(2^63, d) == 1 forces d odd; the reduced form is x itself
            let g = gcd_spec(iabs(x.numer()), x.denom() as nat);
            assert(g == 1);
            Self::lemma_div_by_one_int(x.numer());
            Self::lemma_div_by_one_int(x.denom());
            assert(r.numer() == x.numer());
            assert(r.denom() == x.denom());
            Self::lemma_eq_fields(r, x);
        } else {
            Self::lemma_ratio(x.numer(), x.denom());
            assert(r.numer() * x.denom() == x.numer() * r.denom());
            Self::lemma_unique(r, x);
        }
    }

    proof fn lemma_div_by_one_int(v: int)
        ensures
            v / 1 == v,
    {
        lemma_div_basics(v);
    }
}

impl RationalTime {
    /// Construct from a numerator/denominator, reducing to lowest terms.
    ///
    /// A zero denominator is treated as `1` rather than panicking, and a
    /// negative denominator moves its sign to the numerator.
    pub fn new(num: i64, den: i64) -> (r: RationalTime)
        requires
            new_ok(num as int, den as int),
        ensures
            r == Self::ratio(num as int, den as int),
    {
        if den == 0 {
            proof {
                lemma_gcd_basics(iabs(num as int), 1);
            }
            return RationalTime { num, den: 1 };
        }
        let (mut n, mut d) = (num, den);
        if d < 0 {
            n = -n;
            d = -d;
        }
        proof {
            Self::lemma_ratio(num as int, den as int);
        }
        if n == 0 {
            proof {
                lemma_gcd_basics(0, d as nat);
                lemma_div_by_self(d as int);
                lemma_div_of0(d as int);
            }
            return RationalTime { num: 0, den: 1 };
        }
        let g = gcd(n, d);
        proof {
            let g0 = g as int;
            lemma_gcd_divides(iabs(n as int), d as nat);
            lemma_divides_elim(g0, iabs(n as int) as int);
            lemma_divides_elim(g0, d as int);
            let q = (iabs(n as int) as int) / g0;
            if n < 0 {
                assert((-(n as int)) == g0 * q);
                assert(n as int == g0 * (-q)) by (nonlinear_arith)
                    requires
                        -(n as int) == g0 * q,
                ;
                lemma_div_multiples_vanish(q, g0);
                lemma_div_multiples_vanish(-q, g0);
                assert((-(n as int)) / g0 == q);
            }
        }
        RationalTime { num: n / g, den: d / g }
    }

    /// A whole number of beats (`n/1`).
    pub fn whole(n: i64) -> (r: RationalTime)
        ensures
            r == Self::whole_spec(n as int),
            r.numer() == n,
            r.denom() == 1,
    {
        proof {
            lemma_gcd_basics(iabs(n as int), 1);
        }
        RationalTime { num: n, den: 1 }
    }

    /// Zero beats (`0/1`).
    pub fn zero() -> (r: RationalTime)
        ensures
            r == Self::whole_spec(0),
            r.numer() == 0,
            r.denom() == 1,
    {
        Self::whole(0)
    }

    /// One beat (`1/1`).
    pub fn one() -> (r: RationalTime)
        ensures
            r == Self::whole_spec(1),
            r.numer() == 1,
            r.denom() == 1,
    {
        Self::whole(1)
    }

    pub fn num(&self) -> (r: i64)
        ensures
            r == self.numer(),
    {
        self.num
    }

    pub fn den(&self) -> (r: i64)
        ensures
            r == self.denom(),
            r > 0,
    {
        proof {
            use_type_invariant(self);
        }
        self.den
    }

    pub fn is_zero(&self) -> (r: bool)
        ensures
            r == (self.numer() == 0),
    {
        self.num == 0
    }

    pub fn is_negative(&self) -> (r: bool)
        ensures
            r == (self.numer() < 0),
    {
        self.num < 0
    }

    /// Absolute value.
    pub fn abs(&self) -> (r: RationalTime)
        requires
            self.numer() > i64::MIN,
        ensures
            r.numer() == iabs(self.numer()),
            r.denom() == self.denom(),
    {
        proof {
            use_type_invariant(self);
        }
        let n = if self.num < 0 {
            -self.num
        } else {
            self.num
        };
        RationalTime { num: n, den: self.den }
    }

    /// Floor to a whole number of beats.
    pub fn floor(&self) -> (r: i64)
        requires
            self.floor_ok(),
        ensures
            r == self.floor_spec(),
    {
        proof {
            use_type_invariant(self);
        }
        if self.num >= 0 {
            self.num / self.den
        } else {
            let m = -self.num + self.den - 1;
            let q = m / self.den;
            proof {
                let n = self.numer();
                let d = self.denom();
                // -((-n + d - 1) / d) == floor(n / d) for n < 0, d > 0
                lemma_fundamental_div_mod(n, d);
                lemma_mod_bound(n, d);
                let f = n / d;
                let rr = n % d;
                assert(-n + d - 1 == (-f) * d + (d - 1 - rr)) by (nonlinear_arith)
                    requires
                        n == d * f + rr,
                ;
                lemma_fundamental_div_mod_converse_div(-n + d - 1, d, -f, d - 1 - rr);
            }
            -q
        }
    }

    /// Fractional part in `[0, 1)` beats (always non-negative).
    pub fn frac(&self) -> (r: RationalTime)
        requires
            self.floor_ok(),
            Self::sub_ok(*self, Self::whole_spec(self.floor_spec())),
        ensures
            r == Self::sub_spec_of(*self, Self::whole_spec(self.floor_spec())),
            0 <= r.numer() < r.denom(),
    {
        proof {
            use_type_invariant(self);
        }
        let w = Self::whole(self.floor());
        let r = self.sub_exact(w);
        proof {
            use_type_invariant(&r);
            let n = self.numer();
            let d = self.denom();
            let f = n / d;
            lemma_fundamental_div_mod(n, d);
            lemma_mod_bound(n, d);
            let x = n * 1 - f * d;
            assert(x == n % d) by (nonlinear_arith)
                requires
                    n == d * f + n % d,
                    x == n * 1 - f * d,
            ;
            Self::lemma_ratio(x, d * 1);
            assert(0 <= r.numer() < r.denom()) by (nonlinear_arith)
                requires
                    r.numer() * (d * 1) == x * r.denom(),
                    0 <= x < d,
                    r.denom() > 0,
                    d > 0,
            ;
        }
        r
    }

    pub open spec fn add_ok(a: RationalTime, b: RationalTime) -> bool {
        &&& in_i64(a.numer() * b.denom())
        &&& in_i64(b.numer() * a.denom())
        &&& in_i64(a.numer() * b.denom() + b.numer() * a.denom())
        &&& in_i64(a.denom() * b.denom())
        &&& new_ok(a.numer() * b.denom() + b.numer() * a.denom(), a.denom() * b.denom())
    }

    pub open spec fn add_spec_of(a: RationalTime, b: RationalTime) -> RationalTime {
        Self::ratio(a.numer() * b.denom() + b.numer() * a.denom(), a.denom() * b.denom())
    }

    pub open spec fn sub_ok(a: RationalTime, b: RationalTime) -> bool {
        &&& in_i64(a.numer() * b.denom())
        &&& in_i64(b.numer() * a.denom())
        &&& in_i64(a.numer() * b.denom() - b.numer() * a.denom())
        &&& in_i64(a.denom() * b.denom())
        &&& new_ok(a.numer() * b.denom() - b.numer() * a.denom(), a.denom() * b.denom())
    }

    pub open spec fn sub_spec_of(a: RationalTime, b: RationalTime) -> RationalTime {
        Self::ratio(a.numer() * b.denom() - b.numer() * a.denom(), a.denom() * b.denom())
    }

    pub open spec fn mul_ok(a: RationalTime, b: RationalTime) -> bool {
        &&& in_i64(a.numer() * b.numer())
        &&& in_i64(a.denom() * b.denom())
        &&& new_ok(a.numer() * b.numer(), a.denom() * b.denom())
    }

    pub open spec fn mul_spec_of(a: RationalTime, b: RationalTime) -> RationalTime {
        Self::ratio(a.numer() * b.numer(), a.denom() * b.denom())
    }

    pub open spec fn div_ok(a: RationalTime, b: RationalTime) -> bool {
        &&& in_i64(a.numer() * b.denom())
        &&& in_i64(a.denom() * b.numer())
        &&& new_ok(a.numer() * b.denom(), a.denom() * b.numer())
    }

    pub open spec fn div_spec_of(a: RationalTime, b: RationalTime) -> RationalTime {
        Self::ratio(a.numer() * b.denom(), a.denom() * b.numer())
    }

    pub open spec fn mul_int_ok(a: RationalTime, k: int) -> bool {
        &&& in_i64(a.numer() * k)
        &&& new_ok(a.numer() * k, a.denom())
    }

    pub open spec fn mul_int_spec_of(a: RationalTime, k: int) -> RationalTime {
        Self::ratio(a.numer() * k, a.denom())
    }

    pub open spec fn div_int_ok(a: RationalTime, k: int) -> bool {
        &&& in_i64(a.denom() * k)
        &&& new_ok(a.numer(), a.denom() * k)
    }

    pub open spec fn div_int_spec_of(a: RationalTime, k: int) -> RationalTime {
        Self::ratio(a.numer(), a.denom() * k)
    }

    /// Exact sum.
    pub fn add_exact(self, rhs: RationalTime) -> (r: RationalTime)
        requires
            Self::add_ok(self, rhs),
        ensures
            r == Self::add_spec_of(self, rhs),
    {
        proof {
            use_type_invariant(&self);
            use_type_invariant(&rhs);
        }
        RationalTime::new(self.num * rhs.den + rhs.num * self.den, self.den * rhs.den)
    }

    /// Exact difference.
    pub fn sub_exact(self, rhs: RationalTime) -> (r: RationalTime)
        requires
            Self::sub_ok(self, rhs),
        ensures
            r == Self::sub_spec_of(self, rhs),
    {
        proof {
            use_type_invariant(&self);
            use_type_invariant(&rhs);
        }
        RationalTime::new(self.num * rhs.den - rhs.num * self.den, self.den * rhs.den)
    }

    /// Exact product.
    pub fn mul_exact(self, rhs: RationalTime) -> (r: RationalTime)
        requires
            Self::mul_ok(self, rhs),
        ensures
            r == Self::mul_spec_of(self, rhs),
    {
        RationalTime::new(self.num * rhs.num, self.den * rhs.den)
    }

    /// Exact quotient; a zero divisor yields `n*d'/1` (the zero-denominator clamp).
    pub fn div_exact(self, rhs: RationalTime) -> (r: RationalTime)
        requires
            Self::div_ok(self, rhs),
        ensures
            r == Self::div_spec_of(self, rhs),
    {
        RationalTime::new(self.num * rhs.den, self.den * rhs.num)
    }

    /// Scale by an integer.
    pub fn mul_int(self, k: i64) -> (r: RationalTime)
        requires
            Self::mul_int_ok(self, k as int),
        ensures
            r == Self::mul_int_spec_of(self, k as int),
    {
        RationalTime::new(self.num * k, self.den)
    }

    /// Divide by an integer (scales the denominator).
    pub fn div_int(self, k: i64) -> (r: RationalTime)
        requires
            Self::div_int_ok(self, k as int),
        ensures
            r == Self::div_int_spec_of(self, k as int),
    {
        RationalTime::new(self.num, self.den * k)
    }

    /// Negation.
    pub fn negate(self) -> (r: RationalTime)
        requires
            self.numer() > i64::MIN,
        ensures
            r.numer() == -self.numer(),
            r.denom() == self.denom(),
            r == Self::ratio(-self.numer(), self.denom()),
    {
        proof {
            use_type_invariant(&self);
            assert(iabs(-self.numer()) == iabs(self.numer()));
        }
        let r = RationalTime { num: -self.num, den: self.den };
        proof {
            Self::lemma_ratio_of_wf(r);
        }
        r
    }

    /// `-1`, `0` or `1` as `self` is below, equal to or above `other`.
    pub fn compare_sign(&self, other: &RationalTime) -> (r: i8)
        ensures
            r == -1 <==> Self::lt_value(*self, *other),
            r == 0 <==> Self::same_value(*self, *other),
            r == 1 <==> Self::lt_value(*other, *self),
            -1 <= r <= 1,
    {
        proof {
            use_type_invariant(self);
            use_type_invariant(other);
            lemma_mul_upper_bound_i64(self.numer(), other.denom());
            lemma_mul_upper_bound_i64(other.numer(), self.denom());
        }
        let lhs = (self.num as i128) * (other.den as i128);
        let rhs = (other.num as i128) * (self.den as i128);
        if lhs < rhs {
            -1
        } else if lhs == rhs {
            0
        } else {
            1
        }
    }

    /// `self < other` as rational numbers.
    pub fn less_than(&self, other: &RationalTime) -> (r: bool)
        ensures
            r == Self::lt_value(*self, *other),
    {
        self.compare_sign(other) == -1
    }

    /// `self <= other` as rational numbers.
    pub fn at_most(&self, other: &RationalTime) -> (r: bool)
        ensures
            r == !Self::lt_value(*other, *self),
    {
        self.compare_sign(other) != 1
    }
}

impl RationalTime {
    /// `a == r + k*m` for some integer `k` (values, not representations).
    pub open spec fn congruent(a: RationalTime, r: RationalTime, m: RationalTime) -> bool {
        exists|k: int| #[trigger] Self::differ_by(a, r, m, k)
    }

    /// `a == r + k*m` as values.
    pub open spec fn differ_by(a: RationalTime, r: RationalTime, m: RationalTime, k: int) -> bool {
        a.numer() * r.denom() * m.denom() == r.numer() * a.denom() * m.denom() + k * m.numer()
            * a.denom() * r.denom()
    }

    /// `a mod m` as [`RationalTime::rem_euclid`] computes it: `a` itself for
    /// `m <= 0` or `a` already in `[0, m)`, else the reduced
    /// `(a.n * m.d mod m.n * a.d) / (a.d * m.d)`.
    pub open spec fn rem_spec(a: RationalTime, m: RationalTime) -> RationalTime {
        if m.numer() <= 0 || (a.numer() >= 0 && Self::lt_value(a, m)) {
            a
        } else {
            Self::ratio((a.numer() * m.denom()) % (m.numer() * a.denom()), a.denom() * m.denom())
        }
    }

    /// Inputs on which [`RationalTime::rem_euclid`] stays within `i64`.
    pub open spec fn rem_ok(a: RationalTime, m: RationalTime) -> bool {
        ||| m.numer() <= 0
        ||| (a.numer() >= 0 && Self::lt_value(a, m))
        ||| (in_i64(a.numer() * m.denom()) && in_i64(m.numer() * a.denom()) && in_i64(
            a.denom() * m.denom(),
        ))
    }

    /// `self mod m`, in `[0, m)` for positive `m` (musical wrap, e.g. looping
    /// a position within a pattern length). Returns `self` if `m <= 0`.
    pub fn rem_euclid(&self, m: RationalTime) -> (r: RationalTime)
        requires
            Self::rem_ok(*self, m),
        ensures
            r == Self::rem_spec(*self, m),
            m.numer() <= 0 ==> r == *self,
            m.numer() > 0 ==> r.numer() >= 0 && Self::lt_value(r, m) && Self::congruent(*self, r, m),
    {
        proof {
            use_type_invariant(self);
            use_type_invariant(&m);
        }
        if m.num <= 0 {
            return *self;
        }
        if self.num >= 0 && self.less_than(&m) {
            proof {
                let a = *self;
                assert(Self::differ_by(a, a, m, 0));
            }
            return *self;
        }
        let p: i128 = (self.num as i128) * (m.den as i128);
        let k: i128 = (m.num as i128) * (self.den as i128);
        let d: i64 = self.den * m.den;
        proof {
            assert(k > 0) by (nonlinear_arith)
                requires
                    k == m.numer() * self.denom(),
                    m.numer() > 0,
                    self.denom() > 0,
            ;
        }
        let x: i128 = if p >= 0 {
            p % k
        } else {
            let u = (-p) % k;
            if u == 0 {
                0
            } else {
                k - u
            }
        };
        let ghost pi: int = p as int;
        let ghost ki: int = k as int;
        let ghost kk: int = if pi >= 0 {
            pi / ki
        } else if (-pi) % ki == 0 {
            -((-pi) / ki)
        } else {
            -((-pi) / ki) - 1
        };
        proof {
            lemma_fundamental_div_mod(p as int, k as int);
            lemma_fundamental_div_mod(-(p as int), k as int);
            lemma_mod_bound(p as int, k as int);
            lemma_mod_bound(-(p as int), k as int);
            if pi >= 0 {
                assert(x == pi % ki);
                assert(kk == pi / ki);
                assert(pi == ki * kk + x);
                lemma_mul_is_commutative(ki, kk);
            } else {
                let q = (-pi) / ki;
                let u = (-pi) % ki;
                assert(-pi == ki * q + u);
                if u == 0 {
                    assert(pi == (-q) * ki) by (nonlinear_arith)
                        requires
                            -pi == ki * q,
                    ;
                } else {
                    assert(pi == (-q - 1) * ki + (ki - u)) by (nonlinear_arith)
                        requires
                            -pi == ki * q + u,
                    ;
                }
            }
            assert(p == kk * k + x);
            assert(0 <= x < k);
            lemma_fundamental_div_mod_converse_mod(pi, ki, kk, x as int);
            assert(x == pi % ki);
        }
        proof {
            assert(d > 0) by (nonlinear_arith)
                requires
                    d == self.denom() * m.denom(),
                    self.denom() > 0,
                    m.denom() > 0,
            ;
            assert(in_i64(k as int));
            assert((x as i64) as int == x as int);
        }
        let r = RationalTime::new(x as i64, d);
        proof {
            let a = *self;
            Self::lemma_ratio(x as int, d as int);
            assert(r.numer() * d == x * r.denom());
            assert(d == a.denom() * m.denom());
            assert(r.numer() >= 0) by (nonlinear_arith)
                requires
                    (r.numer() < 0 <==> x * d < 0),
                    x >= 0,
                    d > 0,
            ;
            assert(Self::lt_value(r, m)) by (nonlinear_arith)
                requires
                    r.numer() * d == x * r.denom(),
                    d == a.denom() * m.denom(),
                    x < k,
                    k == m.numer() * a.denom(),
                    a.denom() > 0,
                    r.denom() > 0,
            ;
            lemma_rem_identity(a.numer(), a.denom(), m.numer(), m.denom(), r.numer(), r.denom(), x as int, kk);
            assert(Self::differ_by(a, r, m, kk));
        }
        r
    }

    /// Inputs on which [`RationalTime::div_floor`] stays within `i64`.
    pub open spec fn div_floor_ok(a: RationalTime, step: RationalTime) -> bool {
        step.numer() <= 0 || (Self::div_ok(a, step) && (Self::div_spec_of(a, step).numer() >= 0
            || -Self::div_spec_of(a, step).numer() + Self::div_spec_of(a, step).denom()
            <= i64::MAX))
    }

    /// Number of whole `step` spans that fit in `self` (floor of `self/step`).
    /// Returns `0` if `step` is zero or negative.
    pub fn div_floor(&self, step: RationalTime) -> (r: i64)
        requires
            Self::div_floor_ok(*self, step),
        ensures
            step.numer() <= 0 ==> r == 0,
            step.numer() > 0 ==> r == (self.numer() * step.denom()) / (self.denom()
                * step.numer()),
    {
        proof {
            use_type_invariant(self);
            use_type_invariant(&step);
        }
        if step.is_zero() || step.is_negative() {
            return 0;
        }
        let q = self.div_exact(step);
        proof {
            use_type_invariant(&q);
            let n = self.numer() * step.denom();
            let d = self.denom() * step.numer();
            assert(d > 0) by (nonlinear_arith)
                requires
                    d == self.denom() * step.numer(),
                    self.denom() > 0,
                    step.numer() > 0,
            ;
            Self::lemma_ratio(n, d);
            lemma_floor_of_equal(q.numer(), q.denom(), n, d);
        }
        q.floor()
    }
}

impl Default for RationalTime {
    fn default() -> (r: RationalTime)
        ensures
            r == RationalTime::whole_spec(0),
    {
        RationalTime::zero()
    }
}

impl core::ops::Add for RationalTime {
    type Output = RationalTime;

    fn add(self, rhs: RationalTime) -> RationalTime {
        self.add_exact(rhs)
    }
}

impl AddSpecImpl for RationalTime {
    open spec fn obeys_add_spec() -> bool {
        true
    }

    open spec fn add_req(self, rhs: RationalTime) -> bool {
        RationalTime::add_ok(self, rhs)
    }

    open spec fn add_spec(self, rhs: RationalTime) -> RationalTime {
        RationalTime::add_spec_of(self, rhs)
    }
}

impl core::ops::Sub for RationalTime {
    type Output = RationalTime;

    fn sub(self, rhs: RationalTime) -> RationalTime {
        self.sub_exact(rhs)
    }
}

impl SubSpecImpl for RationalTime {
    open spec fn obeys_sub_spec() -> bool {
        true
    }

    open spec fn sub_req(self, rhs: RationalTime) -> bool {
        RationalTime::sub_ok(self, rhs)
    }

    open spec fn sub_spec(self, rhs: RationalTime) -> RationalTime {
        RationalTime::sub_spec_of(self, rhs)
    }
}

impl core::ops::Mul for RationalTime {
    type Output = RationalTime;

    fn mul(self, rhs: RationalTime) -> RationalTime {
        self.mul_exact(rhs)
    }
}

impl MulSpecImpl for RationalTime {
    open spec fn obeys_mul_spec() -> bool {
        true
    }

    open spec fn mul_req(self, rhs: RationalTime) -> bool {
        RationalTime::mul_ok(self, rhs)
    }

    open spec fn mul_spec(self, rhs: RationalTime) -> RationalTime {
        RationalTime::mul_spec_of(self, rhs)
    }
}

impl core::ops::Div for RationalTime {
    type Output = RationalTime;

    fn div(self, rhs: RationalTime) -> RationalTime {
        self.div_exact(rhs)
    }
}

impl DivSpecImpl for RationalTime {
    open spec fn obeys_div_spec() -> bool {
        true
    }

    open spec fn div_req(self, rhs: RationalTime) -> bool {
        RationalTime::div_ok(self, rhs)
    }

    open spec fn div_spec(self, rhs: RationalTime) -> RationalTime {
        RationalTime::div_spec_of(self, rhs)
    }
}

impl core::ops::Mul<i64> for RationalTime {
    type Output = RationalTime;

    fn mul(self, rhs: i64) -> RationalTime {
        self.mul_int(rhs)
    }
}

impl MulSpecImpl<i64> for RationalTime {
    open spec fn obeys_mul_spec() -> bool {
        true
    }

    open spec fn mul_req(self, rhs: i64) -> bool {
        RationalTime::mul_int_ok(self, rhs as int)
    }

    open spec fn mul_spec(self, rhs: i64) -> RationalTime {
        RationalTime::mul_int_spec_of(self, rhs as int)
    }
}

impl core::ops::Div<i64> for RationalTime {
    type Output = RationalTime;

    fn div(self, rhs: i64) -> RationalTime {
        self.div_int(rhs)
    }
}

impl DivSpecImpl<i64> for RationalTime {
    open spec fn obeys_div_spec() -> bool {
        true
    }

    open spec fn div_req(self, rhs: i64) -> bool {
        RationalTime::div_int_ok(self, rhs as int)
    }

    open spec fn div_spec(self, rhs: i64) -> RationalTime {
        RationalTime::div_int_spec_of(self, rhs as int)
    }
}

impl core::ops::Neg for RationalTime {
    type Output = RationalTime;

    fn neg(self) -> RationalTime {
        self.negate()
    }
}

impl NegSpecImpl for RationalTime {
    open spec fn obeys_neg_spec() -> bool {
        true
    }

    open spec fn neg_req(self) -> bool {
        self.numer() > i64::MIN
    }

    open spec fn neg_spec(self) -> RationalTime {
        RationalTime::ratio(-self.numer(), self.denom())
    }
}

/// A tuplet ratio: `num` notes played in the time normally occupied by `den`
/// (a triplet is `3:2`).
#[derive(Debug, Clone, Copy, PartialEq, Eq, Structural)]
pub struct Tuplet {
    pub num: i64,
    pub den: i64,
}

impl Tuplet {
    /// The straight `1:1` ratio (no tuplet).
    pub fn none() -> (t: Tuplet)
        ensures
            t == (Tuplet { num: 1, den: 1 }),
    {
        Tuplet { num: 1, den: 1 }
    }

    /// `num:den` tuplet; degenerate values clamp to `1:1`.
    pub fn new(num: i64, den: i64) -> (t: Tuplet)
        ensures
            num <= 0 || den <= 0 ==> t == (Tuplet { num: 1, den: 1 }),
            num > 0 && den > 0 ==> t == (Tuplet { num, den }),
    {
        if num <= 0 || den <= 0 {
            Tuplet { num: 1, den: 1 }
        } else {
            Tuplet { num, den }
        }
    }

    pub fn is_none(&self) -> (r: bool)
        ensures
            r == (self.num == self.den),
    {
        self.num == self.den
    }

    /// The factor a straight note value is scaled by: `den/num`.
    pub fn scale(&self) -> (r: RationalTime)
        requires
            new_ok(self.den as int, self.num as int),
        ensures
            r == RationalTime::ratio(self.den as int, self.num as int),
    {
        RationalTime::new(self.den, self.num)
    }
}

impl Default for Tuplet {
    fn default() -> (t: Tuplet)
        ensures
            t == (Tuplet { num: 1, den: 1 }),
    {
        Tuplet { num: 1, den: 1 }
    }
}

/// A musical edit resolution: one grid step is `1/den` of a whole note.
#[derive(Debug, Clone, Copy, PartialEq, Eq, Structural)]
pub enum Resolution {
    /// `1/den` of a whole note.
    Whole(i64),
    /// Arbitrary `1/den` of a whole note (for odd grids).
    Custom(i64),
}

impl Resolution {
    /// Common presets, including non-powers-of-two for tuplet grids.
    pub const PRESETS: [i64; 17] = [1, 2, 3, 4, 5, 6, 7, 8, 12, 16, 24, 32, 48, 64, 96, 128, 1];

    /// The stored denominator, clamped to at least 1.
    pub open spec fn den_spec(self) -> int {
        let d = match self {
            Resolution::Whole(d) => d,
            Resolution::Custom(d) => d,
        };
        if d < 1 {
            1
        } else {
            d as int
        }
    }

    /// The denominator (of a whole note); always at least 1.
    pub fn den(&self) -> (r: i64)
        ensures
            r == self.den_spec(),
            r >= 1,
    {
        let d = match self {
            Resolution::Whole(d) => *d,
            Resolution::Custom(d) => *d,
        };
        if d < 1 {
            1
        } else {
            d
        }
    }

    /// Duration of one step in beats: `4/den`.
    pub fn step_beats(&self) -> (r: RationalTime)
        ensures
            r == RationalTime::ratio(4, self.den_spec()),
    {
        RationalTime::new(4, self.den())
    }

    /// Default editing resolution: a 1/16 note.
    pub fn default_edit() -> (r: Resolution)
        ensures
            r == Resolution::Whole(16),
    {
        Resolution::Whole(16)
    }
}

impl Default for Resolution {
    fn default() -> (r: Resolution)
        ensures
            r == Resolution::Whole(16),
    {
        Resolution::default_edit()
    }
}

/// Absolute position of step `step` under `resolution` and `tuplet`, from `origin`:
/// `origin + (step_beats * step) * (tuplet.den / tuplet.num)`.
pub open spec fn step_to_beats_spec(
    origin: RationalTime,
    step: int,
    resolution: Resolution,
    tuplet: Tuplet,
) -> RationalTime {
    RationalTime::add_spec_of(
        origin,
        RationalTime::mul_spec_of(
            RationalTime::mul_int_spec_of(RationalTime::ratio(4, resolution.den_spec()), step),
            RationalTime::ratio(tuplet.den as int, tuplet.num as int),
        ),
    )
}

/// Inputs on which [`step_to_beats`] stays within `i64`.
pub open spec fn step_to_beats_ok(
    origin: RationalTime,
    step: int,
    resolution: Resolution,
    tuplet: Tuplet,
) -> bool {
    let base = RationalTime::mul_int_spec_of(RationalTime::ratio(4, resolution.den_spec()), step);
    let scale = RationalTime::ratio(tuplet.den as int, tuplet.num as int);
    &&& RationalTime::mul_int_ok(RationalTime::ratio(4, resolution.den_spec()), step)
    &&& new_ok(tuplet.den as int, tuplet.num as int)
    &&& RationalTime::mul_ok(base, scale)
    &&& RationalTime::add_ok(origin, RationalTime::mul_spec_of(base, scale))
}

/// Map a `step` index under a `resolution` (optionally inside a `tuplet`) to its
/// absolute start position in beats, measured from `origin`.
pub fn step_to_beats(origin: RationalTime, step: i64, resolution: Resolution, tuplet: Tuplet) -> (r:
    RationalTime)
    requires
        step_to_beats_ok(origin, step as int, resolution, tuplet),
    ensures
        r == step_to_beats_spec(origin, step as int, resolution, tuplet),
{
    let base = resolution.step_beats() * step;
    origin + base * tuplet.scale()
}

/// Boundary `i` of `subdivide(start, span, parts)`: `start + (span/parts) * i`.
pub open spec fn subdivide_point(start: RationalTime, span: RationalTime, parts: int, i: int) -> RationalTime {
    RationalTime::add_spec_of(start, RationalTime::mul_int_spec_of(RationalTime::div_int_spec_of(span, parts), i))
}

/// The number of parts [`subdivide`] uses: `parts`, at least 1.
pub open spec fn subdivide_parts(parts: int) -> int {
    if parts < 1 {
        1
    } else {
        parts
    }
}

/// Boundary `i` of a subdivision into `p` parts stays within `i64`.
pub open spec fn subdivide_point_ok(start: RationalTime, span: RationalTime, p: int, i: int) -> bool {
    &&& RationalTime::mul_int_ok(RationalTime::div_int_spec_of(span, p), i)
    &&& RationalTime::add_ok(start, RationalTime::mul_int_spec_of(RationalTime::div_int_spec_of(span, p), i))
}

/// Inputs on which [`subdivide`] stays within `i64`.
pub open spec fn subdivide_ok(start: RationalTime, span: RationalTime, parts: int) -> bool {
    &&& RationalTime::div_int_ok(span, subdivide_parts(parts))
    &&& forall|i: int|
        0 <= i < subdivide_parts(parts) ==> #[trigger] subdivide_point_ok(start, span, subdivide_parts(parts), i)
}

/// Subdivide `[start, start+span)` into `parts` equal pieces (at least one),
/// returning the boundaries `start, start + span/parts, ...` without the end.
pub fn subdivide(start: RationalTime, span: RationalTime, parts: i64) -> (v: Vec<RationalTime>)
    requires
        subdivide_ok(start, span, parts as int),
    ensures
        v.len() == subdivide_parts(parts as int),
        forall|i: int|
            0 <= i < v.len() ==> v[i] == subdivide_point(start, span, v.len() as int, i),
{
    let p: i64 = if parts < 1 {
        1
    } else {
        parts
    };
    let step = span / p;
    let mut v: Vec<RationalTime> = Vec::new();
    let mut i: i64 = 0;
    while i < p
        invariant
            0 <= i <= p,
            p >= 1,
            p == subdivide_parts(parts as int),
            step == RationalTime::div_int_spec_of(span, p as int),
            subdivide_ok(start, span, parts as int),
            v.len() == i,
            forall|j: int| 0 <= j < i ==> v[j] == subdivide_point(start, span, p as int, j),
        decreases p - i,
    {
        assert(subdivide_point_ok(start, span, p as int, i as int));
        let x = start + step * i;
        v.push(x);
        i = i + 1;
    }
    v
}

/// Fold of [`lcm`] over the non-zero denominators, starting from 1.
pub open spec fn lcm_fold(dens: Seq<i64>) -> int
    decreases dens.len(),
{
    if dens.len() == 0 {
        1
    } else {
        let acc = lcm_fold(dens.drop_last());
        let d = dens.last();
        if d == 0 {
            acc
        } else {
            lcm_spec(acc, d as int)
        }
    }
}

proof fn lemma_lcm_fold_range(dens: Seq<i64>)
    requires
        forall|i: int| 0 <= i < dens.len() ==> dens[i] > i64::MIN,
    ensures
        0 <= lcm_fold(dens) <= i64::MAX,
    decreases dens.len(),
{
    if dens.len() > 0 {
        lemma_lcm_fold_range(dens.drop_last());
        let acc = lcm_fold(dens.drop_last());
        let d = dens.last();
        if d != 0 && acc != 0 {
            let g = gcd_spec(iabs(acc), iabs(d as int));
            lemma_gcd_divides(iabs(acc), iabs(d as int));
            assert(iabs(acc) / g >= 0) by (nonlinear_arith)
                requires
                    g > 0,
            ;
            assert((iabs(acc) / g) * iabs(d as int) >= 0) by (nonlinear_arith)
                requires
                    iabs(acc) / g >= 0,
            ;
        }
    }
}

/// The LCM of a set of denominators (zeros skipped), at least 1: the
/// fineness of a shared step grid. Rendering only.
pub fn lcm_grid_den(dens: &[i64]) -> (r: i64)
    requires
        forall|i: int| 0 <= i < dens@.len() ==> dens@[i] > i64::MIN,
    ensures
        r == (if lcm_fold(dens@) < 1 {
            1
        } else {
            lcm_fold(dens@)
        }),
{
    let mut acc: i64 = 1;
    let mut i: usize = 0;
    while i < dens.len()
        invariant
            0 <= i <= dens@.len(),
            forall|j: int| 0 <= j < dens@.len() ==> dens@[j] > i64::MIN,
            acc == lcm_fold(dens@.subrange(0, i as int)),
            acc >= 0,
        decreases dens@.len() - i,
    {
        assert(dens@.subrange(0, i as int + 1).drop_last() == dens@.subrange(0, i as int));
        let d = dens[i];
        if d != 0 {
            acc = lcm(acc, d);
        }
        i = i + 1;
    }
    assert(dens@.subrange(0, dens@.len() as int) == dens@);
    if acc < 1 {
        1
    } else {
        acc
    }
}

proof fn lemma_ring_a(ad: int, sn: int, bd: int, bn: int, sd: int, td: int)
    ensures
        ad * ((sn * bd - bn * sd) * td) == td * (sn * (ad * bd)) - td * bn * sd * ad,
{
    lemma_mul_is_distributive_sub_other_way(td, sn * bd, bn * sd);
    lemma_mul_is_distributive_sub(ad, (sn * bd) * td, (bn * sd) * td);
    lemma_mul_is_associative(ad, sn * bd, td);
    lemma_mul_is_associative(ad, bn * sd, td);
    lemma_mul_is_commutative(ad * (sn * bd), td);
    lemma_mul_is_associative(ad, sn, bd);
    lemma_mul_is_commutative(ad, sn);
    lemma_mul_is_associative(sn, ad, bd);
    lemma_mul_is_commutative(ad * (bn * sd), td);
    lemma_mul_is_associative(td, bn, sd);
    lemma_mul_is_associative(td * bn, sd, ad);
    lemma_mul_is_associative(ad, bn, sd);
    lemma_mul_is_commutative(ad, bn * sd);
    lemma_mul_is_associative(td, bn * sd, ad);
    assert(ad * ((sn * bd - bn * sd) * td) == ad * ((sn * bd) * td) - ad * ((bn * sd) * td));
}

proof fn lemma_ring_b(td: int, an: int, bd: int, bn: int, ad: int, sd: int)
    ensures
        td * ((an * bd + bn * ad) * sd) - td * bn * sd * ad == an * td * (sd * bd),
{
    lemma_mul_is_distributive_add_other_way(sd, an * bd, bn * ad);
    lemma_mul_is_distributive_add(td, (an * bd) * sd, (bn * ad) * sd);
    assert(td * ((bn * ad) * sd) == td * bn * sd * ad) by (nonlinear_arith);
    assert(td * ((an * bd) * sd) == an * td * (sd * bd)) by (nonlinear_arith);
}

impl RationalTime {
    /// A sum that can be computed is in normal form.
    pub proof fn lemma_add_wf(a: RationalTime, b: RationalTime)
        requires
            Self::add_ok(a, b),
        ensures
            Self::add_spec_of(a, b).wf(),
    {
        Self::lemma_ratio(a.numer() * b.denom() + b.numer() * a.denom(), a.denom() * b.denom());
    }

    /// A difference that can be computed is in normal form.
    pub proof fn lemma_sub_wf(a: RationalTime, b: RationalTime)
        requires
            Self::sub_ok(a, b),
        ensures
            Self::sub_spec_of(a, b).wf(),
    {
        Self::lemma_ratio(a.numer() * b.denom() - b.numer() * a.denom(), a.denom() * b.denom());
    }
}

/// "At most" is transitive on rationals in normal form.
pub proof fn lemma_le_trans(x: RationalTime, y: RationalTime, z: RationalTime)
    requires
        x.wf(),
        y.wf(),
        z.wf(),
        !RationalTime::lt_value(y, x),
        !RationalTime::lt_value(z, y),
    ensures
        !RationalTime::lt_value(z, x),
{
    let (xn, xd, yn, yd, zn, zd) = (x.numer(), x.denom(), y.numer(), y.denom(), z.numer(), z.denom());
    assert(xn * zd <= zn * xd) by (nonlinear_arith)
        requires
            xd > 0,
            yd > 0,
            zd > 0,
            xn * yd <= yn * xd,
            yn * zd <= zn * yd,
    {
        assert(xn * yd * zd <= yn * xd * zd);
        assert(yn * zd * xd <= zn * yd * xd);
        assert(xn * zd * yd <= zn * xd * yd);
    }
}

/// Values in normal form that are each at most the other are equal.
pub proof fn lemma_le_antisym(x: RationalTime, y: RationalTime)
    requires
        x.wf(),
        y.wf(),
        !RationalTime::lt_value(x, y),
        !RationalTime::lt_value(y, x),
    ensures
        x == y,
{
    RationalTime::lemma_unique(x, y);
}

/// "Less than" is asymmetric.
pub proof fn lemma_lt_asym(x: RationalTime, y: RationalTime)
    requires
        RationalTime::lt_value(x, y),
    ensures
        !RationalTime::lt_value(y, x),
{
}

/// Adding `b` and then subtracting it again gives back exactly `a`: exact
/// arithmetic does not drift.
pub proof fn lemma_add_sub_cancel(a: RationalTime, b: RationalTime)
    requires
        a.wf(),
        b.wf(),
        RationalTime::add_ok(a, b),
        RationalTime::sub_ok(RationalTime::add_spec_of(a, b), b),
    ensures
        RationalTime::sub_spec_of(RationalTime::add_spec_of(a, b), b) == a,
{
    let s = RationalTime::add_spec_of(a, b);
    let t = RationalTime::sub_spec_of(s, b);
    let sn = a.numer() * b.denom() + b.numer() * a.denom();
    let sd = a.denom() * b.denom();
    assert(sd > 0) by (nonlinear_arith)
        requires
            sd == a.denom() * b.denom(),
            a.denom() > 0,
            b.denom() > 0,
    ;
    RationalTime::lemma_ratio(sn, sd);
    let tn = s.numer() * b.denom() - b.numer() * s.denom();
    let td = s.denom() * b.denom();
    assert(td > 0) by (nonlinear_arith)
        requires
            td == s.denom() * b.denom(),
            s.denom() > 0,
            b.denom() > 0,
    ;
    RationalTime::lemma_ratio(tn, td);
    let k = s.denom() * b.denom();
    let (tn_, td_, an, ad, bn, bd, sn_, sd_) = (
        t.numer(),
        t.denom(),
        a.numer(),
        a.denom(),
        b.numer(),
        b.denom(),
        s.numer(),
        s.denom(),
    );
    assert(tn_ * ad * (sd_ * bd) == ad * (tn_ * (sd_ * bd))) by (nonlinear_arith);
    assert(ad * (tn_ * (sd_ * bd)) == ad * ((sn_ * bd - bn * sd_) * td_)) by (nonlinear_arith)
        requires
            tn_ * (sd_ * bd) == (sn_ * bd - bn * sd_) * td_,
    ;
    lemma_ring_a(ad, sn_, bd, bn, sd_, td_);
    assert(td_ * (sn_ * (ad * bd)) == td_ * ((an * bd + bn * ad) * sd_)) by (nonlinear_arith)
        requires
            sn_ * (ad * bd) == (an * bd + bn * ad) * sd_,
    ;
    lemma_ring_b(td_, an, bd, bn, ad, sd_);
    assert(t.numer() * a.denom() * k == a.numer() * t.denom() * k);
    assert(k > 0);
    lemma_mul_equality_converse(k, t.numer() * a.denom(), a.numer() * t.denom());
    assert(t.numer() * a.denom() == a.numer() * t.denom()) by (nonlinear_arith)
        requires
            k * (t.numer() * a.denom()) == k * (a.numer() * t.denom()),
            k > 0,
    ;
    RationalTime::lemma_unique(t, a);
}

/// `round(a / b)` with halves rounded up: `floor((2a + b) / 2b)`.
pub(crate) fn round_half_up_div(a: i128, b: i128) -> (n: i128)
    requires
        b > 0,
        -0x4000_0000_0000_0000_0000_0000_0000_0000 < a < 0x4000_0000_0000_0000_0000_0000_0000_0000,
        b < 0x4000_0000_0000_0000_0000_0000_0000_0000,
    ensures
        n == (2 * a + b) / (2 * b),
{
    // floor(a / b) and the non-negative remainder
    let n0: i128 = if a >= 0 {
        a / b
    } else {
        -((-a + b - 1) / b)
    };
    proof {
        let ai = a as int;
        let bi = b as int;
        lemma_fundamental_div_mod(ai, bi);
        lemma_mod_bound(ai, bi);
        let f = ai / bi;
        let rr = ai % bi;
        if a < 0 {
            assert(-ai + bi - 1 == (-f) * bi + (bi - 1 - rr)) by (nonlinear_arith)
                requires
                    ai == bi * f + rr,
            ;
            lemma_fundamental_div_mod_converse_div(-ai + bi - 1, bi, -f, bi - 1 - rr);
        }
        assert(n0 == f);
        assert((n0 as int) * bi == ai - rr) by (nonlinear_arith)
            requires
                ai == bi * f + rr,
                n0 == f,
        ;
    }
    let r: i128 = a - n0 * b;
    proof {
        let ai = a as int;
        let bi = b as int;
        assert(r == ai % bi) by (nonlinear_arith)
            requires
                ai == bi * (n0 as int) + ai % bi,
                r == ai - (n0 as int) * bi,
        ;
    }
    let n = if 2 * r >= b {
        n0 + 1
    } else {
        n0
    };
    proof {
        let ai = a as int;
        let bi = b as int;
        let num = 2 * ai + bi;
        let den = 2 * bi;
        if 2 * r >= b {
            assert(num == (n0 as int + 1) * den + (2 * r - bi)) by (nonlinear_arith)
                requires
                    ai == (n0 as int) * bi + r,
                    num == 2 * ai + bi,
                    den == 2 * bi,
            ;
            lemma_fundamental_div_mod_converse_div(num, den, n0 as int + 1, 2 * r - bi);
        } else {
            assert(num == (n0 as int) * den + (2 * r + bi)) by (nonlinear_arith)
                requires
                    ai == (n0 as int) * bi + r,
                    num == 2 * ai + bi,
                    den == 2 * bi,
            ;
            lemma_fundamental_div_mod_converse_div(num, den, n0 as int, 2 * r + bi);
        }
    }
    n
}

/// `round(a/b)` for fractions `a`, `b` with `b > 0`: nearest integer to the
/// quotient, halves rounded up.
pub open spec fn round_quot(a: RationalTime, b: RationalTime) -> int {
    (2 * a.numer() * b.denom() + a.denom() * b.numer()) / (2 * a.denom() * b.numer())
}

impl RationalTime {
    /// `round(self / unit)` (halves up) for a positive `unit`.
    pub fn round_div(&self, unit: RationalTime) -> (n: i128)
        requires
            unit.numer() > 0,
        ensures
            n == round_quot(*self, unit),
    {
        proof {
            use_type_invariant(self);
            use_type_invariant(&unit);
        }
        proof {
            let (an, ad, un, ud) = (self.numer(), self.denom(), unit.numer(), unit.denom());
            assert(-0x4000_0000_0000_0000_0000_0000_0000_0000 < an * ud < 0x4000_0000_0000_0000_0000_0000_0000_0000) by (nonlinear_arith)
                requires
                    in_i64(an),
                    0 < ud <= i64::MAX,
            ;
            assert(0 < ad * un < 0x4000_0000_0000_0000_0000_0000_0000_0000) by (nonlinear_arith)
                requires
                    0 < ad <= i64::MAX,
                    0 < un <= i64::MAX,
            ;
        }
        let a: i128 = (self.num as i128) * (unit.den as i128);
        let b: i128 = (self.den as i128) * (unit.num as i128);
        proof {
            let (an, ad, un, ud) = (self.numer(), self.denom(), unit.numer(), unit.denom());
            assert(2 * a + b == 2 * an * ud + ad * un) by (nonlinear_arith)
                requires
                    a == an * ud,
                    b == ad * un,
            ;
            assert(2 * b == 2 * ad * un) by (nonlinear_arith)
                requires
                    b == ad * un,
            ;
        }
        round_half_up_div(a, b)
    }
}

proof fn lemma_rem_identity(an: int, ad: int, mn: int, md: int, rn: int, rd: int, x: int, kk: int)
    requires
        rn * (ad * md) == x * rd,
        an * md == kk * (mn * ad) + x,
    ensures
        an * rd * md == rn * ad * md + kk * mn * ad * rd,
{
    assert(rn * ad * md == rn * (ad * md)) by (nonlinear_arith);
    assert(an * rd * md == (an * md) * rd) by (nonlinear_arith);
    assert((kk * (mn * ad) + x) * rd == kk * (mn * ad) * rd + x * rd) by (nonlinear_arith);
    assert(kk * (mn * ad) * rd == kk * mn * ad * rd) by (nonlinear_arith);
}

/// Equal fractions with positive denominators have equal floors.
proof fn lemma_floor_of_equal(a: int, b: int, n: int, d: int)
    requires
        b > 0,
        d > 0,
        a * d == n * b,
    ensures
        a / b == n / d,
{
    lemma_fundamental_div_mod(n, d);
    lemma_mod_bound(n, d);
    let q = n / d;
    let rem = n % d;
    assert((a - q * b) * d == rem * b) by (nonlinear_arith)
        requires
            a * d == n * b,
            n == d * q + rem,
    ;
    assert(0 <= a - q * b < b) by (nonlinear_arith)
        requires
            (a - q * b) * d == rem * b,
            0 <= rem < d,
            b > 0,
            d > 0,
    ;
    lemma_fundamental_div_mod_converse_div(a, b, q, a - q * b);
}

proof fn lemma_mul_upper_bound_i64(a: int, b: int)
    requires
        in_i64(a),
        0 < b <= i64::MAX,
    ensures
        -0x8000_0000_0000_0000_0000_0000_0000_0000 < a * b < 0x7fff_ffff_ffff_ffff_ffff_ffff_ffff_ffff,
{
    assert(-0x8000_0000_0000_0000_0000_0000_0000_0000 < a * b < 0x7fff_ffff_ffff_ffff_ffff_ffff_ffff_ffff) by (nonlinear_arith)
        requires
            in_i64(a),
            0 < b <= i64::MAX,
    ;
}

/// `x` denotes the fraction `n/d`, for a positive `d`.
pub open spec fn denotes(x: RationalTime, n: int, d: int) -> bool {
    d > 0 && x.numer() * d == n * x.denom()
}

/// A computable sum denotes the sum of the fractions its operands denote.
pub proof fn lemma_add_denotes(a: RationalTime, b: RationalTime, n1: int, d1: int, n2: int, d2: int)
    requires
        a.wf(),
        b.wf(),
        RationalTime::add_ok(a, b),
        denotes(a, n1, d1),
        denotes(b, n2, d2),
    ensures
        RationalTime::add_spec_of(a, b).wf(),
        denotes(RationalTime::add_spec_of(a, b), n1 * d2 + n2 * d1, d1 * d2),
{
    let (an, ad, bn, bd) = (a.numer(), a.denom(), b.numer(), b.denom());
    assert(ad * bd > 0) by (nonlinear_arith)
        requires
            ad > 0,
            bd > 0,
    ;
    RationalTime::lemma_ratio(an * bd + bn * ad, ad * bd);
    let s = RationalTime::add_spec_of(a, b);
    lemma_combine_denotes(s.numer(), s.denom(), an, ad, bn, bd, n1, d1, n2, d2);
}

/// A computable difference denotes the difference of the fractions its
/// operands denote.
pub proof fn lemma_sub_denotes(a: RationalTime, b: RationalTime, n1: int, d1: int, n2: int, d2: int)
    requires
        a.wf(),
        b.wf(),
        RationalTime::sub_ok(a, b),
        denotes(a, n1, d1),
        denotes(b, n2, d2),
    ensures
        RationalTime::sub_spec_of(a, b).wf(),
        denotes(RationalTime::sub_spec_of(a, b), n1 * d2 - n2 * d1, d1 * d2),
{
    let (an, ad, bn, bd) = (a.numer(), a.denom(), b.numer(), b.denom());
    assert(ad * bd > 0) by (nonlinear_arith)
        requires
            ad > 0,
            bd > 0,
    ;
    RationalTime::lemma_ratio(an * bd - bn * ad, ad * bd);
    let s = RationalTime::sub_spec_of(a, b);
    assert(an * bd - bn * ad == an * bd + (-bn) * ad) by (nonlinear_arith);
    assert((-bn) * d2 == (-n2) * bd) by (nonlinear_arith)
        requires
            bn * d2 == n2 * bd,
    ;
    assert(n1 * d2 - n2 * d1 == n1 * d2 + (-n2) * d1) by (nonlinear_arith);
    lemma_combine_denotes(s.numer(), s.denom(), an, ad, -bn, bd, n1, d1, -n2, d2);
}

proof fn lemma_combine_denotes(
    sn: int,
    sd: int,
    an: int,
    ad: int,
    bn: int,
    bd: int,
    n1: int,
    d1: int,
    n2: int,
    d2: int,
)
    requires
        ad > 0,
        bd > 0,
        sd > 0,
        d1 > 0,
        d2 > 0,
        sn * (ad * bd) == (an * bd + bn * ad) * sd,
        an * d1 == n1 * ad,
        bn * d2 == n2 * bd,
    ensures
        d1 * d2 > 0,
        sn * (d1 * d2) == (n1 * d2 + n2 * d1) * sd,
{
    let k = ad * bd;
    assert(k > 0) by (nonlinear_arith)
        requires
            k == ad * bd,
            ad > 0,
            bd > 0,
    ;
    assert(d1 * d2 > 0) by (nonlinear_arith)
        requires
            d1 > 0,
            d2 > 0,
    ;
    assert(k * (sn * (d1 * d2)) == (sn * (ad * bd)) * (d1 * d2)) by (nonlinear_arith)
        requires
            k == ad * bd,
    ;
    lemma_ring_spread(an, bd, bn, ad, sd, d1, d2);
    lemma_ring_gather(n1, ad, bd, d2, n2, d1, sd);
    lemma_mul_equality_converse(k, sn * (d1 * d2), (n1 * d2 + n2 * d1) * sd);
}

proof fn lemma_ring_spread(an: int, bd: int, bn: int, ad: int, sd: int, d1: int, d2: int)
    ensures
        ((an * bd + bn * ad) * sd) * (d1 * d2) == sd * ((an * d1) * (bd * d2) + (bn * d2) * (ad * d1)),
{
    lemma_mul_is_distributive_add_other_way(sd, an * bd, bn * ad);
    lemma_mul_is_distributive_add_other_way(d1 * d2, (an * bd) * sd, (bn * ad) * sd);
    lemma_mul_is_distributive_add(sd, (an * d1) * (bd * d2), (bn * d2) * (ad * d1));
    assert(((an * bd) * sd) * (d1 * d2) == sd * ((an * d1) * (bd * d2))) by (nonlinear_arith);
    assert(((bn * ad) * sd) * (d1 * d2) == sd * ((bn * d2) * (ad * d1))) by (nonlinear_arith);
}

proof fn lemma_ring_gather(n1: int, ad: int, bd: int, d2: int, n2: int, d1: int, sd: int)
    ensures
        sd * ((n1 * ad) * (bd * d2) + (n2 * bd) * (ad * d1)) == (ad * bd) * ((n1 * d2 + n2 * d1) * sd),
{
    lemma_mul_is_distributive_add(sd, (n1 * ad) * (bd * d2), (n2 * bd) * (ad * d1));
    lemma_mul_is_distributive_add_other_way(sd, n1 * d2, n2 * d1);
    lemma_mul_is_distributive_add(ad * bd, (n1 * d2) * sd, (n2 * d1) * sd);
    assert(sd * ((n1 * ad) * (bd * d2)) == (ad * bd) * ((n1 * d2) * sd)) by (nonlinear_arith);
    assert(sd * ((n2 * bd) * (ad * d1)) == (ad * bd) * ((n2 * d1) * sd)) by (nonlinear_arith);
}

/// Two values in normal form that denote equal fractions are identical.
pub proof fn lemma_denotes_eq(x: RationalTime, y: RationalTime, n1: int, d1: int, n2: int, d2: int)
    requires
        x.wf(),
        y.wf(),
        denotes(x, n1, d1),
        denotes(y, n2, d2),
        n1 * d2 == n2 * d1,
    ensures
        x == y,
{
    let (xn, xd, yn, yd) = (x.numer(), x.denom(), y.numer(), y.denom());
    let k = d1 * d2;
    assert(k > 0) by (nonlinear_arith)
        requires
            k == d1 * d2,
            d1 > 0,
            d2 > 0,
    ;
    let p = xn * d1;
    let q = yn * d2;
    let e = n1 * d2;
    assert(k * (xn * yd) == p * (yd * d2)) by (nonlinear_arith)
        requires
            k == d1 * d2,
            p == xn * d1,
    ;
    assert(p * (yd * d2) == xd * yd * e) by (nonlinear_arith)
        requires
            p == n1 * xd,
            e == n1 * d2,
    ;
    assert(xd * yd * e == q * (xd * d1)) by (nonlinear_arith)
        requires
            e == n2 * d1,
            q == n2 * yd,
    ;
    assert(q * (xd * d1) == k * (yn * xd)) by (nonlinear_arith)
        requires
            k == d1 * d2,
            q == yn * d2,
    ;
    lemma_mul_equality_converse(k, xn * yd, yn * xd);
    RationalTime::lemma_unique(x, y);
}

/// Comparing two values in normal form is comparing the fractions they denote.
pub proof fn lemma_lt_denotes(x: RationalTime, y: RationalTime, n1: int, d1: int, n2: int, d2: int)
    requires
        x.wf(),
        y.wf(),
        denotes(x, n1, d1),
        denotes(y, n2, d2),
    ensures
        RationalTime::lt_value(x, y) <==> n1 * d2 < n2 * d1,
{
    let (xn, xd, yn, yd) = (x.numer(), x.denom(), y.numer(), y.denom());
    let k = d1 * d2;
    let m = xd * yd;
    assert(k > 0 && m > 0) by (nonlinear_arith)
        requires
            k == d1 * d2,
            m == xd * yd,
            d1 > 0,
            d2 > 0,
            xd > 0,
            yd > 0,
    ;
    let p = xn * d1;
    let q = yn * d2;
    assert((xn * yd) * k == m * (n1 * d2)) by (nonlinear_arith)
        requires
            k == d1 * d2,
            m == xd * yd,
            p == xn * d1,
            p == n1 * xd,
    {
        assert((xn * yd) * k == p * (yd * d2));
        assert(p * (yd * d2) == (n1 * xd) * (yd * d2));
    }
    assert((yn * xd) * k == m * (n2 * d1)) by (nonlinear_arith)
        requires
            k == d1 * d2,
            m == xd * yd,
            q == yn * d2,
            q == n2 * yd,
    {
        assert((yn * xd) * k == q * (xd * d1));
        assert(q * (xd * d1) == (n2 * yd) * (xd * d1));
    }
    if xn * yd < yn * xd {
        lemma_mul_strict_inequality(xn * yd, yn * xd, k);
        assert(m * (n1 * d2) < m * (n2 * d1));
        lemma_mul_is_commutative(m, n1 * d2);
        lemma_mul_is_commutative(m, n2 * d1);
        lemma_mul_strict_inequality_converse(n1 * d2, n2 * d1, m);
    }
    if n1 * d2 < n2 * d1 {
        lemma_mul_strict_inequality(n1 * d2, n2 * d1, m);
        lemma_mul_is_commutative(m, n1 * d2);
        lemma_mul_is_commutative(m, n2 * d1);
        assert((xn * yd) * k < (yn * xd) * k);
        lemma_mul_strict_inequality_converse(xn * yd, yn * xd, k);
    }
}

impl RationalTime {
    /// A remainder by a positive modulus that can be computed is in normal form.
    pub proof fn lemma_rem_wf(a: RationalTime, m: RationalTime)
        requires
            a.wf(),
            m.wf(),
            m.numer() > 0,
            Self::rem_ok(a, m),
        ensures
            Self::rem_spec(a, m).wf(),
    {
        if !(a.numer() >= 0 && Self::lt_value(a, m)) {
            let k = m.numer() * a.denom();
            let d = a.denom() * m.denom();
            assert(k > 0 && d > 0) by (nonlinear_arith)
                requires
                    k == m.numer() * a.denom(),
                    d == a.denom() * m.denom(),
                    m.numer() > 0,
                    a.denom() > 0,
                    m.denom() > 0,
            ;
            let n = (a.numer() * m.denom()) % k;
            assert(0 <= n < k);
            Self::lemma_ratio(n, d);
        }
    }
}

} // verus!
