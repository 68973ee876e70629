//! The colour gradient of the truecolor block.
//!
//! Each channel of a cell is `63` plus a ramp from 0 to 192 along one axis of
//! the block. The ramp is defined in single-precision floating point:
//! position and extent are divided, the quotient is scaled by 192, and the
//! product is rounded to a whole number. So that the colours are the same on
//! every machine, this module states that computation over fractions of
//! natural numbers, with every intermediate result rounded as binary32 rounds
//! it, and computes it in integers.

use vstd::prelude::*;

verus! {

/// One terminal colour.
#[derive(Clone, Copy, Debug, PartialEq, Eq, Structural)]
pub struct RGB {
    pub r: u8,
    pub g: u8,
    pub b: u8,
}

/// A fraction `num / den` that is not negative.
pub struct Fraction {
    pub num: nat,
    pub den: nat,
}

/// Two to the power 23: the smallest number with 24 binary digits.
pub const MANTISSA_LOW: u128 = 0x80_0000;

/// Two to the power 24: the smallest number with 25 binary digits.
pub const MANTISSA_HIGH: u128 = 0x100_0000;

/// The whole number nearest to `n / d`; of two equally near ones the even one.
pub open spec fn round_half_even(n: nat, d: nat) -> nat {
    let q = n / d;
    let rest = n % d;
    if 2 * rest > d || (2 * rest == d && q % 2 == 1) {
        q + 1
    } else {
        q
    }
}

/// The whole number nearest to `f`; of two equally near ones the larger one.
pub open spec fn round_half_up(f: Fraction) -> nat {
    (2 * f.num + f.den) / (2 * f.den)
}

/// The binary32 number nearest to `n / d`, ties to even.
///
/// A binary32 number has 24 significant binary digits. Between two to the
/// power 23 and two to the power 24 these numbers are the whole numbers;
/// elsewhere they are those scaled by a power of two, so a fraction outside
/// that range is doubled or halved into it, rounded there, and scaled back.
/// The exponent is taken to be unbounded: for the quotients and products of
/// 16-bit numbers that this module rounds, it is far from its limits.
pub open spec fn f32_nearest(n: nat, d: nat) -> Fraction
    decreases
        (if n < d * MANTISSA_LOW { d * MANTISSA_LOW - n } else { 0 }) + (if n >= d * MANTISSA_HIGH {
            n - d * MANTISSA_HIGH + 1
        } else {
            0
        }),
{
    if n == 0 || d == 0 {
        Fraction { num: 0, den: 1 }
    } else if n < d * MANTISSA_LOW {
        let doubled = f32_nearest(2 * n, d);
        Fraction { num: doubled.num, den: 2 * doubled.den }
    } else if n >= d * MANTISSA_HIGH {
        let halved = f32_nearest(n, 2 * d);
        Fraction { num: 2 * halved.num, den: halved.den }
    } else {
        Fraction { num: round_half_even(n, d), den: 1 }
    }
}

/// The ramp that rises along an axis: `(192.0 * (x / w)).round()` in
/// binary32, for position `x` on an axis of extent `w`. An axis without
/// extent has no ramp.
pub open spec fn rising(x: nat, w: nat) -> nat {
    if w == 0 {
        0
    } else {
        let q = f32_nearest(x, w);
        round_half_up(f32_nearest(192 * q.num, q.den))
    }
}

/// The ramp that falls along an axis: `(192.0 * (1.0 - x / w)).round()` in
/// binary32, for position `x` on an axis of extent `w`, and 0 beyond the end
/// of the axis, where the product is negative. An axis without extent has no
/// ramp.
pub open spec fn falling(x: nat, w: nat) -> nat {
    if w == 0 {
        0
    } else {
        let q = f32_nearest(x, w);
        if q.num >= q.den {
            0
        } else {
            let rest = f32_nearest((q.den - q.num) as nat, q.den);
            round_half_up(f32_nearest(192 * rest.num, rest.den))
        }
    }
}

/// Whether a channel can hold the ramps at position `x` of an axis of extent
/// `w`: the position lies on the axis, or so little beyond its end that the
/// rising ramp has not left its span of 192. On an axis without extent only
/// position 0 qualifies.
pub open spec fn on_axis(x: nat, w: nat) -> bool {
    (w > 0 || x == 0) && rising(x, w) <= 192
}

/// Rounding to the nearest whole number never passes a whole number: a
/// fraction that is at most `c` rounds to at most `c`, and one that is at
/// least `c` to at least `c`.
pub proof fn lemma_round_half_even_bounds(n: nat, d: nat, c: nat)
    requires
        d > 0,
    ensures
        n <= c * d ==> round_half_even(n, d) <= c,
        n >= c * d ==> round_half_even(n, d) >= c,
{
    let q = n / d;
    let rest = n % d;
    assert(n == q * d + rest && 0 <= rest < d) by (nonlinear_arith)
        requires
            d > 0,
            q == n / d,
            rest == n % d,
    ;
    if n <= c * d {
        if q >= c {
            assert(q == c) by (nonlinear_arith)
                requires
                    q >= c,
                    q * d <= c * d,
                    d > 0,
            ;
        } else {
            assert(q + 1 <= c);
        }
    }
    if n >= c * d {
        if q < c {
            assert((q + 1) * d <= c * d) by (nonlinear_arith)
                requires
                    q + 1 <= c,
                    d > 0,
            ;
            assert((q + 1) * d == q * d + d) by (nonlinear_arith);
        }
    }
}

/// A denominator that `f32_nearest` gives is positive.
pub proof fn lemma_nearest_den_positive(n: nat, d: nat)
    ensures
        f32_nearest(n, d).den >= 1,
    decreases
        (if n < d * MANTISSA_LOW { d * MANTISSA_LOW - n } else { 0 }) + (if n >= d * MANTISSA_HIGH {
            n - d * MANTISSA_HIGH + 1
        } else {
            0
        }),
{
    if n == 0 || d == 0 {
    } else if n < d * MANTISSA_LOW {
        lemma_nearest_den_positive(2 * n, d);
    } else if n >= d * MANTISSA_HIGH {
        lemma_nearest_den_positive(n, 2 * d);
    }
}

/// Rounding to binary32 never passes a whole number below two to the power
/// 24: such a number is a binary32 number itself.
pub proof fn lemma_nearest_bounds(n: nat, d: nat, c: nat)
    requires
        d > 0,
        n < d * MANTISSA_HIGH,
    ensures
        n <= c * d ==> f32_nearest(n, d).num <= c * f32_nearest(n, d).den,
        n >= c * d ==> f32_nearest(n, d).num >= c * f32_nearest(n, d).den,
    decreases
        (if n < d * MANTISSA_LOW { d * MANTISSA_LOW - n } else { 0 }),
{
    if n == 0 {
        if n >= c * d {
            assert(c == 0) by (nonlinear_arith)
                requires
                    0 >= c * d,
                    d > 0,
            ;
        }
    } else if n < d * MANTISSA_LOW {
        let doubled = f32_nearest(2 * n, d);
        lemma_nearest_bounds(2 * n, d, 2 * c);
        assert((2 * c) * d == 2 * (c * d)) by (nonlinear_arith);
        assert((2 * c) * doubled.den == c * (2 * doubled.den)) by (nonlinear_arith);
    } else {
        lemma_round_half_even_bounds(n, d, c);
    }
}

/// Every position from 0 to the extent lies on the axis.
pub proof fn lemma_ramp_range(x: nat, w: nat)
    requires
        x <= w,
    ensures
        on_axis(x, w),
        rising(x, w) <= 192,
{
    if w > 0 {
        let q = f32_nearest(x, w);
        lemma_nearest_den_positive(x, w);
        lemma_nearest_bounds(x, w, 1);
        lemma_scaled_range(q.num, q.den);
    }
}

/// The falling ramp stays within its span everywhere.
pub proof fn lemma_falling_range(x: nat, w: nat)
    requires
        x < 0x1_0000,
        w < 0x1_0000,
    ensures
        falling(x, w) <= 192,
{
    if w > 0 {
        let q = f32_nearest(x, w);
        lemma_nearest_den_positive(x, w);
        if q.num < q.den {
            let rest = f32_nearest((q.den - q.num) as nat, q.den);
            lemma_nearest_den_positive((q.den - q.num) as nat, q.den);
            lemma_nearest_bounds((q.den - q.num) as nat, q.den, 1);
            lemma_scaled_range(rest.num, rest.den);
        }
    }
}

/// 192 times a fraction that is at most one rounds to at most 192.
proof fn lemma_scaled_range(num: nat, den: nat)
    requires
        den > 0,
        num <= den,
    ensures
        round_half_up(f32_nearest(192 * num, den)) <= 192,
{
    let p = f32_nearest(192 * num, den);
    lemma_nearest_den_positive(192 * num, den);
    lemma_nearest_bounds(192 * num, den, 192);
    assert((2 * p.num + p.den) / (2 * p.den) <= 192) by (nonlinear_arith)
        requires
            p.den > 0,
            p.num <= 192 * p.den,
    ;
}

/// The ramps meet the ends of the axis exactly: the rising one goes from 0 to
/// 192 and the falling one from 192 to 0.
pub proof fn lemma_ramp_ends(w: nat)
    requires
        w > 0,
    ensures
        rising(0, w) == 0,
        rising(w, w) == 192,
        falling(0, w) == 192,
        falling(w, w) == 0,
{
    let zero = Fraction { num: 0, den: 1 };
    assert(f32_nearest(192 * zero.num, zero.den) == zero);
    assert(round_half_up(zero) == 1nat / 2);
    // Position 0: the quotient is 0 and its complement is 1.
    assert(f32_nearest(0, w) == zero);
    let one = f32_nearest(1, 1);
    lemma_nearest_den_positive(1, 1);
    lemma_nearest_bounds(1, 1, 1);
    lemma_unit_scaled(one.num, one.den);
    // Position w: the quotient is 1 and its complement is 0.
    let q = f32_nearest(w, w);
    lemma_nearest_den_positive(w, w);
    lemma_nearest_bounds(w, w, 1);
    lemma_unit_scaled(q.num, q.den);
}

/// 192 times one rounds to 192.
proof fn lemma_unit_scaled(num: nat, den: nat)
    requires
        den > 0,
        num == den,
    ensures
        round_half_up(f32_nearest(192 * num, den)) == 192,
{
    let p = f32_nearest(192 * num, den);
    lemma_nearest_den_positive(192 * num, den);
    lemma_nearest_bounds(192 * num, den, 192);
    assert(p.num == 192 * p.den);
    assert((2 * p.num + p.den) / (2 * p.den) == 192) by (nonlinear_arith)
        requires
            p.den > 0,
            p.num == 192 * p.den,
    ;
}

/// Whether fraction `a` is at most fraction `b`.
pub open spec fn at_most(a: Fraction, b: Fraction) -> bool {
    a.num * b.den <= b.num * a.den
}

/// Rounding to the nearest whole number keeps order.
pub proof fn lemma_round_half_even_monotonic(n1: nat, d1: nat, n2: nat, d2: nat)
    requires
        d1 > 0,
        d2 > 0,
        n1 * d2 <= n2 * d1,
    ensures
        round_half_even(n1, d1) <= round_half_even(n2, d2),
{
    let q1 = n1 / d1;
    let r1 = n1 % d1;
    let q2 = n2 / d2;
    let r2 = n2 % d2;
    assert(n1 == q1 * d1 + r1 && 0 <= r1 < d1) by (nonlinear_arith)
        requires
            d1 > 0,
            q1 == n1 / d1,
            r1 == n1 % d1,
    ;
    assert(n2 == q2 * d2 + r2 && 0 <= r2 < d2) by (nonlinear_arith)
        requires
            d2 > 0,
            q2 == n2 / d2,
            r2 == n2 % d2,
    ;
    assert(q1 <= q2) by (nonlinear_arith)
        requires
            n1 == q1 * d1 + r1,
            n2 == q2 * d2 + r2,
            0 <= r1,
            0 <= r2 < d2,
            d1 > 0,
            n1 * d2 <= n2 * d1,
    ;
    if q1 == q2 {
        assert(r1 * d2 <= r2 * d1) by (nonlinear_arith)
            requires
                n1 == q1 * d1 + r1,
                n2 == q1 * d2 + r2,
                n1 * d2 <= n2 * d1,
        ;
        if 2 * r1 > d1 {
            assert(2 * r2 > d2) by (nonlinear_arith)
                requires
                    r1 * d2 <= r2 * d1,
                    2 * r1 > d1,
                    d1 > 0,
                    d2 > 0,
            ;
        } else if 2 * r1 == d1 {
            assert(2 * r2 >= d2) by (nonlinear_arith)
                requires
                    r1 * d2 <= r2 * d1,
                    2 * r1 == d1,
                    d1 > 0,
                    d2 > 0,
            ;
        }
    }
}

/// Rounding to binary32 keeps order.
pub proof fn lemma_nearest_monotonic(n1: nat, d1: nat, n2: nat, d2: nat)
    requires
        d1 > 0,
        d2 > 0,
        n1 < d1 * MANTISSA_HIGH,
        n2 < d2 * MANTISSA_HIGH,
        n1 * d2 <= n2 * d1,
    ensures
        at_most(f32_nearest(n1, d1), f32_nearest(n2, d2)),
    decreases
        (if n1 < d1 * MANTISSA_LOW { d1 * MANTISSA_LOW - n1 } else { 0 }),
{
    let f1 = f32_nearest(n1, d1);
    let f2 = f32_nearest(n2, d2);
    lemma_nearest_den_positive(n1, d1);
    lemma_nearest_den_positive(n2, d2);
    if n1 == 0 {
        assert(f1.num * f2.den == 0) by (nonlinear_arith)
            requires
                f1.num == 0,
        ;
        assert(f2.num * f1.den >= 0) by (nonlinear_arith);
    } else if n1 < d1 * MANTISSA_LOW {
        if n2 < d2 * MANTISSA_LOW {
            assert(n2 > 0) by (nonlinear_arith)
                requires
                    n1 > 0,
                    d2 > 0,
                    n1 * d2 <= n2 * d1,
            ;
            let g1 = f32_nearest(2 * n1, d1);
            let g2 = f32_nearest(2 * n2, d2);
            assert((2 * n1) * d2 <= (2 * n2) * d1) by (nonlinear_arith)
                requires
                    n1 * d2 <= n2 * d1,
            ;
            lemma_nearest_monotonic(2 * n1, d1, 2 * n2, d2);
            assert(g1.num * (2 * g2.den) <= g2.num * (2 * g1.den)) by (nonlinear_arith)
                requires
                    g1.num * g2.den <= g2.num * g1.den,
            ;
        } else {
            lemma_round_half_even_bounds(n2, d2, MANTISSA_LOW as nat);
            lemma_nearest_bounds(n1, d1, MANTISSA_LOW as nat);
            assert(f1.num * f2.den <= f2.num * f1.den) by (nonlinear_arith)
                requires
                    f2.den == 1,
                    f2.num >= MANTISSA_LOW,
                    f1.num <= MANTISSA_LOW * f1.den,
            ;
        }
    } else {
        assert(n2 >= d2 * MANTISSA_LOW) by (nonlinear_arith)
            requires
                n1 >= d1 * MANTISSA_LOW,
                n1 * d2 <= n2 * d1,
                d1 > 0,
                d2 > 0,
        ;
        lemma_round_half_even_monotonic(n1, d1, n2, d2);
        assert(f1.num * 1 <= f2.num * 1) by (nonlinear_arith)
            requires
                f1.num <= f2.num,
        ;
    }
}

/// Rounding to the nearest whole number, halves upwards, keeps order.
pub proof fn lemma_round_half_up_monotonic(a: Fraction, b: Fraction)
    requires
        a.den > 0,
        b.den > 0,
        at_most(a, b),
    ensures
        round_half_up(a) <= round_half_up(b),
{
    let n1 = 2 * a.num + a.den;
    let d1 = 2 * a.den;
    let n2 = 2 * b.num + b.den;
    let d2 = 2 * b.den;
    assert(n1 * d2 <= n2 * d1) by (nonlinear_arith)
        requires
            a.num * b.den <= b.num * a.den,
            n1 == 2 * a.num + a.den,
            d1 == 2 * a.den,
            n2 == 2 * b.num + b.den,
            d2 == 2 * b.den,
    ;
    let q1 = n1 / d1;
    let q2 = n2 / d2;
    assert(n1 == q1 * d1 + n1 % d1 && 0 <= n1 % d1 < d1) by (nonlinear_arith)
        requires
            d1 > 0,
            q1 == n1 / d1,
    ;
    assert(n2 == q2 * d2 + n2 % d2 && 0 <= n2 % d2 < d2) by (nonlinear_arith)
        requires
            d2 > 0,
            q2 == n2 / d2,
    ;
    assert(q1 <= q2) by (nonlinear_arith)
        requires
            n1 == q1 * d1 + n1 % d1,
            n2 == q2 * d2 + n2 % d2,
            0 <= n1 % d1,
            0 <= n2 % d2 < d2,
            d1 > 0,
            n1 * d2 <= n2 * d1,
    ;
}

/// 192 times a fraction, rounded to binary32 and then to a whole number,
/// keeps the order of the fractions.
proof fn lemma_scaled_monotonic(a: Fraction, b: Fraction)
    requires
        a.den > 0,
        b.den > 0,
        a.num <= 0xFFFF * a.den,
        b.num <= 0xFFFF * b.den,
        at_most(a, b),
    ensures
        round_half_up(f32_nearest(192 * a.num, a.den)) <= round_half_up(
            f32_nearest(192 * b.num, b.den),
        ),
{
    assert((192 * a.num) * b.den <= (192 * b.num) * a.den) by (nonlinear_arith)
        requires
            a.num * b.den <= b.num * a.den,
    ;
    lemma_nearest_monotonic(192 * a.num, a.den, 192 * b.num, b.den);
    lemma_nearest_den_positive(192 * a.num, a.den);
    lemma_nearest_den_positive(192 * b.num, b.den);
    lemma_round_half_up_monotonic(
        f32_nearest(192 * a.num, a.den),
        f32_nearest(192 * b.num, b.den),
    );
}

/// The ramps keep order along the axis: further along, the rising ramp is
/// no lower and the falling ramp no higher.
pub proof fn lemma_ramps_keep_order(x1: nat, x2: nat, w: nat)
    requires
        x1 <= x2 < 0x1_0000,
        0 < w < 0x1_0000,
    ensures
        rising(x1, w) <= rising(x2, w),
        falling(x2, w) <= falling(x1, w),
{
    let q1 = f32_nearest(x1, w);
    let q2 = f32_nearest(x2, w);
    assert(x1 * w <= x2 * w) by (nonlinear_arith)
        requires
            x1 <= x2,
    ;
    lemma_nearest_monotonic(x1, w, x2, w);
    lemma_nearest_den_positive(x1, w);
    lemma_nearest_den_positive(x2, w);
    lemma_nearest_bounds(x1, w, 0xFFFF);
    lemma_nearest_bounds(x2, w, 0xFFFF);
    assert(x1 <= 0xFFFF * w && x2 <= 0xFFFF * w) by (nonlinear_arith)
        requires
            x1 <= x2 < 0x1_0000,
            w >= 1,
    ;
    lemma_scaled_monotonic(q1, q2);
    if q2.num < q2.den {
        assert(q1.num < q1.den) by (nonlinear_arith)
            requires
                q1.num * q2.den <= q2.num * q1.den,
                q2.num < q2.den,
                q1.den > 0,
                q2.den > 0,
        ;
        let rest1 = f32_nearest((q1.den - q1.num) as nat, q1.den);
        let rest2 = f32_nearest((q2.den - q2.num) as nat, q2.den);
        assert((q2.den - q2.num) * q1.den <= (q1.den - q1.num) * q2.den) by (nonlinear_arith)
            requires
                q1.num * q2.den <= q2.num * q1.den,
        ;
        lemma_nearest_monotonic((q2.den - q2.num) as nat, q2.den, (q1.den - q1.num) as nat, q1.den);
        lemma_nearest_den_positive((q1.den - q1.num) as nat, q1.den);
        lemma_nearest_den_positive((q2.den - q2.num) as nat, q2.den);
        lemma_nearest_bounds((q1.den - q1.num) as nat, q1.den, 1);
        lemma_nearest_bounds((q2.den - q2.num) as nat, q2.den, 1);
        assert(rest1.num <= 0xFFFF * rest1.den && rest2.num <= 0xFFFF * rest2.den)
            by (nonlinear_arith)
            requires
                rest1.num <= 1 * rest1.den,
                rest2.num <= 1 * rest2.den,
        ;
        lemma_scaled_monotonic(rest2, rest1);
    }
}

/// Two to the power `m`.
pub open spec fn two_to(m: nat) -> nat
    decreases m,
{
    if m == 0 {
        1
    } else {
        2 * two_to((m - 1) as nat)
    }
}

/// Rounding to binary32 never passes a number of at most 24 binary digits
/// over a power of two: such a number is a binary32 number itself.
pub proof fn lemma_nearest_dyadic(n: nat, d: nat, c: nat, m: nat)
    requires
        d > 0,
        n < d * MANTISSA_HIGH,
        m == 0 || c < MANTISSA_HIGH,
    ensures
        n * two_to(m) >= c * d ==> f32_nearest(n, d).num * two_to(m) >= c * f32_nearest(n, d).den,
        n * two_to(m) <= c * d ==> f32_nearest(n, d).num * two_to(m) <= c * f32_nearest(n, d).den,
    decreases
        (if n < d * MANTISSA_LOW { d * MANTISSA_LOW - n } else { 0 }),
{
    let f = f32_nearest(n, d);
    let t = two_to(m);
    assert(t >= 1) by {
        lemma_two_to_positive(m);
    }
    if n == 0 {
        if n * t >= c * d {
            assert(c == 0) by (nonlinear_arith)
                requires
                    0 >= c * d,
                    d > 0,
            ;
        }
        assert(0 * t == 0 && c * 1 == c) by (nonlinear_arith);
    } else if n < d * MANTISSA_LOW {
        let g = f32_nearest(2 * n, d);
        if m == 0 {
            lemma_nearest_dyadic(2 * n, d, 2 * c, 0);
            assert((2 * n) * 1 == 2 * (n * 1) && (2 * c) * d == 2 * (c * d)) by (nonlinear_arith);
            assert((2 * c) * g.den == c * (2 * g.den)) by (nonlinear_arith);
            assert(g.num * 1 == g.num && n * 1 == n) by (nonlinear_arith);
        } else {
            let half = two_to((m - 1) as nat);
            lemma_nearest_dyadic(2 * n, d, c, (m - 1) as nat);
            assert((2 * n) * half == n * (2 * half)) by (nonlinear_arith);
            assert(g.num * (2 * half) == 2 * (g.num * half)) by (nonlinear_arith);
            assert(c * (2 * g.den) == 2 * (c * g.den)) by (nonlinear_arith);
        }
    } else {
        if m == 0 {
            lemma_round_half_even_bounds(n, d, c);
            assert(f.num * 1 == f.num && c * 1 == c && n * 1 == n) by (nonlinear_arith);
        } else {
            lemma_round_half_even_bounds(n, d, MANTISSA_LOW as nat);
            assert(t >= 2) by {
                lemma_two_to_positive((m - 1) as nat);
            }
            assert(f.num * t >= c * 1) by (nonlinear_arith)
                requires
                    f.num >= MANTISSA_LOW,
                    t >= 2,
                    c < MANTISSA_HIGH,
                    MANTISSA_LOW == 0x80_0000,
                    MANTISSA_HIGH == 0x100_0000,
            ;
            assert(n * t > c * d) by (nonlinear_arith)
                requires
                    n >= d * MANTISSA_LOW,
                    t >= 2,
                    c < MANTISSA_HIGH,
                    d > 0,
                    MANTISSA_LOW == 0x80_0000,
                    MANTISSA_HIGH == 0x100_0000,
            ;
        }
    }
}

/// A power of two is at least one.
proof fn lemma_two_to_positive(m: nat)
    ensures
        two_to(m) >= 1,
    decreases m,
{
    if m > 0 {
        lemma_two_to_positive((m - 1) as nat);
    }
}

/// 192 times a fraction, rounded to binary32, stays on its side of 192
/// times a number of at most 22 binary digits over two to the power 20.
proof fn lemma_scaled_dyadic(a: Fraction, c: nat)
    requires
        a.den > 0,
        a.num <= 0xFFFF * a.den,
        c < 0x40_0000,
    ensures
        a.num * 0x10_0000 >= c * a.den ==> f32_nearest(192 * a.num, a.den).num * 0x10_0000 >= (192
            * c) * f32_nearest(192 * a.num, a.den).den,
        a.num * 0x10_0000 <= c * a.den ==> f32_nearest(192 * a.num, a.den).num * 0x10_0000 <= (192
            * c) * f32_nearest(192 * a.num, a.den).den,
{
    let g = f32_nearest(192 * a.num, a.den);
    assert(two_to(14) == 0x4000) by {
        reveal_with_fuel(two_to, 15);
    }
    lemma_nearest_dyadic(192 * a.num, a.den, 3 * c, 14);
    if a.num * 0x10_0000 >= c * a.den {
        assert((192 * a.num) * 0x4000 >= (3 * c) * a.den) by (nonlinear_arith)
            requires
                a.num * 0x10_0000 >= c * a.den,
        ;
        assert(g.num * 0x10_0000 >= (192 * c) * g.den) by (nonlinear_arith)
            requires
                g.num * 0x4000 >= (3 * c) * g.den,
        ;
    }
    if a.num * 0x10_0000 <= c * a.den {
        assert((192 * a.num) * 0x4000 <= (3 * c) * a.den) by (nonlinear_arith)
            requires
                a.num * 0x10_0000 <= c * a.den,
        ;
        assert(g.num * 0x10_0000 <= (192 * c) * g.den) by (nonlinear_arith)
            requires
                g.num * 0x4000 <= (3 * c) * g.den,
        ;
    }
}

/// A fraction that is not below a whole number by more than a little rounds
/// to at least that number, and one that is not above it by more than a
/// little to at most that number.
proof fn lemma_half_up_near(f: Fraction, k: int)
    requires
        f.den > 0,
    ensures
        f.num * 0x10_0000 >= (k * 0x10_0000 - 192) * f.den ==> round_half_up(f) >= k,
        f.num * 0x10_0000 <= (k * 0x10_0000 + 192) * f.den ==> round_half_up(f) <= k,
{
    let n = 2 * f.num + f.den;
    let d = 2 * f.den;
    let q = n / d;
    assert(n == q * d + n % d && 0 <= n % d < d) by (nonlinear_arith)
        requires
            d > 0,
            q == n / d,
    ;
    if f.num * 0x10_0000 >= (k * 0x10_0000 - 192) * f.den {
        assert(q >= k) by (nonlinear_arith)
            requires
                f.num * 0x10_0000 >= (k * 0x10_0000 - 192) * f.den,
                n == 2 * f.num + f.den,
                d == 2 * f.den,
                n == q * d + n % d,
                n % d < d,
                f.den > 0,
        ;
    }
    if f.num * 0x10_0000 <= (k * 0x10_0000 + 192) * f.den {
        assert(q <= k) by (nonlinear_arith)
            requires
                f.num * 0x10_0000 <= (k * 0x10_0000 + 192) * f.den,
                n == 2 * f.num + f.den,
                d == 2 * f.den,
                n == q * d + n % d,
                0 <= n % d,
                f.den > 0,
        ;
    }
}

/// Red and green make up for each other: on the axis the two ramps add up
/// to 192, give or take one for the rounding of each.
pub proof fn lemma_ramps_add_up(x: nat, w: nat)
    requires
        x <= w,
        0 < w < 0x1_0000,
    ensures
        191 <= rising(x, w) + falling(x, w) <= 193,
{
    let q = f32_nearest(x, w);
    lemma_nearest_den_positive(x, w);
    lemma_nearest_bounds(x, w, 1);
    assert(q.num <= 0xFFFF * q.den) by (nonlinear_arith)
        requires
            q.num <= 1 * q.den,
    ;
    if q.num >= q.den {
        lemma_unit_scaled(q.num, q.den);
    } else {
        // The whole number below the exact ramp, and the fractions over two
        // to the power 20 on either side of the position.
        let k: int = ((192 * x) / w) as int;
        assert(192 * x == k * w + (192 * x) % w && 0 <= (192 * x) % w < w) by (nonlinear_arith)
            requires
                w > 0,
                k == (192 * x) / w,
        ;
        assert(0 <= k <= 192) by (nonlinear_arith)
            requires
                192 * x == k * w + (192 * x) % w,
                0 <= (192 * x) % w < w,
                x <= w,
                w > 0,
        ;
        let low: int = (k * 0x10_0000) / 192;
        let high: int = ((k + 1) * 0x10_0000 + 191) / 192;
        assert(192 * low <= k * 0x10_0000 <= 192 * low + 191);
        assert((k + 1) * 0x10_0000 <= 192 * high <= (k + 1) * 0x10_0000 + 191);
        assert(x * 0x10_0000 >= low * w) by (nonlinear_arith)
            requires
                192 * x >= k * w,
                192 * low <= k * 0x10_0000,
                w > 0,
        ;
        assert((k + 1) * w == k * w + w) by (nonlinear_arith);
        assert(x * 0x10_0000 <= high * w) by (nonlinear_arith)
            requires
                192 * x <= (k + 1) * w,
                (k + 1) * 0x10_0000 <= 192 * high,
                w > 0,
        ;
        assert(two_to(20) == 0x10_0000) by {
            reveal_with_fuel(two_to, 21);
        }
        lemma_nearest_dyadic(x, w, low as nat, 20);
        lemma_nearest_dyadic(x, w, high as nat, 20);
        // The rising ramp is the whole number below the exact one or the next.
        let g = f32_nearest(192 * q.num, q.den);
        lemma_nearest_den_positive(192 * q.num, q.den);
        lemma_scaled_dyadic(q, low as nat);
        lemma_scaled_dyadic(q, high as nat);
        assert(g.num * 0x10_0000 >= (k * 0x10_0000 - 192) * g.den) by (nonlinear_arith)
            requires
                g.num * 0x10_0000 >= (192 * low) * g.den,
                k * 0x10_0000 <= 192 * low + 191,
                g.den > 0,
        ;
        assert(g.num * 0x10_0000 <= ((k + 1) * 0x10_0000 + 192) * g.den) by (nonlinear_arith)
            requires
                g.num * 0x10_0000 <= (192 * high) * g.den,
                192 * high <= (k + 1) * 0x10_0000 + 191,
                g.den > 0,
        ;
        lemma_half_up_near(g, k);
        lemma_half_up_near(g, k + 1);
        // The falling ramp is what the exact one lacks of 192, or one less.
        let rest = f32_nearest((q.den - q.num) as nat, q.den);
        lemma_nearest_den_positive((q.den - q.num) as nat, q.den);
        lemma_nearest_bounds((q.den - q.num) as nat, q.den, 1);
        assert(rest.num <= 0xFFFF * rest.den) by (nonlinear_arith)
            requires
                rest.num <= 1 * rest.den,
        ;
        assert(high <= 0x10_0000) by (nonlinear_arith)
            requires
                q.num * 0x10_0000 >= low * q.den,
                q.num < q.den,
                192 * low + 191 >= k * 0x10_0000,
                192 * high <= (k + 1) * 0x10_0000 + 191,
                0 <= k <= 192,
                q.den > 0,
        ;
        let far = (0x10_0000 - high) as nat;
        let near = (0x10_0000 - low) as nat;
        assert((q.den - q.num) * 0x10_0000 >= far * q.den) by (nonlinear_arith)
            requires
                q.num * 0x10_0000 <= high * q.den,
                far == 0x10_0000 - high,
        ;
        assert((q.den - q.num) * 0x10_0000 <= near * q.den) by (nonlinear_arith)
            requires
                q.num * 0x10_0000 >= low * q.den,
                near == 0x10_0000 - low,
        ;
        lemma_nearest_dyadic((q.den - q.num) as nat, q.den, far, 20);
        lemma_nearest_dyadic((q.den - q.num) as nat, q.den, near, 20);
        let h = f32_nearest(192 * rest.num, rest.den);
        lemma_nearest_den_positive(192 * rest.num, rest.den);
        lemma_scaled_dyadic(rest, far);
        lemma_scaled_dyadic(rest, near);
        assert(h.num * 0x10_0000 >= ((191 - k) * 0x10_0000 - 192) * h.den) by (nonlinear_arith)
            requires
                h.num * 0x10_0000 >= (192 * far) * h.den,
                far == 0x10_0000 - high,
                192 * high <= (k + 1) * 0x10_0000 + 191,
                h.den > 0,
        ;
        assert(h.num * 0x10_0000 <= ((192 - k) * 0x10_0000 + 192) * h.den) by (nonlinear_arith)
            requires
                h.num * 0x10_0000 <= (192 * near) * h.den,
                near == 0x10_0000 - low,
                k * 0x10_0000 <= 192 * low + 191,
                h.den > 0,
        ;
        lemma_half_up_near(h, 191 - k);
        lemma_half_up_near(h, 192 - k);
    }
}

/// Computes `round_half_even`.
fn nearest_whole(n: u128, d: u128) -> (r: u128)
    requires
        0 < d <= u64::MAX,
        n < d * MANTISSA_HIGH,
    ensures
        r == round_half_even(n as nat, d as nat),
        r <= MANTISSA_HIGH,
{
    let q = n / d;
    let rest = n % d;
    proof {
        lemma_round_half_even_bounds(n as nat, d as nat, MANTISSA_HIGH as nat);
        assert(q < MANTISSA_HIGH) by (nonlinear_arith)
            requires
                q == n / d,
                n < d * MANTISSA_HIGH,
                d > 0,
        ;
    }
    if 2 * rest > d || (2 * rest == d && q % 2 == 1) {
        q + 1
    } else {
        q
    }
}

/// Computes `f32_nearest` for a fraction below two to the power 24.
fn nearest_f32(n: u128, d: u128) -> (f: (u128, u128))
    requires
        0 < d <= u64::MAX,
        n < d * MANTISSA_HIGH,
    ensures
        f.0 == f32_nearest(n as nat, d as nat).num,
        f.1 == f32_nearest(n as nat, d as nat).den,
        f.0 <= MANTISSA_HIGH,
        f.1 >= 1,
        n > 0 ==> n * f.1 < d * MANTISSA_HIGH,
        n == 0 ==> f.1 == 1,
{
    if n == 0 {
        return (0, 1);
    }
    let mut scaled: u128 = n;
    let mut den: u128 = 1;
    assert(n * 1 == n) by (nonlinear_arith);
    while scaled < d * MANTISSA_LOW
        invariant
            0 < d <= u64::MAX,
            0 < n,
            0 < scaled < d * MANTISSA_HIGH,
            scaled == n * den,
            den >= 1,
            f32_nearest(n as nat, d as nat).num == f32_nearest(scaled as nat, d as nat).num,
            f32_nearest(n as nat, d as nat).den == f32_nearest(scaled as nat, d as nat).den * den,
        decreases
            (if scaled < d * MANTISSA_LOW {
                d * MANTISSA_LOW - scaled
            } else {
                0
            }),
    {
        proof {
            let inner = f32_nearest((2 * scaled) as nat, d as nat);
            assert(f32_nearest(scaled as nat, d as nat) == Fraction {
                num: inner.num,
                den: 2 * inner.den,
            });
            assert((2 * inner.den) * den == inner.den * (2 * den)) by (nonlinear_arith);
            assert(2 * (n * den) == n * (2 * den)) by (nonlinear_arith);
            assert(den <= n * den) by (nonlinear_arith)
                requires
                    n >= 1,
                    den >= 0,
            ;
        }
        scaled = 2 * scaled;
        den = 2 * den;
    }
    assert(f32_nearest(scaled as nat, d as nat).den * den == den) by (nonlinear_arith)
        requires
            f32_nearest(scaled as nat, d as nat).den == 1,
    ;
    (nearest_whole(scaled, d), den)
}

/// Computes `192 * num / den` rounded to binary32 and then to a whole number,
/// for a fraction whose product stays within the span.
fn scale_and_round(num: u128, den: u128) -> (v: u8)
    requires
        0 < den <= u64::MAX,
        num <= 0xFFFF * den,
        round_half_up(f32_nearest(192 * num as nat, den as nat)) <= 192,
    ensures
        v == round_half_up(f32_nearest(192 * num as nat, den as nat)),
{
    let p = nearest_f32(192 * num, den);
    proof {
        assert(p.1 < 0x1_0000_0000_0000_0000_0000_0000) by (nonlinear_arith)
            requires
                p.1 >= 1,
                192 * num > 0 ==> (192 * num) * p.1 < den * MANTISSA_HIGH,
                192 * num == 0 ==> p.1 == 1,
                den <= u64::MAX,
                MANTISSA_HIGH == 0x100_0000,
        ;
    }
    let v = (2 * p.0 + p.1) / (2 * p.1);
    v as u8
}

/// Computes the quotient `x / w` in binary32.
fn quotient(x: u16, w: u16) -> (q: (u128, u128))
    requires
        w > 0,
    ensures
        q.0 == f32_nearest(x as nat, w as nat).num,
        q.1 == f32_nearest(x as nat, w as nat).den,
        0 < q.1 < 0x100_0000_0000,
        q.0 <= 0xFFFF * q.1,
        x <= w ==> q.0 <= q.1,
{
    let q = nearest_f32(x as u128, w as u128);
    proof {
        lemma_nearest_bounds(x as nat, w as nat, 1);
        lemma_nearest_bounds(x as nat, w as nat, 0xFFFF);
        lemma_quotient_den(x as nat, w as nat, q.1 as nat);
    }
    q
}

/// Computes `rising`.
fn rising_ramp(x: u16, w: u16) -> (v: u8)
    requires
        on_axis(x as nat, w as nat),
    ensures
        v == rising(x as nat, w as nat),
{
    if w == 0 {
        return 0;
    }
    let q = quotient(x, w);
    scale_and_round(q.0, q.1)
}

/// Computes `falling`.
fn falling_ramp(x: u16, w: u16) -> (v: u8)
    ensures
        v == falling(x as nat, w as nat),
        v <= 192,
{
    proof {
        lemma_falling_range(x as nat, w as nat);
    }
    if w == 0 {
        return 0;
    }
    let q = quotient(x, w);
    if q.0 >= q.1 {
        return 0;
    }
    let rest = nearest_f32(q.1 - q.0, q.1);
    proof {
        lemma_nearest_bounds((q.1 - q.0) as nat, q.1 as nat, 1);
        lemma_quotient_den((q.1 - q.0) as nat, q.1 as nat, rest.1 as nat);
        assert(rest.0 <= 0xFFFF * rest.1) by (nonlinear_arith)
            requires
                rest.0 <= rest.1,
        ;
    }
    scale_and_round(rest.0, rest.1)
}

/// The denominator of a rounded fraction is below two to the power 24 times
/// the fraction's own denominator.
proof fn lemma_quotient_den(n: nat, d: nat, den: nat)
    requires
        d > 0,
        den >= 1,
        n > 0 ==> n * den < d * MANTISSA_HIGH,
        n == 0 ==> den == 1,
    ensures
        den < d * MANTISSA_HIGH,
{
    if n > 0 {
        assert(den <= n * den) by (nonlinear_arith)
            requires
                n >= 1,
        ;
    }
}

/// The colour of the cell at column `x` and row `y` of a block `w` columns
/// wide and `h` rows high: red falls and green rises from left to right, blue
/// rises from top to bottom, each from 63 over a span of 192.
pub open spec fn gradient(w: nat, h: nat, x: nat, y: nat) -> RGB {
    RGB {
        r: (63 + falling(x, w)) as u8,
        g: (63 + rising(x, w)) as u8,
        b: (63 + rising(y, h)) as u8,
    }
}

/// Inside the block red and green add up to 318, give or take one, and
/// neither turns back: from left to right green does not fall and red does
/// not rise.
pub proof fn lemma_red_and_green(w: nat, h: nat, x1: nat, x2: nat, y: nat)
    requires
        x1 <= x2 <= w,
        0 < w < 0x1_0000,
    ensures
        317 <= gradient(w, h, x1, y).r + gradient(w, h, x1, y).g <= 319,
        gradient(w, h, x1, y).g <= gradient(w, h, x2, y).g,
        gradient(w, h, x2, y).r <= gradient(w, h, x1, y).r,
{
    lemma_ramp_range(x1, w);
    lemma_ramp_range(x2, w);
    lemma_falling_range(x1, w);
    lemma_falling_range(x2, w);
    lemma_ramps_add_up(x1, w);
    lemma_ramps_keep_order(x1, x2, w);
}

/// Computes the colour of one cell. The cell lies on both axes of the block:
/// inside it, on its far edges, or so little beyond them that green and blue
/// have not left their span.
pub fn calc_truecolor(w: u16, h: u16, x: u16, y: u16) -> (c: RGB)
    requires
        on_axis(x as nat, w as nat),
        on_axis(y as nat, h as nat),
    ensures
        c == gradient(w as nat, h as nat, x as nat, y as nat),
        c.r == 63 + falling(x as nat, w as nat),
        c.g == 63 + rising(x as nat, w as nat),
        c.b == 63 + rising(y as nat, h as nat),
{
    let r: u8 = 63 + falling_ramp(x, w);
    let g: u8 = 63 + rising_ramp(x, w);
    let b: u8 = 63 + rising_ramp(y, h);
    RGB { r, g, b }
}

/// Whether `calc_truecolor` has a colour for the cell: whether it lies on
/// both axes of the block.
pub fn is_on_block(w: u16, h: u16, x: u16, y: u16) -> (defined: bool)
    ensures
        defined == (on_axis(x as nat, w as nat) && on_axis(y as nat, h as nat)),
{
    ramp_fits(x, w) && ramp_fits(y, h)
}

/// Computes `on_axis`.
fn ramp_fits(x: u16, w: u16) -> (fits: bool)
    ensures
        fits == on_axis(x as nat, w as nat),
{
    if w == 0 {
        return x == 0;
    }
    if x <= w {
        proof {
            lemma_ramp_range(x as nat, w as nat);
        }
        return true;
    }
    let q = quotient(x, w);
    let p = nearest_f32(192 * q.0, q.1);
    proof {
        assert(p.1 < 0x1_0000_0000_0000_0000_0000_0000) by (nonlinear_arith)
            requires
                p.1 >= 1,
                192 * q.0 > 0 ==> (192 * q.0) * p.1 < q.1 * MANTISSA_HIGH,
                192 * q.0 == 0 ==> p.1 == 1,
                q.1 <= u64::MAX,
                MANTISSA_HIGH == 0x100_0000,
        ;
    }
    (2 * p.0 + p.1) / (2 * p.1) <= 192
}

} // verus!
