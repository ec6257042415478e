//! Sums, products, quotients and roots of binary64 numbers, in integers.

use crate::number::{
    bit_length, bit_length_bounds, bit_length_zero, length, nearest_bits, nearest_bounds, nearest_is_monotone,
    nearest_magnitude, rounded,
    rounded_quotient, short_length, two_to, two_to_grows, two_to_sum, two_to_values, two_to_wide_values, wide_power, Number, INFINITE,
    LEADING, ONE, SIGN,
};
use vstd::prelude::*;

verus! {

/// What stands for a result that is not a number.
pub const NO_NUMBER: u64 = 0x7ff8_0000_0000_0000;

/// The bit pattern of the binary64 number nearest to `m` times two to the power of `e`, ties
/// to even.
pub open spec fn nearest_scaled(m: nat, e: int) -> int {
    let k = bit_length(m);
    if m == 0 {
        0
    } else if k + e <= -1022 {
        if e >= -1074 {
            m * two_to((e + 1074) as nat) as int
        } else {
            rounded_quotient(m, two_to((-1074 - e) as nat)) as int
        }
    } else {
        let bits = nearest_bits(m as int) + e * LEADING;
        if bits > INFINITE {
            INFINITE as int
        } else {
            bits
        }
    }
}

/// Rounds an integer times a power of two.
fn round_scaled(m: u128, e: i64) -> (r: u64)
    requires
        m < 0x4000_0000_0000_0000_0000_0000_0000_0000,
        -2200 <= e <= 2000,
    ensures
        r == nearest_scaled(m as nat, e as int),
        r <= INFINITE,
{
    if m == 0 {
        return 0;
    }
    let k: u64 = length(m);
    proof {
        bit_length_bounds(m as nat);
        nearest_bounds(m as nat);
        two_to_values();
        two_to_wide_values();
        assert(two_to(127) == 2 * two_to(126));
        if k == 127 {
            assert(two_to(126) <= m);
        }
    }
    if k as i64 + e <= -1022 {
        if e >= -1074 {
            let up: u64 = (e + 1074) as u64;
            proof {
                let mm = m as int;
                let u = two_to(up as nat) as int;
                two_to_grows((k + up) as nat, 52);
                two_to_sum(k as nat, up as nat);
                two_to_grows(0, up as nat);
                assert(mm * u < 0x0010_0000_0000_0000 && mm * u >= 0) by (nonlinear_arith)
                    requires
                        0 <= mm < two_to(k as nat),
                        u >= 1,
                        two_to(k as nat) * u <= 0x0010_0000_0000_0000,
                ;
                two_to_grows(up as nat, 52);
            }
            (m * wide_power(up)) as u64
        } else {
            let down: u64 = (-1074 - e) as u64;
            if down >= 127 {
                proof {
                    two_to_grows((k + 1) as nat, down as nat);
                    let mm = m as int;
                    let u = two_to(down as nat) as int;
                    two_to_sum(1, k as nat);
                    reveal_with_fuel(two_to, 2);
                    assert(two_to((k + 1) as nat) == 2 * two_to(k as nat));
                    assert(mm / u == 0 && mm % u == mm) by (nonlinear_arith)
                        requires
                            0 <= mm < u,
                    ;
                }
                0
            } else {
                proof {
                    two_to_grows(down as nat, 126);
                    two_to_grows(0, down as nat);
                    reveal_with_fuel(two_to, 2);
                    assert(two_to(127) == 2 * two_to(126));
                    let mm = m as int;
                    let u = two_to(down as nat) as int;
                    two_to_grows(k as nat, (52 + down) as nat);
                    two_to_sum(52, down as nat);
                    assert(0 <= mm / u < 0x0010_0000_0000_0000) by (nonlinear_arith)
                        requires
                            0 <= mm < 0x0010_0000_0000_0000 * u,
                            u >= 1,
                    ;
                }
                rounded(m, wide_power(down)) as u64
            }
        }
    } else {
        let magnitude: u64 = nearest_magnitude(m);
        proof {
            let l = LEADING as int;
            let kk = k as int;
            let ee = e as int;
            let b = magnitude as int;
            assert(b + ee * l >= 0 && b <= (1023 + 127) * l && ee * l <= 2000 * l && -ee * l <= 2200 * l) by (nonlinear_arith)
                requires
                    b >= (1022 + kk) * l,
                    b <= (1023 + kk) * l,
                    kk <= 127,
                    kk + ee >= -1021,
                    -2200 <= ee <= 2000,
                    l > 0,
            ;
        }
        let bits: u64 = if e >= 0 {
            magnitude + (e as u64) * LEADING
        } else {
            magnitude - ((-e) as u64) * LEADING
        };
        if bits > INFINITE {
            INFINITE
        } else {
            bits
        }
    }
}

impl Number {
    /// Neither infinite nor something else than a number.
    pub open spec fn finite(self) -> bool {
        self.magnitude() < INFINITE
    }

    /// The significand with the sign.
    pub open spec fn signed_significand(self) -> int {
        if self.bits >= SIGN {
            -self.significand()
        } else {
            self.significand()
        }
    }

    /// A number with a sign and a magnitude.
    pub open spec fn assembled(negative: bool, magnitude: int) -> Number {
        if negative {
            Number { bits: (SIGN + magnitude) as u64 }
        } else {
            Number { bits: magnitude as u64 }
        }
    }

    fn assemble(negative: bool, magnitude: u64) -> (r: Number)
        requires
            magnitude <= INFINITE,
        ensures
            r == Number::assembled(negative, magnitude as int),
            r.bits == if negative {
                SIGN + magnitude
            } else {
                magnitude as int
            },
    {
        if negative {
            Number { bits: SIGN + magnitude }
        } else {
            Number { bits: magnitude }
        }
    }

    /// The sum: exact, then rounded to nearest, ties to even.
    pub open spec fn sum(self, other: Self) -> Number {
        if self.nan() || other.nan() {
            Number { bits: NO_NUMBER }
        } else if !self.finite() && !other.finite() && self != other {
            Number { bits: NO_NUMBER }
        } else if !self.finite() {
            self
        } else if !other.finite() {
            other
        } else {
            let e = if self.scale() <= other.scale() {
                self.scale()
            } else {
                other.scale()
            };
            let m = self.signed_significand() * two_to((self.scale() - e) as nat) + other.signed_significand() * two_to(
                (other.scale() - e) as nat,
            );
            if m == 0 {
                if self.bits >= SIGN && other.bits >= SIGN {
                    Number { bits: SIGN }
                } else {
                    Number { bits: 0 }
                }
            } else {
                Number::assembled(
                    m < 0,
                    nearest_scaled(
                        (if m < 0 {
                            -m
                        } else {
                            m
                        }) as nat,
                        e,
                    ),
                )
            }
        }
    }

    /// The negative of the number.
    pub open spec fn negated(self) -> Number {
        if self.bits >= SIGN {
            Number { bits: (self.bits - SIGN) as u64 }
        } else {
            Number { bits: (self.bits + SIGN) as u64 }
        }
    }

    /// The product: exact, then rounded to nearest, ties to even.
    pub open spec fn product(self, other: Self) -> Number {
        let negative = (self.bits >= SIGN) != (other.bits >= SIGN);
        if self.nan() || other.nan() {
            Number { bits: NO_NUMBER }
        } else if !self.finite() || !other.finite() {
            if self.magnitude() == 0 || other.magnitude() == 0 {
                Number { bits: NO_NUMBER }
            } else {
                Number::assembled(negative, INFINITE as int)
            }
        } else {
            Number::assembled(
                negative,
                nearest_scaled((self.significand() * other.significand()) as nat, self.scale() + other.scale()),
            )
        }
    }

    /// The sum.
    pub fn plus(self, other: Self) -> (r: Self)
        ensures
            r == self.sum(other),
            self.finite() && other.finite() ==> !r.nan(),
    {
        if self.is_nan() || other.is_nan() {
            return Number { bits: NO_NUMBER };
        }
        let x = self.absolute();
        let y = other.absolute();
        if x.bits == INFINITE {
            if y.bits == INFINITE && self.bits != other.bits {
                return Number { bits: NO_NUMBER };
            }
            return self;
        }
        if y.bits == INFINITE {
            return other;
        }
        let (xs, xe) = x.parts();
        let (ys, ye) = y.parts();
        proof {
            assert(x.significand() == self.significand() && x.scale() == self.scale());
            assert(y.significand() == other.significand() && y.scale() == other.scale());
            assert(two_to(0) == 1);
        }
        if xe >= ye {
            let r = sum_of(self, xs, xe, other, ys, ye);
            proof {
                let b = other.signed_significand();
                assert(b * two_to(0) == b) by (nonlinear_arith)
                    requires
                        two_to(0) == 1,
                ;
            }
            r
        } else {
            let r = sum_of(other, ys, ye, self, xs, xe);
            proof {
                let b = self.signed_significand();
                assert(b * two_to(0) == b) by (nonlinear_arith)
                    requires
                        two_to(0) == 1,
                ;
            }
            r
        }
    }

    /// The negative of the number.
    pub fn negative(self) -> (r: Self)
        ensures
            r == self.negated(),
    {
        if self.bits >= SIGN {
            Number { bits: self.bits - SIGN }
        } else {
            Number { bits: self.bits + SIGN }
        }
    }

    /// The difference.
    pub fn minus(self, other: Self) -> (r: Self)
        ensures
            r == self.sum(other.negated()),
            self.finite() && other.finite() ==> !r.nan(),
    {
        self.plus(other.negative())
    }

    /// The product.
    pub fn times(self, other: Self) -> (r: Self)
        ensures
            r == self.product(other),
    {
        if self.is_nan() || other.is_nan() {
            return Number { bits: NO_NUMBER };
        }
        let negative = (self.bits >= SIGN) != (other.bits >= SIGN);
        let x = self.absolute();
        let y = other.absolute();
        if x.bits == INFINITE || y.bits == INFINITE {
            if x.bits == 0 || y.bits == 0 {
                return Number { bits: NO_NUMBER };
            }
            return Number::assemble(negative, INFINITE);
        }
        let (xs, xe) = x.parts();
        let (ys, ye) = y.parts();
        proof {
            assert(x.significand() == self.significand() && x.scale() == self.scale());
            assert(y.significand() == other.significand() && y.scale() == other.scale());
            let a = xs as int;
            let b = ys as int;
            assert(0 <= a * b <= 0x0020_0000_0000_0000 * 0x0020_0000_0000_0000) by (nonlinear_arith)
                requires
                    0 <= a <= 0x0020_0000_0000_0000,
                    0 <= b <= 0x0020_0000_0000_0000,
            ;
        }
        Number::assemble(negative, round_scaled((xs as u128) * (ys as u128), xe + ye))
    }
}

proof fn far_sum(xs: nat, ys: nat, d: nat)
    requires
        LEADING <= xs < 2 * LEADING,
        ys < 2 * LEADING,
        d > 64,
    ensures
        bit_length(xs * two_to(d) + ys) == 53 + d,
        rounded_quotient(xs * two_to(d) + ys, two_to(d)) == xs,
{
    let u = two_to(d) as int;
    let x = xs as int;
    let y = ys as int;
    let m = xs * two_to(d) + ys;
    two_to_values();
    two_to_grows(64, d);
    two_to_sum(52, d);
    two_to_sum(53, d);
    assert(m < 2 * LEADING * u && m >= LEADING * u) by (nonlinear_arith)
        requires
            m == x * u + y,
            LEADING <= x < 2 * LEADING,
            0 <= y < u,
            u >= 1,
    ;
    length_is(m, 53 + d);
    assert(m as int / u == x && m as int % u == y) by (nonlinear_arith)
        requires
            m == x * u + y,
            0 <= y < u,
    ;
}

pub proof fn length_is(m: nat, k: nat)
    requires
        k > 0,
        two_to((k - 1) as nat) <= m < two_to(k),
    ensures
        bit_length(m) == k,
{
    two_to_grows(0, (k - 1) as nat);
    bit_length_bounds(m);
    let j = bit_length(m);
    if j > k {
        two_to_grows(k, (j - 1) as nat);
    }
    if j < k {
        two_to_grows(j, (k - 1) as nat);
    }
}

proof fn far_difference(xs: nat, ys: nat, d: nat)
    requires
        LEADING <= xs < 2 * LEADING,
        ys < 2 * LEADING,
        d > 64,
    ensures
        xs * two_to(d) > ys,
        nearest_bits((xs * two_to(d) - ys) as int) == (1021 + (53 + d)) * LEADING + xs,
{
    let u = two_to(d) as int;
    let h = two_to((d - 1) as nat) as int;
    let x = xs as int;
    let y = ys as int;
    let l = LEADING as int;
    two_to_values();
    two_to_grows(64, (d - 1) as nat);
    assert(u == 2 * h);
    two_to_sum(52, d);
    two_to_sum(53, d);
    two_to_sum(53, (d - 1) as nat);
    two_to_sum(52, (d - 1) as nat);
    assert(x * u >= l * u) by (nonlinear_arith)
        requires
            x >= l,
            u >= 1,
    ;
    assert(l * u >= u) by (nonlinear_arith)
        requires
            l >= 1,
            u >= 1,
    ;
    let m = (x * u - y) as nat;
    assert(xs * two_to(d) == x * u);
    assert(m == x * u - y);
    if x == l && y > 0 {
        // The difference is just below a power of two, and has one digit less.
        assert(m < l * u);
        assert(m >= l * h) by (nonlinear_arith)
            requires
                m == l * u - y,
                u == 2 * h,
                y < h,
                l >= 1,
        ;
        length_is(m, (52 + d) as nat);
        assert(m as int / h == 2 * l - 1 && m as int % h == h - y) by (nonlinear_arith)
            requires
                m == l * u - y,
                u == 2 * h,
                0 < y < h,
        ;
        assert(2 * (h - y) > h);
        assert(rounded_quotient(m, h as nat) == 2 * l);
        assert((1021 + (52 + d)) * l + 2 * l == (1021 + (53 + d)) * l + l) by (nonlinear_arith);
    } else {
        if y == 0 {
            assert(m < 2 * l * u) by (nonlinear_arith)
                requires
                    m == x * u,
                    x < 2 * l,
                    u >= 1,
            ;
            length_is(m, (53 + d) as nat);
            assert(m as int / u == x && m as int % u == 0) by (nonlinear_arith)
                requires
                    m == x * u,
                    u >= 1,
            ;
        } else {
            assert(m < 2 * l * u) by (nonlinear_arith)
                requires
                    m == x * u - y,
                    x < 2 * l,
                    u >= 1,
                    y >= 0,
            ;
            assert(m >= l * u) by (nonlinear_arith)
                requires
                    m == x * u - y,
                    x >= l + 1,
                    0 <= y < u,
            ;
            length_is(m, (53 + d) as nat);
            assert(m as int / u == x - 1 && m as int % u == u - y) by (nonlinear_arith)
                requires
                    m == x * u - y,
                    0 < y < u,
            ;
            assert(2 * (u - y) > u);
        }
        assert(rounded_quotient(m, u as nat) == x);
    }
}

fn sum_of(x: Number, xs: u64, xe: i64, y: Number, ys: u64, ye: i64) -> (r: Number)
    requires
        x.finite(),
        y.finite(),
        xs == x.significand(),
        xe == x.scale(),
        ys == y.significand(),
        ye == y.scale(),
        -1074 <= ye <= xe <= 971,
        xs < 0x0020_0000_0000_0000,
        ys < 0x0020_0000_0000_0000,
        xe > -1074 ==> xs >= LEADING,
    ensures
        !r.nan(),
        ({
            let m = x.signed_significand() * two_to((xe - ye) as nat) + y.signed_significand();
            r == if m == 0 {
                if x.bits >= SIGN && y.bits >= SIGN {
                    Number { bits: SIGN }
                } else {
                    Number { bits: 0 }
                }
            } else {
                Number::assembled(
                    m < 0,
                    nearest_scaled(
                        (if m < 0 {
                            -m
                        } else {
                            m
                        }) as nat,
                        ye as int,
                    ),
                )
            }
        }),
{
    let x_negative = x.bits >= SIGN;
    let y_negative = y.bits >= SIGN;
    let d: u64 = (xe - ye) as u64;
    let ghost u = two_to(d as nat) as int;
    let ghost a = xs as int;
    let ghost b = ys as int;
    proof {
        two_to_grows(0, d as nat);
        assert((-a) * u == -(a * u)) by (nonlinear_arith);
        assert(a * u >= 0) by (nonlinear_arith)
            requires
                a >= 0,
                u >= 1,
        ;
    }
    if d > 64 {
        proof {
            far_sum(xs as nat, ys as nat, d as nat);
            far_difference(xs as nat, ys as nat, d as nat);
            bit_length_zero();
            let l = LEADING as int;
            let dd = d as int;
            let e = ye as int;
            let small = (a * u - b) as nat;
            assert((1021 + (53 + dd)) * l + e * l == (xe + 1074) * l) by (nonlinear_arith)
                requires
                    xe == e + dd,
            ;
            let mag = x.magnitude();
            assert(mag == (xe + 1074) * l + xs) by (nonlinear_arith)
                requires
                    mag == x.exponent() * l + mag % l,
                    xs == l + mag % l,
                    xe == x.exponent() - 1075,
            ;
            nearest_bounds((xs * two_to(d as nat) + ys) as nat);
            bit_length_bounds(small);
            nearest_bounds(small);
            let k = bit_length(small) as int;
            assert(k + e > -1022) by (nonlinear_arith)
                requires
                    (1021 + (53 + dd)) * l + xs <= (1023 + k) * l,
                    xs >= l,
                    l > 0,
                    dd > 64,
                    e >= -1074,
            ;
        }
        return x;
    }
    proof {
        two_to_values();
        two_to_grows(d as nat, 64);
        assert(0 <= a * u <= 0x0020_0000_0000_0000 * 0x1_0000_0000_0000_0000) by (nonlinear_arith)
            requires
                0 <= a <= 0x0020_0000_0000_0000,
                0 <= u <= 0x1_0000_0000_0000_0000,
        ;
    }
    let large: u128 = (xs as u128) * wide_power(d);
    let small: u128 = ys as u128;
    if x_negative == y_negative {
        if large == 0 && small == 0 {
            if x_negative {
                Number { bits: SIGN }
            } else {
                Number { bits: 0 }
            }
        } else {
            Number::assemble(x_negative, round_scaled(large + small, ye))
        }
    } else if large > small {
        Number::assemble(x_negative, round_scaled(large - small, ye))
    } else if small > large {
        Number::assemble(y_negative, round_scaled(small - large, ye))
    } else {
        Number { bits: 0 }
    }
}

/// The power of two just not above the quotient of two positive integers.
pub open spec fn quotient_power(p: nat, q: nat) -> int {
    let k = bit_length(p) - bit_length(q);
    if k >= 0 {
        if p >= q * two_to(k as nat) {
            k
        } else {
            k - 1
        }
    } else {
        if p * two_to((-k) as nat) >= q {
            k
        } else {
            k - 1
        }
    }
}

/// The quotient of two integers times a power of two, rounded to nearest, ties to even.
pub open spec fn scaled_down(p: nat, q: nat, shift: int) -> nat {
    if shift >= 0 {
        rounded_quotient(p * two_to(shift as nat), q)
    } else {
        rounded_quotient(p, q * two_to((-shift) as nat))
    }
}

/// The bit pattern of the binary64 number nearest to the quotient of two positive integers
/// times two to the power of `e`, ties to even.
pub open spec fn nearest_ratio(p: nat, q: nat, e: int) -> int {
    let c = quotient_power(p, q);
    if c + e <= -1023 {
        scaled_down(p, q, e + 1074) as int
    } else {
        let bits = (c + e + 1022) * LEADING + scaled_down(p, q, 52 - c);
        if bits > INFINITE {
            INFINITE as int
        } else {
            bits
        }
    }
}

proof fn power_bounds(p: nat, q: nat)
    requires
        0 < p < 2 * LEADING,
        0 < q < 2 * LEADING,
    ensures
        -53 <= quotient_power(p, q) <= 52,
        ({
            let c = quotient_power(p, q);
            if c >= 0 {
                q * two_to(c as nat) <= p < 2 * (q * two_to(c as nat))
            } else {
                q <= p * two_to((-c) as nat) < 2 * q
            }
        }),
{
    two_to_values();
    bit_length_bounds(p);
    bit_length_bounds(q);
    let i = bit_length(p);
    let j = bit_length(q);
    if i > 53 {
        two_to_grows(53, (i - 1) as nat);
    }
    if j > 53 {
        two_to_grows(53, (j - 1) as nat);
    }
    let k = i - j;
    let pp = p as int;
    let qq = q as int;
    if k >= 0 {
        let u = two_to(k as nat) as int;
        two_to_grows(0, k as nat);
        two_to_sum(j, k as nat);
        two_to_sum((j - 1) as nat, k as nat);
        assert(two_to(i) == 2 * two_to((i - 1) as nat));
        assert(two_to(j) == 2 * two_to((j - 1) as nat));
        let h = two_to((j - 1) as nat) as int;
        // Both have the length of the quotient in common: twice the divisor is too much.
        assert(pp < 2 * (qq * u) && 2 * pp >= qq * u) by (nonlinear_arith)
            requires
                h * u <= pp < 2 * (h * u),
                h <= qq < 2 * h,
                u >= 1,
        ;
        if pp < qq * u {
            if k > 0 {
                let v = two_to((k - 1) as nat) as int;
                assert(u == 2 * v);
                assert(qq * u == 2 * (qq * v)) by (nonlinear_arith)
                    requires
                        u == 2 * v,
                ;
            } else {
                assert(two_to(1) == 2 * two_to(0));
                assert(u == 1);
                assert(pp * 2 < 2 * qq && pp * 2 >= qq) by (nonlinear_arith)
                    requires
                        pp < qq * u,
                        2 * pp >= qq * u,
                        u == 1,
                ;
            }
        }
    } else {
        let n = (-k) as nat;
        let u = two_to(n) as int;
        two_to_grows(0, n);
        two_to_sum(i, n);
        two_to_sum((i - 1) as nat, n);
        assert(two_to(j) == 2 * two_to((j - 1) as nat));
        assert(two_to(i) == 2 * two_to((i - 1) as nat));
        let h = two_to((i - 1) as nat) as int;
        assert(pp * u < 2 * qq && 2 * (pp * u) >= qq) by (nonlinear_arith)
            requires
                h <= pp < 2 * h,
                h * u <= qq < 2 * (h * u),
                u >= 1,
        ;
        if pp * u < qq {
            let v = two_to(n + 1) as int;
            assert(v == 2 * u);
            assert(pp * v == 2 * (pp * u)) by (nonlinear_arith)
                requires
                    v == 2 * u,
            ;
        }
    }
}

proof fn shifted_bounds(p: nat, q: nat, shift: nat, t: nat)
    requires
        0 < p < 2 * LEADING,
        0 < q < 2 * LEADING,
        shift + quotient_power(p, q) <= t,
    ensures
        p * two_to(shift) < 2 * (q * two_to(t)),
        shift + quotient_power(p, q) == t ==> p * two_to(shift) >= q * two_to(t),
{
    power_bounds(p, q);
    let c = quotient_power(p, q);
    let pp = p as int;
    let qq = q as int;
    two_to_grows(0, shift);
    two_to_grows(0, t);
    let s = two_to(shift) as int;
    let w = two_to(t) as int;
    if c >= 0 {
        let u = two_to(c as nat) as int;
        two_to_sum(c as nat, shift);
        two_to_grows((c + shift) as nat, t);
        assert(pp * s < 2 * (qq * w) && (u * s == w ==> pp * s >= qq * w)) by (nonlinear_arith)
            requires
                qq * u <= pp < 2 * (qq * u),
                u * s <= w,
                s >= 1,
                qq >= 1,
        ;
    } else {
        let n = (-c) as nat;
        let u = two_to(n) as int;
        if shift <= n {
            two_to_grows(shift, n);
            assert(pp * s < 2 * (qq * w)) by (nonlinear_arith)
                requires
                    pp * u < 2 * qq,
                    1 <= s <= u,
                    w >= 1,
                    pp >= 1,
                    qq >= 1,
            ;
            if shift + c == t {
                assert(s == u && w == 1);
                assert(pp * s >= qq * w) by (nonlinear_arith)
                    requires
                        pp * u >= qq,
                        s == u,
                        w == 1,
                ;
            }
        } else {
            let v = two_to((shift - n) as nat) as int;
            two_to_sum(n, (shift - n) as nat);
            two_to_grows((shift - n) as nat, t);
            assert(pp * s < 2 * (qq * w) && (v == w ==> pp * s >= qq * w)) by (nonlinear_arith)
                requires
                    qq <= pp * u < 2 * qq,
                    s == u * v,
                    1 <= v <= w,
                    qq >= 1,
            ;
        }
    }
}

fn power_of_quotient(p: u64, q: u64) -> (r: i64)
    requires
        0 < p < 0x0020_0000_0000_0000,
        0 < q < 0x0020_0000_0000_0000,
    ensures
        r == quotient_power(p as nat, q as nat),
        -53 <= r <= 52,
{
    let i: u64 = length(p as u128);
    let j: u64 = length(q as u128);
    proof {
        two_to_values();
        bit_length_bounds(p as nat);
        bit_length_bounds(q as nat);
        if i > 53 {
            two_to_grows(53, (i - 1) as nat);
        }
        if j > 53 {
            two_to_grows(53, (j - 1) as nat);
        }
        power_bounds(p as nat, q as nat);
    }
    if i >= j {
        let k: u64 = i - j;
        proof {
            two_to_grows(k as nat, 53);
            let a = q as int;
            let u = two_to(k as nat) as int;
            assert(0 <= a * u <= 0x0020_0000_0000_0000 * 0x0020_0000_0000_0000) by (nonlinear_arith)
                requires
                    0 <= a <= 0x0020_0000_0000_0000,
                    0 <= u <= 0x0020_0000_0000_0000,
            ;
        }
        if p as u128 >= q as u128 * wide_power(k) {
            k as i64
        } else {
            k as i64 - 1
        }
    } else {
        let k: u64 = j - i;
        proof {
            two_to_grows(k as nat, 53);
            let a = p as int;
            let u = two_to(k as nat) as int;
            assert(0 <= a * u <= 0x0020_0000_0000_0000 * 0x0020_0000_0000_0000) by (nonlinear_arith)
                requires
                    0 <= a <= 0x0020_0000_0000_0000,
                    0 <= u <= 0x0020_0000_0000_0000,
            ;
        }
        if p as u128 * wide_power(k) >= q as u128 {
            -(k as i64)
        } else {
            -(k as i64) - 1
        }
    }
}

/// Divides one integer, times a power of two, by another.
fn divide_shifted(p: u64, q: u64, shift: u64, Ghost(t): Ghost<nat>) -> (r: u64)
    requires
        0 < p < 0x0020_0000_0000_0000,
        0 < q < 0x0020_0000_0000_0000,
        shift <= 105,
        t <= 52,
        shift + quotient_power(p as nat, q as nat) <= t,
    ensures
        r == rounded_quotient(p as nat * two_to(shift as nat), q as nat),
        r <= 2 * two_to(t),
        shift + quotient_power(p as nat, q as nat) == t ==> r >= two_to(t),
{
    proof {
        two_to_values();
        shifted_bounds(p as nat, q as nat, shift as nat, t);
        two_to_grows(t, 52);
        two_to_grows(0, t);
        two_to_wide_values();
        let n = p * two_to(shift as nat) as int;
        let d = q as int;
        let w = two_to(t) as int;
        assert(n < 0x0020_0000_0000_0000 * 0x0020_0000_0000_0000) by (nonlinear_arith)
            requires
                n < 2 * (d * w),
                0 < d < 0x0020_0000_0000_0000,
                1 <= w <= 0x0010_0000_0000_0000,
        ;
        assert(n >= 0) by (nonlinear_arith)
            requires
                n == p * two_to(shift as nat),
        ;
        assert(n / d < 2 * w) by (nonlinear_arith)
            requires
                0 <= n < 2 * (d * w),
                d >= 1,
        ;
        if shift + quotient_power(p as nat, q as nat) == t {
            assert(n / d >= w) by (nonlinear_arith)
                requires
                    n >= d * w,
                    d >= 1,
            ;
        }
        two_to_grows(shift as nat, 127);
    }
    let m: u128 = (p as u128) * wide_power(shift);
    rounded(m, q as u128) as u64
}

fn round_ratio(p: u64, q: u64, e: i64) -> (r: u64)
    requires
        0 < p < 0x0020_0000_0000_0000,
        0 < q < 0x0020_0000_0000_0000,
        -2045 <= e <= 2045,
    ensures
        r == nearest_ratio(p as nat, q as nat, e as int),
        r <= INFINITE,
{
    let c: i64 = power_of_quotient(p, q);
    proof {
        two_to_values();
    }
    if c + e <= -1023 {
        let shift: i64 = e + 1074;
        if shift >= 0 {
            proof {
                two_to_grows(51, 52);
            }
            divide_shifted(p, q, shift as u64, Ghost(51))
        } else {
            let down: u64 = (-shift) as u64;
            proof {
                two_to_grows(0, down as nat);
            }
            if down >= 70 {
                proof {
                    let a = p as int;
                    let u = two_to(down as nat) as int;
                    let d = q * u;
                    two_to_grows(64, down as nat);
                    assert(d >= u) by (nonlinear_arith)
                        requires
                            d == q * u,
                            q >= 1,
                            u >= 1,
                    ;
                    assert(a / d == 0 && a % d == a) by (nonlinear_arith)
                        requires
                            0 <= a < d,
                    ;
                }
                0
            } else {
                proof {
                    two_to_grows(down as nat, 69);
                    assert(two_to(69) == 32 * two_to(64)) by {
                        reveal_with_fuel(two_to, 6);
                    }
                    let a = p as int;
                    let b = q as int;
                    let u = two_to(down as nat) as int;
                    assert(1 <= b * u <= 0x0020_0000_0000_0000 * (32 * 0x1_0000_0000_0000_0000)) by (nonlinear_arith)
                        requires
                            1 <= b <= 0x0020_0000_0000_0000,
                            1 <= u <= 32 * 0x1_0000_0000_0000_0000,
                    ;
                    let d = b * u;
                    assert(0 <= a / d <= a) by (nonlinear_arith)
                        requires
                            a >= 0,
                            d >= 1,
                    ;
                }
                rounded(p as u128, q as u128 * wide_power(down)) as u64
            }
        }
    } else {
        let shift: u64 = (52 - c) as u64;
        let q53: u64 = divide_shifted(p, q, shift, Ghost(52));
        let field: u64 = (c + e + 1022) as u64;
        proof {
            let f = field as int;
            let l = LEADING as int;
            assert(0 <= f * l <= 3119 * l) by (nonlinear_arith)
                requires
                    0 <= f <= 3119,
                    l > 0,
            ;
        }
        let bits: u64 = field * LEADING + q53;
        if bits > INFINITE {
            INFINITE
        } else {
            bits
        }
    }
}

impl Number {
    /// The quotient: exact, then rounded to nearest, ties to even.
    pub open spec fn ratio(self, other: Self) -> Number {
        let negative = (self.bits >= SIGN) != (other.bits >= SIGN);
        if self.nan() || other.nan() {
            Number { bits: NO_NUMBER }
        } else if !self.finite() {
            if !other.finite() {
                Number { bits: NO_NUMBER }
            } else {
                Number::assembled(negative, INFINITE as int)
            }
        } else if !other.finite() {
            Number::assembled(negative, 0)
        } else if other.magnitude() == 0 {
            if self.magnitude() == 0 {
                Number { bits: NO_NUMBER }
            } else {
                Number::assembled(negative, INFINITE as int)
            }
        } else if self.magnitude() == 0 {
            Number::assembled(negative, 0)
        } else {
            Number::assembled(
                negative,
                nearest_ratio(
                    self.significand() as nat,
                    other.significand() as nat,
                    self.scale() - other.scale(),
                ),
            )
        }
    }

    /// The quotient.
    pub fn over(self, other: Self) -> (r: Self)
        ensures
            r == self.ratio(other),
    {
        if self.is_nan() || other.is_nan() {
            return Number { bits: NO_NUMBER };
        }
        let negative = (self.bits >= SIGN) != (other.bits >= SIGN);
        let x = self.absolute();
        let y = other.absolute();
        if x.bits == INFINITE {
            if y.bits == INFINITE {
                return Number { bits: NO_NUMBER };
            }
            return Number::assemble(negative, INFINITE);
        }
        if y.bits == INFINITE {
            return Number::assemble(negative, 0);
        }
        if y.bits == 0 {
            if x.bits == 0 {
                return Number { bits: NO_NUMBER };
            }
            return Number::assemble(negative, INFINITE);
        }
        if x.bits == 0 {
            return Number::assemble(negative, 0);
        }
        let (xs, xe) = x.parts();
        let (ys, ye) = y.parts();
        proof {
            assert(x.significand() == self.significand() && x.scale() == self.scale());
            assert(y.significand() == other.significand() && y.scale() == other.scale());
        }
        Number::assemble(negative, round_ratio(xs, ys, xe - ye))
    }
}

/// Whether twice the root of an integer lies within one of `2 * r`.
pub open spec fn is_nearest_root(s: nat, r: nat) -> bool {
    &&& r > 0
    &&& (2 * r - 1) * (2 * r - 1) <= 4 * s
    &&& 4 * s < (2 * r + 1) * (2 * r + 1)
}

/// The integer nearest to the root of a positive integer.
pub open spec fn nearest_root(s: nat) -> nat {
    choose|r: nat| is_nearest_root(s, r)
}

/// There is only one integer nearest to a root.
pub proof fn law_nearest_root_is_unique(s: nat, one: nat, other: nat)
    requires
        is_nearest_root(s, one),
        is_nearest_root(s, other),
    ensures
        one == other,
{
    let a = one as int;
    let b = other as int;
    if a < b {
        assert((2 * a + 1) * (2 * a + 1) <= (2 * b - 1) * (2 * b - 1)) by (nonlinear_arith)
            requires
                0 <= 2 * a + 1 <= 2 * b - 1,
        ;
    }
    if b < a {
        assert((2 * b + 1) * (2 * b + 1) <= (2 * a - 1) * (2 * a - 1)) by (nonlinear_arith)
            requires
                0 <= 2 * b + 1 <= 2 * a - 1,
        ;
    }
}

fn root_of(s: u128) -> (r: u64)
    requires
        0x100_0000_0000_0000_0000_0000_0000 <= s < 0x400_0000_0000_0000_0000_0000_0000,
    ensures
        r == nearest_root(s as nat),
        LEADING <= r <= 2 * LEADING,
{
    let mut low: u128 = 0x0010_0000_0000_0000;
    let mut high: u128 = 0x0020_0000_0000_0000;
    while low + 1 < high
        invariant
            0x0010_0000_0000_0000 <= low < high <= 0x0020_0000_0000_0000,
            low * low <= s < high * high,
            s < 0x400_0000_0000_0000_0000_0000_0000,
        decreases high - low,
    {
        let middle: u128 = low + (high - low) / 2;
        proof {
            let m = middle as int;
            assert(0 <= m * m <= 0x0020_0000_0000_0000 * 0x0020_0000_0000_0000) by (nonlinear_arith)
                requires
                    0 <= m <= 0x0020_0000_0000_0000,
            ;
        }
        if middle * middle <= s {
            low = middle;
        } else {
            high = middle;
        }
    }
    let t: u64 = low as u64;
    proof {
        let m = t as int;
        assert(m + 1 == high);
        assert(0 <= m * m <= 0x0020_0000_0000_0000 * 0x0020_0000_0000_0000) by (nonlinear_arith)
            requires
                0 <= m <= 0x0020_0000_0000_0000,
        ;
    }
    let rest: u128 = s - low * low;
    let r: u64 = if rest > low {
        t + 1
    } else {
        t
    };
    proof {
        let m = t as int;
        let n = r as int;
        let x = s as int;
        if rest > low {
            assert((2 * n - 1) * (2 * n - 1) <= 4 * x && 4 * x < (2 * n + 1) * (2 * n + 1)) by (nonlinear_arith)
                requires
                    n == m + 1,
                    x - m * m >= m + 1,
                    x < (m + 1) * (m + 1),
                    m >= 0,
            ;
        } else {
            assert((2 * n - 1) * (2 * n - 1) <= 4 * x && 4 * x < (2 * n + 1) * (2 * n + 1)) by (nonlinear_arith)
                requires
                    n == m,
                    x - m * m <= m,
                    m * m <= x,
                    m >= 1,
            ;
        }
        assert(is_nearest_root(s as nat, r as nat));
        law_nearest_root_is_unique(s as nat, r as nat, nearest_root(s as nat));
    }
    r
}

/// How far a significand is shifted before its root is taken: to a length of 105 or 106
/// digits, and so that what remains of the power of two is even.
pub open spec fn root_shift(s: nat, e: int) -> int {
    let j = 105 - bit_length(s);
    if (e - j) % 2 == 0 {
        j
    } else {
        j + 1
    }
}

impl Number {
    /// The square root, rounded to nearest.
    pub open spec fn root(self) -> Number {
        if self.nan() {
            Number { bits: NO_NUMBER }
        } else if self.magnitude() == 0 {
            self
        } else if self.bits >= SIGN {
            Number { bits: NO_NUMBER }
        } else if !self.finite() {
            self
        } else {
            let s = self.significand() as nat;
            let j = root_shift(s, self.scale());
            let r = nearest_root(s * two_to(j as nat));
            Number { bits: (((self.scale() - j) / 2 + 1074) * LEADING + r) as u64 }
        }
    }

    /// The square root.
    pub fn square_root(self) -> (r: Self)
        ensures
            r == self.root(),
    {
        if self.is_nan() {
            return Number { bits: NO_NUMBER };
        }
        let x = self.absolute();
        if x.bits == 0 {
            return self;
        }
        if self.bits >= SIGN {
            return Number { bits: NO_NUMBER };
        }
        if x.bits == INFINITE {
            return self;
        }
        let (s, e) = x.parts();
        let k: u64 = length(s as u128);
        proof {
            two_to_values();
            bit_length_bounds(s as nat);
            if k > 53 {
                two_to_grows(53, (k - 1) as nat);
            }
        }
        let first: i64 = 105 - k as i64;
        let j: i64 = if (e - first + 2000) % 2 == 0 {
            first
        } else {
            first + 1
        };
        proof {
            assert(j == root_shift(s as nat, e as int));
            let u = two_to(j as nat) as int;
            let a = s as int;
            two_to_sum((k - 1) as nat, j as nat);
            two_to_sum(k as nat, j as nat);
            two_to_grows(104, (k - 1 + j) as nat);
            two_to_grows((k + j) as nat, 106);
            two_to_sum(52, 52);
            two_to_sum(53, 53);
            two_to_grows(0, j as nat);
            two_to_grows(j as nat, 127);
            two_to_wide_values();
            assert(0x100_0000_0000_0000_0000_0000_0000 <= a * u < 0x400_0000_0000_0000_0000_0000_0000) by (nonlinear_arith)
                requires
                    two_to((k - 1) as nat) <= a < two_to(k as nat),
                    two_to((k - 1) as nat) * u >= 0x100_0000_0000_0000_0000_0000_0000,
                    two_to(k as nat) * u <= 0x400_0000_0000_0000_0000_0000_0000,
                    u >= 1,
            ;
        }
        let r: u64 = root_of((s as u128) * wide_power(j as u64));
        let field: u64 = ((e - j + 2148) / 2) as u64;
        proof {
            let f = field as int;
            let l = LEADING as int;
            assert((e - j) % 2 == 0);
            assert(field == (e - j) / 2 + 1074);
            assert(0 <= f * l <= 1600 * l) by (nonlinear_arith)
                requires
                    0 <= f <= 1600,
                    l > 0,
            ;
        }
        Number { bits: field * LEADING + r }
    }

    /// The greater of two numbers; where one is not a number, the other.
    pub open spec fn greater(self, other: Self) -> Number {
        if self.nan() || self.below(other) {
            other
        } else {
            self
        }
    }

    /// The greater of two numbers.
    pub fn at_least(self, other: Self) -> (r: Self)
        ensures
            r == self.greater(other),
    {
        if self.is_nan() || self.lt(other) {
            other
        } else {
            self
        }
    }
}

impl Number {
    /// The lesser of two numbers; where one is not a number, the other.
    pub open spec fn lesser(self, other: Self) -> Number {
        if self.nan() || other.below(self) {
            other
        } else {
            self
        }
    }

    /// The lesser of two numbers.
    pub fn at_most(self, other: Self) -> (r: Self)
        ensures
            r == self.lesser(other),
    {
        if self.is_nan() || other.lt(self) {
            other
        } else {
            self
        }
    }

    /// The part that one count is of another.
    pub open spec fn part(a: nat, b: nat) -> Number {
        Number::nearest(a).ratio(Number::nearest(b))
    }

    /// The part that one count is of another.
    pub fn quotient(a: u64, b: u64) -> (r: Self)
        ensures
            r == Number::part(a as nat, b as nat),
            b > 0 ==> r.bits <= INFINITE,
    {
        let x = Number::from_nat(a);
        let y = Number::from_nat(b);
        let r = x.over(y);
        proof {
            if a > 0 && b > 0 {
                let (xs, xe) = (x.significand(), x.scale());
                ratio_in_range(xs as nat, y.significand() as nat, xe - y.scale());
            }
        }
        r
    }

    /// What is left of one.
    pub open spec fn rest(self) -> Number {
        (Number { bits: ONE }).sum(self.negated())
    }
}

proof fn ratio_in_range(p: nat, q: nat, e: int)
    requires
        LEADING <= p < 2 * LEADING,
        LEADING <= q < 2 * LEADING,
        -100 <= e <= 100,
    ensures
        -1 <= quotient_power(p, q) <= 0,
        LEADING <= scaled_down(p, q, 52 - quotient_power(p, q)) <= 2 * LEADING,
        0 <= nearest_ratio(p, q, e) <= INFINITE,
        quotient_power(p, q) + e < 0 ==> nearest_ratio(p, q, e) <= ONE,
{
    two_to_values();
    power_bounds(p, q);
    length_is(p, 53);
    length_is(q, 53);
    let c = quotient_power(p, q);
    let l = LEADING as int;
    shifted_bounds(p, q, (52 - c) as nat, 52);
    let n = (p * two_to((52 - c) as nat)) as int;
    let d = q as int;
    assert(l <= n / d < 2 * l) by (nonlinear_arith)
        requires
            n < 2 * (d * l),
            n >= d * l,
            d >= 1,
    ;
    let s = scaled_down(p, q, 52 - c) as int;
    assert(0 <= (c + e + 1022) * l + s) by (nonlinear_arith)
        requires
            c + e + 1022 >= 0,
            s >= 0,
            l > 0,
    ;
    if c + e < 0 {
        assert((c + e + 1022) * l + s <= 1023 * l) by (nonlinear_arith)
            requires
                c + e + 1022 <= 1021,
                s <= 2 * l,
                l > 0,
        ;
    }
}

/// A part of a whole is at most one.
pub proof fn law_parts_are_at_most_one(a: u64, b: u64)
    requires
        a <= b,
        b > 0,
    ensures
        Number::part(a as nat, b as nat).bits <= ONE,
{
    let y = Number::nearest(b as nat);
    whole_fields(b);
    if a == 0 {
        assert(Number::nearest(0).bits == 0);
    } else {
        let x = Number::nearest(a as nat);
        whole_fields(a);
        nearest_is_monotone(a as nat, b as nat);
        let p = x.significand();
        let q = y.significand();
        let e = x.scale() - y.scale();
        let xb = x.bits as int;
        let yb = y.bits as int;
        let l = LEADING as int;
        assert(xb / l <= yb / l && (xb / l == yb / l ==> xb % l <= yb % l)) by (nonlinear_arith)
            requires
                xb <= yb,
                l > 0,
        ;
        ratio_in_range(p as nat, q as nat, e);
        length_is_53(p as nat);
        length_is_53(q as nat);
        assert(two_to(0) == 1);
        assert(q * two_to(0) == q) by (nonlinear_arith)
            requires
                two_to(0) == 1,
        ;
        if quotient_power(p as nat, q as nat) + e >= 0 {
            assert(p == q && e == 0);
            same_over_same(p as nat);
        }
    }
}

pub proof fn length_is_53(s: nat)
    requires
        LEADING <= s < 2 * LEADING,
    ensures
        bit_length(s) == 53,
{
    two_to_values();
    length_is(s, 53);
}

proof fn same_over_same(s: nat)
    requires
        LEADING <= s < 2 * LEADING,
    ensures
        nearest_ratio(s, s, 0) == ONE,
{
    two_to_values();
    length_is_53(s);
    let l = LEADING as int;
    let n = s as int;
    assert(two_to(0) == 1);
    assert(n * two_to(0) == n) by (nonlinear_arith)
        requires
            two_to(0) == 1,
    ;
    assert(quotient_power(s, s) == 0);
    assert(n * two_to(52) / n == l && (n * two_to(52)) % n == 0) by (nonlinear_arith)
        requires
            two_to(52) == l,
            n > 0,
    ;
    assert(scaled_down(s, s, 52) == l);
}

pub proof fn whole_fields(n: u64)
    requires
        n > 0,
    ensures
        Number::nearest(n as nat).bits == nearest_bits(n as int),
        1023 <= Number::nearest(n as nat).exponent() <= 1087,
        Number::nearest(n as nat).bits < INFINITE,
{
    let l = LEADING as int;
    let k = bit_length(n as nat) as int;
    short_length(n as nat);
    bit_length_bounds(n as nat);
    nearest_bounds(n as nat);
    let b = nearest_bits(n as int);
    assert(1023 <= b / l <= 1087 && b < SIGN && b < INFINITE && b >= 0) by (nonlinear_arith)
        requires
            (1022 + k) * l <= b <= (1023 + k) * l,
            1 <= k <= 64,
            l == 0x0010_0000_0000_0000,
    ;
}

/// Zero added to a whole number from one on changes nothing, and such a number divided by
/// itself is one.
pub proof fn law_whole_numbers_keep_their_worth(n: u64)
    requires
        n > 0,
    ensures
        Number::nearest(n as nat).sum(Number { bits: 0 }) == Number::nearest(n as nat),
        Number::nearest(n as nat).ratio(Number::nearest(n as nat)) == (Number { bits: ONE }),
{
    let x = Number::nearest(n as nat);
    let l = LEADING as int;
    whole_fields(n);
    let b = x.bits as int;
    let s = x.significand();
    let zero = Number { bits: 0 };
    let d = (x.scale() + 1074) as nat;
    assert(zero.significand() == 0 && zero.scale() == -1074);
    assert(two_to(0) == 1);
    let u = two_to(d) as int;
    assert(0 * two_to(0) == 0) by (nonlinear_arith);
    far_sum(s as nat, 0, d);
    two_to_values();
    two_to_grows(64, d);
    assert(s * u > 0) by (nonlinear_arith)
        requires
            s > 0,
            u > 0,
    ;
    let e = -1074int;
    let dd = d as int;
    assert((1021 + (53 + dd)) * l + e * l + s == b) by (nonlinear_arith)
        requires
            b == (b / l) * l + b % l,
            s == l + b % l,
            dd == b / l - 1075 + 1074,
            e == -1074,
    ;
    same_over_same(s as nat);
}

/// The absolute value of a finite number, in units of the least positive number.
pub open spec fn grains(x: Number) -> nat {
    (x.significand() * two_to((x.scale() + 1074) as nat)) as nat
}

/// The bit pattern of the number nearest to so many units of the least positive number.
pub open spec fn nearest_grains(n: nat) -> int {
    if n < 2 * LEADING {
        n as int
    } else {
        nearest_bits(n as int) - 1074 * LEADING
    }
}

proof fn doubling_shifts(m: nat)
    requires
        m > 0,
    ensures
        nearest_bits((2 * m) as int) == nearest_bits(m as int) + LEADING,
{
    let k = bit_length(m);
    bit_length_bounds(m);
    assert(two_to(k + 1) == 2 * two_to(k));
    assert(two_to(k) == 2 * two_to((k - 1) as nat));
    length_is(2 * m, k + 1);
    let l = LEADING as int;
    assert((1021 + (k + 1)) * l == (1021 + k) * l + l) by (nonlinear_arith);
    if k < 53 {
        let r = (52 - k) as nat;
        assert(two_to((53 - k) as nat) == 2 * two_to(r));
        let u = two_to(r) as int;
        let mm = m as int;
        assert((2 * mm) * u == mm * (2 * u)) by (nonlinear_arith);
    } else if k == 53 {
        assert(two_to(0) == 1);
        assert(two_to(1) == 2 * two_to(0));
        assert((2 * m) / 2 == m && (2 * m) % 2 == 0);
        assert(m * two_to(0) == m) by (nonlinear_arith)
            requires
                two_to(0) == 1,
        ;
    } else {
        let d = two_to((k - 53) as nat) as int;
        two_to_grows(0, (k - 53) as nat);
        assert(two_to((k + 1 - 53) as nat) == 2 * d);
        let mm = m as int;
        assert((2 * mm) / (2 * d) == mm / d && (2 * mm) % (2 * d) == 2 * (mm % d)) by (nonlinear_arith)
            requires
                d >= 1,
        ;
    }
}

pub proof fn scaling_shifts(m: nat, t: nat)
    requires
        m > 0,
    ensures
        m * two_to(t) > 0,
        nearest_bits((m * two_to(t)) as int) == nearest_bits(m as int) + t * LEADING,
    decreases t,
{
    two_to_grows(0, t);
    assert(m * two_to(t) > 0) by (nonlinear_arith)
        requires
            m > 0,
            two_to(t) > 0,
    ;
    if t == 0 {
        assert(m * two_to(0) == m) by (nonlinear_arith)
            requires
                two_to(0) == 1,
        ;
    } else {
        let r = (t - 1) as nat;
        scaling_shifts(m, r);
        let u = two_to(r) as int;
        let mm = m as int;
        assert(mm * (2 * u) == 2 * (mm * u)) by (nonlinear_arith);
        doubling_shifts(m * two_to(r));
        let l = LEADING as int;
        assert(r * l + l == t * l) by (nonlinear_arith)
            requires
                t == r + 1,
        ;
    }
}

proof fn scaled_is_grains(m: nat, e: int)
    requires
        e >= -1074,
    ensures
        ({
            let g = nearest_grains(m * two_to((e + 1074) as nat));
            nearest_scaled(m, e) == if g > INFINITE {
                INFINITE as int
            } else {
                g
            }
        }),
{
    let t = (e + 1074) as nat;
    two_to_values();
    if m == 0 {
        assert(0 * two_to(t) == 0) by (nonlinear_arith);
    } else {
        let k = bit_length(m);
        bit_length_bounds(m);
        scaling_shifts(m, t);
        let n = m * two_to(t);
        two_to_sum(k, t);
        two_to_sum((k - 1) as nat, t);
        let a = two_to(k) as int;
        let b = two_to((k - 1) as nat) as int;
        let u = two_to(t) as int;
        let mm = m as int;
        two_to_grows(0, t);
        assert(b * u <= mm * u < a * u) by (nonlinear_arith)
            requires
                b <= mm < a,
                u >= 1,
        ;
        length_is(n, k + t);
        let l = LEADING as int;
        assert(t * l - e * l == 1074 * l) by (nonlinear_arith)
            requires
                t == e + 1074,
        ;
        if k + e <= -1022 {
            two_to_grows(k + t, 52);
        } else if k + t == 53 {
            assert(two_to(0) == 1);
            assert(n * two_to(0) == n) by (nonlinear_arith)
                requires
                    two_to(0) == 1,
            ;
        } else {
            two_to_grows(53, (k + t - 1) as nat);
        }
    }
}

proof fn grains_are_monotone(a: nat, b: nat)
    requires
        a <= b,
    ensures
        nearest_grains(a) <= nearest_grains(b),
{
    two_to_values();
    if b >= 2 * LEADING {
        if a < 2 * LEADING {
            let n = (2 * LEADING) as nat;
            nearest_is_monotone(n, b);
            assert(two_to(54) == 2 * two_to(53));
            length_is(n, 54);
            assert(two_to(1) == 2 * two_to(0));
            assert(n / 2 == LEADING && n % 2 == 0);
            assert(nearest_bits(n as int) == 1075 * LEADING + LEADING);
        } else {
            nearest_is_monotone(a, b);
        }
    }
}

pub proof fn grains_of_number(x: Number)
    requires
        x.bits < INFINITE,
    ensures
        nearest_grains(grains(x)) == x.bits,
{
    two_to_values();
    let s = x.significand() as nat;
    let e = x.scale();
    let l = LEADING as int;
    let b = x.bits as int;
    assert(two_to(0) == 1);
    if x.exponent() == 0 {
        assert(s * two_to(0) == s) by (nonlinear_arith)
            requires
                two_to(0) == 1,
        ;
        assert(b < l);
    } else {
        scaled_is_grains(s, e);
        length_is_53(s);
        assert(s * two_to(0) == s) by (nonlinear_arith)
            requires
                two_to(0) == 1,
        ;
        assert((1021 + 53) * l + s + e * l == b) by (nonlinear_arith)
            requires
                b == (b / l) * l + b % l,
                s == l + b % l,
                e == b / l - 1075,
        ;
        let g = nearest_grains(grains(x));
        assert(nearest_scaled(s, e) == b);
        assert(g == b);
    }
}

pub proof fn sum_in_grains(x: Number, y: Number)
    requires
        x.bits < INFINITE,
        y.bits < INFINITE,
    ensures
        ({
            let g = nearest_grains(grains(x) + grains(y));
            x.sum(y).bits == if g > INFINITE {
                INFINITE as int
            } else {
                g
            }
        }),
{
    let e = if x.scale() <= y.scale() {
        x.scale()
    } else {
        y.scale()
    };
    let a = two_to((x.scale() - e) as nat) as int;
    let b = two_to((y.scale() - e) as nat) as int;
    let u = two_to((e + 1074) as nat) as int;
    two_to_sum((x.scale() - e) as nat, (e + 1074) as nat);
    two_to_sum((y.scale() - e) as nat, (e + 1074) as nat);
    two_to_grows(0, (x.scale() - e) as nat);
    two_to_grows(0, (y.scale() - e) as nat);
    two_to_grows(0, (e + 1074) as nat);
    let p = x.significand();
    let q = y.significand();
    let m = p * a + q * b;
    assert(m >= 0 && m * u == p * (a * u) + q * (b * u) && p * (a * u) >= 0 && q * (b * u) >= 0) by (nonlinear_arith)
        requires
            m == p * a + q * b,
            p >= 0,
            q >= 0,
            a >= 1,
            b >= 1,
            u >= 1,
    ;
    scaled_is_grains(m as nat, e);
    if m == 0 {
        assert(0 * u == 0) by (nonlinear_arith);
    } else {
        grains_are_monotone(0, (m * u) as nat);
    }
}

/// A sum that is not above a number is not rounded to one above it.
pub proof fn law_sums_are_not_rounded_past(x: Number, y: Number, z: Number)
    requires
        x.bits < INFINITE,
        y.bits < INFINITE,
        z.bits < INFINITE,
        grains(x) + grains(y) <= grains(z),
    ensures
        x.sum(y).bits <= z.bits,
{
    sum_in_grains(x, y);
    grains_of_number(z);
    grains_are_monotone(grains(x) + grains(y), grains(z));
}

/// What is left of one lies between zero and one.
pub proof fn law_rests_are_at_most_one(x: Number)
    requires
        x.bits <= ONE,
    ensures
        x.rest().bits <= ONE,
{
    let one = Number { bits: ONE };
    let y = x.negated();
    assert(y.magnitude() == x.magnitude());
    assert(y.significand() == x.significand() && y.scale() == x.scale());
    assert(y.signed_significand() == -x.significand());
    let e = if one.scale() <= x.scale() {
        one.scale()
    } else {
        x.scale()
    };
    let a = two_to((one.scale() - e) as nat) as int;
    let b = two_to((x.scale() - e) as nat) as int;
    let u = two_to((e + 1074) as nat) as int;
    two_to_sum((one.scale() - e) as nat, (e + 1074) as nat);
    two_to_sum((x.scale() - e) as nat, (e + 1074) as nat);
    two_to_grows(0, (e + 1074) as nat);
    let p = one.significand();
    let q = x.significand();
    let m = p * a + (-q) * b;
    order_of_grains(x, one);
    assert(m * u == p * (a * u) - q * (b * u)) by (nonlinear_arith)
        requires
            m == p * a + (-q) * b,
    ;
    two_to_grows(0, (one.scale() - e) as nat);
    two_to_grows(0, (x.scale() - e) as nat);
    assert(p * (a * u) >= 0 && q * (b * u) >= 0) by (nonlinear_arith)
        requires
            p >= 0,
            q >= 0,
            a >= 1,
            b >= 1,
            u >= 1,
    ;
    assert(m >= 0) by (nonlinear_arith)
        requires
            m * u >= 0,
            u >= 1,
    ;
    scaled_is_grains(m as nat, e);
    grains_of_number(one);
    grains_are_monotone((m * u) as nat, grains(one));
    grains_are_monotone(0, (m * u) as nat);
}

/// Greater numbers are more units of the least positive number.
proof fn order_of_grains(x: Number, y: Number)
    requires
        x.bits <= y.bits < INFINITE,
    ensures
        grains(x) <= grains(y),
{
    let l = LEADING as int;
    let xb = x.bits as int;
    let yb = y.bits as int;
    let i = xb / l;
    let j = yb / l;
    assert(i <= j && (i == j ==> xb % l <= yb % l)) by (nonlinear_arith)
        requires
            xb <= yb,
            l > 0,
            i == xb / l,
            j == yb / l,
    ;
    let a = two_to((x.scale() + 1074) as nat) as int;
    let b = two_to((y.scale() + 1074) as nat) as int;
    let p = x.significand();
    let q = y.significand();
    two_to_grows(0, (x.scale() + 1074) as nat);
    two_to_grows(0, (y.scale() + 1074) as nat);
    if i == j {
        assert(p * a <= q * b && p * a >= 0) by (nonlinear_arith)
            requires
                0 <= p <= q,
                a == b,
                a >= 1,
        ;
    } else if i == 0 {
        assert(two_to(0) == 1);
        assert(p * a <= q * b && p * a >= 0) by (nonlinear_arith)
            requires
                0 <= p < l,
                a == 1,
                q >= l,
                b >= 1,
        ;
    } else {
        two_to_grows((x.scale() + 1075) as nat, (y.scale() + 1074) as nat);
        assert(two_to((x.scale() + 1075) as nat) == 2 * a);
        assert(p * a <= q * b && p * a >= 0) by (nonlinear_arith)
            requires
                0 <= p < 2 * l,
                q >= l,
                b >= 2 * a,
                a >= 1,
        ;
    }
}

/// Whole numbers that are not too great are exact.
pub proof fn grains_of_whole(n: u64)
    requires
        0 < n < 2 * LEADING,
    ensures
        grains(Number::nearest(n as nat)) == n * two_to(1074),
        bit_length(n as nat) <= 53,
        Number::nearest(n as nat).significand() == n * two_to((53 - bit_length(n as nat)) as nat),
        Number::nearest(n as nat).scale() == bit_length(n as nat) - 53,
        Number::nearest(n as nat).bits < INFINITE,
{
    let x = Number::nearest(n as nat);
    whole_fields(n);
    two_to_values();
    bit_length_bounds(n as nat);
    let k = bit_length(n as nat);
    if k > 53 {
        two_to_grows(53, (k - 1) as nat);
    }
    let r = (53 - k) as nat;
    let u = two_to(r) as int;
    let m = n as int;
    let l = LEADING as int;
    two_to_sum(k, r);
    two_to_sum((k - 1) as nat, r);
    two_to_grows(0, r);
    assert(l <= m * u < 2 * l) by (nonlinear_arith)
        requires
            two_to((k - 1) as nat) * u == l,
            two_to(k) * u == 2 * l,
            two_to((k - 1) as nat) <= m < two_to(k),
            u >= 1,
    ;
    let b = nearest_bits(m);
    let s = m * u;
    assert(b == (1021 + k) * l + s);
    assert(b / l == 1022 + k && b % l == s - l) by (nonlinear_arith)
        requires
            b == (1021 + k) * l + s,
            l <= s < 2 * l,
    ;
    assert(x.significand() == s);
    assert(x.scale() + 1074 == 1021 + k);
    two_to_sum(r, (1021 + k) as nat);
    let v = two_to((1021 + k) as nat) as int;
    assert((m * u) * v == m * (u * v)) by (nonlinear_arith);
}

/// A number over one that is not smaller and at least one is at most one.
pub proof fn law_quotients_of_ordered_numbers(x: Number, n: u64)
    requires
        n > 0,
        x.bits <= Number::nearest(n as nat).bits,
    ensures
        x.ratio(Number::nearest(n as nat)).bits <= ONE,
{
    let y = Number::nearest(n as nat);
    whole_fields(n);
    if x.bits > 0 {
        let p = x.significand() as nat;
        let q = y.significand() as nat;
        let e = x.scale() - y.scale();
        two_to_values();
        power_bounds(p, q);
        let c = quotient_power(p, q);
        order_of_grains(x, y);
        // The power of two just not above the quotient is not above one.
        let i = (x.scale() + 1074) as nat;
        let j = (y.scale() + 1074) as nat;
        let a = two_to(i) as int;
        let b = two_to(j) as int;
        two_to_grows(0, i);
        two_to_grows(0, j);
        let pp = p as int;
        let qq = q as int;
        let l = LEADING as int;
        assert(pp * a <= qq * b);
        if c + e > 0 {
            if c >= 0 {
                let u = two_to(c as nat) as int;
                two_to_sum(c as nat, i);
                two_to_grows(j + 1, c as nat + i);
                assert(two_to(j + 1) == 2 * b);
                assert(false) by (nonlinear_arith)
                    requires
                        qq * u <= pp,
                        pp * a <= qq * b,
                        u * a >= 2 * b,
                        qq >= 1,
                        a >= 1,
                        b >= 1,
                ;
            } else {
                let d = (-c) as nat;
                let u = two_to(d) as int;
                two_to_sum(d, j);
                two_to_grows(j + d + 1, i);
                assert(two_to(j + d + 1) == 2 * two_to(d + j));
                two_to_grows(0, d);
                assert(false) by (nonlinear_arith)
                    requires
                        qq <= pp * u,
                        pp * a <= qq * b,
                        a >= 2 * (u * b),
                        pp >= 1,
                        u >= 1,
                        b >= 1,
                ;
            }
        }
        if c + e <= -1023 {
            small_ratio(p, q, e);
        } else {
            shifted_bounds(p, q, (52 - c) as nat, 52);
            let m = (p * two_to((52 - c) as nat)) as int;
            assert(m >= 0);
            assert(l <= m / qq < 2 * l) by (nonlinear_arith)
                requires
                    m < 2 * (qq * l),
                    m >= qq * l,
                    qq >= 1,
            ;
            let s = scaled_down(p, q, 52 - c) as int;
            if c + e == 0 {
                // The quotient is one.
                exact_one(p, q, c, i, j);
                assert(s == l);
                assert((c + e + 1022) * l + s == 1023 * l) by (nonlinear_arith)
                    requires
                        c + e == 0,
                        s == l,
                ;
            } else {
                assert(0 <= (c + e + 1022) * l + s <= 1023 * l) by (nonlinear_arith)
                    requires
                        0 <= c + e + 1022 <= 1021,
                        0 <= s <= 2 * l,
                        l > 0,
                ;
            }
        }
    }
}

proof fn small_ratio(p: nat, q: nat, e: int)
    requires
        0 < p < 2 * LEADING,
        0 < q < 2 * LEADING,
        quotient_power(p, q) + e <= -1023,
    ensures
        scaled_down(p, q, e + 1074) <= 2 * LEADING,
{
    two_to_values();
    power_bounds(p, q);
    let shift = e + 1074;
    let pp = p as int;
    let qq = q as int;
    if shift >= 0 {
        shifted_bounds(p, q, shift as nat, 51);
        two_to_grows(51, 52);
        let n = (p * two_to(shift as nat)) as int;
        let w = two_to(51) as int;
        two_to_grows(0, shift as nat);
        assert(n >= 0) by (nonlinear_arith)
            requires
                n == p * two_to(shift as nat),
        ;
        assert(n / qq < 2 * w) by (nonlinear_arith)
            requires
                n < 2 * (qq * w),
                n >= 0,
                qq >= 1,
        ;
    } else {
        let u = two_to((-shift) as nat) as int;
        two_to_grows(0, (-shift) as nat);
        let d = qq * u;
        assert(d >= 1) by (nonlinear_arith)
            requires
                d == qq * u,
                qq >= 1,
                u >= 1,
        ;
        assert(0 <= pp / d <= pp) by (nonlinear_arith)
            requires
                pp >= 0,
                d >= 1,
        ;
    }
}

proof fn exact_one(p: nat, q: nat, c: int, i: nat, j: nat)
    requires
        0 < p < 2 * LEADING,
        0 < q < 2 * LEADING,
        c == quotient_power(p, q),
        c + i == j,
        p * two_to(i) <= q * two_to(j),
    ensures
        scaled_down(p, q, 52 - c) == LEADING,
{
    two_to_values();
    power_bounds(p, q);
    let pp = p as int;
    let qq = q as int;
    let l = LEADING as int;
    let a = two_to(i) as int;
    let b = two_to(j) as int;
    two_to_grows(0, i);
    two_to_grows(0, j);
    let s = two_to((52 - c) as nat) as int;
    if c >= 0 {
        let u = two_to(c as nat) as int;
        two_to_sum(c as nat, i);
        assert(pp == qq * u) by (nonlinear_arith)
            requires
                qq * u <= pp,
                pp * a <= qq * b,
                b == u * a,
                a >= 1,
        ;
        two_to_sum(c as nat, (52 - c) as nat);
        assert(pp * s == qq * l) by (nonlinear_arith)
            requires
                pp == qq * u,
                u * s == l,
        ;
    } else {
        let d = (-c) as nat;
        let u = two_to(d) as int;
        two_to_sum(d, j);
        assert(pp * u == qq) by (nonlinear_arith)
            requires
                qq <= pp * u,
                pp * a <= qq * b,
                a == u * b,
                b >= 1,
        ;
        two_to_sum(d, 52);
        assert(pp * s == qq * l) by (nonlinear_arith)
            requires
                pp * u == qq,
                s == u * l,
        ;
    }
    assert((qq * l) / qq == l && (qq * l) % qq == 0) by (nonlinear_arith)
        requires
            qq >= 1,
    ;
}

proof fn bounded_grains(x: Number, a: u64)
    requires
        x.bits <= Number::nearest(a as nat).bits,
        a < 2 * LEADING,
    ensures
        x.bits < INFINITE,
        grains(x) <= a * two_to(1074),
        grains(Number::nearest(a as nat)) == a * two_to(1074),
        Number::nearest(a as nat).bits < INFINITE,
{
    let y = Number::nearest(a as nat);
    if a > 0 {
        whole_fields(a);
        grains_of_whole(a);
    } else {
        assert(y.bits == 0);
        assert(two_to(0) == 1);
        assert(0 * two_to(0) == 0) by (nonlinear_arith);
        assert(0 * two_to(1074) == 0) by (nonlinear_arith);
    }
    order_of_grains(x, y);
}

/// Numbers that are at most so great add up to one that is at most as great as the bounds
/// together, as long as these are exact.
pub proof fn law_sums_keep_bounds(x: Number, y: Number, a: u64, b: u64)
    requires
        x.bits <= Number::nearest(a as nat).bits,
        y.bits <= Number::nearest(b as nat).bits,
        a + b < 2 * LEADING,
    ensures
        x.sum(y).bits <= Number::nearest((a + b) as nat).bits,
{
    let c = (a + b) as u64;
    let z = Number::nearest(c as nat);
    bounded_grains(x, a);
    bounded_grains(y, b);
    bounded_grains(z, c);
    let u = two_to(1074) as int;
    assert(a * u + b * u == c * u) by (nonlinear_arith)
        requires
            c == a + b,
    ;
    law_sums_are_not_rounded_past(x, y, z);
}

/// A quotient of numbers that are not negative, by one that is positive, is not negative and
/// is a number.
pub proof fn law_quotients_keep_the_sign(x: Number, y: Number)
    requires
        x.bits < INFINITE,
        0 < y.bits <= INFINITE,
    ensures
        x.ratio(y).bits <= INFINITE,
{
    if x.bits > 0 && y.bits < INFINITE {
        let c = quotient_power(x.significand() as nat, y.significand() as nat);
        let e = x.scale() - y.scale();
        let l = LEADING as int;
        let s = scaled_down(x.significand() as nat, y.significand() as nat, 52 - c) as int;
        if c + e > -1023 {
            assert((c + e + 1022) * l + s >= 0) by (nonlinear_arith)
                requires
                    c + e + 1022 >= 0,
                    s >= 0,
                    l > 0,
            ;
        } else {
            two_to_values();
            small_ratio(x.significand() as nat, y.significand() as nat, e);
        }
    }
}

/// The number nearest to one is one.
pub proof fn law_one_is_one()
    ensures
        Number::nearest(1).bits == ONE,
{
    two_to_values();
    assert(two_to(1) == 2 * two_to(0));
    length_is(1, 1);
    assert(1 * two_to(52) == LEADING) by (nonlinear_arith)
        requires
            two_to(52) == LEADING,
    ;
}

/// A part of some count is a finite number.
pub proof fn law_parts_are_finite(a: u64, b: u64)
    requires
        b > 0,
    ensures
        Number::part(a as nat, b as nat).bits < INFINITE,
{
    whole_fields(b);
    if a == 0 {
        assert(Number::nearest(0).bits == 0);
    } else {
        whole_fields(a);
        let x = Number::nearest(a as nat);
        let y = Number::nearest(b as nat);
        let p = x.significand() as nat;
        let q = y.significand() as nat;
        let e = x.scale() - y.scale();
        ratio_in_range(p, q, e);
        let c = quotient_power(p, q);
        let s = scaled_down(p, q, 52 - c) as int;
        let l = LEADING as int;
        assert((c + e + 1022) * l + s < INFINITE) by (nonlinear_arith)
            requires
                c + e + 1022 <= 1100,
                s <= 2 * l,
                l == 0x0010_0000_0000_0000,
        ;
    }
}

} // verus!
