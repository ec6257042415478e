//! Laws of numbers: how results are rounded, and that whole numbers are reckoned exactly.

use crate::arithmetic::{
    grains, grains_of_number, grains_of_whole, is_nearest_root, length_is, nearest_root, nearest_scaled, quotient_power,
    root_shift, scaled_down, scaling_shifts, sum_in_grains,
};
use crate::decimals::{fixed_text, last_digits, pointed, ten_to};
use crate::number::{
    bit_length, bit_length_bounds, nearest_bits, nearest_bounds, rounded_quotient, two_to, two_to_grows, two_to_sum,
    Number, INFINITE, LEADING, SIGN,
};
use crate::text::decimal_text;
use vstd::prelude::*;

verus! {

/// A rounded quotient is off by at most one half, and where it is off by just one half it is even.
pub proof fn law_quotients_are_rounded_to_nearest(m: nat, d: nat)
    requires
        d > 0,
    ensures
        2 * (m - rounded_quotient(m, d) * d) <= d,
        2 * (rounded_quotient(m, d) * d - m) <= d,
        2 * (m - rounded_quotient(m, d) * d) == d || 2 * (rounded_quotient(m, d) * d - m) == d ==> rounded_quotient(m, d)
            % 2 == 0,
{
    let q = (m / d) as int;
    let r = (m % d) as int;
    let dd = d as int;
    vstd::arithmetic::div_mod::lemma_fundamental_div_mod(m as int, dd);
    assert((q + 1) * dd == q * dd + dd) by (nonlinear_arith);
    assert(dd * q == q * dd) by (nonlinear_arith);
    if 2 * r > dd || (2 * r == dd && q % 2 == 1) {
        assert(rounded_quotient(m, d) == q + 1);
    } else {
        assert(rounded_quotient(m, d) == q);
    }
}

proof fn nothing_weighs_nothing()
    ensures
        Number::nearest(0).bits == 0,
        grains(Number { bits: 0 }) == 0,
{
    let zero = Number { bits: 0 };
    assert(zero.exponent() == 0);
    assert(zero.significand() == 0);
    assert(0 * two_to((zero.scale() + 1074) as nat) == 0) by (nonlinear_arith);
}

proof fn weight_of_whole(n: u64)
    requires
        n < 2 * LEADING,
    ensures
        grains(Number::nearest(n as nat)) == n * two_to(1074),
        Number::nearest(n as nat).bits < INFINITE,
{
    if n == 0 {
        nothing_weighs_nothing();
        assert(n * two_to(1074) == 0) by (nonlinear_arith)
            requires
                n == 0,
        ;
    } else {
        grains_of_whole(n);
    }
}

/// Whole numbers are added exactly, as long as the sum has at most 53 binary digits.
pub proof fn law_whole_numbers_add_up(a: u64, b: u64)
    requires
        a + b < 2 * LEADING,
    ensures
        Number::nearest(a as nat).sum(Number::nearest(b as nat)) == Number::nearest((a + b) as nat),
{
    let x = Number::nearest(a as nat);
    let y = Number::nearest(b as nat);
    let c = (a + b) as u64;
    let z = Number::nearest(c as nat);
    weight_of_whole(a);
    weight_of_whole(b);
    weight_of_whole(c);
    let u = two_to(1074) as int;
    assert(a * u + b * u == c * u) by (nonlinear_arith)
        requires
            c == a + b,
    ;
    assert(grains(x) + grains(y) == grains(z));
    sum_in_grains(x, y);
    grains_of_number(z);
}

/// Whole numbers are multiplied exactly and rounded once: the product is the number nearest to
/// what the whole numbers give.
pub proof fn law_whole_numbers_are_multiplied(a: u64, b: u64)
    requires
        0 < a < 2 * LEADING,
        0 < b < 2 * LEADING,
        a * b <= u64::MAX,
    ensures
        Number::nearest(a as nat).product(Number::nearest(b as nat)) == Number::nearest((a * b) as nat),
{
    let x = Number::nearest(a as nat);
    let y = Number::nearest(b as nat);
    grains_of_whole(a);
    grains_of_whole(b);
    let i = (53 - bit_length(a as nat)) as nat;
    let j = (53 - bit_length(b as nat)) as nat;
    bit_length_bounds(a as nat);
    bit_length_bounds(b as nat);
    two_to_sum(i, j);
    let u = two_to(i) as int;
    let v = two_to(j) as int;
    let aa = a as int;
    let bb = b as int;
    assert(aa * bb > 0) by (nonlinear_arith)
        requires
            aa > 0,
            bb > 0,
    ;
    let m = (a * b) as nat;
    assert((aa * u) * (bb * v) == (aa * bb) * (u * v)) by (nonlinear_arith);
    assert(x.significand() * y.significand() == m * two_to(i + j));
    scaling_shifts(m, i + j);
    let s = (m * two_to(i + j)) as nat;
    let e = x.scale() + y.scale();
    assert(e == -(i + j));
    let l = LEADING as int;
    assert(nearest_bits(s as int) + e * l == nearest_bits(m as int)) by (nonlinear_arith)
        requires
            nearest_bits(s as int) == nearest_bits(m as int) + (i + j) * l,
            e == -(i + j),
    ;
    bit_length_bounds(s);
    nearest_bounds(s);
    crate::arithmetic::whole_fields(m as u64);
    assert(bit_length(s) + e > -1022);
    assert(nearest_scaled(s, e) == nearest_bits(m as int));
    assert(x.bits < SIGN && y.bits < SIGN);
}

proof fn fits(n: u64)
    requires
        0 < n < 2 * LEADING,
    ensures
        1 <= bit_length(n as nat) <= 53,
        LEADING <= n * two_to((53 - bit_length(n as nat)) as nat) < 2 * LEADING,
        nearest_bits(n as int) == (1021 + bit_length(n as nat)) * LEADING + n * two_to(
            (53 - bit_length(n as nat)) as nat,
        ),
{
    grains_of_whole(n);
    bit_length_bounds(n as nat);
    let k = bit_length(n as nat);
    let t = (53 - k) as nat;
    crate::number::two_to_values();
    two_to_sum(k, t);
    two_to_sum((k - 1) as nat, t);
    two_to_grows(0, t);
    let u = two_to(t) as int;
    let m = n as int;
    assert(LEADING <= m * u < 2 * LEADING) by (nonlinear_arith)
        requires
            two_to((k - 1) as nat) * u == LEADING,
            two_to(k) * u == 2 * LEADING,
            two_to((k - 1) as nat) <= m < two_to(k),
            u >= 1,
    ;
}

/// The length of a number that lies between two powers of two, after the powers that it shares
/// with them are taken off.
proof fn length_between(a: nat, i: nat, j: nat)
    requires
        a > 0,
        two_to(j) <= a * two_to(i) < two_to(j + 1),
    ensures
        i <= j,
        bit_length(a) == j - i + 1,
{
    two_to_grows(0, i);
    let u = two_to(i) as int;
    let aa = a as int;
    if i > j {
        two_to_grows(j + 1, i);
        assert(aa * u >= u) by (nonlinear_arith)
            requires
                aa >= 1,
                u >= 1,
        ;
    } else {
        let d = (j - i) as nat;
        two_to_sum(d, i);
        two_to_sum(d + 1, i);
        let v = two_to(d) as int;
        let w = two_to(d + 1) as int;
        assert(v <= aa < w) by (nonlinear_arith)
            requires
                v * u <= aa * u,
                aa * u < w * u,
                u >= 1,
        ;
        length_is(a, d + 1);
    }
}

/// A product of whole numbers divided by one of them is the other.
pub proof fn law_whole_numbers_are_divided(a: u64, b: u64)
    requires
        0 < a,
        0 < b,
        a * b < 2 * LEADING,
    ensures
        Number::nearest((a * b) as nat).ratio(Number::nearest(b as nat)) == Number::nearest(a as nat),
{
    let aa = a as int;
    let bb = b as int;
    assert(aa * bb >= aa && aa * bb >= bb && aa * bb > 0) by (nonlinear_arith)
        requires
            aa > 0,
            bb > 0,
    ;
    let n = (a * b) as u64;
    let x = Number::nearest(n as nat);
    let y = Number::nearest(b as nat);
    grains_of_whole(n);
    grains_of_whole(b);
    grains_of_whole(a);
    fits(n);
    fits(b);
    fits(a);
    let k = bit_length(a as nat);
    let i = (53 - bit_length(n as nat)) as nat;
    let j = (53 - bit_length(b as nat)) as nat;
    let t = (53 - k) as nat;
    let p = x.significand() as nat;
    let q = y.significand() as nat;
    let e = x.scale() - y.scale();
    let c = quotient_power(p, q);
    let u = two_to(i) as int;
    let v = two_to(j) as int;
    two_to_grows(0, i);
    two_to_grows(0, j);
    crate::arithmetic::length_is_53(p);
    crate::arithmetic::length_is_53(q);
    assert(two_to(0) == 1);
    assert(two_to(j + 1) == 2 * two_to(j));
    assert(two_to(i + 1) == 2 * two_to(i));
    assert(p == (aa * bb) * u);
    assert(q == bb * v);
    assert((aa * bb) * u == bb * (aa * u)) by (nonlinear_arith);
    assert(q * 1 == q) by (nonlinear_arith);
    if p >= q {
        assert(c == 0);
        assert(v <= aa * u < 2 * v) by (nonlinear_arith)
            requires
                bb * v <= bb * (aa * u),
                bb * (aa * u) < 2 * (bb * v),
                bb >= 1,
        ;
        length_between(a as nat, i, j);
    } else {
        assert(c == -1);
        assert(v <= 2 * (aa * u) < 2 * v) by (nonlinear_arith)
            requires
                bb * (aa * u) < bb * v,
                bb * v <= 2 * (bb * (aa * u)),
                bb >= 1,
        ;
        assert(aa * (2 * u) == 2 * (aa * u)) by (nonlinear_arith);
        length_between(a as nat, i + 1, j);
    }
    assert(c + e == k - 1);
    let shift = (52 - c) as nat;
    assert(shift + i == t + j);
    two_to_sum(shift, i);
    two_to_sum(t, j);
    let w = two_to(shift) as int;
    let z = two_to(t) as int;
    let s = aa * z;
    assert(((aa * bb) * u) * w == (bb * v) * (aa * z)) by (nonlinear_arith)
        requires
            w * u == z * v,
    ;
    assert(p * w == q * s);
    vstd::arithmetic::div_mod::lemma_div_multiples_vanish(s, q as int);
    vstd::arithmetic::div_mod::lemma_mod_multiples_basic(s, q as int);
    assert(s * q == q * s) by (nonlinear_arith);
    assert(rounded_quotient((p * w) as nat, q) == s);
    assert(scaled_down(p, q, 52 - c) == s);
    let l = LEADING as int;
    assert((c + e + 1022) * l == (1021 + k) * l);
    crate::arithmetic::whole_fields(a);
    assert(x.magnitude() > 0 && y.magnitude() > 0);
    assert(x.bits < SIGN && y.bits < SIGN);
}

/// The root of a square is the number that was squared.
pub proof fn law_roots_undo_squares(n: u64)
    requires
        0 < n,
        n * n < 2 * LEADING,
    ensures
        Number::nearest((n * n) as nat).root() == Number::nearest(n as nat),
{
    let m = n as int;
    assert(m * m >= m && m * m > 0) by (nonlinear_arith)
        requires
            m > 0,
    ;
    let sq = (n * n) as u64;
    let x = Number::nearest(sq as nat);
    grains_of_whole(sq);
    grains_of_whole(n);
    fits(sq);
    fits(n);
    let i = (53 - bit_length(sq as nat)) as nat;
    let s = x.significand() as nat;
    crate::arithmetic::length_is_53(s);
    let j = root_shift(s, x.scale());
    assert(j == 52 || j == 53);
    assert((x.scale() - j) % 2 == 0);
    let h = ((i + j) / 2) as nat;
    assert(2 * h == i + j);
    two_to_sum(i, j as nat);
    two_to_sum(h, h);
    let v = two_to(h) as int;
    let u = two_to(i) as int;
    let w = two_to(j as nat) as int;
    let r = (m * v) as nat;
    let big = (s * two_to(j as nat)) as nat;
    assert(((m * m) * u) * w == (m * v) * (m * v)) by (nonlinear_arith)
        requires
            u * w == v * v,
    ;
    assert(big == r * r);
    two_to_grows(0, h);
    assert(m * v >= 1) by (nonlinear_arith)
        requires
            m >= 1,
            v >= 1,
    ;
    let rr = r as int;
    assert((2 * rr - 1) * (2 * rr - 1) <= 4 * (rr * rr) < (2 * rr + 1) * (2 * rr + 1)) by (nonlinear_arith)
        requires
            rr >= 1,
    ;
    assert(is_nearest_root(big, r));
    crate::arithmetic::law_nearest_root_is_unique(big, r, nearest_root(big));
    crate::number::two_to_values();
    two_to_sum(52, j as nat);
    two_to_sum(53, j as nat);
    let l = LEADING as int;
    let ss = s as int;
    assert(l * w <= ss * w < 2 * l * w) by (nonlinear_arith)
        requires
            l <= ss < 2 * l,
            w >= 1,
    ;
    two_to_sum(52, 52);
    two_to_sum(53, 53);
    assert(two_to(53) == 2 * l);
    assert(rr < 2 * l) by (nonlinear_arith)
        requires
            rr * rr < 4 * l * l,
            l > 0,
            rr >= 0,
    ;
    assert(rr >= l) by (nonlinear_arith)
        requires
            rr * rr >= l * l,
            l > 0,
            rr >= 0,
    ;
    two_to_sum(52, 0);
    length_between(n as nat, h, 52);
    assert(h == 53 - bit_length(n as nat));
    crate::arithmetic::whole_fields(n);
    assert(x.bits < SIGN);
    assert(x.magnitude() > 0);
}

/// The order of two numbers makes no difference to their sum or their product.
pub proof fn law_the_order_makes_no_difference(x: Number, y: Number)
    ensures
        x.sum(y) == y.sum(x),
        x.product(y) == y.product(x),
        x.negated().negated() == x,
{
    let a = x.significand();
    let b = y.significand();
    assert(a * b == b * a) by (nonlinear_arith);
}

/// The greater of two numbers is one of them and below neither; the lesser is one of them and
/// above neither.
pub proof fn law_the_greater_and_the_lesser(x: Number, y: Number)
    ensures
        x.greater(y) == x || x.greater(y) == y,
        x.lesser(y) == x || x.lesser(y) == y,
        !x.nan() && !y.nan() ==> !x.greater(y).below(x) && !x.greater(y).below(y) && !x.below(x.lesser(y)) && !y.below(
            x.lesser(y),
        ),
        x.nan() ==> x.greater(y) == y && x.lesser(y) == y,
        y.nan() && !x.nan() ==> x.greater(y) == x && x.lesser(y) == x,
{
}

/// Cutting off what stands behind the point leaves a whole number as it is, and so does writing
/// it out: its digits stand in front of the point, and only zeros behind it.
pub proof fn law_whole_numbers_are_written_out(n: u64, places: nat)
    requires
        0 < n < 2 * LEADING,
    ensures
        Number::nearest(n as nat).truncated() == n,
        Number::nearest(n as nat).in_units(places) == n * ten_to(places),
        fixed_text(Number::nearest(n as nat), places) == pointed((n * ten_to(places)) as nat, places),
        fixed_text(Number::nearest(n as nat), 0) == decimal_text(n as nat),
    decreases places,
{
    let x = Number::nearest(n as nat);
    grains_of_whole(n);
    bit_length_bounds(n as nat);
    let t = (53 - bit_length(n as nat)) as nat;
    let u = two_to(t) as int;
    two_to_grows(0, t);
    let m = n as int;
    let p = ten_to(places) as int;
    vstd::arithmetic::div_mod::lemma_div_multiples_vanish(m, u);
    vstd::arithmetic::div_mod::lemma_mod_multiples_basic(m, u);
    assert(m * u == u * m) by (nonlinear_arith);
    assert((m * u) * p == (m * p) * u) by (nonlinear_arith);
    assert(m * p >= 0) by (nonlinear_arith)
        requires
            m >= 0,
            p >= 0,
    ;
    vstd::arithmetic::div_mod::lemma_div_multiples_vanish(m * p, u);
    vstd::arithmetic::div_mod::lemma_mod_multiples_basic(m * p, u);
    assert((m * p) * u == u * (m * p)) by (nonlinear_arith);
    let s = (x.significand() * ten_to(places)) as nat;
    assert(s == (m * p) * u);
    assert(rounded_quotient(s, two_to(t)) == m * p);
    assert(two_to(0) == 1);
    if x.scale() >= 0 {
        assert(t == 0);
        assert(u == 1);
        assert(s * 1 == m * p) by (nonlinear_arith)
            requires
                s == (m * p) * u,
                u == 1,
        ;
        assert(m * u * 1 == m) by (nonlinear_arith)
            requires
                u == 1,
        ;
    }
    assert(x.bits < SIGN);
    assert(ten_to(0) == 1);
    if places != 0 {
        law_whole_numbers_are_written_out(n, 0);
    } else {
        assert(m * 1 == m);
    }
}

/// So many digits stand behind the point as there are places.
pub proof fn law_there_are_as_many_digits_as_places(n: nat, places: nat)
    ensures
        last_digits(n, places).len() == places,
        places > 0 ==> pointed(n, places).len() == decimal_text(n / ten_to(places)).len() + 1 + places,
    decreases places,
{
    if places > 0 {
        law_there_are_as_many_digits_as_places(n / 10, (places - 1) as nat);
        reveal_strlit(".");
    }
}

/// Whole numbers are subtracted exactly.
pub proof fn law_whole_numbers_are_subtracted(a: u64, b: u64)
    requires
        0 < b < a < 2 * LEADING,
    ensures
        Number::nearest(a as nat).sum(Number::nearest(b as nat).negated()) == Number::nearest((a - b) as nat),
{
    let x = Number::nearest(a as nat);
    let z = Number::nearest(b as nat);
    let y = z.negated();
    grains_of_whole(a);
    grains_of_whole(b);
    fits(a);
    fits(b);
    assert(z.bits < SIGN && x.bits < SIGN);
    assert(y.magnitude() == z.magnitude());
    assert(y.scale() == z.scale() && y.significand() == z.significand());
    let k = bit_length(a as nat);
    let j = bit_length(b as nat);
    assert(j <= k) by {
        if j > k {
            two_to_grows(k, (j - 1) as nat);
            bit_length_bounds(a as nat);
            bit_length_bounds(b as nat);
        }
    }
    let t = (53 - j) as nat;
    let i = (53 - k) as nat;
    let e = y.scale();
    two_to_sum(i, (k - j) as nat);
    assert(two_to(0) == 1);
    let u = two_to(i) as int;
    let v = two_to((k - j) as nat) as int;
    let w = two_to(t) as int;
    let aa = a as int;
    let bb = b as int;
    assert((aa * u) * v == aa * w) by (nonlinear_arith)
        requires
            u * v == w,
    ;
    assert((-(bb * w)) * 1 == -(bb * w)) by (nonlinear_arith);
    assert(aa * w - bb * w == (aa - bb) * w) by (nonlinear_arith);
    let d = (a - b) as nat;
    let m = (d * two_to(t)) as nat;
    scaling_shifts(d, t);
    let l = LEADING as int;
    assert(nearest_bits(m as int) + e * l == nearest_bits(d as int)) by (nonlinear_arith)
        requires
            nearest_bits(m as int) == nearest_bits(d as int) + t * l,
            e == -(t as int),
    ;
    bit_length_bounds(m);
    crate::arithmetic::whole_fields(d as u64);
    assert(nearest_scaled(m, e) == nearest_bits(d as int));
}

/// A number below zero is written with a sign in front of what stands for its absolute value.
pub proof fn law_signs_stand_in_front(x: Number, places: nat)
    requires
        x.bits <= INFINITE,
    ensures
        fixed_text(x.negated(), places) == "-"@ + fixed_text(x, places),
        x.bits < INFINITE ==> fixed_text(x, places) == pointed(x.in_units(places), places),
{
    let y = x.negated();
    assert(y.magnitude() == x.magnitude());
    assert(y.scale() == x.scale() && y.significand() == x.significand());
    assert(y.in_units(places) == x.in_units(places));
}

} // verus!
