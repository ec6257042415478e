//! Binary64 numbers, carried by their bit patterns.
//!
//! Comparison, conversion from integers and the test for a whole number are
//! computed on the bits.

use vstd::prelude::*;

verus! {

/// A binary64 number given by its bit pattern.
#[derive(Debug, Clone, Copy, PartialEq, Eq, Structural, Hash)]
pub struct Number {
    pub bits: u64,
}

/// The bit that marks a negative number.
pub const SIGN: u64 = 0x8000_0000_0000_0000;

/// The magnitude of the infinities; every larger magnitude is a NaN.
pub const INFINITE: u64 = 0x7ff0_0000_0000_0000;

/// The leading bit of a normal significand.
pub const LEADING: u64 = 0x0010_0000_0000_0000;

/// The bit pattern of one.
pub const ONE: u64 = 0x3ff0_0000_0000_0000;

/// Two to the power of `n`.
pub open spec fn two_to(n: nat) -> nat
    decreases n,
{
    if n == 0 {
        1
    } else {
        2 * two_to((n - 1) as nat)
    }
}

/// The number of binary digits of `m`.
pub open spec fn bit_length(m: nat) -> nat
    decreases m,
{
    if m == 0 {
        0
    } else {
        1 + bit_length(m / 2)
    }
}

/// The quotient of `m` by `d`, rounded to nearest, ties to even.
pub open spec fn rounded_quotient(m: nat, d: nat) -> nat {
    let quotient = m / d;
    let rest = m % d;
    if 2 * rest > d || (2 * rest == d && quotient % 2 == 1) {
        quotient + 1
    } else {
        quotient
    }
}

/// The bit pattern of the binary64 number nearest to `n`, ties to even.
pub open spec fn nearest_bits(n: int) -> int {
    if n == 0 {
        0
    } else {
        let m: nat = if n < 0 {
            (-n) as nat
        } else {
            n as nat
        };
        let k = bit_length(m);
        let significand = if k <= 53 {
            m * two_to((53 - k) as nat)
        } else {
            rounded_quotient(m, two_to((k - 53) as nat))
        };
        let magnitude = (1021 + k) * LEADING + significand;
        if n < 0 {
            SIGN + magnitude
        } else {
            magnitude as int
        }
    }
}

pub proof fn two_to_sum(a: nat, b: nat)
    ensures
        two_to(a + b) == two_to(a) * two_to(b),
        two_to(a) >= 1,
    decreases a,
{
    if a > 0 {
        two_to_sum((a - 1) as nat, b);
        let x = two_to((a - 1) as nat);
        let y = two_to(b);
        assert((2 * x) * y == 2 * (x * y)) by (nonlinear_arith);
        assert((a + b - 1) as nat == (a - 1) as nat + b);
    } else {
        assert(1 * two_to(b) == two_to(b)) by (nonlinear_arith);
    }
}

pub proof fn two_to_product(a: nat, b: nat, x: nat, y: nat)
    requires
        two_to(a) == x,
        two_to(b) == y,
    ensures
        two_to(a + b) == x * y,
{
    two_to_sum(a, b);
}

pub proof fn two_to_grows(a: nat, b: nat)
    requires
        a <= b,
    ensures
        1 <= two_to(a) <= two_to(b),
    decreases b - a,
{
    two_to_sum(a, 0);
    if a < b {
        two_to_grows(a, (b - 1) as nat);
    }
}

pub proof fn two_to_values()
    ensures
        two_to(10) == 1024,
        two_to(11) == 2048,
        two_to(20) == 1048576,
        two_to(52) == LEADING,
        two_to(53) == 2 * LEADING,
        two_to(63) == SIGN,
        two_to(64) == 2 * SIGN,
{
    reveal_with_fuel(two_to, 13);
    two_to_product(10, 10, 1024, 1024);
    two_to_product(20, 20, 1048576, 1048576);
    two_to_product(40, 12, 0x100_0000_0000, 4096);
    two_to_product(52, 1, 0x0010_0000_0000_0000, 2);
    two_to_product(53, 10, 0x0020_0000_0000_0000, 1024);
    two_to_product(63, 1, 0x8000_0000_0000_0000, 2);
}

pub proof fn bit_length_bounds(m: nat)
    requires
        m > 0,
    ensures
        bit_length(m) > 0,
        two_to((bit_length(m) - 1) as nat) <= m < two_to(bit_length(m)),
    decreases m,
{
    if m >= 2 {
        bit_length_bounds(m / 2);
    } else {
        reveal_with_fuel(bit_length, 2);
        reveal_with_fuel(two_to, 2);
    }
}

pub proof fn short_length(m: nat)
    requires
        0 < m <= u64::MAX,
    ensures
        bit_length(m) <= 64,
{
    bit_length_bounds(m);
    two_to_values();
    if bit_length(m) > 64 {
        two_to_grows(64, (bit_length(m) - 1) as nat);
    }
}

fn power(n: u64) -> (r: u64)
    requires
        n < 64,
    ensures
        r == two_to(n as nat),
    decreases n,
{
    if n == 0 {
        1
    } else {
        let half = power(n - 1);
        proof {
            two_to_grows(n as nat, 63);
            two_to_values();
        }
        2 * half
    }
}

pub proof fn two_to_wide_values()
    ensures
        two_to(53) == 0x0020_0000_0000_0000,
        two_to(64) == 0x1_0000_0000_0000_0000,
        two_to(127) == 0x8000_0000_0000_0000_0000_0000_0000_0000,
{
    two_to_values();
    two_to_product(63, 64, 0x8000_0000_0000_0000, 0x1_0000_0000_0000_0000);
}

pub fn wide_power(n: u64) -> (r: u128)
    requires
        n < 128,
    ensures
        r == two_to(n as nat),
    decreases n,
{
    if n == 0 {
        1
    } else {
        let half = wide_power(n - 1);
        proof {
            two_to_grows(n as nat, 127);
            two_to_wide_values();
        }
        2 * half
    }
}

pub fn rounded(m: u128, d: u128) -> (r: u128)
    requires
        0 < d <= 0x4000_0000_0000_0000_0000_0000_0000_0000,
        m < 0x8000_0000_0000_0000_0000_0000_0000_0000,
    ensures
        r == rounded_quotient(m as nat, d as nat),
{
    let quotient: u128 = m / d;
    let rest: u128 = m % d;
    proof {
        let mm = m as int;
        let dd = d as int;
        assert(0 <= mm / dd <= mm) by (nonlinear_arith)
            requires
                mm >= 0,
                dd >= 1,
        ;
    }
    if 2 * rest > d || (2 * rest == d && quotient % 2 == 1) {
        quotient + 1
    } else {
        quotient
    }
}

/// The magnitude bits of the number nearest to a positive integer.
pub fn nearest_magnitude(m: u128) -> (r: u64)
    requires
        0 < m < 0x8000_0000_0000_0000_0000_0000_0000_0000,
    ensures
        r == nearest_bits(m as int),
        (1022 + bit_length(m as nat)) * LEADING <= r <= (1023 + bit_length(m as nat)) * LEADING,
        bit_length(m as nat) <= 127,
{
    proof {
        bit_length_bounds(m as nat);
        two_to_values();
        two_to_wide_values();
        if bit_length(m as nat) > 127 {
            two_to_grows(127, (bit_length(m as nat) - 1) as nat);
        }
    }
    let mut k: u64 = 0;
    let mut rest: u128 = m;
    while rest > 0
        invariant
            k + bit_length(rest as nat) == bit_length(m as nat),
            bit_length(m as nat) <= 127,
        decreases rest,
    {
        rest = rest / 2;
        k += 1;
    }
    let significand: u64 = if k <= 53 {
        let unit: u64 = power(53 - k);
        proof {
            let kk = k as nat;
            let rem = (53 - k) as nat;
            two_to_sum(kk, rem);
            two_to_sum(rem, 0);
            two_to_sum((kk - 1) as nat, rem);
            two_to_grows(kk, 53);
            let a = two_to(kk) as int;
            let c = two_to((kk - 1) as nat) as int;
            let b = unit as int;
            let mm = m as int;
            assert((kk - 1) as nat + rem == 52);
            assert(c * b == LEADING);
            assert(a * b == 2 * LEADING);
            assert(mm * b < a * b) by (nonlinear_arith)
                requires
                    0 <= mm < a,
                    b >= 1,
            ;
            assert(c * b <= mm * b) by (nonlinear_arith)
                requires
                    0 <= c <= mm,
                    b >= 1,
            ;
        }
        (m as u64) * unit
    } else {
        let unit: u128 = wide_power(k - 53);
        proof {
            let shift = (k - 53) as nat;
            two_to_grows(shift, 74);
            two_to_grows(74, 126);
            reveal_with_fuel(two_to, 2);
            assert(two_to(127) == 2 * two_to(126));
            two_to_sum(shift, 53);
            two_to_sum(shift, 52);
            let q = (m / unit) as int;
            let u = unit as int;
            let mm = m as int;
            assert(q < 2 * LEADING) by (nonlinear_arith)
                requires
                    mm < u * (2 * LEADING),
                    q == mm / u,
                    u >= 1,
            ;
            assert(q >= LEADING) by (nonlinear_arith)
                requires
                    mm >= u * LEADING,
                    q == mm / u,
                    u >= 1,
            ;
        }
        rounded(m, unit) as u64
    };
    proof {
        assert(LEADING <= significand <= 2 * LEADING);
    }
    (1021 + k) * LEADING + significand
}

impl Number {
    /// The magnitude bits, without the sign.
    pub open spec fn magnitude(self) -> int {
        if self.bits >= SIGN {
            self.bits - SIGN
        } else {
            self.bits as int
        }
    }

    /// Not a number.
    pub open spec fn nan(self) -> bool {
        self.magnitude() > INFINITE
    }

    /// Position in the order of the numbers; both zeros stand at zero.
    pub open spec fn rank(self) -> int {
        if self.bits >= SIGN {
            -self.magnitude()
        } else {
            self.magnitude()
        }
    }

    /// Whether both are numbers and the first is below the second.
    pub open spec fn below(self, other: Self) -> bool {
        !self.nan() && !other.nan() && self.rank() < other.rank()
    }

    /// Whether both are numbers and equal.
    pub open spec fn equal(self, other: Self) -> bool {
        !self.nan() && !other.nan() && self.rank() == other.rank()
    }

    /// The number with the given bit pattern.
    pub fn from_bits(bits: u64) -> (r: Self)
        ensures
            r.bits == bits,
    {
        Number { bits }
    }

    /// The number without its sign.
    pub fn absolute(self) -> (r: Self)
        ensures
            r.bits == self.magnitude(),
    {
        if self.bits >= SIGN {
            Number { bits: self.bits - SIGN }
        } else {
            self
        }
    }

    /// The number nearest to a whole one.
    pub open spec fn nearest(n: nat) -> Self {
        Number { bits: nearest_bits(n as int) as u64 }
    }

    /// The bit pattern.
    pub fn to_bits(self) -> (r: u64)
        ensures
            r == self.bits,
    {
        self.bits
    }

    fn rank_of(self) -> (r: i64)
        ensures
            r == self.rank(),
    {
        if self.bits >= SIGN {
            -((self.bits - SIGN) as i64)
        } else {
            self.bits as i64
        }
    }

    /// Whether this is not a number.
    pub fn is_nan(self) -> (r: bool)
        ensures
            r == self.nan(),
    {
        let m: u64 = if self.bits >= SIGN {
            self.bits - SIGN
        } else {
            self.bits
        };
        m > INFINITE
    }

    /// Whether this number is below the other; false where either is not a number.
    pub fn lt(self, other: Self) -> (r: bool)
        ensures
            r == self.below(other),
    {
        !self.is_nan() && !other.is_nan() && self.rank_of() < other.rank_of()
    }

    /// Whether this number is at most the other; false where either is not a number.
    pub fn le(self, other: Self) -> (r: bool)
        ensures
            r == (self.below(other) || self.equal(other)),
    {
        !self.is_nan() && !other.is_nan() && self.rank_of() <= other.rank_of()
    }

    /// Whether the numbers are equal; false where either is not a number.
    pub fn same(self, other: Self) -> (r: bool)
        ensures
            r == self.equal(other),
    {
        !self.is_nan() && !other.is_nan() && self.rank_of() == other.rank_of()
    }

    /// The number nearest to the integer, ties to even.
    pub fn from_int(n: i64) -> (r: Self)
        ensures
            r.bits == nearest_bits(n as int),
    {
        if n == 0 {
            return Number { bits: 0 };
        }
        let m: u64 = if n == i64::MIN {
            SIGN
        } else if n < 0 {
            (-n) as u64
        } else {
            n as u64
        };
        proof {
            short_length(m as nat);
        }
        let magnitude: u64 = nearest_magnitude(m as u128);
        if n < 0 {
            Number { bits: SIGN + magnitude }
        } else {
            Number { bits: magnitude }
        }
    }

    /// The number nearest to the natural number, ties to even.
    pub fn from_nat(n: u64) -> (r: Self)
        ensures
            r.bits == nearest_bits(n as int),
            r == Number::nearest(n as nat),
            n > 0 ==> 1023 <= r.exponent() <= 1087,
            n == 0 ==> r.bits == 0,
            r.bits < SIGN,
    {
        if n == 0 {
            return Number { bits: 0 };
        }
        proof {
            short_length(n as nat);
            bit_length_bounds(n as nat);
        }
        let bits: u64 = nearest_magnitude(n as u128);
        let r = Number { bits };
        proof {
            let k = bit_length(n as nat) as int;
            let b = bits as int;
            let l = LEADING as int;
            assert(1023 <= b / l <= 1087) by (nonlinear_arith)
                requires
                    (1022 + k) * l <= b <= (1023 + k) * l,
                    1 <= k <= 64,
                    l > 0,
            ;
            assert(b < SIGN) by (nonlinear_arith)
                requires
                    b <= (1023 + k) * l,
                    k <= 64,
                    l == 0x0010_0000_0000_0000,
            ;
        }
        r
    }

    /// The exponent field.
    pub open spec fn exponent(self) -> int {
        self.magnitude() / LEADING as int
    }

    /// The significand as an integer.
    pub open spec fn significand(self) -> int {
        if self.exponent() == 0 {
            self.magnitude()
        } else {
            LEADING + self.magnitude() % LEADING as int
        }
    }

    /// The power of two that scales the significand.
    pub open spec fn scale(self) -> int {
        if self.exponent() == 0 {
            -1074
        } else {
            self.exponent() - 1075
        }
    }

    /// The number's absolute value, where it is a whole number of at most two to
    /// the power of 63.
    pub open spec fn whole_magnitude(self) -> Option<int> {
        if self.magnitude() >= INFINITE {
            None
        } else if self.scale() >= 0 {
            if self.significand() * two_to(self.scale() as nat) <= SIGN {
                Some(self.significand() * two_to(self.scale() as nat) as int)
            } else {
                None
            }
        } else if self.significand() % two_to((-self.scale()) as nat) as int == 0 {
            Some(self.significand() / two_to((-self.scale()) as nat) as int)
        } else {
            None
        }
    }

    /// The number as an integer, where it is whole and its absolute value is at
    /// most two to the power of 63.
    pub open spec fn whole(self) -> Option<int> {
        match self.whole_magnitude() {
            None => None,
            Some(m) => if self.bits >= SIGN {
                Some(-m)
            } else {
                Some(m)
            },
        }
    }

    /// The number as an integer, if it is a whole number in range.
    pub fn as_whole(self) -> (r: Option<i128>)
        ensures
            match r {
                Some(n) => self.whole() == Some(n as int),
                None => self.whole() is None,
            },
    {
        let magnitude: u64 = if self.bits >= SIGN {
            self.bits - SIGN
        } else {
            self.bits
        };
        if magnitude >= INFINITE {
            return None;
        }
        let exponent: u64 = magnitude / LEADING;
        let fraction: u64 = magnitude % LEADING;
        let significand: u64 = if exponent == 0 {
            magnitude
        } else {
            LEADING + fraction
        };
        proof {
            two_to_values();
        }
        let m: u64 = if exponent >= 1075 {
            let scale: u64 = exponent - 1075;
            if scale > 11 {
                proof {
                    two_to_grows(12, scale as nat);
                    reveal_with_fuel(two_to, 2);
                    let u = two_to(scale as nat) as int;
                    let s = significand as int;
                    assert(s * u > SIGN) by (nonlinear_arith)
                        requires
                            s >= LEADING,
                            u >= 4096,
                    ;
                }
                return None;
            }
            let unit: u64 = power(scale);
            proof {
                two_to_grows(scale as nat, 11);
                let u = unit as int;
                let s = significand as int;
                assert(0 <= s * u <= 0x0020_0000_0000_0000 * 2048) by (nonlinear_arith)
                    requires
                        0 <= s <= 0x0020_0000_0000_0000,
                        0 <= u <= 2048,
                ;
            }
            if scale == 11 && significand > LEADING {
                proof {
                    let s = significand as int;
                    assert(s * two_to(11) > SIGN) by (nonlinear_arith)
                        requires
                            s > LEADING,
                            two_to(11) == 2048,
                    ;
                }
                return None;
            }
            proof {
                let u = unit as int;
                let s = significand as int;
                if scale < 11 {
                    two_to_grows(scale as nat, 10);
                    assert(s * u <= SIGN) by (nonlinear_arith)
                        requires
                            0 <= s <= 0x0020_0000_0000_0000,
                            0 <= u <= 1024,
                    ;
                } else {
                    assert(s * u <= SIGN) by (nonlinear_arith)
                        requires
                            0 <= s <= LEADING,
                            0 <= u <= 2048,
                    ;
                }
            }
            significand * unit
        } else {
            let drop: u64 = if exponent == 0 {
                1074
            } else {
                1075 - exponent
            };
            if drop >= 64 {
                proof {
                    two_to_grows(64, drop as nat);
                }
                if significand != 0 {
                    proof {
                        vstd::arithmetic::div_mod::lemma_small_mod(significand as nat, two_to(drop as nat));
                    }
                    return None;
                }
                proof {
                    vstd::arithmetic::div_mod::lemma_small_mod(0, two_to(drop as nat));
                    vstd::arithmetic::div_mod::lemma_basic_div(0, two_to(drop as nat) as int);
                }
                0
            } else {
                let unit: u64 = power(drop);
                proof {
                    two_to_grows(0, drop as nat);
                }
                if significand % unit != 0 {
                    return None;
                }
                proof {
                    let s = significand as int;
                    let u = unit as int;
                    assert(0 <= s / u <= s) by (nonlinear_arith)
                        requires
                            s >= 0,
                            u >= 1,
                    ;
                }
                significand / unit
            }
        };
        if self.bits >= SIGN {
            Some(-(m as i128))
        } else {
            Some(m as i128)
        }
    }
}

pub proof fn nearest_bounds(m: nat)
    requires
        m > 0,
    ensures
        (1022 + bit_length(m)) * LEADING <= nearest_bits(m as int) <= (1023 + bit_length(m)) * LEADING,
{
    bit_length_bounds(m);
    two_to_values();
    let k = bit_length(m);
    let mm = m as int;
    if k <= 53 {
        let rem = (53 - k) as nat;
        two_to_sum(k, rem);
        two_to_sum(rem, 0);
        two_to_sum((k - 1) as nat, rem);
        let a = two_to(k) as int;
        let c = two_to((k - 1) as nat) as int;
        let b = two_to(rem) as int;
        assert((k - 1) as nat + rem == 52);
        assert(mm * b < a * b) by (nonlinear_arith)
            requires
                0 <= mm < a,
                b >= 1,
        ;
        assert(c * b <= mm * b) by (nonlinear_arith)
            requires
                0 <= c <= mm,
                b >= 1,
        ;
    } else {
        let shift = (k - 53) as nat;
        two_to_sum(shift, 53);
        two_to_sum(shift, 52);
        let u = two_to(shift) as int;
        let q = mm / u;
        assert(q < 2 * LEADING) by (nonlinear_arith)
            requires
                mm < u * (2 * LEADING),
                q == mm / u,
                u >= 1,
        ;
        assert(q >= LEADING) by (nonlinear_arith)
            requires
                mm >= u * LEADING,
                q == mm / u,
                u >= 1,
        ;
    }
}

proof fn rounding_is_monotone(a: nat, b: nat, d: nat)
    requires
        a <= b,
        d > 0,
    ensures
        rounded_quotient(a, d) <= rounded_quotient(b, d),
{
    let x = a as int;
    let y = b as int;
    let z = d as int;
    assert(x / z <= y / z) by (nonlinear_arith)
        requires
            x <= y,
            z > 0,
    ;
    if x / z == y / z {
        vstd::arithmetic::div_mod::lemma_fundamental_div_mod(x, z);
        vstd::arithmetic::div_mod::lemma_fundamental_div_mod(y, z);
        assert(x % z <= y % z);
    }
}

pub proof fn nearest_is_monotone(a: nat, b: nat)
    requires
        0 < a <= b,
    ensures
        nearest_bits(a as int) <= nearest_bits(b as int),
{
    nearest_bounds(a);
    nearest_bounds(b);
    bit_length_bounds(a);
    bit_length_bounds(b);
    let j = bit_length(a);
    let k = bit_length(b);
    let l = LEADING as int;
    if j < k {
        assert((1023 + j) * l <= (1022 + k) * l) by (nonlinear_arith)
            requires
                j + 1 <= k,
                l > 0,
        ;
    } else if j > k {
        two_to_grows(k, (j - 1) as nat);
    } else if k <= 53 {
        let u = two_to((53 - k) as nat) as int;
        let x = a as int;
        let y = b as int;
        assert(x * u <= y * u) by (nonlinear_arith)
            requires
                x <= y,
                u >= 0,
        ;
    } else {
        two_to_sum((k - 53) as nat, 0);
        rounding_is_monotone(a, b, two_to((k - 53) as nat));
    }
}

pub fn length(m: u128) -> (r: u64)
    requires
        m < 0x8000_0000_0000_0000_0000_0000_0000_0000,
    ensures
        r == bit_length(m as nat),
        r <= 127,
{
    proof {
        if m > 0 {
            bit_length_bounds(m as nat);
            two_to_wide_values();
            if bit_length(m as nat) > 127 {
                two_to_grows(127, (bit_length(m as nat) - 1) as nat);
            }
        } else {
            reveal_with_fuel(bit_length, 2);
        }
    }
    let mut k: u64 = 0;
    let mut rest: u128 = m;
    while rest > 0
        invariant
            k + bit_length(rest as nat) == bit_length(m as nat),
            bit_length(m as nat) <= 127,
        decreases rest,
    {
        rest = rest / 2;
        k += 1;
    }
    k
}

impl Number {
    /// The number with what stands behind the point cut off: zero for a negative number or
    /// for one that is not a number, at most the greatest 64-bit integer.
    pub open spec fn truncated(self) -> nat {
        if self.nan() || self.bits >= SIGN {
            0
        } else if self.bits == INFINITE {
            u64::MAX as nat
        } else {
            let whole = if self.scale() >= 0 {
                self.significand() * two_to(self.scale() as nat)
            } else {
                self.significand() / two_to((-self.scale()) as nat) as int
            };
            if whole > u64::MAX {
                u64::MAX as nat
            } else {
                whole as nat
            }
        }
    }

    /// The number with what stands behind the point cut off.
    pub fn truncate(self) -> (r: u64)
        ensures
            r == self.truncated(),
    {
        if self.is_nan() || self.bits >= SIGN {
            return 0;
        }
        if self.bits == INFINITE {
            return u64::MAX;
        }
        let (s, e) = self.parts();
        proof {
            two_to_values();
            two_to_wide_values();
        }
        if e >= 12 {
            proof {
                two_to_grows(12, e as nat);
                two_to_sum(52, 12);
                let a = s as int;
                let u = two_to(e as nat) as int;
                assert(a * u >= LEADING * two_to(12)) by (nonlinear_arith)
                    requires
                        a >= LEADING,
                        u >= two_to(12),
                        two_to(12) >= 1,
                ;
            }
            u64::MAX
        } else if e >= 0 {
            proof {
                two_to_grows(e as nat, 11);
                let a = s as int;
                let u = two_to(e as nat) as int;
                assert(0 <= a * u <= 0xffff_ffff_ffff_ffff) by (nonlinear_arith)
                    requires
                        0 <= a < 0x0020_0000_0000_0000,
                        0 <= u <= 2048,
                ;
            }
            s * power(e as u64)
        } else if e <= -53 {
            proof {
                two_to_grows(53, (-e) as nat);
                let a = s as int;
                let u = two_to((-e) as nat) as int;
                assert(a / u == 0) by (nonlinear_arith)
                    requires
                        0 <= a < u,
                ;
            }
            0
        } else {
            proof {
                two_to_grows(0, (-e) as nat);
            }
            let q: u64 = s / power((-e) as u64);
            q
        }
    }

    /// The significand and the power of two that scales it.
    pub fn parts(self) -> (r: (u64, i64))
        requires
            self.bits < INFINITE,
        ensures
            r.0 == self.significand(),
            r.1 == self.scale(),
            -1074 <= r.1 <= 971,
            r.0 < 0x0020_0000_0000_0000,
            r.1 > -1074 ==> r.0 >= LEADING,
            self.bits > 0 ==> r.0 > 0,
    {
        let exponent: u64 = self.bits / LEADING;
        if exponent == 0 {
            (self.bits, -1074)
        } else {
            (LEADING + self.bits % LEADING, exponent as i64 - 1075)
        }
    }
}

pub proof fn bit_length_zero()
    ensures
        bit_length(0) == 0,
{
    reveal_with_fuel(bit_length, 2);
}

} // verus!
