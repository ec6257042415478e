//! Binary64 numbers in decimal, with a fixed number of places behind the point.

use crate::number::{
    rounded, rounded_quotient, two_to, two_to_grows, two_to_values, two_to_wide_values, wide_power, Number, INFINITE, SIGN,
};
use crate::text::{decimal_text, decimal_wide, digit_char, digit_str};
use vstd::prelude::*;
use vstd::string::StringExecFns;

verus! {

/// Ten to the power of `n`.
pub open spec fn ten_to(n: nat) -> nat
    decreases n,
{
    if n == 0 {
        1
    } else {
        10 * ten_to((n - 1) as nat)
    }
}

/// The last digits of a number, so many.
pub open spec fn last_digits(n: nat, places: nat) -> Seq<char>
    decreases places,
{
    if places == 0 {
        Seq::empty()
    } else {
        last_digits(n / 10, (places - 1) as nat).push(digit_char(n % 10))
    }
}

impl Number {
    /// The absolute value of a finite number in units of the last place, rounded to nearest,
    /// ties to even.
    pub open spec fn in_units(self, places: nat) -> nat {
        let m = (self.significand() * ten_to(places)) as nat;
        if self.scale() >= 0 {
            m * two_to(self.scale() as nat)
        } else {
            rounded_quotient(m, two_to((-self.scale()) as nat))
        }
    }
}

/// A number in units of the last place as a text, with the point.
pub open spec fn pointed(n: nat, places: nat) -> Seq<char> {
    if places == 0 {
        decimal_text(n)
    } else {
        decimal_text(n / ten_to(places)) + "."@ + last_digits(n, places)
    }
}

/// A number in decimal, with so many places behind the point.
pub open spec fn fixed_text(x: Number, places: nat) -> Seq<char> {
    if x.nan() {
        "NaN"@
    } else {
        let size = if x.magnitude() == INFINITE {
            "inf"@
        } else {
            pointed(x.in_units(places), places)
        };
        if x.bits >= SIGN {
            "-"@ + size
        } else {
            size
        }
    }
}

/// The number that decimal digits stand for, the last digit first.
pub open spec fn digits_value(digits: Seq<u8>) -> nat
    decreases digits.len(),
{
    if digits.len() == 0 {
        0
    } else {
        digits[0] as nat + 10 * digits_value(digits.skip(1))
    }
}

/// Decimal digits, the last first, without zeros in front.
pub open spec fn are_digits(digits: Seq<u8>) -> bool {
    &&& forall|i: int| 0 <= i < digits.len() ==> #[trigger] digits[i] < 10
    &&& digits.len() > 0 ==> digits.last() > 0
}

proof fn value_of_push(digits: Seq<u8>, d: u8)
    ensures
        digits_value(digits.push(d)) == digits_value(digits) + d as nat * ten_to(digits.len()),
    decreases digits.len(),
{
    if digits.len() > 0 {
        value_of_push(digits.skip(1), d);
        assert(digits.push(d).skip(1) =~= digits.skip(1).push(d));
        let t = ten_to((digits.len() - 1) as nat);
        assert(ten_to(digits.len()) == 10 * t);
        assert(d as nat * (10 * t) == 10 * (d as nat * t)) by (nonlinear_arith);
    } else {
        assert(digits.push(d).skip(1) =~= Seq::<u8>::empty());
        assert(digits_value(Seq::<u8>::empty()) == 0);
        assert(digits.push(d)[0] == d);
        assert(ten_to(0) == 1);
        assert(d as nat * ten_to(0) == d as nat) by (nonlinear_arith)
            requires
                ten_to(0) == 1,
        ;
    }
}

/// The digits from the front as a text are the number in decimal.
proof fn digits_in_order(digits: Seq<u8>)
    requires
        are_digits(digits),
        digits.len() > 0,
    ensures
        decimal_text(digits_value(digits)) == Seq::new(
            digits.len(),
            |i: int| digit_char(digits[digits.len() - 1 - i] as nat),
        ),
        digits_value(digits) > 0,
    decreases digits.len(),
{
    let rest = digits.skip(1);
    let v = digits_value(digits);
    let w = digits_value(rest);
    let text = Seq::new(digits.len(), |i: int| digit_char(digits[digits.len() - 1 - i] as nat));
    assert(v == digits[0] as nat + 10 * w);
    if rest.len() == 0 {
        assert(w == 0);
        assert(decimal_text(v) =~= text);
    } else {
        assert(rest.last() == digits.last());
        assert(are_digits(rest));
        digits_in_order(rest);
        assert(v / 10 == w && v % 10 == digits[0] as nat);
        assert(v >= 10);
        let front = Seq::new(rest.len(), |i: int| digit_char(rest[rest.len() - 1 - i] as nat));
        assert(text =~= front.push(digit_char(v % 10)));
    }
}

/// Doubles the number that digits stand for.
fn double(digits: &mut Vec<u8>)
    requires
        are_digits(old(digits)@),
    ensures
        are_digits(final(digits)@),
        digits_value(final(digits)@) == 2 * digits_value(old(digits)@),
{
    let ghost before = digits@;
    let n: usize = digits.len();
    let mut carry: u8 = 0;
    let mut i: usize = 0;
    proof {
        assert(before.take(0) =~= Seq::<u8>::empty());
        assert(digits@.take(0) =~= Seq::<u8>::empty());
        assert(0 * ten_to(0) == 0) by (nonlinear_arith);
    }
    while i < n
        invariant
            n == before.len(),
            i <= n,
            digits@.len() == n,
            carry <= 1,
            are_digits(before),
            forall|j: int| 0 <= j < i ==> #[trigger] digits@[j] < 10,
            forall|j: int| i <= j < n ==> #[trigger] digits@[j] == before[j],
            i > 0 && carry == 0 ==> digits@[i - 1] == 2 * before[i - 1] || digits@[i - 1] == 2 * before[i - 1] + 1,
            i > 0 && carry == 1 ==> digits@[i - 1] + 10 == 2 * before[i - 1] || digits@[i - 1] + 10 == 2 * before[i - 1]
                + 1,
            digits_value(digits@.take(i as int)) + carry as nat * ten_to(i as nat) == 2 * digits_value(
                before.take(i as int),
            ),
        decreases n - i,
    {
        let ghost now = digits@;
        let old_carry: u8 = carry;
        assert(digits@[i as int] == before[i as int]);
        let twice: u8 = 2 * digits[i] + carry;
        if twice >= 10 {
            digits.set(i, twice - 10);
            carry = 1;
        } else {
            digits.set(i, twice);
            carry = 0;
        }
        proof {
            let d = digits@[i as int];
            let b = before[i as int];
            assert(digits@.take(i as int) =~= now.take(i as int));
            assert(digits@.take(i + 1) =~= now.take(i as int).push(d));
            assert(before.take(i + 1) =~= before.take(i as int).push(b));
            value_of_push(now.take(i as int), d);
            value_of_push(before.take(i as int), b);
            let t = ten_to(i as nat) as int;
            assert(ten_to((i + 1) as nat) == 10 * t);
            let dd = d as int;
            let bb = b as int;
            let c0 = old_carry as int;
            let c1 = carry as int;
            assert(dd * t + c1 * (10 * t) == 2 * (bb * t) + c0 * t) by (nonlinear_arith)
                requires
                    dd + 10 * c1 == 2 * bb + c0,
            ;
        }
        i += 1;
    }
    proof {
        assert(digits@.take(n as int) =~= digits@);
        assert(before.take(n as int) =~= before);
        let t = ten_to(n as nat);
        assert(0 * t == 0 && 1 * t == t) by (nonlinear_arith);
    }
    if carry > 0 {
        proof {
            value_of_push(digits@, 1);
        }
        digits.push(1);
    }
}

fn digits_of(m: u128) -> (r: Vec<u8>)
    ensures
        are_digits(r@),
        digits_value(r@) == m,
{
    let mut r: Vec<u8> = Vec::new();
    let mut rest: u128 = m;
    let ghost mut place: nat = 1;
    proof {
        assert(m as nat * 1 == m);
    }
    while rest > 0
        invariant
            forall|i: int| 0 <= i < r@.len() ==> #[trigger] r@[i] < 10,
            r@.len() > 0 && rest == 0 ==> r@.last() > 0,
            place == ten_to(r@.len()),
            digits_value(r@) + rest as nat * place == m,
        decreases rest,
    {
        let ghost now = r@;
        let d: u8 = (rest % 10) as u8;
        proof {
            value_of_push(now, d);
            let x = rest as int;
            let t = place as int;
            assert((x % 10) * t + (x / 10) * (10 * t) == x * t) by (nonlinear_arith)
                requires
                    x == 10 * (x / 10) + x % 10,
            ;
            place = 10 * place;
        }
        r.push(d);
        rest = rest / 10;
    }
    proof {
        assert(0 * place == 0) by (nonlinear_arith);
    }
    r
}

fn digits_text(digits: &Vec<u8>) -> (r: String)
    requires
        are_digits(digits@),
        digits@.len() > 0,
    ensures
        r@ == decimal_text(digits_value(digits@)),
{
    let mut r = "".to_owned();
    let n: usize = digits.len();
    let mut i: usize = n;
    proof {
        reveal_strlit("");
        assert(r@ =~= Seq::<char>::empty());
    }
    while i > 0
        invariant
            i <= n,
            n == digits@.len(),
            are_digits(digits@),
            r@ == Seq::new((n - i) as nat, |k: int| digit_char(digits@[n - 1 - k] as nat)),
        decreases i,
    {
        i -= 1;
        r.append(digit_str(digits[i] as u64));
        assert(r@ =~= Seq::new((n - i) as nat, |k: int| digit_char(digits@[n - 1 - k] as nat)));
    }
    proof {
        digits_in_order(digits@);
        assert(r@ =~= decimal_text(digits_value(digits@)));
    }
    r
}

/// A positive number times a power of two, in decimal.
fn scaled_text(m: u128, e: u64) -> (r: String)
    requires
        m > 0,
    ensures
        r@ == decimal_text(m as nat * two_to(e as nat)),
{
    let mut digits = digits_of(m);
    let mut i: u64 = 0;
    proof {
        assert(m as nat * 1 == m);
        assert(two_to(0) == 1);
    }
    while i < e
        invariant
            i <= e,
            are_digits(digits@),
            digits_value(digits@) == m as nat * two_to(i as nat),
        decreases e - i,
    {
        double(&mut digits);
        proof {
            let t = two_to(i as nat);
            assert(two_to((i + 1) as nat) == 2 * t);
            assert(m as nat * (2 * t) == 2 * (m as nat * t)) by (nonlinear_arith);
        }
        i += 1;
    }
    proof {
        two_to_grows(0, e as nat);
        assert(m as nat * two_to(e as nat) > 0) by (nonlinear_arith)
            requires
                m > 0,
                two_to(e as nat) > 0,
        ;
        if digits@.len() == 0 {
            assert(digits_value(digits@) == 0);
        }
    }
    digits_text(&digits)
}

fn places_text(n: u128, places: u64) -> (r: String)
    ensures
        r@ == last_digits(n as nat, places as nat),
    decreases places,
{
    if places == 0 {
        let r = "".to_owned();
        proof {
            reveal_strlit("");
            assert(r@ =~= Seq::<char>::empty());
        }
        r
    } else {
        let mut r = places_text(n / 10, places - 1);
        let ghost before = r@;
        r.append(digit_str((n % 10) as u64));
        assert(r@ =~= before.push(digit_char(n as nat % 10)));
        r
    }
}

fn ten_power(n: u64) -> (r: u128)
    requires
        n <= 3,
    ensures
        r == ten_to(n as nat),
        1 <= r <= 1000,
{
    proof {
        reveal_with_fuel(ten_to, 4);
    }
    if n == 0 {
        1
    } else if n == 1 {
        10
    } else if n == 2 {
        100
    } else {
        1000
    }
}

proof fn whole_has_zeros(n: nat, places: nat)
    ensures
        last_digits(n * ten_to(places), places) == Seq::new(places, |i: int| '0'),
        (n * ten_to(places)) / ten_to(places) == n,
    decreases places,
{
    let t = ten_to(places) as int;
    let m = n as int;
    positive(places);
    assert((m * t) / t == m) by (nonlinear_arith)
        requires
            t >= 1,
    ;
    if places > 0 {
        let rest = (places - 1) as nat;
        let u = ten_to(rest) as int;
        assert(m * t == 10 * (m * u)) by (nonlinear_arith)
            requires
                t == 10 * u,
        ;
        whole_has_zeros(n, rest);
        assert((m * t) / 10 == m * u && (m * t) % 10 == 0);
        assert(last_digits(n * ten_to(places), places) =~= Seq::new(places, |i: int| '0'));
    } else {
        assert(last_digits(n * ten_to(places), places) =~= Seq::new(places, |i: int| '0'));
    }
}

proof fn positive(n: nat)
    ensures
        ten_to(n) >= 1,
    decreases n,
{
    if n > 0 {
        positive((n - 1) as nat);
    }
}

fn zeros(places: u64) -> (r: String)
    ensures
        r@ == Seq::new(places as nat, |i: int| '0'),
{
    let mut r = "".to_owned();
    let mut i: u64 = 0;
    proof {
        reveal_strlit("");
        reveal_strlit("0");
        assert(r@ =~= Seq::new(0, |i: int| '0'));
    }
    while i < places
        invariant
            i <= places,
            "0"@ == seq!['0'],
            r@ == Seq::new(i as nat, |k: int| '0'),
        decreases places - i,
    {
        r.append("0");
        assert(r@ =~= Seq::new((i + 1) as nat, |k: int| '0'));
        i += 1;
    }
    r
}

/// The size of a finite number in decimal.
fn size_text(x: Number, places: u64) -> (r: String)
    requires
        x.bits < INFINITE,
        places <= 3,
    ensures
        r@ == pointed(x.in_units(places as nat), places as nat),
{
    let (s, e) = x.parts();
    let unit: u128 = ten_power(places);
    proof {
        two_to_values();
        two_to_wide_values();
    }
    if e >= 0 {
        // A whole number.
        proof {
            let a = s as int;
            let t = unit as int;
            let u = two_to(e as nat) as int;
            assert((a * t) * u == (a * u) * t) by (nonlinear_arith);
            whole_has_zeros((a * u) as nat, places as nat);
            two_to_grows(0, e as nat);
            assert(a * u >= 0) by (nonlinear_arith)
                requires
                    a >= 0,
                    u >= 1,
            ;
        }
        let mut r = scaled_text(s as u128, e as u64);
        if places > 0 {
            r.append(".");
            r.append(zeros(places).as_str());
        } else {
            proof {
                let a = (s * two_to(e as nat)) as nat;
                assert(a * ten_to(0) == a);
            }
        }
        r
    } else {
        let down: u64 = (-e) as u64;
        proof {
            let a = s as int;
            let t = unit as int;
            assert(0 <= a * t <= 0x0020_0000_0000_0000 * 1000) by (nonlinear_arith)
                requires
                    0 <= a <= 0x0020_0000_0000_0000,
                    0 <= t <= 1000,
            ;
        }
        let m: u128 = (s as u128) * unit;
        let n: u128 = if down >= 127 {
            proof {
                let mm = m as int;
                two_to_grows(127, down as nat);
                let u = two_to(down as nat) as int;
                assert(mm / u == 0 && mm % u == mm) by (nonlinear_arith)
                    requires
                        0 <= mm < u,
                ;
            }
            0
        } else {
            proof {
                two_to_grows(down as nat, 126);
                two_to_grows(0, down as nat);
                assert(two_to(127) == 2 * two_to(126));
            }
            rounded(m, wide_power(down))
        };
        if places == 0 {
            decimal_wide(n)
        } else {
            let mut r = decimal_wide(n / unit);
            r.append(".");
            r.append(places_text(n, places).as_str());
            r
        }
    }
}

/// Renders a number in decimal, with so many places behind the point.
pub fn fixed(x: Number, places: u64) -> (r: String)
    requires
        places <= 3,
    ensures
        r@ == fixed_text(x, places as nat),
{
    if x.is_nan() {
        return "NaN".to_owned();
    }
    let size = x.absolute();
    let text = if size.bits == INFINITE {
        "inf".to_owned()
    } else {
        proof {
            assert(size.significand() == x.significand() && size.scale() == x.scale());
        }
        size_text(size, places)
    };
    if x.to_bits() >= SIGN {
        let mut r = "-".to_owned();
        r.append(text.as_str());
        r
    } else {
        text
    }
}

/// A hundred as a number.
pub const HUNDRED: u64 = 0x4059_0000_0000_0000;

/// A number in per cent, in decimal.
pub open spec fn percent_text(x: Number, places: nat) -> Seq<char> {
    fixed_text(x.product(Number { bits: HUNDRED }), places)
}

/// Renders a number in per cent, with so many places behind the point.
pub fn percent(x: Number, places: u64) -> (r: String)
    requires
        places <= 3,
    ensures
        r@ == percent_text(x, places as nat),
{
    fixed(x.times(Number::from_bits(HUNDRED)), places)
}

} // verus!
