//! Amounts of money as decimal numbers: a 96-bit integer and a power of ten.
//!
//! `Dec` holds what a `rust_decimal::Decimal` holds, as two integers. The
//! arithmetic is that crate's.

use rust_decimal::Decimal;
use vstd::prelude::*;

use crate::text::{
    all_digits, is_digit, numeral, numeral_reads_back, padded, padded_reads_back, pow10,
};

verus! {

/// One more than the largest mantissa: 2 to the power of 96.
pub const MANTISSA_LIMIT: i128 = 0x1_0000_0000_0000_0000_0000_0000;

/// The largest number of decimal places.
pub const MAX_SCALE: u32 = 28;

/// The number `mantissa / 10^scale`. `==` compares both fields, so that 1 and
/// 1.0 differ; zero has no sign.
#[derive(Clone, Copy, Debug, PartialEq, Eq, Structural)]
pub struct Dec {
    pub mantissa: i128,
    pub scale: u32,
}

pub open spec fn fits(m: int) -> bool {
    -MANTISSA_LIMIT < m < MANTISSA_LIMIT
}

/// `m / d` rounded to the nearest integer, a tie to the even one.
pub open spec fn half_even(m: int, d: int) -> int {
    if m < 0 {
        -half_even_up(-m, d)
    } else {
        half_even_up(m, d)
    }
}

/// `half_even` for a numerator that is not negative.
pub open spec fn half_even_up(m: int, d: int) -> int {
    if 2 * (m % d) > d || (2 * (m % d) == d && (m / d) % 2 == 1) {
        m / d + 1
    } else {
        m / d
    }
}

impl Dec {
    /// The fields are those of a decimal number.
    pub open spec fn wf(self) -> bool {
        fits(self.mantissa as int) && self.scale <= MAX_SCALE
    }

    /// The value, counted in units of the smallest decimal place. Exact for
    /// every decimal number.
    pub open spec fn units(self) -> int {
        self.mantissa * pow10((MAX_SCALE - self.scale) as nat)
    }

    /// The value lies between 0 and 1.
    pub open spec fn is_share(self) -> bool {
        0 <= self.mantissa && self.units() <= integer(1).units()
    }

    pub open spec fn neg(self) -> Dec {
        Dec { mantissa: (-self.mantissa) as i128, scale: self.scale }
    }

    /// The mantissa of the same value with `scale` decimal places.
    pub open spec fn at_scale(self, scale: nat) -> int {
        self.mantissa * pow10((scale - self.scale) as nat)
    }

    /// The larger of two scales.
    pub open spec fn joint_scale(self, other: Dec) -> nat {
        if self.scale >= other.scale {
            self.scale as nat
        } else {
            other.scale as nat
        }
    }

    /// The mantissa of the exact sum, at the larger of the two scales.
    pub open spec fn aligned_sum(self, other: Dec) -> int {
        let s = self.joint_scale(other);
        self.at_scale(s) + other.at_scale(s)
    }

    /// The sum needs no rounding: a side is zero, or the exact sum fits at the
    /// larger of the two scales.
    pub open spec fn sum_is_exact(self, other: Dec) -> bool {
        self.mantissa == 0 || other.mantissa == 0 || fits(self.aligned_sum(other))
    }

    /// The sum where it needs no rounding.
    pub open spec fn exact_sum(self, other: Dec) -> Dec {
        if self.mantissa == 0 {
            other
        } else if other.mantissa == 0 {
            self
        } else {
            Dec {
                mantissa: self.aligned_sum(other) as i128,
                scale: self.joint_scale(other) as u32,
            }
        }
    }

    /// The value with at most `places` decimal places.
    pub open spec fn rounded(self, places: u32) -> Dec {
        if self.scale <= places {
            self
        } else {
            Dec {
                mantissa: half_even(
                    self.mantissa as int,
                    pow10((self.scale - places) as nat) as int,
                ) as i128,
                scale: places,
            }
        }
    }

    /// The value in decimal notation, with as many decimal places as the scale.
    pub open spec fn notation(self) -> Seq<char> {
        let a = if self.mantissa < 0 {
            (-self.mantissa) as nat
        } else {
            self.mantissa as nat
        };
        let s = self.scale as nat;
        let sign: Seq<char> = if self.mantissa < 0 {
            seq!['-']
        } else {
            Seq::empty()
        };
        let fraction: Seq<char> = if s == 0 {
            Seq::empty()
        } else {
            seq!['.'] + padded(a % pow10(s), s)
        };
        sign + numeral(a / pow10(s)) + fraction
    }

    /// `max` on decimals: `other` only where it is larger.
    pub open spec fn larger(self, other: Dec) -> Dec {
        if self.units() < other.units() {
            other
        } else {
            self
        }
    }

    /// `min` on decimals: `other` only where it is smaller.
    pub open spec fn smaller(self, other: Dec) -> Dec {
        if other.units() < self.units() {
            other
        } else {
            self
        }
    }
}

/// An optional result is a decimal number where there is one.
pub open spec fn wf_opt(d: Option<Dec>) -> bool {
    d is Some ==> d->0.wf()
}

/// The sum of two decimal numbers given by mantissa and scale.
pub uninterp spec fn decimal_sum(am: int, asc: int, bm: int, bsc: int) -> Option<(int, int)>;

/// The difference of two decimal numbers given by mantissa and scale.
pub uninterp spec fn decimal_difference(am: int, asc: int, bm: int, bsc: int) -> Option<(int, int)>;

/// The product of two decimal numbers given by mantissa and scale.
pub uninterp spec fn decimal_product(am: int, asc: int, bm: int, bsc: int) -> Option<(int, int)>;

/// The quotient of two decimal numbers given by mantissa and scale.
pub uninterp spec fn decimal_quotient(am: int, asc: int, bm: int, bsc: int) -> Option<(int, int)>;

/// The decimal number that a text reads as which is no decimal notation.
pub uninterp spec fn decimal_of_text(s: Seq<char>) -> Option<(int, int)>;

/// The value of a result given as integers.
pub open spec fn from_parts(p: Option<(int, int)>) -> Option<Dec> {
    match p {
        Some(p) => Some(Dec { mantissa: p.0 as i128, scale: p.1 as u32 }),
        None => None,
    }
}

/// The sum: exact where that needs no rounding, `None` where it is too large
/// for a decimal number.
pub open spec fn sum_of(a: Dec, b: Dec) -> Option<Dec> {
    if a.sum_is_exact(b) {
        Some(a.exact_sum(b))
    } else {
        from_parts(decimal_sum(a.mantissa as int, a.scale as int, b.mantissa as int, b.scale as int))
    }
}

/// The difference: exact where that needs no rounding, `None` where it is too
/// large for a decimal number.
pub open spec fn difference_of(a: Dec, b: Dec) -> Option<Dec> {
    if a.sum_is_exact(b.neg()) {
        Some(a.exact_sum(b.neg()))
    } else {
        from_parts(
            decimal_difference(
                a.mantissa as int,
                a.scale as int,
                b.mantissa as int,
                b.scale as int,
            ),
        )
    }
}

/// The product fits with all its decimal places.
pub open spec fn product_is_exact(a: Dec, b: Dec) -> bool {
    fits(a.mantissa * b.mantissa) && a.scale + b.scale <= MAX_SCALE
}

/// The product: 0 where a side is zero, exact where it fits with all its
/// decimal places, `None` where it is too large for a decimal number.
pub open spec fn product_of(a: Dec, b: Dec) -> Option<Dec> {
    if a.mantissa == 0 || b.mantissa == 0 {
        Some(integer(0))
    } else if product_is_exact(a, b) {
        Some(
            Dec { mantissa: (a.mantissa * b.mantissa) as i128, scale: (a.scale + b.scale) as u32 },
        )
    } else {
        from_parts(
            decimal_product(a.mantissa as int, a.scale as int, b.mantissa as int, b.scale as int),
        )
    }
}

/// The mantissa of `b` divides that of `a`.
pub open spec fn divides(b: Dec, a: Dec) -> bool {
    b.mantissa != 0 && a.mantissa as int % b.mantissa as int == 0
}

/// The quotient where the mantissas divide: with the places that `a` has more
/// than `b`; without places, and maybe too large, where it has fewer.
pub open spec fn whole_quotient(a: Dec, b: Dec) -> Option<Dec> {
    let q = a.mantissa as int / b.mantissa as int;
    if a.scale >= b.scale {
        Some(Dec { mantissa: q as i128, scale: (a.scale - b.scale) as u32 })
    } else if fits(q * pow10((b.scale - a.scale) as nat)) {
        Some(integer(q * pow10((b.scale - a.scale) as nat)))
    } else {
        None
    }
}

/// The quotient: `None` where `b` is zero or the quotient is too large for a
/// decimal number, 0 where `a` is zero, exact where the mantissas divide.
pub open spec fn quotient_of(a: Dec, b: Dec) -> Option<Dec> {
    if b.mantissa == 0 {
        None
    } else if a.mantissa == 0 {
        Some(integer(0))
    } else if divides(b, a) {
        whole_quotient(a, b)
    } else {
        from_parts(
            decimal_quotient(a.mantissa as int, a.scale as int, b.mantissa as int, b.scale as int),
        )
    }
}

/// The text is the decimal notation of a number.
pub open spec fn is_notation(s: Seq<char>) -> bool {
    exists|d: Dec| d.wf() && #[trigger] d.notation() == s
}

/// The decimal number that a text reads as: the one whose notation it is, where
/// it is one.
pub open spec fn text_value(s: Seq<char>) -> Option<Dec> {
    if is_notation(s) {
        Some(choose|d: Dec| d.wf() && #[trigger] d.notation() == s)
    } else {
        from_parts(decimal_of_text(s))
    }
}

/// Calls `Decimal::checked_add`. Where no rounding is needed the result is the
/// exact sum: the other side where one side is zero, else at the larger of the
/// two scales. A larger sum is rounded to fewer places, or `None`: of those the
/// contract only says that they depend on the two numbers alone.
#[verifier::external_body]
pub(crate) fn add_dec(a: Dec, b: Dec) -> (r: Option<Dec>)
    requires
        a.wf(),
        b.wf(),
    ensures
        wf_opt(r),
        r == sum_of(a, b),
        !a.sum_is_exact(b) ==> r == from_parts(
            decimal_sum(a.mantissa as int, a.scale as int, b.mantissa as int, b.scale as int),
        ),
{
    let x = Decimal::from_i128_with_scale(a.mantissa, a.scale);
    let y = Decimal::from_i128_with_scale(b.mantissa, b.scale);
    let sum = x.checked_add(y);
    sum.map(|d| Dec { mantissa: d.mantissa(), scale: d.scale() })
}

/// Calls `Decimal::checked_sub`. It is the sum with the second number negated:
/// exact where that sum is, else rounded to fewer places or `None`.
#[verifier::external_body]
pub(crate) fn sub_dec(a: Dec, b: Dec) -> (r: Option<Dec>)
    requires
        a.wf(),
        b.wf(),
    ensures
        wf_opt(r),
        r == difference_of(a, b),
        !a.sum_is_exact(b.neg()) ==> r == from_parts(
            decimal_difference(a.mantissa as int, a.scale as int, b.mantissa as int, b.scale as int),
        ),
{
    let x = Decimal::from_i128_with_scale(a.mantissa, a.scale);
    let y = Decimal::from_i128_with_scale(b.mantissa, b.scale);
    let difference = x.checked_sub(y);
    difference.map(|d| Dec { mantissa: d.mantissa(), scale: d.scale() })
}

/// Calls `Decimal::checked_mul`. A product with zero is 0; one that fits with
/// all its decimal places is exact. Another is rounded to fewer places, or
/// `None` where its whole part is too large, which it is not where one of the
/// numbers lies between 0 and 1: of those the contract only says that they
/// depend on the two numbers alone.
#[verifier::external_body]
pub(crate) fn mul_dec(a: Dec, b: Dec) -> (r: Option<Dec>)
    requires
        a.wf(),
        b.wf(),
    ensures
        wf_opt(r),
        r == product_of(a, b),
        a.mantissa != 0 && b.mantissa != 0 && !product_is_exact(a, b) ==> r == from_parts(
            decimal_product(a.mantissa as int, a.scale as int, b.mantissa as int, b.scale as int),
        ),
        a.is_share() || b.is_share() ==> r is Some,
{
    let x = Decimal::from_i128_with_scale(a.mantissa, a.scale);
    let y = Decimal::from_i128_with_scale(b.mantissa, b.scale);
    let product = x.checked_mul(y);
    product.map(|d| Dec { mantissa: d.mantissa(), scale: d.scale() })
}

/// Calls `Decimal::checked_div`. There is no quotient by zero; zero divided by
/// anything else is 0; where the mantissas divide, the quotient is theirs; a
/// quotient of numbers that are not negative is not negative. There is a
/// quotient by every positive whole number of 32 bits, and that of a number with
/// at most 22 decimal places by a million is exact. Else the contract only says
/// that the quotient depends on the two numbers alone.
#[verifier::external_body]
pub(crate) fn div_dec(a: Dec, b: Dec) -> (r: Option<Dec>)
    requires
        a.wf(),
        b.wf(),
    ensures
        wf_opt(r),
        r == quotient_of(a, b),
        a.mantissa != 0 && b.mantissa != 0 && !divides(b, a) ==> r == from_parts(
            decimal_quotient(a.mantissa as int, a.scale as int, b.mantissa as int, b.scale as int),
        ),
        r is Some && a.mantissa >= 0 && b.mantissa > 0 ==> r->0.mantissa >= 0,
        b.scale == 0 && 0 < b.mantissa <= u32::MAX ==> r is Some,
        b == integer(1_000_000) && a.scale <= 22 ==> r->0.units() * 1_000_000 == a.units(),
{
    let x = Decimal::from_i128_with_scale(a.mantissa, a.scale);
    let y = Decimal::from_i128_with_scale(b.mantissa, b.scale);
    let quotient = x.checked_div(y);
    quotient.map(|d| Dec { mantissa: d.mantissa(), scale: d.scale() })
}

/// Calls `Decimal::lt`, which compares values, whatever the scales.
#[verifier::external_body]
pub(crate) fn less(a: Dec, b: Dec) -> (r: bool)
    requires
        a.wf(),
        b.wf(),
    ensures
        r == (a.units() < b.units()),
{
    let x = Decimal::from_i128_with_scale(a.mantissa, a.scale);
    let y = Decimal::from_i128_with_scale(b.mantissa, b.scale);
    x < y
}

/// Calls `Decimal::round_dp`: a number with more decimal places than asked for
/// is rounded to the nearest one, a tie to the even digit.
#[verifier::external_body]
pub(crate) fn round_dec(a: Dec, places: u32) -> (r: Dec)
    requires
        a.wf(),
    ensures
        r.wf(),
        r == a.rounded(places),
{
    let x = Decimal::from_i128_with_scale(a.mantissa, a.scale);
    let d = x.round_dp(places);
    Dec { mantissa: d.mantissa(), scale: d.scale() }
}

/// Calls `Decimal::to_string`: plain decimal notation.
#[verifier::external_body]
pub(crate) fn dec_text(a: Dec) -> (r: String)
    requires
        a.wf(),
    ensures
        r@ == a.notation(),
{
    Decimal::from_i128_with_scale(a.mantissa, a.scale).to_string()
}

/// Calls `Decimal::from_str`. It reads back what `Decimal::to_string` writes.
/// Of other texts (signs, separators, exponents, too many digits) the contract
/// only says that the result depends on the text alone.
#[verifier::external_body]
pub(crate) fn parse_dec(s: &str) -> (r: Option<Dec>)
    ensures
        wf_opt(r),
        r == text_value(s@),
        !is_notation(s@) ==> r == from_parts(decimal_of_text(s@)),
{
    let parsed: Result<Decimal, rust_decimal::Error> = s.parse();
    parsed.ok().map(|d| Dec { mantissa: d.mantissa(), scale: d.scale() })
}

/// A whole number.
pub open spec fn integer(n: int) -> Dec {
    Dec { mantissa: n as i128, scale: 0 }
}

/// A whole number.
pub fn whole(n: i64) -> (r: Dec)
    ensures
        r == integer(n as int),
        r.wf(),
{
    Dec { mantissa: n as i128, scale: 0 }
}

pub(crate) fn max_dec(a: Dec, b: Dec) -> (r: Dec)
    requires
        a.wf(),
        b.wf(),
    ensures
        r == a.larger(b),
        r.wf(),
{
    if less(a, b) {
        b
    } else {
        a
    }
}

pub(crate) fn min_dec(a: Dec, b: Dec) -> (r: Dec)
    requires
        a.wf(),
        b.wf(),
    ensures
        r == a.smaller(b),
        r.wf(),
{
    if less(b, a) {
        b
    } else {
        a
    }
}

/// Powers of ten multiply.
pub proof fn pow10_adds(a: nat, b: nat)
    ensures
        pow10(a + b) == pow10(a) * pow10(b),
    decreases a,
{
    if a > 0 {
        pow10_adds((a - 1) as nat, b);
        assert((a + b - 1) as nat == (a - 1) as nat + b);
        assert(10 * (pow10((a - 1) as nat) * pow10(b)) == (10 * pow10((a - 1) as nat)) * pow10(b))
            by (nonlinear_arith);
    } else {
        assert(pow10(a) * pow10(b) == pow10(b)) by (nonlinear_arith)
            requires
                pow10(a) == 1,
        ;
    }
}

/// A change of scale keeps the value.
pub proof fn scaling_keeps_the_value(d: Dec, s: nat)
    requires
        d.scale <= s <= MAX_SCALE,
    ensures
        d.at_scale(s) * pow10((MAX_SCALE - s) as nat) == d.units(),
{
    let up = (s - d.scale) as nat;
    let rest = (MAX_SCALE - s) as nat;
    pow10_adds(up, rest);
    assert(d.mantissa * pow10(up) * pow10(rest) == d.mantissa * (pow10(up) * pow10(rest)))
        by (nonlinear_arith);
}

/// Where a sum needs no rounding, values add up.
pub proof fn exact_sum_adds(a: Dec, b: Dec)
    requires
        a.wf(),
        b.wf(),
        a.sum_is_exact(b),
    ensures
        a.exact_sum(b).wf(),
        a.exact_sum(b).units() == a.units() + b.units(),
{
    if a.mantissa == 0 {
        assert(a.units() == 0) by (nonlinear_arith)
            requires
                a.units() == a.mantissa * pow10((MAX_SCALE - a.scale) as nat),
                a.mantissa == 0,
        ;
    } else if b.mantissa == 0 {
        assert(b.units() == 0) by (nonlinear_arith)
            requires
                b.units() == b.mantissa * pow10((MAX_SCALE - b.scale) as nat),
                b.mantissa == 0,
        ;
    } else {
        let s = a.joint_scale(b);
        scaling_keeps_the_value(a, s);
        scaling_keeps_the_value(b, s);
        let p = pow10((MAX_SCALE - s) as nat) as int;
        assert((a.at_scale(s) + b.at_scale(s)) * p == a.at_scale(s) * p + b.at_scale(s) * p)
            by (nonlinear_arith);
    }
}

/// Negation negates the value.
pub proof fn neg_negates(a: Dec)
    requires
        a.wf(),
    ensures
        a.neg().wf(),
        a.neg().units() == -a.units(),
{
    let p = pow10((MAX_SCALE - a.scale) as nat) as int;
    assert((-a.mantissa) * p == -(a.mantissa * p)) by (nonlinear_arith);
}

/// The digits before and behind the point of a number.
proof fn lemma_digits(d: Dec)
    requires
        d.wf(),
    ensures
        ({
            let a = if d.mantissa < 0 {
                (-d.mantissa) as nat
            } else {
                d.mantissa as nat
            };
            let p = pow10(d.scale as nat);
            &&& p > 0
            &&& a % p < p
            &&& a == (a / p) * p + a % p
            &&& numeral(a / p).len() > 0
            &&& all_digits(numeral(a / p))
            &&& all_digits(padded(a % p, d.scale as nat))
            &&& padded(a % p, d.scale as nat).len() == d.scale
        }),
{
    let a = if d.mantissa < 0 {
        (-d.mantissa) as nat
    } else {
        d.mantissa as nat
    };
    let p = pow10(d.scale as nat);
    pow10_is_positive(d.scale as nat);
    numeral_reads_back(a / p);
    padded_reads_back(a % p, d.scale as nat);
    vstd::arithmetic::div_mod::lemma_fundamental_div_mod(a as int, p as int);
    vstd::arithmetic::mul::lemma_mul_is_commutative(p as int, (a / p) as int);
}

/// Powers of ten are positive.
pub proof fn pow10_is_positive(n: nat)
    ensures
        pow10(n) > 0,
    decreases n,
{
    if n > 0 {
        pow10_is_positive((n - 1) as nat);
    }
}

/// The notation without its sign.
pub open spec fn unsigned_notation(a: nat, s: nat) -> Seq<char> {
    numeral(a / pow10(s)) + (if s == 0 {
        Seq::empty()
    } else {
        seq!['.'] + padded(a % pow10(s), s)
    })
}

proof fn lemma_unsigned_notation(a: nat, s: nat, b: nat, t: nat)
    requires
        unsigned_notation(a, s) == unsigned_notation(b, t),
    ensures
        a == b,
        s == t,
{
    let p = pow10(s);
    let q = pow10(t);
    pow10_is_positive(s);
    pow10_is_positive(t);
    let x = numeral(a / p);
    let y = numeral(b / q);
    numeral_reads_back(a / p);
    numeral_reads_back(b / q);
    padded_reads_back(a % p, s);
    padded_reads_back(b % q, t);
    let u = unsigned_notation(a, s);
    let v = unsigned_notation(b, t);
    vstd::arithmetic::div_mod::lemma_fundamental_div_mod(a as int, p as int);
    vstd::arithmetic::div_mod::lemma_fundamental_div_mod(b as int, q as int);
    assert(x.len() == y.len()) by {
        if x.len() < y.len() {
            assert(is_digit(y[x.len() as int]));
            assert(v[x.len() as int] == y[x.len() as int]);
            if s == 0 {
                assert(u.len() == x.len());
            } else {
                assert(u[x.len() as int] == '.');
            }
        }
        if y.len() < x.len() {
            assert(is_digit(x[y.len() as int]));
            assert(u[y.len() as int] == x[y.len() as int]);
            if t == 0 {
                assert(v.len() == y.len());
            } else {
                assert(v[y.len() as int] == '.');
            }
        }
    }
    assert(u.take(x.len() as int) =~= x);
    assert(v.take(y.len() as int) =~= y);
    assert(a / p == b / q);
    assert(u.len() == x.len() + (if s == 0 {
        0
    } else {
        1 + s
    }));
    assert(v.len() == y.len() + (if t == 0 {
        0
    } else {
        1 + t
    }));
    assert(s == t);
    if s > 0 {
        assert(u.skip(x.len() as int + 1) =~= padded(a % p, s));
        assert(v.skip(y.len() as int + 1) =~= padded(b % q, t));
        assert(a % p == b % q);
    } else {
        assert(p == 1 && q == 1);
        assert(a % 1 == 0 && b % 1 == 0);
    }
}

/// Two numbers with one notation are the same, with the same decimal places.
pub proof fn notation_is_unique(d: Dec, e: Dec)
    requires
        d.wf(),
        e.wf(),
        d.notation() == e.notation(),
    ensures
        d == e,
{
    let a = if d.mantissa < 0 {
        (-d.mantissa) as nat
    } else {
        d.mantissa as nat
    };
    let b = if e.mantissa < 0 {
        (-e.mantissa) as nat
    } else {
        e.mantissa as nat
    };
    let s = d.scale as nat;
    let t = e.scale as nat;
    lemma_digits(d);
    lemma_digits(e);
    let u = unsigned_notation(a, s);
    let v = unsigned_notation(b, t);
    assert(is_digit(numeral(a / pow10(s))[0]));
    assert(is_digit(numeral(b / pow10(t))[0]));
    assert(u[0] == numeral(a / pow10(s))[0]);
    assert(v[0] == numeral(b / pow10(t))[0]);
    assert(d.notation() =~= (if d.mantissa < 0 {
        seq!['-'] + u
    } else {
        u
    }));
    assert(e.notation() =~= (if e.mantissa < 0 {
        seq!['-'] + v
    } else {
        v
    }));
    if d.mantissa < 0 {
        assert(d.notation()[0] == '-');
        assert(d.notation().skip(1) =~= u);
        assert(e.notation().skip(1) =~= v);
    } else {
        assert(d.notation()[0] == u[0]);
    }
    lemma_unsigned_notation(a, s, b, t);
}

/// What is written of a number reads as the number.
pub proof fn notation_reads_back(d: Dec)
    requires
        d.wf(),
    ensures
        text_value(d.notation()) == Some(d),
{
    assert(is_notation(d.notation()));
    let e = choose|e: Dec| e.wf() && #[trigger] e.notation() == d.notation();
    notation_is_unique(d, e);
}

/// A product that needs no rounding is worth what its factors make together.
pub proof fn exact_product_multiplies(a: Dec, b: Dec)
    requires
        a.wf(),
        b.wf(),
        a.mantissa == 0 || b.mantissa == 0 || (fits(a.mantissa * b.mantissa) && a.scale + b.scale
            <= MAX_SCALE),
    ensures
        product_of(a, b) is Some,
        product_of(a, b)->0.wf(),
        product_of(a, b)->0.units() * integer(1).units() == a.units() * b.units(),
{
    let r = product_of(a, b)->0;
    let one = pow10(28) as int;
    assert(integer(1).units() == 1 * pow10(28));
    let p = pow10((MAX_SCALE - a.scale) as nat) as int;
    let q = pow10((MAX_SCALE - b.scale) as nat) as int;
    let x = a.mantissa as int;
    let y = b.mantissa as int;
    assert(a.units() == x * p && b.units() == y * q);
    if x == 0 || y == 0 {
        assert(r == integer(0));
        assert(r.units() == 0) by (nonlinear_arith)
            requires
                r.units() == 0 * one,
        ;
        assert((x * p) * (y * q) == 0) by (nonlinear_arith)
            requires
                x == 0 || y == 0,
        ;
    } else {
        let t = (MAX_SCALE - (a.scale + b.scale)) as nat;
        let u = pow10(t) as int;
        assert(r.units() == (x * y) * u);
        pow10_adds(t, 28);
        pow10_adds((MAX_SCALE - a.scale) as nat, (MAX_SCALE - b.scale) as nat);
        assert(t + 28 == (MAX_SCALE - a.scale) as nat + (MAX_SCALE - b.scale) as nat);
        assert(u * one == p * q);
        assert(((x * y) * u) * one == (x * p) * (y * q)) by (nonlinear_arith)
            requires
                u * one == p * q,
        ;
    }
}

/// A quotient of mantissas that divide is what has to be multiplied by the divisor
/// for the dividend.
pub proof fn whole_quotient_divides(a: Dec, b: Dec)
    requires
        a.wf(),
        b.wf(),
        b.mantissa != 0,
        a.mantissa as int % b.mantissa as int == 0,
        quotient_of(a, b) is Some,
    ensures
        quotient_of(a, b)->0.wf(),
        quotient_of(a, b)->0.units() * b.units() == a.units() * integer(1).units(),
{
    let r = quotient_of(a, b)->0;
    let one = pow10(28) as int;
    assert(integer(1).units() == 1 * pow10(28));
    let p = pow10((MAX_SCALE - a.scale) as nat) as int;
    let w = pow10((MAX_SCALE - b.scale) as nat) as int;
    let x = a.mantissa as int;
    let y = b.mantissa as int;
    let q = x / y;
    assert(a.units() == x * p && b.units() == y * w);
    if x == 0 {
        assert(r == integer(0));
        assert(r.units() == 0) by (nonlinear_arith)
            requires
                r.units() == 0 * one,
        ;
        assert((x * p) * one == 0) by (nonlinear_arith)
            requires
                x == 0,
        ;
        assert(0 * (y * w) == 0);
    } else {
        assert(x == q * y) by (nonlinear_arith)
            requires
                x % y == 0,
                q == x / y,
                y != 0,
        ;
        assert(-MANTISSA_LIMIT < q < MANTISSA_LIMIT) by (nonlinear_arith)
            requires
                x == q * y,
                y != 0,
                -MANTISSA_LIMIT < x < MANTISSA_LIMIT,
        ;
        if a.scale >= b.scale {
            let t = (MAX_SCALE - (a.scale - b.scale)) as nat;
            let u = pow10(t) as int;
            assert(r.units() == q * u);
            pow10_adds(t, (MAX_SCALE - b.scale) as nat);
            pow10_adds((MAX_SCALE - a.scale) as nat, 28);
            assert(t + (MAX_SCALE - b.scale) as nat == (MAX_SCALE - a.scale) as nat + 28);
            assert((q * u) * (y * w) == (x * p) * one) by (nonlinear_arith)
                requires
                    u * w == p * one,
                    x == q * y,
            ;
        } else {
            let d = (b.scale - a.scale) as nat;
            let e = pow10(d) as int;
            assert(r.units() == (q * e) * one);
            pow10_adds(d, (MAX_SCALE - b.scale) as nat);
            assert(d + (MAX_SCALE - b.scale) as nat == (MAX_SCALE - a.scale) as nat);
            assert(((q * e) * one) * (y * w) == (x * p) * one) by (nonlinear_arith)
                requires
                    e * w == p,
                    x == q * y,
            ;
        }
    }
}

proof fn lemma_half_even_up(m: int, d: int)
    requires
        0 <= m,
        0 < d,
    ensures
        -d <= 2 * (half_even_up(m, d) * d - m) <= d,
        0 <= half_even_up(m, d) <= m / d + 1,
{
    let q = m / d;
    let r = m % d;
    assert(m == q * d + r && 0 <= r < d && 0 <= q) by (nonlinear_arith)
        requires
            q == m / d,
            r == m % d,
            0 <= m,
            0 < d,
    ;
    assert((q + 1) * d == q * d + d) by (nonlinear_arith);
}

/// Rounding leaves no more decimal places than asked for, and moves a value by
/// half of the last of them at most.
pub proof fn rounding_goes_to_the_nearest(d: Dec, places: u32)
    requires
        d.wf(),
        places <= MAX_SCALE,
    ensures
        d.rounded(places).wf(),
        d.rounded(places).scale <= places,
        -pow10((MAX_SCALE - places) as nat) <= 2 * (d.rounded(places).units() - d.units())
            <= pow10((MAX_SCALE - places) as nat),
        d.scale <= places ==> d.rounded(places) == d,
{
    pow10_is_positive((MAX_SCALE - places) as nat);
    if d.scale > places {
        let by = (d.scale - places) as nat;
        let rest = (MAX_SCALE - d.scale) as nat;
        let w = pow10(by) as int;
        let p = pow10(rest) as int;
        pow10_adds(by, rest);
        assert(by + rest == (MAX_SCALE - places) as nat);
        pow10_is_positive(by);
        pow10_is_positive(rest);
        let m = d.mantissa as int;
        let h = half_even(m, w);
        if m < 0 {
            lemma_half_even_up(-m, w);
        } else {
            lemma_half_even_up(m, w);
        }
        let n = if m < 0 {
            -m
        } else {
            m
        };
        assert(w >= 10) by {
            pow10_adds(1, (by - 1) as nat);
            pow10_is_positive((by - 1) as nat);
            assert(pow10(1) == 10 * pow10(0));
            assert(w == 10 * pow10((by - 1) as nat));
        }
        assert(n / w <= n / 10 && n / 10 <= n) by (nonlinear_arith)
            requires
                w >= 10,
                n >= 0,
        ;
        assert(fits(h)) by {
            if n < 10 {
                assert(n / 10 == 0);
            } else {
                assert(n / 10 + 1 <= n);
            }
        }
        let k = half_even_up(n, w);
        assert(-w <= 2 * (h * w - m) <= w) by {
            if m < 0 {
                assert((-k) * w == -(k * w)) by (nonlinear_arith);
            }
        }
        let e = 2 * (h * w - m);
        assert(-(w * p) <= e * p <= w * p) by (nonlinear_arith)
            requires
                -w <= e <= w,
                p > 0,
        ;
        assert(e * p == 2 * (h * (w * p) - m * p)) by (nonlinear_arith)
            requires
                e == 2 * (h * w - m),
        ;
    }
}

/// The larger of two numbers is one of them and below neither; the smaller is
/// one of them and above neither; of two equal ones both are the first.
pub proof fn extremes_are_bounds(a: Dec, b: Dec)
    ensures
        a.larger(b) == a || a.larger(b) == b,
        a.larger(b).units() >= a.units(),
        a.larger(b).units() >= b.units(),
        a.smaller(b) == a || a.smaller(b) == b,
        a.smaller(b).units() <= a.units(),
        a.smaller(b).units() <= b.units(),
        a.units() == b.units() ==> a.larger(b) == a && a.smaller(b) == a,
{
}

} // verus!
