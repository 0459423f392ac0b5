use vstd::prelude::*;
use vstd::arithmetic::div_mod::lemma_fundamental_div_mod;
use vstd::arithmetic::div_mod::lemma_fundamental_div_mod_converse;
use vstd::arithmetic::div_mod::lemma_small_mod;
use crate::fraction::Fraction;
use crate::fraction::convertions::lemma_next_remainder;
use crate::fraction::convertions::lemma_proper_stays_proper;
use crate::fraction::convertions::next_remainder;
use crate::fraction::laws::lemma_sum_of_value;
use crate::fraction::view::FractionView;
use crate::fraction::view::lemma_reduced;
use crate::gcd::lemma_gcd_basics;
use crate::sign::Sign;
use crate::text::digit_char;
use crate::text::lemma_pow10_positive;
use crate::text::pow10;
use crate::unsigned_number::UnsignedNumber;

verus! {

/// Equal ratios have equal whole parts.
pub proof fn lemma_equal_ratios_equal_quotients(a: nat, b: nat, c: nat, d: nat)
    requires
        b > 0,
        d > 0,
        a * d == c * b,
    ensures
        a / b == c / d,
{
    let q = (a / b) as int;
    let r = (a % b) as int;
    let ai = a as int;
    let bi = b as int;
    let ci = c as int;
    let di = d as int;
    lemma_fundamental_div_mod(ai, bi);
    let t = ci - q * di;
    assert(bi * t == r * di) by (nonlinear_arith)
        requires
            ai * di == ci * bi,
            ai == bi * q + r,
            t == ci - q * di,
    ;
    assert(0 <= t < di) by (nonlinear_arith)
        requires
            bi * t == r * di,
            0 <= r < bi,
            di > 0,
    ;
    lemma_fundamental_div_mod_converse(ci, di, q, t);
}

/// The whole part of `x * k / d` is `k` times the whole part of `x / d`,
/// plus the whole part of what the remainder of `x / d` gives.
pub proof fn lemma_quotient_split(x: nat, d: nat, k: nat)
    requires
        d > 0,
    ensures
        (x * k) / d == (x / d) * k + ((x % d) * k) / d,
{
    let q = (x / d) as int;
    let m = (x % d) as int;
    let xi = x as int;
    let di = d as int;
    let ki = k as int;
    lemma_fundamental_div_mod(xi, di);
    let u = (m * ki) / di;
    let v = (m * ki) % di;
    lemma_fundamental_div_mod(m * ki, di);
    assert(xi * ki == (q * ki + u) * di + v) by (nonlinear_arith)
        requires
            xi == di * q + m,
            m * ki == di * u + v,
    ;
    lemma_fundamental_div_mod_converse(xi * ki, di, q * ki + u, v);
}

impl<N: UnsignedNumber> Fraction<N> {
    /// Long division takes out the decimal digits of the remainder: after
    /// `precision` steps without overflow the denominator has grown by
    /// `10^precision`, and the numerator holds its earlier digits followed
    /// by the whole part of `r * 10^precision`.
    pub proof fn lemma_decimal_digits_value(
        r: FractionView,
        numerator: nat,
        denominator: nat,
        precision: nat,
    )
        requires
            r.canonical(),
            r.numerator < r.denominator,
            Self::spec_decimal_digits(r, numerator, denominator, precision) is Ok,
        ensures
            Self::spec_decimal_digits(r, numerator, denominator, precision)->Ok_0.1
                == denominator * pow10(precision),
            Self::spec_decimal_digits(r, numerator, denominator, precision)->Ok_0.0 == numerator
                * pow10(precision) + (r.numerator * pow10(precision)) / r.denominator,
        decreases precision,
    {
        if precision == 0 {
            assert(r.numerator * 1 == r.numerator) by (nonlinear_arith);
            assert(numerator * 1 == numerator && denominator * 1 == denominator)
                by (nonlinear_arith);
            vstd::arithmetic::div_mod::lemma_basic_div(r.numerator as int, r.denominator as int);
        } else {
            let k = pow10((precision - 1) as nat);
            let q = (r.numerator * 10) / r.denominator;
            let m = (r.numerator * 10) % r.denominator;
            let next = next_remainder(r);
            lemma_next_remainder(r);
            Self::lemma_decimal_digits_value(
                next,
                numerator * 10 + q,
                denominator * 10,
                (precision - 1) as nat,
            );
            lemma_reduced(Sign::Positive, m, r.denominator);
            assert((next.numerator * k) * r.denominator == (m * k) * next.denominator)
                by (nonlinear_arith)
                requires
                    next.numerator * r.denominator == m * next.denominator,
            ;
            lemma_equal_ratios_equal_quotients(
                next.numerator * k,
                next.denominator,
                m * k,
                r.denominator,
            );
            lemma_quotient_split(r.numerator * 10, r.denominator, k);
            assert((r.numerator * 10) * k == r.numerator * (10 * k)) by (nonlinear_arith);
            assert((denominator * 10) * k == denominator * (10 * k)) by (nonlinear_arith);
            assert((numerator * 10 + q) * k == numerator * (10 * k) + q * k) by (nonlinear_arith);
        }
    }

    /// The digit that long division of `r` writes at place `place` after
    /// the point, counted from one: the last digit of the whole part of `r
    /// * 10^place`.
    pub open spec fn decimal_digit(r: FractionView, place: nat) -> nat {
        ((r.numerator * pow10(place)) / r.denominator) % 10
    }

    /// Long division writes the decimal digits of the remainder: without
    /// overflow it gives `precision` characters, and the one at each
    /// place is the digit of the remainder's decimal expansion there.
    pub proof fn law_remainder_text_digits(r: FractionView, precision: nat)
        requires
            r.canonical(),
            r.numerator < r.denominator,
            Self::spec_remainder_text(r, precision) is Ok,
        ensures
            Self::spec_remainder_text(r, precision)->Ok_0.len() == precision,
            forall|i: int|
                0 <= i < precision ==> #[trigger] Self::spec_remainder_text(
                    r,
                    precision,
                )->Ok_0[i] == digit_char(Self::decimal_digit(r, (i + 1) as nat)),
        decreases precision,
    {
        if precision > 0 {
            let text = Self::spec_remainder_text(r, precision)->Ok_0;
            let next = next_remainder(r);
            let rest = Self::spec_remainder_text(next, (precision - 1) as nat)->Ok_0;
            let q = (r.numerator * 10) / r.denominator;
            let m = (r.numerator * 10) % r.denominator;
            lemma_next_remainder(r);
            Self::law_remainder_text_digits(next, (precision - 1) as nat);
            lemma_reduced(Sign::Positive, m, r.denominator);
            assert(text =~= seq![digit_char(q)] + rest);
            assert forall|i: int| 0 <= i < precision implies #[trigger] text[i] == digit_char(
                Self::decimal_digit(r, (i + 1) as nat),
            ) by {
                if i == 0 {
                    assert(pow10(1) == 10) by {
                        reveal_with_fuel(pow10, 2);
                    }
                    assert(r.numerator * 10 == r.numerator * pow10(1));
                    lemma_small_mod(q, 10);
                } else {
                    let k = pow10(i as nat);
                    let lower = pow10((i - 1) as nat);
                    assert(text[i] == rest[i - 1]);
                    assert((next.numerator * k) * r.denominator == (m * k) * next.denominator)
                        by (nonlinear_arith)
                        requires
                            next.numerator * r.denominator == m * next.denominator,
                    ;
                    lemma_equal_ratios_equal_quotients(
                        next.numerator * k,
                        next.denominator,
                        m * k,
                        r.denominator,
                    );
                    lemma_quotient_split(r.numerator * 10, r.denominator, k);
                    assert((r.numerator * 10) * k == r.numerator * (10 * k)) by (nonlinear_arith);
                    let y = (m * k) / r.denominator;
                    assert(q * k == 10 * (q * lower)) by (nonlinear_arith)
                        requires
                            k == 10 * lower,
                    ;
                    vstd::arithmetic::div_mod::lemma_mod_multiples_vanish(
                        (q * lower) as int,
                        y as int,
                        10,
                    );
                }
            }
        }
    }

    /// Cutting a fraction off after `precision` decimal digits gives, in
    /// lowest terms, the whole part of the magnitude times `10^precision`,
    /// over `10^precision`, under the sign of the fraction.
    pub proof fn law_to_decimal_value(a: Fraction<N>, precision: nat)
        requires
            a.wf(),
            Self::spec_try_to_decimal(a@, precision) is Ok,
        ensures
            Self::spec_try_to_decimal(a@, precision)->Ok_0.canonical(),
            Self::spec_try_to_decimal(a@, precision)->Ok_0.has_value(
                a@.sign.factor() * ((a@.numerator * pow10(precision)) / a@.denominator),
                pow10(precision) as int,
            ),
    {
        let n = a@.numerator;
        let d = a@.denominator;
        let power = pow10(precision);
        lemma_pow10_positive(precision);
        if n == 0 {
            lemma_gcd_basics(1);
            assert(0 * power == 0) by (nonlinear_arith);
            lemma_small_mod(0, d);
            vstd::arithmetic::div_mod::lemma_basic_div(0, d as int);
        } else {
            let start = FractionView::reduced(Sign::Positive, n % d, d);
            lemma_reduced(Sign::Positive, n % d, d);
            lemma_proper_stays_proper(n % d, d);
            Self::lemma_decimal_digits_value(start, 0, 1, precision);
            let digits = Self::spec_decimal_digits(start, 0, 1, precision)->Ok_0.0;
            assert(1 * power == power && 0 * power == 0) by (nonlinear_arith);
            let m = n % d;
            assert((start.numerator * power) * d == (m * power) * start.denominator)
                by (nonlinear_arith)
                requires
                    start.numerator * d == m * start.denominator,
            ;
            lemma_equal_ratios_equal_quotients(
                start.numerator * power,
                start.denominator,
                m * power,
                d,
            );
            lemma_quotient_split(n, d, power);
            let whole = n / d;
            let total = (n * power) / d;
            assert(total == whole * power + digits);
            let sign = a@.sign;
            let x = FractionView::reduced(sign, digits, power);
            let y = FractionView::reduced(sign, whole, 1);
            lemma_reduced(sign, digits, power);
            lemma_reduced(sign, whole, 1);
            lemma_gcd_basics(whole);
            vstd::arithmetic::div_mod::lemma_div_basics(whole as int);
            assert(y.denominator == 1);
            assert(y.numerator == whole);
            let f = sign.factor();
            assert(y.signed_numerator() == f * whole);
            let result = Self::spec_try_add(x, y)->Ok_0;
            Self::lemma_sum_value(x, y);
            assert(x.has_value(f * digits, power as int));
            assert(x.denominator * 1 == x.denominator) by (nonlinear_arith);
            assert(x.signed_numerator() * 1 == x.signed_numerator()) by (nonlinear_arith);
            lemma_sum_of_value(result, x, f * digits, power as int, f * whole, 1);
            assert((f * digits) * 1 + (f * whole) * power == f * total) by (nonlinear_arith)
                requires
                    total == whole * power + digits,
            ;
            assert(power * 1 == power) by (nonlinear_arith);
        }
    }
}

} // verus!
