use vstd::prelude::*;
use vstd::std_specs::convert::FromSpecImpl;
use vstd::string::StringExecFns;
use crate::fraction::Fraction;
use crate::fraction::outcome;
use crate::fraction::view::FractionView;
use crate::fraction::view::lemma_reduced;
use crate::gcd::lemma_gcd_basics;
use crate::operation_error::ErrorView;
use crate::operation_error::OperationError;
use crate::sign::Sign;
use crate::text::decimal_text;
use crate::text::digit_char;
use crate::text::digit_text;
use crate::text::render_decimal;
use crate::unsigned_number::UnsignedNumber;

verus! {

/// The remainder of long division after one more digit is taken out: ten
/// times the remainder, less the whole denominators in it, in lowest terms.
pub open spec fn next_remainder(r: FractionView) -> FractionView {
    FractionView::reduced(Sign::Positive, (r.numerator * 10) % r.denominator, r.denominator)
}

/// A remainder below one stays below one through a step of long division,
/// and the digit taken out is at most nine.
pub proof fn lemma_next_remainder(r: FractionView)
    requires
        r.canonical(),
        r.numerator < r.denominator,
    ensures
        next_remainder(r).canonical(),
        next_remainder(r).numerator < next_remainder(r).denominator,
        next_remainder(r).denominator <= r.denominator,
        (r.numerator * 10) / r.denominator < 10,
        r.numerator == 0 ==> next_remainder(r) == r,
{
    let n = (r.numerator * 10) % r.denominator;
    let d = r.denominator;
    lemma_reduced(Sign::Positive, n, d);
    lemma_proper_stays_proper(n, d);
    let q = (r.numerator * 10) / r.denominator;
    vstd::arithmetic::div_mod::lemma_fundamental_div_mod((r.numerator * 10) as int, d as int);
    assert(q < 10) by (nonlinear_arith)
        requires
            r.numerator * 10 == d * q + n,
            r.numerator < d,
            n >= 0,
            d > 0,
    ;
    if r.numerator == 0 {
        lemma_gcd_basics(d);
    }
}

/// Reducing a ratio below one gives a ratio below one.
pub proof fn lemma_proper_stays_proper(n: nat, d: nat)
    requires
        n < d,
    ensures
        FractionView::reduced(Sign::Positive, n, d).numerator < FractionView::reduced(
            Sign::Positive,
            n,
            d,
        ).denominator,
{
    lemma_reduced(Sign::Positive, n, d);
    let x = FractionView::reduced(Sign::Positive, n, d).numerator;
    let y = FractionView::reduced(Sign::Positive, n, d).denominator;
    assert(x < y) by (nonlinear_arith)
        requires
            x * d == n * y,
            n < d,
            y > 0,
    ;
}

impl<N: UnsignedNumber> Fraction<N> {
    /// The default rendering: `0` for zero, else the sign, the numerator,
    /// a slash and the denominator.
    pub open spec fn ratio_text(v: FractionView) -> Seq<char> {
        if v.numerator == 0 && v.denominator != 0 {
            "0"@
        } else {
            v.sign.text() + decimal_text(v.numerator) + "/"@ + decimal_text(v.denominator)
        }
    }

    /// The fraction as text: `0` for zero, else sign, numerator, slash and
    /// denominator, as in `+10/3`.
    pub fn to_ratio_string(&self) -> (result: String)
        ensures
            result@ == Self::ratio_text(self@),
    {
        if self.is_zero() {
            "0".to_owned()
        } else {
            let mut text = self.sign().to_string();
            let numerator = render_decimal(self.numerator().to_u128());
            text.append(numerator.as_str());
            text.append("/");
            let denominator = render_decimal(self.denominator().to_u128());
            text.append(denominator.as_str());
            text
        }
    }

    /// What long division of the remainder `r` gives after `precision`
    /// more digits, starting from the digits `numerator` over the power
    /// of ten `denominator`: the digits over the power of ten, or the
    /// error of the first step that leaves the range of `N`.
    pub open spec fn spec_decimal_digits(
        r: FractionView,
        numerator: nat,
        denominator: nat,
        precision: nat,
    ) -> Result<(nat, nat), ErrorView>
        decreases precision,
    {
        if precision == 0 {
            Ok((numerator, denominator))
        } else if r.numerator * 10 > N::max_value() {
            Err(Self::mul_overflow())
        } else if numerator * 10 > N::max_value() {
            Err(Self::mul_overflow())
        } else if numerator * 10 + (r.numerator * 10) / r.denominator > N::max_value() {
            Err(Self::add_overflow())
        } else if denominator * 10 > N::max_value() {
            Err(Self::mul_overflow())
        } else {
            Self::spec_decimal_digits(
                next_remainder(r),
                numerator * 10 + (r.numerator * 10) / r.denominator,
                denominator * 10,
                (precision - 1) as nat,
            )
        }
    }

    /// What `try_to_decimal` returns: zero for zero; else the whole part
    /// plus the first `precision` decimal digits of the rest, under the
    /// sign of the fraction, or the first overflow on the way.
    pub open spec fn spec_try_to_decimal(v: FractionView, precision: nat) -> Result<
        FractionView,
        ErrorView,
    > {
        if v.numerator == 0 {
            Ok(FractionView::zero())
        } else {
            match Self::spec_decimal_digits(
                FractionView::reduced(Sign::Positive, v.numerator % v.denominator, v.denominator),
                0,
                1,
                precision,
            ) {
                Err(error) => Err(error),
                Ok((digits, power)) => Self::spec_try_add(
                    FractionView::reduced(v.sign, digits, power),
                    FractionView::reduced(v.sign, v.numerator / v.denominator, 1),
                ),
            }
        }
    }

    /// The fraction cut off after `precision` decimal digits, where
    /// nothing overflows on the way.
    pub fn to_decimal(&self, precision: usize) -> (result: Fraction<N>)
        requires
            self.wf(),
            Self::spec_try_to_decimal(self@, precision as nat) is Ok,
        ensures
            result.wf(),
            Ok::<FractionView, ErrorView>(result@) == Self::spec_try_to_decimal(
                self@,
                precision as nat,
            ),
    {
        self.try_to_decimal(precision).unwrap()
    }

    /// The fraction cut off after `precision` decimal digits, found by
    /// long division of the remainder; fails with `Overflow` exactly when
    /// a step of the division, or the final addition of the whole part,
    /// leaves the range of `N`.
    pub fn try_to_decimal(&self, precision: usize) -> (result: Result<Fraction<N>, OperationError>)
        requires
            self.wf(),
        ensures
            outcome(result) == Self::spec_try_to_decimal(self@, precision as nat),
            result is Ok ==> result->Ok_0.wf(),
    {
        if self.is_zero() {
            Ok(Fraction::new_zero())
        } else {
            let mut new_numerator = N::ZERO;
            let mut new_denominator = N::ONE;
            let mut remainder = self.abs().remainder();
            let ghost start = remainder@;
            let mut i: usize = 0;
            proof {
                N::lemma_constants();
                lemma_proper_stays_proper(self@.numerator % self@.denominator, self@.denominator);
            }
            while i < precision
                invariant
                    i <= precision,
                    remainder.wf(),
                    remainder@.numerator < remainder@.denominator,
                    new_denominator.value() > 0,
                    self.wf(),
                    self@.numerator != 0,
                    start == FractionView::reduced(
                        Sign::Positive,
                        self@.numerator % self@.denominator,
                        self@.denominator,
                    ),
                    N::ZERO.value() == 0,
                    N::ONE.value() == 1,
                    N::TEN.value() == 10,
                    Self::spec_decimal_digits(start, 0, 1, precision as nat)
                        == Self::spec_decimal_digits(
                        remainder@,
                        new_numerator.value(),
                        new_denominator.value(),
                        (precision - i) as nat,
                    ),
                decreases precision - i,
            {
                proof {
                    lemma_next_remainder(remainder@);
                }
                if !remainder.is_zero() {
                    let bigger_numerator = remainder.numerator().try_mul(N::TEN)?;
                    let digit = bigger_numerator.quotient(remainder.denominator());
                    proof {
                        bigger_numerator.lemma_in_range();
                    }
                    let shifted = new_numerator.try_mul(N::TEN)?;
                    proof {
                        shifted.lemma_in_range();
                    }
                    new_numerator = shifted.try_add(digit)?;
                    proof {
                        new_numerator.lemma_in_range();
                    }
                    new_denominator = new_denominator.try_mul(N::TEN)?;
                    proof {
                        new_denominator.lemma_in_range();
                    }
                    remainder = Fraction::new(
                        Sign::Positive,
                        bigger_numerator.modulo(remainder.denominator()),
                        remainder.denominator(),
                    );
                } else {
                    new_numerator = new_numerator.try_mul(N::TEN)?;
                    proof {
                        new_numerator.lemma_in_range();
                    }
                    new_denominator = new_denominator.try_mul(N::TEN)?;
                    proof {
                        new_denominator.lemma_in_range();
                    }
                }
                i += 1;
            }
            let digits = Fraction::try_new(self.sign(), new_numerator, new_denominator)?;
            let whole = Fraction::try_new(self.sign(), self.trunc(), N::ONE)?;
            digits.try_add(&whole)
        }
    }

    /// The first `precision` decimal digits of the remainder `r`, or the
    /// error of the first step of long division that leaves the range of
    /// `N`.
    pub open spec fn spec_remainder_text(r: FractionView, precision: nat) -> Result<
        Seq<char>,
        ErrorView,
    >
        decreases precision,
    {
        if precision == 0 {
            Ok(Seq::empty())
        } else if r.numerator * 10 > N::max_value() {
            Err(Self::mul_overflow())
        } else {
            match Self::spec_remainder_text(next_remainder(r), (precision - 1) as nat) {
                Err(error) => Err(error),
                Ok(rest) => Ok(seq![digit_char((r.numerator * 10) / r.denominator)] + rest),
            }
        }
    }

    /// What `try_to_decimal_string` returns: a minus sign below zero, the
    /// whole part, a point and `precision` digits.
    pub open spec fn spec_decimal_string(v: FractionView, precision: nat) -> Result<
        Seq<char>,
        ErrorView,
    > {
        match Self::spec_remainder_text(
            FractionView::reduced(Sign::Positive, v.numerator % v.denominator, v.denominator),
            precision,
        ) {
            Err(error) => Err(error),
            Ok(digits) => Ok(
                (if v.numerator != 0 && v.sign == Sign::Negative {
                    "-"@
                } else {
                    Seq::empty()
                }) + decimal_text(v.numerator / v.denominator) + "."@ + digits,
            ),
        }
    }

    /// The digits after the point, `precision` of them, by long division.
    pub fn get_remainder_decimal_string(&self, precision: usize) -> (result: Result<
        String,
        OperationError,
    >)
        requires
            self.wf(),
        ensures
            match result {
                Ok(text) => Ok::<Seq<char>, ErrorView>(text@) == Self::spec_remainder_text(
                    FractionView::reduced(
                        Sign::Positive,
                        self@.numerator % self@.denominator,
                        self@.denominator,
                    ),
                    precision as nat,
                ),
                Err(error) => Err::<Seq<char>, ErrorView>(error@) == Self::spec_remainder_text(
                    FractionView::reduced(
                        Sign::Positive,
                        self@.numerator % self@.denominator,
                        self@.denominator,
                    ),
                    precision as nat,
                ),
            },
    {
        let mut text = String::new();
        let mut remainder = self.abs().remainder();
        let ghost start = remainder@;
        let mut i: usize = 0;
        proof {
            N::lemma_constants();
            lemma_proper_stays_proper(self@.numerator % self@.denominator, self@.denominator);
        }
        while i < precision
            invariant
                i <= precision,
                remainder.wf(),
                remainder@.numerator < remainder@.denominator,
                self.wf(),
                start == FractionView::reduced(
                    Sign::Positive,
                    self@.numerator % self@.denominator,
                    self@.denominator,
                ),
                N::ZERO.value() == 0,
                N::TEN.value() == 10,
                Self::spec_remainder_text(start, precision as nat) == (match Self::spec_remainder_text(
                    remainder@,
                    (precision - i) as nat,
                ) {
                    Err(error) => Err::<Seq<char>, ErrorView>(error),
                    Ok(rest) => Ok::<Seq<char>, ErrorView>(text@ + rest),
                }),
            decreases precision - i,
        {
            proof {
                lemma_next_remainder(remainder@);
            }
            let ghost before = text@;
            let ghost current = remainder@;
            if !remainder.is_zero() {
                let bigger_numerator = remainder.numerator().try_mul(N::TEN)?;
                let digit = bigger_numerator.quotient(remainder.denominator());
                proof {
                    bigger_numerator.lemma_in_range();
                }
                let small = digit.to_u128();
                text.append(digit_text(small as u8));
                remainder = Fraction::new(
                    Sign::Positive,
                    bigger_numerator.modulo(remainder.denominator()),
                    remainder.denominator(),
                );
            } else {
                text.append(digit_text(0));
            }
            i += 1;
            proof {
                let rest = Self::spec_remainder_text(remainder@, (precision - i) as nat);
                let digit = seq![digit_char((current.numerator * 10) / current.denominator)];
                assert(remainder@ == next_remainder(current));
                assert(current.numerator * 10 <= N::max_value());
                assert(text@ == before + digit);
                if rest is Ok {
                    assert(text@ + rest->Ok_0 =~= before + (digit + rest->Ok_0));
                }
            }
        }
        assert(text@ + Seq::<char>::empty() =~= text@);
        Ok(text)
    }

    /// The fraction in decimal notation with `precision` digits after the
    /// point, cut off, not rounded; fails with `Overflow` exactly when a
    /// step of the long division leaves the range of `N`.
    pub fn try_to_decimal_string(&self, precision: usize) -> (result: Result<
        String,
        OperationError,
    >)
        requires
            self.wf(),
        ensures
            match result {
                Ok(text) => Ok::<Seq<char>, ErrorView>(text@) == Self::spec_decimal_string(
                    self@,
                    precision as nat,
                ),
                Err(error) => Err::<Seq<char>, ErrorView>(error@) == Self::spec_decimal_string(
                    self@,
                    precision as nat,
                ),
            },
    {
        let digits = self.get_remainder_decimal_string(precision)?;
        let mut text = String::new();
        if self.is_negative() {
            text.append("-");
        }
        let whole = render_decimal(self.abs().trunc().to_u128());
        text.append(whole.as_str());
        text.append(".");
        text.append(digits.as_str());
        assert(Seq::<char>::empty() + "-"@ =~= "-"@);
        Ok(text)
    }
}

impl<N: UnsignedNumber> From<N> for Fraction<N> {
    /// The natural number `number`, over one.
    fn from(number: N) -> (result: Fraction<N>)
        ensures
            result.wf(),
            result@ == FractionView::natural(number.value()),
    {
        proof {
            N::lemma_constants();
            lemma_gcd_basics(number.value());
            N::ONE.lemma_in_range();
            number.lemma_in_range();
        }
        Fraction { sign: Sign::Positive, numerator: number, denominator: N::ONE }
    }
}

impl<N: UnsignedNumber> FromSpecImpl<N> for Fraction<N> {
    open spec fn obeys_from_spec() -> bool {
        true
    }

    closed spec fn from_spec(number: N) -> Fraction<N> {
        Fraction { sign: Sign::Positive, numerator: number, denominator: N::ONE }
    }
}

impl<'a, N: UnsignedNumber> FromSpecImpl<&'a N> for Fraction<N> {
    open spec fn obeys_from_spec() -> bool {
        true
    }

    closed spec fn from_spec(number: &'a N) -> Fraction<N> {
        Fraction { sign: Sign::Positive, numerator: *number, denominator: N::ONE }
    }
}

impl<'a, N: UnsignedNumber> From<&'a N> for Fraction<N> {
    /// The natural number `number`, over one.
    fn from(number: &'a N) -> (result: Fraction<N>)
        ensures
            result.wf(),
            result@ == FractionView::natural(number.value()),
    {
        proof {
            N::lemma_constants();
            lemma_gcd_basics(number.value());
            N::ONE.lemma_in_range();
            number.lemma_in_range();
        }
        Fraction { sign: Sign::Positive, numerator: *number, denominator: N::ONE }
    }
}

} // verus!
