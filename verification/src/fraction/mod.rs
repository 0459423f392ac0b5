pub mod abs;
pub mod add;
pub mod compare;
pub mod convertions;
pub mod div;
pub mod getters;
pub mod laws;
pub mod long_division;
pub mod mul;
pub mod neg;
pub mod new;
pub mod digits;
pub mod operators;
pub mod predicates;
pub mod reverse;
pub mod sub;
pub mod view;

use vstd::prelude::*;
use crate::fraction::view::FractionView;
use crate::fraction::view::lemma_reduced;
use crate::fraction::view::lemma_reduced_is_identity;
use crate::gcd::gcd;
use crate::gcd::lemma_divides_product;
use crate::gcd::lemma_gcd_positive;
use crate::operation_error::ErrorView;
use crate::operation_error::OperationError;
use crate::operation_error::OperationErrorType;
use crate::sign::Sign;
use crate::unsigned_number::UnsignedNumber;

verus! {

/// An exact rational number: a sign and two unsigned integers of type `N`.
///
/// Every fraction this library hands out is in lowest terms, see
/// [`Fraction::wf`].
#[derive(Debug, Clone, Copy, Hash)]
pub struct Fraction<N: UnsignedNumber> {
    sign: Sign,
    numerator: N,
    denominator: N,
}

impl<N: UnsignedNumber> View for Fraction<N> {
    type V = FractionView;

    closed spec fn view(&self) -> FractionView {
        FractionView {
            sign: self.sign,
            numerator: self.numerator.value(),
            denominator: self.denominator.value(),
        }
    }
}

/// The outcome of a fallible operation, as plain values.
pub open spec fn outcome<N: UnsignedNumber>(
    result: Result<Fraction<N>, OperationError>,
) -> Result<FractionView, ErrorView> {
    match result {
        Ok(fraction) => Ok(fraction@),
        Err(error) => Err(error@),
    }
}

impl<N: UnsignedNumber> Fraction<N> {
    /// The invariant of every fraction that leaves this library: lowest
    /// terms, with both parts in the range of `N`.
    pub open spec fn wf(&self) -> bool {
        self@.canonical() && self@.fits(N::max_value())
    }

    /// The error that a multiplication beyond the range of `N` gives.
    pub open spec fn mul_overflow() -> ErrorView {
        ErrorView { kind: OperationErrorType::Overflow, text: N::mul_overflow_text() }
    }

    /// The error that an addition beyond the range of `N` gives.
    pub open spec fn add_overflow() -> ErrorView {
        ErrorView { kind: OperationErrorType::Overflow, text: N::add_overflow_text() }
    }

    /// The parts of every fraction are in the range of `N`.
    pub proof fn lemma_fits(&self)
        ensures
            self@.fits(N::max_value()),
    {
        self.numerator.lemma_in_range();
        self.denominator.lemma_in_range();
    }

    /// A fraction is determined by its sign, numerator and denominator.
    pub proof fn lemma_view_determines(self, other: Fraction<N>)
        ensures
            self@ == other@ ==> self == other,
    {
        self.numerator.lemma_value_determines(other.numerator);
        self.denominator.lemma_value_determines(other.denominator);
    }

    /// The fraction whose sign, numerator and denominator are those of
    /// `v`, where `N` holds such numbers.
    pub open spec fn holding(v: FractionView) -> Fraction<N> {
        choose|fraction: Fraction<N>| fraction@ == v
    }

    /// The factors by which `unify` scales its two operands: none where the
    /// denominators agree, one operand only where its denominator divides
    /// the other, else each by the other's denominator.
    pub open spec fn unify_factors(a: FractionView, b: FractionView) -> (nat, nat) {
        if a.denominator == b.denominator {
            (1, 1)
        } else if b.denominator % a.denominator == 0 {
            (b.denominator / a.denominator, 1)
        } else if a.denominator % b.denominator == 0 {
            (1, a.denominator / b.denominator)
        } else {
            (b.denominator, a.denominator)
        }
    }

    /// The factors of `unify` are positive and lead both denominators to
    /// the same number.
    pub proof fn lemma_unify_factors(a: FractionView, b: FractionView)
        requires
            a.denominator > 0,
            b.denominator > 0,
        ensures
            Self::unify_factors(a, b).0 > 0,
            Self::unify_factors(a, b).1 > 0,
            a.denominator * Self::unify_factors(a, b).0 == b.denominator * Self::unify_factors(
                a,
                b,
            ).1,
    {
        let (ka, kb) = Self::unify_factors(a, b);
        if a.denominator == b.denominator {
        } else if b.denominator % a.denominator == 0 {
            lemma_divides_product(a.denominator, b.denominator);
            if ka == 0 {
                assert(a.denominator * ka == 0) by (nonlinear_arith)
                    requires
                        ka == 0,
                ;
            }
        } else if a.denominator % b.denominator == 0 {
            lemma_divides_product(b.denominator, a.denominator);
            if kb == 0 {
                assert(b.denominator * kb == 0) by (nonlinear_arith)
                    requires
                        kb == 0,
                ;
            }
        } else {
            assert(a.denominator * b.denominator == b.denominator * a.denominator)
                by (nonlinear_arith);
        }
    }

    /// What `unify` returns: both operands scaled to a common denominator,
    /// or an overflow error when a scaled part exceeds the range of `N`.
    pub open spec fn spec_unify(a: FractionView, b: FractionView) -> Result<
        (FractionView, FractionView),
        ErrorView,
    > {
        let (ka, kb) = Self::unify_factors(a, b);
        if a.scaled(ka).fits(N::max_value()) && b.scaled(kb).fits(N::max_value()) {
            Ok((a.scaled(ka), b.scaled(kb)))
        } else {
            Err(Self::mul_overflow())
        }
    }

    /// Numerator and denominator multiplied by `number`; fails with
    /// `Overflow` exactly when one of the products exceeds the range of `N`.
    pub(crate) fn mul_with_number(&self, number: N) -> (result: Result<
        Fraction<N>,
        OperationError,
    >)
        ensures
            match result {
                Ok(scaled) => scaled@ == self@.scaled(number.value()) && scaled@.fits(
                    N::max_value(),
                ),
                Err(error) => error@ == Self::mul_overflow() && !self@.scaled(number.value()).fits(
                    N::max_value(),
                ),
            },
    {
        let numerator = self.numerator.try_mul(number)?;
        let denominator = self.denominator.try_mul(number)?;
        proof {
            numerator.lemma_in_range();
            denominator.lemma_in_range();
        }
        Ok(Fraction { numerator, denominator, sign: self.sign })
    }

    /// Rewrites two fractions over a common denominator, growing them as
    /// little as the denominators allow.
    pub(crate) fn unify(&self, other: &Fraction<N>) -> (result: Result<
        (Fraction<N>, Fraction<N>),
        OperationError,
    >)
        requires
            self.wf(),
            other.wf(),
        ensures
            match result {
                Ok(pair) => Self::spec_unify(self@, other@) == Ok::<
                    (FractionView, FractionView),
                    ErrorView,
                >((pair.0@, pair.1@)),
                Err(error) => Self::spec_unify(self@, other@) == Err::<
                    (FractionView, FractionView),
                    ErrorView,
                >(error@),
            },
    {
        let simplified_self = self.simplify();
        let simplified_other = other.simplify();
        proof {
            N::lemma_constants();
            lemma_reduced_is_identity(self@);
            lemma_reduced_is_identity(other@);
            assert(self@.scaled(1) == self@);
            assert(other@.scaled(1) == other@);
        }
        let x = simplified_self.denominator;
        let y = simplified_other.denominator;
        if x.is_equal(y) {
            Ok((simplified_self, simplified_other))
        } else if y.modulo(x).is_equal(N::ZERO) {
            let scale = y.quotient(x);
            Ok((simplified_self.mul_with_number(scale)?, simplified_other))
        } else if x.modulo(y).is_equal(N::ZERO) {
            let scale = x.quotient(y);
            Ok((simplified_self, simplified_other.mul_with_number(scale)?))
        } else {
            Ok((simplified_self.mul_with_number(y)?, simplified_other.mul_with_number(x)?))
        }
    }

    /// The greatest common divisor of two numbers, by Euclid's algorithm.
    pub(crate) fn find_gcd(a: N, b: N) -> (result: N)
        ensures
            result.value() == gcd(a.value(), b.value()),
    {
        let mut x = a;
        let mut y = b;
        proof {
            N::lemma_constants();
        }
        while !y.is_equal(N::ZERO)
            invariant
                gcd(x.value(), y.value()) == gcd(a.value(), b.value()),
                N::ZERO.value() == 0,
            decreases y.value(),
        {
            let c = y;
            y = x.modulo(y);
            x = c;
        }
        x
    }

    /// Brings sign, numerator and denominator to lowest terms.
    pub(crate) fn simplify(self) -> (result: Fraction<N>)
        requires
            self@.denominator > 0,
        ensures
            result@ == FractionView::reduced(self@.sign, self@.numerator, self@.denominator),
            result.wf(),
    {
        proof {
            N::lemma_constants();
            lemma_reduced(self@.sign, self@.numerator, self@.denominator);
            self.lemma_fits();
        }
        if self.numerator.is_equal(N::ZERO) {
            Fraction { sign: Sign::Positive, numerator: N::ZERO, denominator: N::ONE }
        } else {
            let divisor = Self::find_gcd(self.numerator, self.denominator);
            proof {
                lemma_gcd_positive(self.numerator.value(), self.denominator.value());
            }
            Fraction {
                sign: self.sign,
                numerator: self.numerator.quotient(divisor),
                denominator: self.denominator.quotient(divisor),
            }
        }
    }
}

} // verus!
