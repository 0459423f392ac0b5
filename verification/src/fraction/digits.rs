use vstd::prelude::*;
use vstd::string::StrSliceExecFns;
use crate::fraction::Fraction;
use crate::fraction::outcome;
use crate::fraction::view::FractionView;
use crate::operation_error::ErrorView;
use crate::operation_error::OperationError;
use crate::operation_error::OperationErrorType;
use crate::sign::Sign;
use crate::text::decimal_value;
use crate::text::lemma_pow10_positive;
use crate::text::pow10;
use crate::unsigned_number::UnsignedNumber;

verus! {

/// The value of a decimal digit character, if it is one.
pub open spec fn digit_of(c: char) -> Option<u8> {
    if c == '0' {
        Some(0u8)
    } else if c == '1' {
        Some(1u8)
    } else if c == '2' {
        Some(2u8)
    } else if c == '3' {
        Some(3u8)
    } else if c == '4' {
        Some(4u8)
    } else if c == '5' {
        Some(5u8)
    } else if c == '6' {
        Some(6u8)
    } else if c == '7' {
        Some(7u8)
    } else if c == '8' {
        Some(8u8)
    } else if c == '9' {
        Some(9u8)
    } else {
        None
    }
}

/// The digits that a text of decimal digits holds, or nothing where a
/// character is no digit.
pub open spec fn digits_of(s: Seq<char>) -> Option<Seq<u8>>
    decreases s.len(),
{
    if s.len() == 0 {
        Some(Seq::empty())
    } else {
        match (digits_of(s.drop_last()), digit_of(s.last())) {
            (Some(digits), Some(digit)) => Some(digits.push(digit)),
            _ => None,
        }
    }
}

/// The text without its minus signs.
pub open spec fn without_minus(s: Seq<char>) -> Seq<char>
    decreases s.len(),
{
    if s.len() == 0 {
        Seq::empty()
    } else if s.last() == '-' {
        without_minus(s.drop_last())
    } else {
        without_minus(s.drop_last()).push(s.last())
    }
}

/// The text without one leading plus sign.
pub open spec fn without_plus(s: Seq<char>) -> Seq<char> {
    if s.len() > 0 && s[0] == '+' {
        s.skip(1)
    } else {
        s
    }
}

/// The value of a decimal digit character, if it is one.
pub fn read_digit(c: char) -> (result: Option<u8>)
    ensures
        result == digit_of(c),
{
    if c == '0' {
        Some(0)
    } else if c == '1' {
        Some(1)
    } else if c == '2' {
        Some(2)
    } else if c == '3' {
        Some(3)
    } else if c == '4' {
        Some(4)
    } else if c == '5' {
        Some(5)
    } else if c == '6' {
        Some(6)
    } else if c == '7' {
        Some(7)
    } else if c == '8' {
        Some(8)
    } else if c == '9' {
        Some(9)
    } else {
        None
    }
}

/// The characters of a text, with or without its minus signs.
pub fn read_chars(text: &str, drop_minus: bool) -> (result: Vec<char>)
    ensures
        result@ == if drop_minus {
            without_minus(text@)
        } else {
            text@
        },
{
    let length = text.unicode_len();
    let mut chars: Vec<char> = Vec::new();
    let mut i: usize = 0;
    while i < length
        invariant
            i <= length,
            length == text@.len(),
            chars@ == if drop_minus {
                without_minus(text@.take(i as int))
            } else {
                text@.take(i as int)
            },
        decreases length - i,
    {
        let c = text.get_char(i);
        assert(text@.take(i + 1).drop_last() =~= text@.take(i as int));
        assert(text@.take(i + 1) =~= text@.take(i as int).push(c));
        if !(drop_minus && c == '-') {
            chars.push(c);
        }
        i += 1;
    }
    assert(text@.take(length as int) =~= text@);
    chars
}

/// The digits of a text from position `from` on, or nothing where a
/// character there is no digit.
pub fn read_digits(chars: &Vec<char>, from: usize) -> (result: Option<Vec<u8>>)
    requires
        from <= chars.len(),
    ensures
        match result {
            Some(digits) => digits_of(chars@.skip(from as int)) == Some(digits@),
            None => digits_of(chars@.skip(from as int)) is None,
        },
{
    let mut digits: Vec<u8> = Vec::new();
    let mut i: usize = from;
    let ghost tail = chars@.skip(from as int);
    while i < chars.len()
        invariant
            from <= i <= chars.len(),
            tail == chars@.skip(from as int),
            digits_of(tail.take(i - from)) == Some(digits@),
        decreases chars.len() - i,
    {
        let c = chars[i];
        proof {
            assert(tail.take(i + 1 - from).drop_last() =~= tail.take(i - from));
            assert(tail.take(i + 1 - from).last() == c);
        }
        match read_digit(c) {
            Some(digit) => {
                digits.push(digit);
            },
            None => {
                proof {
                    lemma_digits_of_prefix(tail, i + 1 - from);
                }
                return None;
            },
        }
        i += 1;
    }
    assert(tail.take(chars.len() - from) =~= tail);
    Some(digits)
}

/// A text holds digits only if each of its beginnings does.
pub proof fn lemma_digits_of_prefix(s: Seq<char>, n: int)
    requires
        0 <= n <= s.len(),
        digits_of(s.take(n)) is None,
    ensures
        digits_of(s) is None,
    decreases s.len(),
{
    if n < s.len() {
        assert(s.drop_last().take(n) =~= s.take(n));
        lemma_digits_of_prefix(s.drop_last(), n);
    } else {
        assert(s.take(n) =~= s);
    }
}

impl<N: UnsignedNumber> Fraction<N> {
    /// The number that digits spell when each is appended to ten times
    /// what came before, starting from `start`; or the error of the first
    /// step that leaves the range of `N`.
    pub open spec fn spec_accumulate(start: nat, digits: Seq<u8>) -> Result<nat, ErrorView>
        decreases digits.len(),
    {
        if digits.len() == 0 {
            Ok(start)
        } else if start * 10 > N::max_value() {
            Err(Self::mul_overflow())
        } else if start * 10 + digits[0] > N::max_value() {
            Err(Self::add_overflow())
        } else {
            Self::spec_accumulate(start * 10 + digits[0] as nat, digits.skip(1))
        }
    }

    /// Appends digits to a number, each to ten times what came before.
    pub fn accumulate_digits(digits: &Vec<u8>) -> (result: Result<N, OperationError>)
        ensures
            match result {
                Ok(number) => Self::spec_accumulate(0, digits@) == Ok::<nat, ErrorView>(
                    number.value(),
                ),
                Err(error) => Self::spec_accumulate(0, digits@) == Err::<nat, ErrorView>(error@),
            },
    {
        let mut numerator = N::ZERO;
        let mut i: usize = 0;
        proof {
            N::lemma_constants();
            assert(digits@.skip(0) =~= digits@);
        }
        while i < digits.len()
            invariant
                i <= digits.len(),
                N::TEN.value() == 10,
                Self::spec_accumulate(0, digits@) == Self::spec_accumulate(
                    numerator.value(),
                    digits@.skip(i as int),
                ),
            decreases digits.len() - i,
        {
            proof {
                assert(digits@.skip(i as int).skip(1) =~= digits@.skip(i + 1));
            }
            let shifted = numerator.try_mul(N::TEN)?;
            proof {
                shifted.lemma_in_range();
            }
            numerator = shifted.try_add(N::from_u8(digits[i]))?;
            proof {
                numerator.lemma_in_range();
            }
            i += 1;
        }
        Ok(numerator)
    }

    /// Appending digits spells a number: the start shifted left by as many
    /// places as there are digits, plus the number that the digits spell.
    /// The appending fails exactly when that number is beyond the range
    /// of `N`.
    pub proof fn lemma_accumulate_value(start: nat, digits: Seq<u8>)
        ensures
            match Self::spec_accumulate(start, digits) {
                Ok(number) => number == start * pow10(digits.len()) + decimal_value(digits),
                Err(error) => error.kind == OperationErrorType::Overflow && start * pow10(
                    digits.len(),
                ) + decimal_value(digits) > N::max_value(),
            },
        decreases digits.len(),
    {
        if digits.len() == 0 {
            assert(start * 1 == start) by (nonlinear_arith);
        } else {
            let k = pow10((digits.len() - 1) as nat);
            let first = digits[0] as nat;
            let rest = digits.skip(1);
            lemma_pow10_positive((digits.len() - 1) as nat);
            Self::lemma_accumulate_value(start * 10 + first, rest);
            assert(start * (10 * k) + first * k == (start * 10 + first) * k) by (nonlinear_arith);
            assert((start * 10 + first) * k >= start * 10 + first) by (nonlinear_arith)
                requires
                    k > 0,
            ;
        }
    }

    /// Appending digits after a point spells a numerator as
    /// `lemma_accumulate_value` says, over a denominator grown by one power
    /// of ten for each digit. The appending fails exactly when one of the
    /// two is beyond the range of `N`.
    pub proof fn law_accumulate_fraction_value(
        numerator: nat,
        denominator: nat,
        digits: Seq<u8>,
    )
        ensures
            match Self::spec_accumulate_fraction(numerator, denominator, digits) {
                Ok(pair) => pair.0 == numerator * pow10(digits.len()) + decimal_value(digits)
                    && pair.1 == denominator * pow10(digits.len()),
                Err(error) => error.kind == OperationErrorType::Overflow && (numerator * pow10(
                    digits.len(),
                ) + decimal_value(digits) > N::max_value() || denominator * pow10(digits.len())
                    > N::max_value()),
            },
        decreases digits.len(),
    {
        if digits.len() == 0 {
            assert(numerator * 1 == numerator && denominator * 1 == denominator)
                by (nonlinear_arith);
        } else {
            let k = pow10((digits.len() - 1) as nat);
            let first = digits[0] as nat;
            let rest = digits.skip(1);
            lemma_pow10_positive((digits.len() - 1) as nat);
            Self::law_accumulate_fraction_value(numerator * 10 + first, denominator * 10, rest);
            assert(numerator * (10 * k) + first * k == (numerator * 10 + first) * k)
                by (nonlinear_arith);
            assert((numerator * 10 + first) * k >= numerator * 10 + first) by (nonlinear_arith)
                requires
                    k > 0,
            ;
            assert(denominator * (10 * k) == (denominator * 10) * k) by (nonlinear_arith);
            assert((denominator * 10) * k >= denominator * 10) by (nonlinear_arith)
                requires
                    k > 0,
            ;
        }
    }

    /// Reading a natural number gives the number that its digits spell,
    /// wherever the text is digits after at most one plus sign and the
    /// number is in the range of `N`; and nothing otherwise.
    pub proof fn law_parse_natural_value(s: Seq<char>)
        ensures
            Self::spec_parse_natural(s) == (if without_plus(s).len() > 0 && digits_of(
                without_plus(s),
            ) is Some && decimal_value(digits_of(without_plus(s))->Some_0) <= N::max_value() {
                Some(decimal_value(digits_of(without_plus(s))->Some_0))
            } else {
                None
            }),
    {
        if digits_of(without_plus(s)) is Some {
            let digits = digits_of(without_plus(s))->Some_0;
            Self::lemma_accumulate_value(0, digits);
            assert(0 * pow10(digits.len()) == 0) by (nonlinear_arith);
            if Self::spec_accumulate(0, digits) is Ok {
                Self::lemma_accumulate_in_range(0, digits);
            }
        }
    }

    /// What appending digits gives is in the range of `N`, if the start is.
    pub proof fn lemma_accumulate_in_range(start: nat, digits: Seq<u8>)
        requires
            start <= N::max_value(),
            Self::spec_accumulate(start, digits) is Ok,
        ensures
            Self::spec_accumulate(start, digits)->Ok_0 <= N::max_value(),
        decreases digits.len(),
    {
        if digits.len() > 0 {
            Self::lemma_accumulate_in_range(start * 10 + digits[0] as nat, digits.skip(1));
        }
    }

    /// What `parse_natural` reads: a text of decimal digits, after at
    /// most one plus sign, that spells a number in the range of `N`.
    pub open spec fn spec_parse_natural(s: Seq<char>) -> Option<nat> {
        let body = without_plus(s);
        if body.len() == 0 {
            None
        } else {
            match digits_of(body) {
                None => None,
                Some(digits) => match Self::spec_accumulate(0, digits) {
                    Ok(number) => Some(number),
                    Err(_) => None,
                },
            }
        }
    }

    /// Reads a natural number in decimal digits, with at most one plus
    /// sign before them. Nothing is read from an empty text, from one
    /// with any other character, or from a number beyond the range of `N`.
    pub fn parse_natural(chars: &Vec<char>) -> (result: Option<N>)
        ensures
            match result {
                Some(number) => Self::spec_parse_natural(chars@) == Some(number.value()),
                None => Self::spec_parse_natural(chars@) is None,
            },
    {
        let from: usize = if chars.len() > 0 && chars[0] == '+' {
            1
        } else {
            0
        };
        proof {
            assert(chars@.skip(0) =~= chars@);
        }
        if from == chars.len() {
            return None;
        }
        match read_digits(chars, from) {
            None => None,
            Some(digits) => match Self::accumulate_digits(&digits) {
                Ok(number) => Some(number),
                Err(_) => None,
            },
        }
    }

    /// What `from_integer_str` reads: a natural number; else, with every
    /// minus sign taken out, a natural number to be negated; else nothing.
    pub open spec fn spec_from_integer_text(s: Seq<char>) -> Option<FractionView> {
        match Self::spec_parse_natural(s) {
            Some(number) => Some(FractionView::natural(number)),
            None => match Self::spec_parse_natural(without_minus(s)) {
                Some(number) => Some(FractionView::reduced(Sign::Negative, number, 1)),
                None => None,
            },
        }
    }

    /// Reads a whole number from text: first as a natural number, then,
    /// with its minus signs taken out, as a negative one. Returns nothing
    /// where neither reading succeeds; such a text may still be a decimal.
    pub fn from_integer_str(text: &str) -> (result: Option<Fraction<N>>)
        ensures
            match result {
                Some(fraction) => fraction.wf() && Self::spec_from_integer_text(text@) == Some(
                    fraction@,
                ),
                None => Self::spec_from_integer_text(text@) is None,
            },
    {
        let plain = read_chars(text, false);
        if let Some(natural_number) = Self::parse_natural(&plain) {
            return Some(Fraction::new_natural(natural_number));
        }
        let stripped = read_chars(text, true);
        if let Some(natural_number) = Self::parse_natural(&stripped) {
            proof {
                N::lemma_constants();
            }
            return Some(Fraction::new(Sign::Negative, natural_number, N::ONE));
        }
        None
    }
    /// The digits after a point as a numerator over a power of ten: each
    /// digit is appended to ten times the numerator, and the denominator
    /// grows tenfold with it; or the error of the first step that leaves
    /// the range of `N`.
    pub open spec fn spec_accumulate_fraction(
        numerator: nat,
        denominator: nat,
        digits: Seq<u8>,
    ) -> Result<(nat, nat), ErrorView>
        decreases digits.len(),
    {
        if digits.len() == 0 {
            Ok((numerator, denominator))
        } else if numerator * 10 > N::max_value() {
            Err(Self::mul_overflow())
        } else if numerator * 10 + digits[0] > N::max_value() {
            Err(Self::add_overflow())
        } else if denominator * 10 > N::max_value() {
            Err(Self::mul_overflow())
        } else {
            Self::spec_accumulate_fraction(
                numerator * 10 + digits[0] as nat,
                denominator * 10,
                digits.skip(1),
            )
        }
    }

    /// What `try_get_integer_part` returns.
    pub open spec fn spec_integer_part(sign: Sign, digits: Seq<u8>) -> Result<
        FractionView,
        ErrorView,
    > {
        match Self::spec_accumulate(0, digits) {
            Err(error) => Err(error),
            Ok(number) => Ok(FractionView::reduced(sign, number, 1)),
        }
    }

    /// What `try_get_float_part` returns.
    pub open spec fn spec_float_part(sign: Sign, digits: Seq<u8>) -> Result<
        FractionView,
        ErrorView,
    > {
        match Self::spec_accumulate_fraction(0, 1, digits) {
            Err(error) => Err(error),
            Ok((numerator, denominator)) => Ok(FractionView::reduced(sign, numerator, denominator)),
        }
    }

    /// What `try_from_digits` returns: the whole part plus the part after
    /// the point, or the first error on the way.
    pub open spec fn spec_from_digits(sign: Sign, whole: Seq<u8>, fraction: Seq<u8>) -> Result<
        FractionView,
        ErrorView,
    > {
        match Self::spec_integer_part(sign, whole) {
            Err(error) => Err(error),
            Ok(integer_part) => match Self::spec_float_part(sign, fraction) {
                Err(error) => Err(error),
                Ok(float_part) => Self::spec_try_add(integer_part, float_part),
            },
        }
    }

    /// The whole number that the digits spell, in the order given, under
    /// the given sign; fails with `Overflow` exactly when a step leaves
    /// the range of `N`.
    pub fn try_get_integer_part(sign: Sign, digits: &Vec<u8>) -> (result: Result<
        Fraction<N>,
        OperationError,
    >)
        ensures
            outcome(result) == Self::spec_integer_part(sign, digits@),
            result is Ok ==> result->Ok_0.wf(),
    {
        let numerator = Self::accumulate_digits(digits)?;
        proof {
            N::lemma_constants();
        }
        Fraction::try_new(sign, numerator, N::ONE)
    }

    /// The digits after a point as a fraction over a power of ten, under
    /// the given sign; fails with `Overflow` exactly when a step leaves
    /// the range of `N`.
    pub fn try_get_float_part(sign: Sign, digits: &Vec<u8>) -> (result: Result<
        Fraction<N>,
        OperationError,
    >)
        ensures
            outcome(result) == Self::spec_float_part(sign, digits@),
            result is Ok ==> result->Ok_0.wf(),
    {
        let mut denominator = N::ONE;
        let mut numerator = N::ZERO;
        let mut i: usize = 0;
        proof {
            N::lemma_constants();
            assert(digits@.skip(0) =~= digits@);
        }
        while i < digits.len()
            invariant
                i <= digits.len(),
                N::TEN.value() == 10,
                denominator.value() > 0,
                Self::spec_accumulate_fraction(0, 1, digits@) == Self::spec_accumulate_fraction(
                    numerator.value(),
                    denominator.value(),
                    digits@.skip(i as int),
                ),
            decreases digits.len() - i,
        {
            proof {
                assert(digits@.skip(i as int).skip(1) =~= digits@.skip(i + 1));
            }
            let shifted = numerator.try_mul(N::TEN)?;
            proof {
                shifted.lemma_in_range();
            }
            numerator = shifted.try_add(N::from_u8(digits[i]))?;
            proof {
                numerator.lemma_in_range();
            }
            denominator = denominator.try_mul(N::TEN)?;
            proof {
                denominator.lemma_in_range();
            }
            i += 1;
        }
        Fraction::try_new(sign, numerator, denominator)
    }

    /// The number whose decimal digits before and after the point are
    /// given, under the given sign: both parts are built digit by digit
    /// and added; fails with `Overflow` exactly when a step leaves the
    /// range of `N`.
    pub fn try_from_digits(sign: Sign, whole: &Vec<u8>, fraction: &Vec<u8>) -> (result: Result<
        Fraction<N>,
        OperationError,
    >)
        ensures
            outcome(result) == Self::spec_from_digits(sign, whole@, fraction@),
            result is Ok ==> result->Ok_0.wf(),
    {
        let integer_part = Self::try_get_integer_part(sign, whole)?;
        let float_part = Self::try_get_float_part(sign, fraction)?;
        integer_part.try_add(&float_part)
    }
}

} // verus!
