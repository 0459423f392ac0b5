use rfraction::Fraction;
use rfraction::OperationError;
use rfraction::OperationErrorType;
use rfraction::Sign;

fn to_f32(number: &Fraction<u128>) -> f32 {
    let numerator = number.numerator() as f32;
    let denominator = number.denominator() as f32;
    if number.is_positive() {
        numerator / denominator
    } else {
        -numerator / denominator
    }
}

fn to_f64(number: &Fraction<u128>) -> f64 {
    let numerator = number.numerator() as f64;
    let denominator = number.denominator() as f64;
    if number.is_positive() {
        numerator / denominator
    } else {
        -numerator / denominator
    }
}

fn from_f64(number: f64) -> Result<Fraction<u128>, OperationError> {
    if number.is_nan() || number.is_infinite() {
        return Err(OperationError::new(
            "Invalid input number",
            OperationErrorType::ConvertionError,
        ));
    }
    let sign = if number > f64::EPSILON {
        Sign::Positive
    } else {
        Sign::Negative
    };
    let mut whole = Vec::new();
    let mut integer_part = number.abs().trunc();
    while integer_part > f64::EPSILON {
        whole.push(integer_part.rem_euclid(10.0) as u8);
        integer_part = (integer_part / 10.0).trunc();
    }
    let mut fraction = Vec::new();
    let mut float_part = number.abs().fract();
    let mut zero_value = f64::EPSILON;
    while float_part.abs() > zero_value {
        fraction.push((float_part * 10.0).trunc() as u8);
        float_part = (float_part * 10.0).fract();
        zero_value = 10.0 * zero_value;
    }
    Fraction::try_from_digits(sign, &whole, &fraction)
}

fn from_f32(number: f32) -> Result<Fraction<u128>, OperationError> {
    if number.is_nan() || number.is_infinite() {
        return Err(OperationError::new(
            "Invalid input number",
            OperationErrorType::ConvertionError,
        ));
    }
    let sign = if number > f32::EPSILON {
        Sign::Positive
    } else {
        Sign::Negative
    };
    let mut whole = Vec::new();
    let mut integer_part = number.abs().trunc();
    while integer_part > f32::EPSILON {
        whole.push(integer_part.rem_euclid(10.0) as u8);
        integer_part = (integer_part / 10.0).trunc();
    }
    let mut fraction = Vec::new();
    let mut float_part = number.abs().fract();
    let mut zero_value = f32::EPSILON;
    while float_part.abs() > zero_value {
        fraction.push((float_part * 10.0).trunc() as u8);
        float_part = (float_part * 10.0).fract();
        zero_value = 10.0 * zero_value;
    }
    Fraction::try_from_digits(sign, &whole, &fraction)
}

fn from_text(text: &str) -> Result<Fraction<u128>, OperationError> {
    if let Some(number) = Fraction::<u128>::from_integer_str(text) {
        return Ok(number);
    }
    match text.parse::<f64>() {
        Ok(number) => from_f64(number),
        Err(error) => Err(OperationError::new(
            &format!("Failed to convert from string, parsing error ({})", error),
            OperationErrorType::ConvertionError,
        )),
    }
}

#[test]
fn it_convertable_to_f32_type() {
    let num = Fraction::<u128>::new(Sign::Positive, 1, 17);

    assert!((to_f32(&num) - 0.058823529) < f32::EPSILON);
}

#[test]
fn it_convertable_to_f64_type() {
    let num = Fraction::<u128>::new(Sign::Positive, 1, 17);

    assert!((to_f64(&num) - 0.058823529411764705) < f64::EPSILON);
}

#[test]
fn it_convertable_from_the_origin_type() {
    let number = Fraction::<u128>::from(123);
    assert_eq!(number, Fraction::<u128>::new_natural(123));

    let number = Fraction::<u128>::from(&123);
    assert_eq!(number, Fraction::<u128>::new_natural(123));
}

#[test]
fn it_convertable_from_the_f32_type() {
    let number = from_f32(3.14f32).unwrap();
    assert!((3.14f32 - to_f32(&number)) < 0.0001);

    let neg_number = from_f32(-3.1438f32).unwrap();
    assert!((-3.1438f32 - to_f32(&neg_number)) < 0.0001);
}

#[test]
fn it_convertable_from_the_f64_type() {
    let number = from_f64(3.1438f64).unwrap();
    assert!((3.1438f64 - to_f64(&number)) < 0.0001);

    let neg_number = from_f64(-3.1438f64).unwrap();
    assert!((-3.1438f64 - to_f64(&neg_number)) < 0.0001);
}

#[test]
fn it_convertable_from_the_string_type() {
    let number = from_text("3.1438").unwrap();
    assert_eq!(number, Fraction::<u128>::new(Sign::Positive, 31438, 10000));

    let number = from_text("-3.1438").unwrap();
    assert_eq!(number, Fraction::<u128>::new(Sign::Negative, 31438, 10000));

    let number = from_text("-3").unwrap();
    assert_eq!(number, Fraction::<u128>::new(Sign::Negative, 3, 1));

    let number = from_text("+3").unwrap();
    assert_eq!(number, Fraction::<u128>::new_natural(3));

    let number = from_text("3").unwrap();
    assert_eq!(number, Fraction::<u128>::new_natural(3));

    let number = from_text("1e-5").unwrap();
    assert_eq!(number, Fraction::<u128>::new(Sign::Positive, 1, 100000));
}

#[test]
fn it_convertable_to_decimal() {
    let number = Fraction::<u128>::new(Sign::Positive, 4, 3);
    assert_eq!(
        number.to_decimal(5),
        Fraction::<u128>::new(Sign::Positive, 133333, 100000)
    );

    let number = Fraction::<u128>::new(Sign::Negative, 1, 6);
    assert_eq!(
        number.to_decimal(5),
        Fraction::<u128>::new(Sign::Negative, 16666, 100000)
    );
}

#[test]
fn integer_text_is_read_without_floats() {
    assert_eq!(
        Fraction::<u8>::from_integer_str("255"),
        Some(Fraction::new_natural(255))
    );
    assert_eq!(
        Fraction::<u8>::from_integer_str("+007"),
        Some(Fraction::new_natural(7))
    );
    assert_eq!(
        Fraction::<u8>::from_integer_str("-12"),
        Some(Fraction::new(Sign::Negative, 12, 1))
    );
    assert_eq!(
        Fraction::<u8>::from_integer_str("1-2"),
        Some(Fraction::new(Sign::Negative, 12, 1))
    );
    assert_eq!(
        Fraction::<u8>::from_integer_str("-0"),
        Some(Fraction::new_zero())
    );
    assert_eq!(Fraction::<u8>::from_integer_str("256"), None);
    assert_eq!(Fraction::<u8>::from_integer_str(""), None);
    assert_eq!(Fraction::<u8>::from_integer_str("+"), None);
    assert_eq!(Fraction::<u8>::from_integer_str("-"), None);
    assert_eq!(Fraction::<u8>::from_integer_str("++1"), None);
    assert_eq!(Fraction::<u8>::from_integer_str("1.5"), None);
    assert_eq!(Fraction::<u8>::from_integer_str(" 1"), None);
    assert_eq!(Fraction::<u8>::from_integer_str("١"), None);
}

#[test]
fn integer_text_agrees_with_the_standard_parser() {
    let texts = ["0", "1", "+1", "-1", "12", "255", "256", "0255", "+", "", "a", "1a", "+-1"];
    for text in texts {
        let expected = text.parse::<u8>().ok().map(Fraction::new_natural);
        let plain: Vec<char> = text.chars().collect();
        let read = Fraction::<u8>::parse_natural(&plain).map(Fraction::new_natural);
        assert_eq!(read, expected);
    }
}

#[test]
fn text_that_is_no_number_is_an_error() {
    let error = from_text("one").unwrap_err();
    assert_eq!(error.error_type(), OperationErrorType::ConvertionError);
    let error = from_f64(f64::NAN).unwrap_err();
    assert_eq!(error.error_type(), OperationErrorType::ConvertionError);
}

#[test]
fn digits_are_appended_in_the_order_given() {
    let number = Fraction::<u16>::try_from_digits(Sign::Positive, &vec![3], &vec![1, 4]).unwrap();
    assert_eq!(number, Fraction::new(Sign::Positive, 157, 50));

    let number = Fraction::<u16>::try_from_digits(Sign::Negative, &vec![], &vec![1, 2, 5]).unwrap();
    assert_eq!(number, Fraction::new(Sign::Negative, 1, 8));

    let number = Fraction::<u16>::try_get_integer_part(Sign::Positive, &vec![2, 1]).unwrap();
    assert_eq!(number, Fraction::new_natural(21));

    let number = Fraction::<u16>::try_get_float_part(Sign::Positive, &vec![0, 5]).unwrap();
    assert_eq!(number, Fraction::new(Sign::Positive, 1, 20));

    let number = Fraction::<u16>::try_from_digits(Sign::Negative, &vec![], &vec![]).unwrap();
    assert!(number.is_zero());
}

#[test]
fn digits_beyond_the_range_are_an_overflow() {
    let error = Fraction::<u8>::try_get_integer_part(Sign::Positive, &vec![2, 5, 6]).unwrap_err();
    assert_eq!(error.error_type(), OperationErrorType::Overflow);
    assert_eq!(error.message(), "overflow during adding of u8 numbers");

    let error = Fraction::<u8>::try_get_integer_part(Sign::Positive, &vec![2, 6, 0]).unwrap_err();
    assert_eq!(error.message(), "overflow during multiplication of u8 numbers");

    let error = Fraction::<u8>::try_get_float_part(Sign::Positive, &vec![1, 2, 5]).unwrap_err();
    assert_eq!(error.error_type(), OperationErrorType::Overflow);
    assert_eq!(error.message(), "overflow during multiplication of u8 numbers");
}

#[test]
fn decimals_are_cut_off_not_rounded() {
    let number = Fraction::<u32>::new(Sign::Positive, 2, 3);
    assert_eq!(number.try_to_decimal_string(3).unwrap(), "0.666");
    assert_eq!(number.try_to_decimal_string(0).unwrap(), "0.");
    assert_eq!(
        number.try_to_decimal(3).unwrap(),
        Fraction::new(Sign::Positive, 333, 500)
    );
    assert_eq!(number.try_to_decimal(0).unwrap(), Fraction::new_zero());

    let number = Fraction::<u32>::new(Sign::Negative, 7, 2);
    assert_eq!(number.try_to_decimal_string(3).unwrap(), "-3.500");
    assert_eq!(
        number.try_to_decimal(3).unwrap(),
        Fraction::new(Sign::Negative, 7, 2)
    );

    let zero = Fraction::<u32>::new_zero();
    assert_eq!(zero.try_to_decimal_string(2).unwrap(), "0.00");
    assert_eq!(zero.try_to_decimal(2).unwrap(), zero);
}

#[test]
fn decimals_beyond_the_range_are_an_overflow() {
    let number = Fraction::<u8>::new(Sign::Positive, 1, 3);
    assert_eq!(
        number.try_to_decimal(2).unwrap(),
        Fraction::new(Sign::Positive, 33, 100)
    );
    let error = number.try_to_decimal(3).unwrap_err();
    assert_eq!(error.error_type(), OperationErrorType::Overflow);

    let number = Fraction::<u8>::new(Sign::Positive, 100, 101);
    let error = number.try_to_decimal_string(1).unwrap_err();
    assert_eq!(error.error_type(), OperationErrorType::Overflow);
}

#[test]
fn getters_give_the_parts() {
    let number = Fraction::<u128>::new(Sign::Positive, 14, 5);
    assert_eq!(number.trunc(), 2);
    let remainder = number.remainder();
    assert_eq!(remainder.sign(), Sign::Positive);
    assert_eq!(remainder.numerator(), 4);
    assert_eq!(remainder.denominator(), 5);

    let number = Fraction::<u128>::new(Sign::Negative, 9, 6);
    assert_eq!(number.remainder(), Fraction::new(Sign::Negative, 1, 2));
    assert_eq!(number.to_ratio_string(), "-3/2");
    assert_eq!(
        Fraction::<u128>::new_natural(u128::MAX).to_ratio_string(),
        "+340282366920938463463374607431768211455/1"
    );
}
