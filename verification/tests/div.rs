use rfraction::Fraction;
use rfraction::OperationErrorType;
use rfraction::Sign;

#[test]
fn with_usual_u128_nums_it_works() {
    let first = Fraction::<u128>::new(Sign::Negative, 13, 17);
    let second = Fraction::<u128>::new(Sign::Positive, 18, 19);

    let result = first / second;

    assert_eq!(result, Fraction::new(Sign::Negative, 247, 306));
}

#[test]
fn div_with_operator_overloads_it_works() {
    let first = Fraction::<u128>::new_natural(13);
    let second = Fraction::<u128>::new_natural(18);

    let mut result = &first / &second;
    assert_eq!(result, Fraction::new(Sign::Positive, 13, 18));

    result /= &second;
    assert_eq!(result, Fraction::new(Sign::Positive, 13, 324));

    result /= second;
    assert_eq!(result, Fraction::new(Sign::Positive, 13, 5832));
}

#[test]
fn div_by_zero_is_reported() {
    let first = Fraction::<u64>::new(Sign::Positive, 10, 140);
    let zero = Fraction::<u64>::new(Sign::Positive, 0, 14);
    let error = first.try_div(&zero).unwrap_err();
    assert_eq!(error.error_type(), OperationErrorType::DivisionByZero);
    assert_eq!(error.message(), "Numerator is zero, can't divide by zero");
}

#[test]
fn div_of_usual_numbers_reduces() {
    let first = Fraction::<u128>::new(Sign::Positive, 10, 140);
    let second = Fraction::<u128>::new(Sign::Positive, 15, 280);
    let result = first.div(&second);
    assert!(result.is_positive());
    assert_eq!(result.numerator(), 4);
    assert_eq!(result.denominator(), 3);
}

#[test]
fn div_reports_the_overflow_of_the_product() {
    let first = Fraction::<u8>::new(Sign::Positive, 1, 16);
    let second = Fraction::<u8>::new(Sign::Positive, 17, 1);
    let error = first.try_div(&second).unwrap_err();
    assert_eq!(error.error_type(), OperationErrorType::Overflow);
}
