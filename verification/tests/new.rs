use rfraction::Fraction;
use rfraction::OperationErrorType;
use rfraction::Sign;

#[test]
fn new_works() {
    let number = Fraction::<u128>::try_new(Sign::Positive, 123, 321).unwrap();
    assert_eq!(number.numerator(), 41);
    assert_eq!(number.denominator(), 107);
    assert!(number.is_positive());

    let number = Fraction::<u128>::try_new(Sign::Negative, 777, 888).unwrap();
    assert_eq!(number.numerator(), 7);
    assert_eq!(number.denominator(), 8);
    assert!(number.is_negative());
}

#[test]
fn new_rejects_a_zero_denominator() {
    let error = Fraction::<u128>::try_new(Sign::Positive, 1, 0).unwrap_err();
    assert_eq!(error.error_type(), OperationErrorType::DivisionByZero);
    assert_eq!(error.message(), "Denominator can not be zero");

    let error = Fraction::<u8>::try_new(Sign::Negative, 0, 0).unwrap_err();
    assert_eq!(error.error_type(), OperationErrorType::DivisionByZero);
}

#[test]
fn new_with_a_zero_numerator_is_the_canonical_zero() {
    let number = Fraction::<u32>::new(Sign::Negative, 0, 14);
    assert_eq!(number.numerator(), 0);
    assert_eq!(number.denominator(), 1);
    assert_eq!(number.sign(), Sign::Positive);
    assert_eq!(number, Fraction::new_zero());
}

#[test]
fn new_keeps_what_is_in_lowest_terms() {
    let number = Fraction::<u128>::new(Sign::Positive, 14, 5);
    assert_eq!(number.sign(), Sign::Positive);
    assert_eq!(number.numerator(), 14);
    assert_eq!(number.denominator(), 5);

    let number = Fraction::<u8>::new(Sign::Positive, 255, 255);
    assert_eq!(number, Fraction::new_natural(1));
}

#[test]
fn new_natural_holds_the_value_over_one() {
    let number = Fraction::<u128>::new_natural(42);
    assert!(number.is_natural());
    assert_eq!(number.numerator(), 42);
    assert_eq!(number.denominator(), 1);
    assert!(Fraction::<u128>::new_natural(0).is_zero());
}
