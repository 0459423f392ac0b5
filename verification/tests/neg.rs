use rfraction::Fraction;
use rfraction::Sign;

#[test]
fn neg_with_usual_numbers_it_works() {
    let number = Fraction::<u128>::try_new(Sign::Negative, 1, 20).unwrap();

    let abs = number.neg();

    assert_eq!(abs.numerator(), 1);
    assert_eq!(abs.denominator(), 20);
    assert!(abs.is_positive());
}

#[test]
fn neg_of_zero_is_zero() {
    let zero = Fraction::<u16>::new_zero();
    let negated = zero.try_neg().unwrap();
    assert!(negated.is_zero());
    assert_eq!(negated.sign(), Sign::Positive);
    assert_eq!(negated, zero);
}

#[test]
fn neg_twice_is_the_number() {
    let number = Fraction::<u16>::new(Sign::Positive, 42, 43);
    assert_eq!(number.neg(), Fraction::new(Sign::Negative, 42, 43));
    assert_eq!(number.neg().neg(), number);
}
