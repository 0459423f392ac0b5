use rfraction::Fraction;
use rfraction::Sign;
use std::cmp::Ordering;
use std::collections::hash_map;
use std::hash::{Hash, Hasher};

fn get_hash<T: Hash>(hashable: &T) -> u64 {
    let mut hasher = hash_map::DefaultHasher::new();
    hashable.hash(&mut hasher);
    hasher.finish()
}

#[test]
fn with_different_signes_it_compares() {
    let negative = Fraction::<u32>::new(Sign::Negative, 1, 3);
    let positive = Fraction::<u32>::new(Sign::Positive, 1, 17);

    assert!(positive > negative);
    assert!(positive != negative);
    assert!(positive >= negative);
    assert!(positive == positive);
    assert!(negative == negative);
}

#[test]
fn with_negative_numbers_it_compares() {
    let negative1 = Fraction::<u32>::new(Sign::Negative, 1, 3);
    let negative2 = Fraction::<u32>::new(Sign::Negative, 1, 17);

    assert!(negative2 > negative1);
    assert!(negative2 != negative1);
    assert!(negative2 >= negative1);
    assert!(negative2 == negative2);
    assert!(negative2 == negative2);
}

#[test]
fn with_positive_numbers_it_compares() {
    let positive1 = Fraction::<u32>::new(Sign::Positive, 1, 3);
    let positive2 = Fraction::<u32>::new(Sign::Positive, 1, 17);

    assert!(positive2 < positive1);
    assert!(positive2 != positive1);
    assert!(positive2 <= positive1);
    assert!(positive2 == positive2);
    assert!(positive1 == positive1);
}

#[test]
fn it_is_displayable() {
    let positive = Fraction::<u32>::new(Sign::Positive, 10, 3);
    let negative = Fraction::<u32>::new(Sign::Negative, 3, 10);
    let zero = Fraction::<u32>::new_zero();

    assert_eq!(String::from("+10/3"), positive.to_ratio_string());
    assert_eq!(String::from("-3/10"), negative.to_ratio_string());
    assert_eq!(String::from("0"), zero.to_ratio_string());

    let simple_ratio = Fraction::<u32>::new(Sign::Positive, 1, 3);
    assert_eq!(
        String::from("0.33333"),
        simple_ratio.try_to_decimal_string(5).unwrap()
    );
    assert_eq!(
        String::from("-0.33333"),
        simple_ratio.neg().try_to_decimal_string(5).unwrap()
    );
}

#[test]
fn it_is_debuggable() {
    let positive = Fraction::<u32>::new(Sign::Positive, 10, 3);
    let negative = Fraction::<u32>::new(Sign::Negative, 3, 10);
    let zero = Fraction::<u32>::new_zero();

    assert_eq!(
        String::from("Fraction { sign: Positive, numerator: 10, denominator: 3 }"),
        format!("{:?}", positive)
    );
    assert_eq!(
        String::from("Fraction { sign: Negative, numerator: 3, denominator: 10 }"),
        format!("{:?}", negative)
    );
    assert_eq!(
        String::from("Fraction { sign: Positive, numerator: 0, denominator: 1 }"),
        format!("{:?}", zero)
    );
}

#[test]
fn it_could_give_a_default_value() {
    let default_value: Fraction<u128> = Default::default();
    assert!(default_value.is_zero());
}

#[test]
fn it_hashable() {
    let number_a: Fraction<u32> = Fraction::new_natural(10);
    let number_b: Fraction<u32> = Fraction::new(Sign::Negative, 1, 10);
    let zero: Fraction<u32> = Fraction::new_zero();

    assert_eq!(get_hash(&number_a), get_hash(&number_a));
    assert_eq!(get_hash(&number_b), get_hash(&number_b));
    assert_eq!(get_hash(&zero), get_hash(&zero));

    assert_ne!(get_hash(&number_a), get_hash(&number_b));
    assert_ne!(get_hash(&zero), get_hash(&number_a));
    assert_ne!(get_hash(&zero), get_hash(&number_b));
}

#[test]
fn equal_values_built_differently_hash_alike() {
    let first = Fraction::<u32>::new(Sign::Positive, 10, 140);
    let second = Fraction::<u32>::new(Sign::Positive, 1, 14);
    assert_eq!(first, second);
    assert_eq!(get_hash(&first), get_hash(&second));
}

#[test]
fn comparison_does_not_overflow() {
    let first = Fraction::<u8>::new(Sign::Positive, 254, 255);
    let second = Fraction::<u8>::new(Sign::Positive, 253, 254);
    assert_eq!(first.partial_cmp(&second), Some(Ordering::Greater));
    assert_eq!(second.partial_cmp(&first), Some(Ordering::Less));
    assert_eq!(first.partial_cmp(&first), Some(Ordering::Equal));
    assert!(first.neg() < second.neg());

    let zero = Fraction::<u8>::new_zero();
    assert!(zero < second);
    assert!(zero > second.neg());
    assert_eq!(zero.partial_cmp(&zero), Some(Ordering::Equal));
}

#[test]
fn sign_composes() {
    assert_eq!(Sign::Positive.inverse(), Sign::Negative);
    assert_eq!(Sign::Negative.inverse(), Sign::Positive);
    assert_eq!(Sign::Positive.mul(&Sign::Positive), Sign::Positive);
    assert_eq!(Sign::Negative.mul(&Sign::Negative), Sign::Positive);
    assert_eq!(Sign::Positive.mul(&Sign::Negative), Sign::Negative);
    assert_eq!(Sign::Negative.mul(&Sign::Positive), Sign::Negative);
    assert_eq!(Sign::Positive.to_string(), "+");
    assert_eq!(Sign::Negative.to_string(), "-");
}
