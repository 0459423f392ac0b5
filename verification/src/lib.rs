//! Exact rational arithmetic over fixed-width unsigned integers.
//!
//! A [`Fraction`] is a sign together with a numerator and a denominator held in
//! lowest terms. Every operation either returns a fraction in lowest terms or
//! reports why it could not: the backing integer overflowed, or a division by
//! zero was asked for.

pub mod fraction;
pub mod gcd;
pub mod operation_error;
pub mod sign;
pub mod text;
pub mod unsigned_number;

pub use crate::fraction::Fraction;
pub use crate::operation_error::OperationError;
pub use crate::operation_error::OperationErrorType;
pub use crate::sign::Sign;
pub use crate::unsigned_number::UnsignedNumber;
