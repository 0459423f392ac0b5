use vstd::prelude::*;
use crate::operation_error::OperationError;
use crate::operation_error::OperationErrorType;

verus! {

/// A fixed-width unsigned integer that can back a fraction.
///
/// Every value stands for a natural number, `value()`, between zero and
/// `max_value()`. Addition and multiplication report an overflow instead of
/// wrapping; subtraction, division and remainder are offered where their
/// result is known to fit.
pub trait UnsignedNumber: Sized + Copy {
    const ZERO: Self;
    const ONE: Self;
    const TEN: Self;

    /// The number this value stands for.
    spec fn value(self) -> nat;

    /// The largest number the type can hold.
    spec fn max_value() -> nat;

    /// The message of the error that a failed addition returns.
    spec fn add_overflow_text() -> Seq<char>;

    /// The message of the error that a failed multiplication returns.
    spec fn mul_overflow_text() -> Seq<char>;

    /// The three constants stand for zero, one and ten.
    proof fn lemma_constants()
        ensures
            Self::ZERO.value() == 0,
            Self::ONE.value() == 1,
            Self::TEN.value() == 10,
    ;

    /// No value exceeds `max_value()`, and every type holds at least a byte.
    proof fn lemma_in_range(self)
        ensures
            self.value() <= Self::max_value(),
            Self::max_value() >= 255,
    ;

    /// Two values that stand for the same number are the same value.
    proof fn lemma_value_determines(self, other: Self)
        ensures
            self.value() == other.value() ==> self == other,
    ;

    /// The sum, or an overflow error when the sum exceeds `max_value()`.
    fn try_add(self, other: Self) -> (result: Result<Self, OperationError>)
        ensures
            match result {
                Ok(sum) => sum.value() == self.value() + other.value(),
                Err(error) => error.kind() == OperationErrorType::Overflow
                    && error.text() == Self::add_overflow_text()
                    && self.value() + other.value() > Self::max_value(),
            },
    ;

    /// The product, or an overflow error when the product exceeds `max_value()`.
    fn try_mul(self, other: Self) -> (result: Result<Self, OperationError>)
        ensures
            match result {
                Ok(product) => product.value() == self.value() * other.value(),
                Err(error) => error.kind() == OperationErrorType::Overflow
                    && error.text() == Self::mul_overflow_text()
                    && self.value() * other.value() > Self::max_value(),
            },
    ;

    /// The value of a single byte.
    fn from_u8(byte: u8) -> (result: Self)
        ensures
            result.value() == byte,
    ;

    /// The value in the widest backing type.
    fn to_u128(self) -> (result: u128)
        ensures
            result == self.value(),
    ;

    /// `self - other`, for `other` not above `self`.
    fn difference(self, other: Self) -> (result: Self)
        requires
            other.value() <= self.value(),
        ensures
            result.value() == self.value() - other.value(),
    ;

    /// `self / other`, rounded down, for a nonzero `other`.
    fn quotient(self, other: Self) -> (result: Self)
        requires
            other.value() != 0,
        ensures
            result.value() == self.value() / other.value(),
    ;

    /// `self % other`, for a nonzero `other`.
    fn modulo(self, other: Self) -> (result: Self)
        requires
            other.value() != 0,
        ensures
            result.value() == self.value() % other.value(),
    ;

    /// Whether both stand for the same number.
    fn is_equal(self, other: Self) -> (result: bool)
        ensures
            result == (self.value() == other.value()),
    ;

    /// Whether `self` stands for a larger number than `other`.
    fn is_greater(self, other: Self) -> (result: bool)
        ensures
            result == (self.value() > other.value()),
    ;
}

impl UnsignedNumber for u128 {
    const ZERO: Self = 0;
    const ONE: Self = 1;
    const TEN: Self = 10;

    open spec fn value(self) -> nat {
        self as nat
    }

    open spec fn max_value() -> nat {
        u128::MAX as nat
    }

    open spec fn add_overflow_text() -> Seq<char> {
        "overflow during adding of u128 numbers"@
    }

    open spec fn mul_overflow_text() -> Seq<char> {
        "overflow during multiplication of u128 numbers"@
    }

    proof fn lemma_constants() {
    }

    proof fn lemma_in_range(self) {
    }

    proof fn lemma_value_determines(self, other: Self) {
    }

    fn try_add(self, other: Self) -> (result: Result<Self, OperationError>) {
        match self.checked_add(other) {
            Some(number) => Ok(number),
            None => Err(
                OperationError::new(
                    "overflow during adding of u128 numbers",
                    OperationErrorType::Overflow,
                ),
            ),
        }
    }

    fn try_mul(self, other: Self) -> (result: Result<Self, OperationError>) {
        match self.checked_mul(other) {
            Some(number) => Ok(number),
            None => Err(
                OperationError::new(
                    "overflow during multiplication of u128 numbers",
                    OperationErrorType::Overflow,
                ),
            ),
        }
    }

    fn from_u8(byte: u8) -> (result: Self) {
        byte as u128
    }

    fn to_u128(self) -> (result: u128) {
        self as u128
    }

    fn difference(self, other: Self) -> (result: Self) {
        self - other
    }

    fn quotient(self, other: Self) -> (result: Self) {
        self / other
    }

    fn modulo(self, other: Self) -> (result: Self) {
        self % other
    }

    fn is_equal(self, other: Self) -> (result: bool) {
        self == other
    }

    fn is_greater(self, other: Self) -> (result: bool) {
        self > other
    }
}

impl UnsignedNumber for u64 {
    const ZERO: Self = 0;
    const ONE: Self = 1;
    const TEN: Self = 10;

    open spec fn value(self) -> nat {
        self as nat
    }

    open spec fn max_value() -> nat {
        u64::MAX as nat
    }

    open spec fn add_overflow_text() -> Seq<char> {
        "overflow during adding of u64 numbers"@
    }

    open spec fn mul_overflow_text() -> Seq<char> {
        "overflow during multiplication of u64 numbers"@
    }

    proof fn lemma_constants() {
    }

    proof fn lemma_in_range(self) {
    }

    proof fn lemma_value_determines(self, other: Self) {
    }

    fn try_add(self, other: Self) -> (result: Result<Self, OperationError>) {
        match self.checked_add(other) {
            Some(number) => Ok(number),
            None => Err(
                OperationError::new(
                    "overflow during adding of u64 numbers",
                    OperationErrorType::Overflow,
                ),
            ),
        }
    }

    fn try_mul(self, other: Self) -> (result: Result<Self, OperationError>) {
        match self.checked_mul(other) {
            Some(number) => Ok(number),
            None => Err(
                OperationError::new(
                    "overflow during multiplication of u64 numbers",
                    OperationErrorType::Overflow,
                ),
            ),
        }
    }

    fn from_u8(byte: u8) -> (result: Self) {
        byte as u64
    }

    fn to_u128(self) -> (result: u128) {
        self as u128
    }

    fn difference(self, other: Self) -> (result: Self) {
        self - other
    }

    fn quotient(self, other: Self) -> (result: Self) {
        self / other
    }

    fn modulo(self, other: Self) -> (result: Self) {
        self % other
    }

    fn is_equal(self, other: Self) -> (result: bool) {
        self == other
    }

    fn is_greater(self, other: Self) -> (result: bool) {
        self > other
    }
}

impl UnsignedNumber for u32 {
    const ZERO: Self = 0;
    const ONE: Self = 1;
    const TEN: Self = 10;

    open spec fn value(self) -> nat {
        self as nat
    }

    open spec fn max_value() -> nat {
        u32::MAX as nat
    }

    open spec fn add_overflow_text() -> Seq<char> {
        "overflow during adding of u32 numbers"@
    }

    open spec fn mul_overflow_text() -> Seq<char> {
        "overflow during multiplication of u32 numbers"@
    }

    proof fn lemma_constants() {
    }

    proof fn lemma_in_range(self) {
    }

    proof fn lemma_value_determines(self, other: Self) {
    }

    fn try_add(self, other: Self) -> (result: Result<Self, OperationError>) {
        match self.checked_add(other) {
            Some(number) => Ok(number),
            None => Err(
                OperationError::new(
                    "overflow during adding of u32 numbers",
                    OperationErrorType::Overflow,
                ),
            ),
        }
    }

    fn try_mul(self, other: Self) -> (result: Result<Self, OperationError>) {
        match self.checked_mul(other) {
            Some(number) => Ok(number),
            None => Err(
                OperationError::new(
                    "overflow during multiplication of u32 numbers",
                    OperationErrorType::Overflow,
                ),
            ),
        }
    }

    fn from_u8(byte: u8) -> (result: Self) {
        byte as u32
    }

    fn to_u128(self) -> (result: u128) {
        self as u128
    }

    fn difference(self, other: Self) -> (result: Self) {
        self - other
    }

    fn quotient(self, other: Self) -> (result: Self) {
        self / other
    }

    fn modulo(self, other: Self) -> (result: Self) {
        self % other
    }

    fn is_equal(self, other: Self) -> (result: bool) {
        self == other
    }

    fn is_greater(self, other: Self) -> (result: bool) {
        self > other
    }
}

impl UnsignedNumber for u16 {
    const ZERO: Self = 0;
    const ONE: Self = 1;
    const TEN: Self = 10;

    open spec fn value(self) -> nat {
        self as nat
    }

    open spec fn max_value() -> nat {
        u16::MAX as nat
    }

    open spec fn add_overflow_text() -> Seq<char> {
        "overflow during adding of u16 numbers"@
    }

    open spec fn mul_overflow_text() -> Seq<char> {
        "overflow during multiplication of u16 numbers"@
    }

    proof fn lemma_constants() {
    }

    proof fn lemma_in_range(self) {
    }

    proof fn lemma_value_determines(self, other: Self) {
    }

    fn try_add(self, other: Self) -> (result: Result<Self, OperationError>) {
        match self.checked_add(other) {
            Some(number) => Ok(number),
            None => Err(
                OperationError::new(
                    "overflow during adding of u16 numbers",
                    OperationErrorType::Overflow,
                ),
            ),
        }
    }

    fn try_mul(self, other: Self) -> (result: Result<Self, OperationError>) {
        match self.checked_mul(other) {
            Some(number) => Ok(number),
            None => Err(
                OperationError::new(
                    "overflow during multiplication of u16 numbers",
                    OperationErrorType::Overflow,
                ),
            ),
        }
    }

    fn from_u8(byte: u8) -> (result: Self) {
        byte as u16
    }

    fn to_u128(self) -> (result: u128) {
        self as u128
    }

    fn difference(self, other: Self) -> (result: Self) {
        self - other
    }

    fn quotient(self, other: Self) -> (result: Self) {
        self / other
    }

    fn modulo(self, other: Self) -> (result: Self) {
        self % other
    }

    fn is_equal(self, other: Self) -> (result: bool) {
        self == other
    }

    fn is_greater(self, other: Self) -> (result: bool) {
        self > other
    }
}

impl UnsignedNumber for u8 {
    const ZERO: Self = 0;
    const ONE: Self = 1;
    const TEN: Self = 10;

    open spec fn value(self) -> nat {
        self as nat
    }

    open spec fn max_value() -> nat {
        u8::MAX as nat
    }

    open spec fn add_overflow_text() -> Seq<char> {
        "overflow during adding of u8 numbers"@
    }

    open spec fn mul_overflow_text() -> Seq<char> {
        "overflow during multiplication of u8 numbers"@
    }

    proof fn lemma_constants() {
    }

    proof fn lemma_in_range(self) {
    }

    proof fn lemma_value_determines(self, other: Self) {
    }

    fn try_add(self, other: Self) -> (result: Result<Self, OperationError>) {
        match self.checked_add(other) {
            Some(number) => Ok(number),
            None => Err(
                OperationError::new(
                    "overflow during adding of u8 numbers",
                    OperationErrorType::Overflow,
                ),
            ),
        }
    }

    fn try_mul(self, other: Self) -> (result: Result<Self, OperationError>) {
        match self.checked_mul(other) {
            Some(number) => Ok(number),
            None => Err(
                OperationError::new(
                    "overflow during multiplication of u8 numbers",
                    OperationErrorType::Overflow,
                ),
            ),
        }
    }

    fn from_u8(byte: u8) -> (result: Self) {
        byte as u8
    }

    fn to_u128(self) -> (result: u128) {
        self as u128
    }

    fn difference(self, other: Self) -> (result: Self) {
        self - other
    }

    fn quotient(self, other: Self) -> (result: Self) {
        self / other
    }

    fn modulo(self, other: Self) -> (result: Self) {
        self % other
    }

    fn is_equal(self, other: Self) -> (result: bool) {
        self == other
    }

    fn is_greater(self, other: Self) -> (result: bool) {
        self > other
    }
}

} // verus!
