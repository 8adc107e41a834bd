use vstd::prelude::*;

verus! {

/// The classified failures of a primitive float operation: division by a
/// zero divisor, and the IEEE-754 sentinel outcomes — the infinities, the
/// exact finite boundary values, and NaN — turned into typed errors.
#[derive(Debug, PartialEq, Eq, Structural, Clone, Copy)]
pub enum MathError {
    DivisionBy0,
    Overflow,
    Underflow,
    Infinity,
    NegativeInfinity,
    Nan,
}

/// The bit pattern of IEEE-754 single-precision positive infinity.
pub const POSITIVE_INFINITY_BITS: u32 = 0x7F80_0000;

/// The bit pattern of IEEE-754 single-precision negative infinity.
pub const NEGATIVE_INFINITY_BITS: u32 = 0xFF80_0000;

/// The bit pattern of the largest finite single-precision value.
pub const MAX_FINITE_BITS: u32 = 0x7F7F_FFFF;

/// The bit pattern of the smallest (most negative) finite
/// single-precision value.
pub const MIN_FINITE_BITS: u32 = 0xFF7F_FFFF;

/// Whether `b` is the bit pattern of a NaN: its magnitude bits lie above
/// those of infinity.
pub open spec fn is_nan_bits(b: u32) -> bool {
    b & 0x7FFF_FFFF > 0x7F80_0000
}

/// Whether `b` is the bit pattern of a zero of either sign.
pub open spec fn is_zero_bits(b: u32) -> bool {
    b & 0x7FFF_FFFF == 0
}

/// The checked-arithmetic classification of the raw bit pattern a
/// primitive float operation produced, checked in this order: NaN, the
/// two infinities, then the two exact finite boundary values; everything
/// else is the successful result. Since a NaN compares equal to nothing
/// and a zero only to a zero, each of these bit-pattern tests coincides
/// with the float comparison against the named value.
pub open spec fn classify_bits(raw: u32) -> Result<u32, MathError> {
    if is_nan_bits(raw) {
        Err(MathError::Nan)
    } else if raw == POSITIVE_INFINITY_BITS {
        Err(MathError::Infinity)
    } else if raw == NEGATIVE_INFINITY_BITS {
        Err(MathError::NegativeInfinity)
    } else if raw == MAX_FINITE_BITS {
        Err(MathError::Overflow)
    } else if raw == MIN_FINITE_BITS {
        Err(MathError::Underflow)
    } else {
        Ok(raw)
    }
}

/// The checked result of one operation: a division with a zero divisor of
/// either sign is rejected before the raw result is consulted; everything
/// else classifies the raw result.
pub open spec fn spec_checked(divides: bool, rhs: u32, raw: u32) -> Result<u32, MathError> {
    if divides && is_zero_bits(rhs) {
        Err(MathError::DivisionBy0)
    } else {
        classify_bits(raw)
    }
}

/// Whether `b` is the bit pattern of a zero of either sign.
pub fn is_zero(b: u32) -> (r: bool)
    ensures
        r == is_zero_bits(b),
{
    b & 0x7FFF_FFFF == 0
}

/// Classifies the raw bit pattern a primitive float operation produced.
pub fn classify(raw: u32) -> (r: Result<u32, MathError>)
    ensures
        r == classify_bits(raw),
{
    if raw & 0x7FFF_FFFF > 0x7F80_0000 {
        Err(MathError::Nan)
    } else if raw == POSITIVE_INFINITY_BITS {
        Err(MathError::Infinity)
    } else if raw == NEGATIVE_INFINITY_BITS {
        Err(MathError::NegativeInfinity)
    } else if raw == MAX_FINITE_BITS {
        Err(MathError::Overflow)
    } else if raw == MIN_FINITE_BITS {
        Err(MathError::Underflow)
    } else {
        Ok(raw)
    }
}

/// The six checked operations over single-precision bit patterns.
///
/// The library never performs a primitive float operation itself: the
/// caller hands each method `raw`, the bit pattern of the raw IEEE-754
/// result of the corresponding operation on `self` and `rhs`, and the
/// method classifies it. Division alone inspects its operands: a zero
/// divisor of either sign is rejected before the raw result is looked at.
pub trait CheckedFloatOperations: Sized {
    /// What `checked_add` returns.
    spec fn spec_checked_add(&self, rhs: Self, raw: Self) -> Result<Self, MathError>;

    /// What `checked_sub` returns.
    spec fn spec_checked_sub(&self, rhs: Self, raw: Self) -> Result<Self, MathError>;

    /// What `checked_mul` returns.
    spec fn spec_checked_mul(&self, rhs: Self, raw: Self) -> Result<Self, MathError>;

    /// What `checked_div` returns.
    spec fn spec_checked_div(&self, rhs: Self, raw: Self) -> Result<Self, MathError>;

    /// What `checked_rem` returns.
    spec fn spec_checked_rem(&self, rhs: Self, raw: Self) -> Result<Self, MathError>;

    /// What `checked_pow` returns.
    spec fn spec_checked_pow(&self, rhs: Self, raw: Self) -> Result<Self, MathError>;

    /// Classifies `raw`, the raw result of adding `rhs` to `self`.
    fn checked_add(&self, rhs: Self, raw: Self) -> (r: Result<Self, MathError>)
        ensures
            r == self.spec_checked_add(rhs, raw),
    ;

    /// Classifies `raw`, the raw result of subtracting `rhs` from `self`.
    fn checked_sub(&self, rhs: Self, raw: Self) -> (r: Result<Self, MathError>)
        ensures
            r == self.spec_checked_sub(rhs, raw),
    ;

    /// Classifies `raw`, the raw result of multiplying `self` by `rhs`.
    fn checked_mul(&self, rhs: Self, raw: Self) -> (r: Result<Self, MathError>)
        ensures
            r == self.spec_checked_mul(rhs, raw),
    ;

    /// Rejects a zero `rhs`, else classifies `raw`, the raw result of
    /// dividing `self` by `rhs`.
    fn checked_div(&self, rhs: Self, raw: Self) -> (r: Result<Self, MathError>)
        ensures
            r == self.spec_checked_div(rhs, raw),
    ;

    /// Classifies `raw`, the raw result of the remainder of `self` by
    /// `rhs`.
    fn checked_rem(&self, rhs: Self, raw: Self) -> (r: Result<Self, MathError>)
        ensures
            r == self.spec_checked_rem(rhs, raw),
    ;

    /// Classifies `raw`, the raw result of raising `self` to `rhs`.
    fn checked_pow(&self, rhs: Self, raw: Self) -> (r: Result<Self, MathError>)
        ensures
            r == self.spec_checked_pow(rhs, raw),
    ;
}

impl CheckedFloatOperations for u32 {
    open spec fn spec_checked_add(&self, rhs: u32, raw: u32) -> Result<u32, MathError> {
        spec_checked(false, rhs, raw)
    }

    open spec fn spec_checked_sub(&self, rhs: u32, raw: u32) -> Result<u32, MathError> {
        spec_checked(false, rhs, raw)
    }

    open spec fn spec_checked_mul(&self, rhs: u32, raw: u32) -> Result<u32, MathError> {
        spec_checked(false, rhs, raw)
    }

    open spec fn spec_checked_div(&self, rhs: u32, raw: u32) -> Result<u32, MathError> {
        spec_checked(true, rhs, raw)
    }

    open spec fn spec_checked_rem(&self, rhs: u32, raw: u32) -> Result<u32, MathError> {
        spec_checked(false, rhs, raw)
    }

    open spec fn spec_checked_pow(&self, rhs: u32, raw: u32) -> Result<u32, MathError> {
        spec_checked(false, rhs, raw)
    }

    fn checked_add(&self, rhs: u32, raw: u32) -> Result<u32, MathError> {
        classify(raw)
    }

    fn checked_sub(&self, rhs: u32, raw: u32) -> Result<u32, MathError> {
        classify(raw)
    }

    fn checked_mul(&self, rhs: u32, raw: u32) -> Result<u32, MathError> {
        classify(raw)
    }

    fn checked_div(&self, rhs: u32, raw: u32) -> Result<u32, MathError> {
        if is_zero(rhs) {
            Err(MathError::DivisionBy0)
        } else {
            classify(raw)
        }
    }

    fn checked_rem(&self, rhs: u32, raw: u32) -> Result<u32, MathError> {
        classify(raw)
    }

    fn checked_pow(&self, rhs: u32, raw: u32) -> Result<u32, MathError> {
        classify(raw)
    }
}

} // verus!
