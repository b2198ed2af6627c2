//! The numeric scalar of the language and the line-index domain.

use vstd::prelude::*;
use crate::error::ErrorKind;

verus! {

/// The signed integer scalar used for all values, arithmetic and variables.
/// Arithmetic wraps in two's complement.
pub type Number = i16;

/// A line number of a stored program: a `Number` in `[1, Number::MAX]`.
#[derive(Clone, Copy, Debug, PartialEq, Eq, Structural, Hash)]
pub struct LineIndex {
    pub index: Number,
}

impl LineIndex {
    /// The numeric value of the index.
    pub open spec fn spec_value(self) -> int {
        self.index as int
    }

    /// A line index is valid when it lies in `[1, Number::MAX]`.
    pub open spec fn valid(self) -> bool {
        1 <= self.index
    }

    /// Whether a number is in the line-index range.
    pub open spec fn spec_in_range(value: Number) -> bool {
        1 <= value
    }

    /// Validates a number as a line index; out-of-range values are refused
    /// with `InvalidLineIndex`.
    pub fn try_from(value: Number) -> (r: Result<LineIndex, ErrorKind>)
        ensures
            Self::spec_in_range(value) ==> (r matches Ok(ix) && ix.spec_value() == value
                && ix.valid()),
            !Self::spec_in_range(value) ==> (r matches Err(k) && k == ErrorKind::InvalidLineIndex),
    {
        if 1 <= value {
            Ok(LineIndex { index: value })
        } else {
            Err(ErrorKind::InvalidLineIndex)
        }
    }

    /// The index as a plain number.
    pub fn value(self) -> (r: Number)
        ensures
            r as int == self.spec_value(),
    {
        self.index
    }
}

/// Parses a nonempty string of decimal digits as a `Number`.  Digit strings
/// whose value exceeds `Number::MAX` are refused.
pub fn parse_number(digits: &Vec<u8>) -> (r: Result<Number, ErrorKind>)
    requires
        digits@.len() > 0,
        forall|i: int| 0 <= i < digits@.len() ==> crate::text::is_digit_byte(#[trigger] digits@[i]),
    ensures
        crate::text::digits_val(digits@) <= Number::MAX ==> (r matches Ok(v) && v as int
            == crate::text::digits_val(digits@)),
        crate::text::digits_val(digits@) > Number::MAX ==> (r matches Err(k) && k
            == ErrorKind::NumberParseError(crate::error::NumberParseErrorKind::PosOverflow)),
{
    proof {
        crate::text::lemma_digits_val_nonneg(digits@);
    }
    match crate::text::parse_digits(digits, Number::MAX as u32) {
        Some(v) => Ok(v as Number),
        None => Err(ErrorKind::NumberParseError(crate::error::NumberParseErrorKind::PosOverflow)),
    }
}

/// Addition of two values, wrapping in two's complement.
pub open spec fn spec_wrap_add(a: Number, b: Number) -> Number {
    vstd::wrapping::i16_specs::wrapping_add(a, b)
}

/// Subtraction of two values, wrapping in two's complement.
pub open spec fn spec_wrap_sub(a: Number, b: Number) -> Number {
    vstd::wrapping::i16_specs::wrapping_sub(a, b)
}

/// Multiplication of two values, wrapping in two's complement.
pub open spec fn spec_wrap_mul(a: Number, b: Number) -> Number {
    vstd::wrapping::i16_specs::wrapping_mul(a, b)
}

/// Truncating division.  Dividing by zero yields zero, and the one overflow
/// case (the smallest value divided by minus one) wraps to the smallest
/// value.
pub open spec fn spec_div(a: Number, b: Number) -> Number {
    if b == 0 {
        0
    } else if a == Number::MIN && b == -1 {
        Number::MIN
    } else {
        let x = a as int;
        let d = b as int;
        let q = if x == 0 {
            0
        } else if x > 0 && d > 0 {
            x / d
        } else if x < 0 && d < 0 {
            (x * -1) / (d * -1)
        } else if x < 0 {
            ((x * -1) / d) * -1
        } else {
            (x / (d * -1)) * -1
        };
        q as Number
    }
}

pub fn wrap_add(a: Number, b: Number) -> (r: Number)
    ensures
        r == spec_wrap_add(a, b),
{
    a.wrapping_add(b)
}

pub fn wrap_sub(a: Number, b: Number) -> (r: Number)
    ensures
        r == spec_wrap_sub(a, b),
{
    a.wrapping_sub(b)
}

pub fn wrap_mul(a: Number, b: Number) -> (r: Number)
    ensures
        r == spec_wrap_mul(a, b),
{
    a.wrapping_mul(b)
}

pub fn number_div(a: Number, b: Number) -> (r: Number)
    ensures
        r == spec_div(a, b),
{
    if b == 0 {
        0
    } else if a == Number::MIN && b == -1 {
        Number::MIN
    } else {
        let ua: u32 = if a < 0 {
            (-(a as i32)) as u32
        } else {
            a as u32
        };
        let ub: u32 = if b < 0 {
            (-(b as i32)) as u32
        } else {
            b as u32
        };
        let q: u32 = ua / ub;
        proof {
            vstd::arithmetic::div_mod::lemma_div_nonincreasing(ua as int, ub as int);
            if a < 0 && b < 0 && b != -1 {
                vstd::arithmetic::div_mod::lemma_div_is_ordered_by_denominator(
                    ua as int,
                    2,
                    ub as int,
                );
                vstd::arithmetic::div_mod::lemma_div_is_ordered(ua as int, 32768, 2);
            }
        }
        if (a < 0) != (b < 0) {
            (-(q as i32)) as i16
        } else {
            q as i16
        }
    }
}

/// Multiplying by one changes nothing, wrapping included.
pub proof fn lemma_wrap_mul_one(v: Number)
    ensures
        spec_wrap_mul(1, v) == v,
{
    if v >= 0 {
        vstd::arithmetic::div_mod::lemma_small_mod(v as nat, 0x1_0000);
    } else {
        vstd::arithmetic::div_mod::lemma_mod_multiples_vanish(1, v as int, 0x1_0000);
        vstd::arithmetic::div_mod::lemma_small_mod((v + 0x1_0000) as nat, 0x1_0000);
    }
}

} // verus!
