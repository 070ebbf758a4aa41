//! Real numbers as the file stores them.

use vstd::prelude::*;

verus! {

/// A real number taken from a metadata tree, kept exactly as it was
/// stored. The library never computes in floating point: a `Float` is the
/// IEEE 754 binary64 bit pattern, and an integer stays an integer until
/// the caller converts it.
#[derive(Debug, Clone, Copy, PartialEq, Eq, Structural)]
pub enum Number {
    /// The bit pattern of a binary64 number.
    Float(u64),
    /// A signed integer.
    Int(i64),
    /// An unsigned integer.
    UInt(u64),
}

/// The exponent field of a binary64 bit pattern.
pub open spec fn exponent_field(bits: u64) -> u64 {
    (bits >> 52) & 0x7ff
}

/// The fraction field of a binary64 bit pattern.
pub open spec fn fraction_field(bits: u64) -> u64 {
    bits & 0xf_ffff_ffff_ffff
}

/// Whether a binary64 bit pattern has its sign bit set.
pub open spec fn sign_bit(bits: u64) -> bool {
    (bits >> 63) == 1
}

/// Whether a binary64 bit pattern is a NaN.
pub open spec fn is_nan(bits: u64) -> bool {
    exponent_field(bits) == 0x7ff && fraction_field(bits) != 0
}

/// The integer part of the magnitude of a finite binary64 number whose
/// unbiased exponent `e` lies in `0..=30`.
pub open spec fn integer_magnitude(bits: u64, e: u64) -> u64 {
    (0x10_0000_0000_0000u64 | fraction_field(bits)) >> ((52 - e) as u64)
}

/// The 32-bit integer nearest to zero-wards of a binary64 number: NaN
/// gives 0, and a number beyond the range gives the nearest bound.
pub open spec fn float_to_i32(bits: u64) -> i32 {
    let exp = exponent_field(bits);
    if is_nan(bits) || exp < 1023 {
        0
    } else if exp >= 1023 + 31 {
        if sign_bit(bits) {
            i32::MIN
        } else {
            i32::MAX
        }
    } else {
        let mag = integer_magnitude(bits, (exp - 1023) as u64);
        if sign_bit(bits) {
            (-(mag as int)) as i32
        } else {
            mag as i32
        }
    }
}

impl Number {
    /// Positive zero.
    pub open spec fn spec_zero() -> Number {
        Number::Float(0)
    }

    /// Positive zero.
    #[verifier::when_used_as_spec(spec_zero)]
    pub fn zero() -> (z: Number)
        ensures
            z == Number::spec_zero(),
    {
        Number::Float(0)
    }

    /// Whether the number is at least zero. Negative zero is; NaN is not.
    pub open spec fn spec_is_non_negative(self) -> bool {
        match self {
            Number::Float(bits) => !is_nan(bits) && (!sign_bit(bits) || bits
                == 0x8000_0000_0000_0000u64),
            Number::Int(i) => i >= 0,
            Number::UInt(_) => true,
        }
    }

    /// Whether the number is at least zero. Negative zero is; NaN is not.
    #[verifier::when_used_as_spec(spec_is_non_negative)]
    pub fn is_non_negative(self) -> (yes: bool)
        ensures
            yes == self.spec_is_non_negative(),
    {
        match self {
            Number::Float(bits) => {
                let nan = ((bits >> 52) & 0x7ff) == 0x7ff && (bits & 0xf_ffff_ffff_ffff) != 0;
                !nan && ((bits >> 63) != 1 || bits == 0x8000_0000_0000_0000u64)
            },
            Number::Int(i) => i >= 0,
            Number::UInt(_) => true,
        }
    }

    /// The number cut to a 32-bit integer: the fraction is dropped, and a
    /// value beyond the range gives the nearest bound.
    pub open spec fn spec_to_i32(self) -> i32 {
        match self {
            Number::Float(bits) => float_to_i32(bits),
            Number::Int(i) => if i < i32::MIN {
                i32::MIN
            } else if i > i32::MAX {
                i32::MAX
            } else {
                i as i32
            },
            Number::UInt(u) => if u > i32::MAX {
                i32::MAX
            } else {
                u as i32
            },
        }
    }

    /// The number cut to a 32-bit integer: the fraction is dropped, and a
    /// value beyond the range gives the nearest bound.
    #[verifier::when_used_as_spec(spec_to_i32)]
    pub fn to_i32(self) -> (cut: i32)
        ensures
            cut == self.spec_to_i32(),
    {
        match self {
            Number::Float(bits) => {
                let exp: u64 = (bits >> 52) & 0x7ff;
                let fraction: u64 = bits & 0xf_ffff_ffff_ffff;
                let negative: bool = (bits >> 63) == 1;
                assert(exp <= 0x7ff) by (bit_vector)
                    requires
                        exp == (bits >> 52) & 0x7ff,
                ;
                if (exp == 0x7ff && fraction != 0) || exp < 1023 {
                    0
                } else if exp >= 1023 + 31 {
                    if negative {
                        i32::MIN
                    } else {
                        i32::MAX
                    }
                } else {
                    let e: u64 = exp - 1023;
                    let shift: u64 = 52 - e;
                    let mag: u64 = (0x10_0000_0000_0000u64 | fraction) >> shift;
                    assert(mag < 0x8000_0000) by (bit_vector)
                        requires
                            fraction == bits & 0xf_ffff_ffff_ffff,
                            22 <= shift <= 52,
                            mag == (0x10_0000_0000_0000u64 | fraction) >> shift,
                    ;
                    if negative {
                        -(mag as i32)
                    } else {
                        mag as i32
                    }
                }
            },
            Number::Int(i) => if i < i32::MIN as i64 {
                i32::MIN
            } else if i > i32::MAX as i64 {
                i32::MAX
            } else {
                i as i32
            },
            Number::UInt(u) => if u > i32::MAX as u64 {
                i32::MAX
            } else {
                u as i32
            },
        }
    }
}

} // verus!
