//! Conversions between 8-bit normalized channels and the bit patterns of
//! binary floating point numbers, in integer arithmetic.
//!
//! A channel value `u` stands for `u / 255`. A number becomes a channel by
//! multiplying with 255 and cutting off the fraction; what lies below 0 or is
//! not a number becomes 0, and what lies above 255 becomes 255.

use vstd::prelude::*;

verus! {

/// The channel for the half precision number with the bit pattern `bits`.
///
/// A half precision number has a sign bit, 5 exponent bits with a bias of 15
/// and 10 mantissa bits, so its product with 255 is
/// `(1024 + mantissa) * 255 / 2^(25 - exponent)`.
pub open spec fn half_to_unorm8_spec(bits: u16) -> u8 {
    let exponent = (bits / 1024) % 32;
    let mantissa = bits % 1024;
    if bits >= 0x8000 {
        0
    } else if exponent == 31 {
        if mantissa == 0 {
            255
        } else {
            0
        }
    } else if exponent >= 15 {
        255
    } else if exponent == 0 {
        0
    } else {
        ((((1024 + mantissa) * 255) as u32) >> ((25 - exponent) as u32)) as u8
    }
}

/// The channel for the half precision number with the bit pattern `bits`.
pub fn half_to_unorm8(bits: u16) -> (r: u8)
    ensures
        r == half_to_unorm8_spec(bits),
{
    let exponent: u16 = (bits / 1024) % 32;
    let mantissa: u16 = bits % 1024;
    if bits >= 0x8000 {
        0
    } else if exponent == 31 {
        if mantissa == 0 {
            255
        } else {
            0
        }
    } else if exponent >= 15 {
        255
    } else if exponent == 0 {
        0
    } else {
        let product: u32 = (1024 + mantissa as u32) * 255;
        let shift: u32 = 25 - exponent as u32;
        let scaled: u32 = product >> shift;
        assert(scaled <= 255) by (bit_vector)
            requires
                scaled == product >> shift,
                product <= 2047 * 255,
                11 <= shift <= 24,
        ;
        scaled as u8
    }
}

/// The product with 255 of a single precision number below 1 with the given
/// mantissa, rounded to the 24 bits that a single precision number keeps
/// (a tie goes to the even neighbour), as a multiple of `2^(exponent - 150)`.
pub open spec fn single_product_spec(mantissa: u32) -> u64 {
    let product = ((0x80_0000 + mantissa) * 255) as u64;
    let unit: u64 = if product >= 0x8000_0000 {
        256
    } else {
        128
    };
    let quotient = product / unit;
    let rest = product % unit;
    if rest * 2 > unit || (rest * 2 == unit && quotient % 2 == 1) {
        ((quotient + 1) * unit) as u64
    } else {
        (quotient * unit) as u64
    }
}

/// The channel for the single precision number with the bit pattern `bits`.
///
/// A single precision number has a sign bit, 8 exponent bits with a bias of
/// 127 and 23 mantissa bits. Its product with 255 is first rounded to single
/// precision and then cut off.
pub open spec fn single_to_unorm8_spec(bits: u32) -> u8 {
    let exponent = (bits / 0x80_0000) % 256;
    let mantissa = bits % 0x80_0000;
    if bits >= 0x8000_0000 {
        0
    } else if exponent == 255 {
        if mantissa == 0 {
            255
        } else {
            0
        }
    } else if exponent >= 127 {
        255
    } else if exponent < 118 {
        0
    } else {
        let scaled = single_product_spec(mantissa) >> ((150 - exponent) as u64);
        if scaled >= 255 {
            255
        } else {
            scaled as u8
        }
    }
}

/// The channel for the single precision number with the bit pattern `bits`.
pub fn single_to_unorm8(bits: u32) -> (r: u8)
    ensures
        r == single_to_unorm8_spec(bits),
{
    let exponent: u32 = (bits / 0x80_0000) % 256;
    let mantissa: u32 = bits % 0x80_0000;
    if bits >= 0x8000_0000 {
        0
    } else if exponent == 255 {
        if mantissa == 0 {
            255
        } else {
            0
        }
    } else if exponent >= 127 {
        255
    } else if exponent < 118 {
        0
    } else {
        let product: u64 = (0x80_0000 + mantissa as u64) * 255;
        let unit: u64 = if product >= 0x8000_0000 {
            256
        } else {
            128
        };
        let quotient: u64 = product / unit;
        let rest: u64 = product % unit;
        let rounded: u64 = if rest * 2 > unit || (rest * 2 == unit && quotient % 2 == 1) {
            (quotient + 1) * unit
        } else {
            quotient * unit
        };
        let shift: u64 = 150 - exponent as u64;
        let scaled: u64 = rounded >> shift;
        if scaled >= 255 {
            255
        } else {
            scaled as u8
        }
    }
}

/// A channel value above 0 doubled until it is at least 255, and the number
/// of times it was doubled on top of `doubled`.
pub open spec fn normalized(value: int, doubled: int) -> (int, int)
    decreases 510 - value,
{
    if value >= 255 || value <= 0 {
        (value, doubled)
    } else {
        normalized(2 * value, doubled + 1)
    }
}

/// The bit pattern of the binary floating point number nearest to `u / 255`,
/// in a format whose mantissa has `scale` values and whose exponent has the
/// given bias.
///
/// With `u * 2^k` between 255 and 509, `u / 255` is `u * 2^k / 255`, a number
/// from 1 up to 2, times `2^-k`. No tie occurs in rounding it, since 255 is
/// odd.
pub open spec fn unorm8_to_binary_spec(u: u8, scale: int, bias: int) -> int {
    let (value, doubled) = normalized(u as int, 0);
    let quotient = value * scale / 255;
    let rest = value * scale % 255;
    let rounded = if rest * 2 > 255 {
        quotient + 1
    } else {
        quotient
    };
    if u == 0 {
        0
    } else {
        (bias - 1 - doubled) * scale + rounded
    }
}

/// The bit pattern of the half precision number nearest to `u / 255`.
pub open spec fn unorm8_to_half_spec(u: u8) -> int {
    unorm8_to_binary_spec(u, 1024, 15)
}

/// The bit pattern of the single precision number nearest to `u / 255`.
pub open spec fn unorm8_to_single_spec(u: u8) -> int {
    unorm8_to_binary_spec(u, 0x80_0000, 127)
}

fn unorm8_to_binary(u: u8, scale: u32, bias: u32) -> (r: u32)
    requires
        scale == 1024 && bias == 15 || scale == 0x80_0000 && bias == 127,
    ensures
        r == unorm8_to_binary_spec(u, scale as int, bias as int),
        scale == 1024 ==> r <= 0x4000,
{
    if u == 0 {
        return 0;
    }
    let mut value: u32 = u as u32;
    let mut doubled: u32 = 0;
    while value < 255
        invariant
            1 <= value <= 509,
            doubled <= 8,
            doubled == 1 ==> value >= 2,
            doubled == 2 ==> value >= 4,
            doubled == 3 ==> value >= 8,
            doubled == 4 ==> value >= 16,
            doubled == 5 ==> value >= 32,
            doubled == 6 ==> value >= 64,
            doubled == 7 ==> value >= 128,
            doubled == 8 ==> value >= 256,
            normalized(value as int, doubled as int) == normalized(u as int, 0),
        decreases 510 - value,
    {
        value = value * 2;
        doubled = doubled + 1;
    }
    let product: u64 = value as u64 * scale as u64;
    let quotient: u64 = product / 255;
    let rest: u64 = product % 255;
    let rounded: u64 = if rest * 2 > 255 {
        quotient + 1
    } else {
        quotient
    };
    assert(product == value * scale) by (nonlinear_arith)
        requires
            product == value as u64 * scale as u64,
            value <= 509,
            scale <= 0x80_0000,
    ;
    assert(rounded <= 2 * scale) by (nonlinear_arith)
        requires
            rounded <= product / 255 + 1,
            product == value * scale,
            value <= 509,
            scale >= 1024,
    ;
    let steps: u64 = (bias - 1 - doubled) as u64;
    assert(steps * scale <= 126 * scale) by (nonlinear_arith)
        requires
            steps <= 126,
            scale >= 0,
    ;
    let bits: u64 = steps * scale as u64 + rounded;
    bits as u32
}

/// The bit pattern of the half precision number nearest to `u / 255`.
pub fn unorm8_to_half(u: u8) -> (r: u16)
    ensures
        r == unorm8_to_half_spec(u),
{
    unorm8_to_binary(u, 1024, 15) as u16
}

/// The bit pattern of the single precision number nearest to `u / 255`.
pub fn unorm8_to_single(u: u8) -> (r: u32)
    ensures
        r == unorm8_to_single_spec(u),
{
    unorm8_to_binary(u, 0x80_0000, 127)
}

} // verus!
