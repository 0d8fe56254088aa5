//! Single-precision numbers read from their bit patterns with integer
//! arithmetic alone: the floor of a number, and whether it has a fraction.
use vstd::arithmetic::power2::{lemma2_to64, lemma_pow2_strictly_increases, lemma_pow2_unfold, pow2};
use vstd::prelude::*;

verus! {

/// The biased exponent of a single-precision pattern.
pub open spec fn exponent_of(bits: u32) -> int {
    (bits as int / 0x80_0000) % 256
}

/// The mantissa bits of a single-precision pattern.
pub open spec fn mantissa_of(bits: u32) -> int {
    bits as int % 0x80_0000
}

/// The significand of a normal number: the mantissa with its leading one.
pub open spec fn significand_of(bits: u32) -> int {
    mantissa_of(bits) + 0x80_0000
}

/// Whether the sign bit is set.
pub open spec fn is_negative(bits: u32) -> bool {
    bits >= 0x8000_0000
}

/// Whether the pattern stands for no number at all.
pub open spec fn is_nan(bits: u32) -> bool {
    exponent_of(bits) == 255 && mantissa_of(bits) != 0
}

/// The magnitude of the number, rounded toward zero. Numbers below one,
/// zero and the subnormal ones among them, have the magnitude zero; for an
/// infinite number the magnitude lies beyond that of every finite one.
pub open spec fn magnitude_of(bits: u32) -> int {
    let e = exponent_of(bits);
    if e < 127 {
        0
    } else if e >= 150 {
        significand_of(bits) * pow2((e - 150) as nat)
    } else {
        significand_of(bits) / (pow2((150 - e) as nat) as int)
    }
}

/// Whether the number is no whole number: it lies strictly between two
/// whole numbers next to each other.
pub open spec fn has_fraction(bits: u32) -> bool {
    let e = exponent_of(bits);
    if e < 127 {
        e != 0 || mantissa_of(bits) != 0
    } else if e >= 150 {
        false
    } else {
        significand_of(bits) % (pow2((150 - e) as nat) as int) != 0
    }
}

/// The largest whole number that is not above the number.
pub open spec fn floor_of(bits: u32) -> int {
    let m = magnitude_of(bits);
    if !is_negative(bits) {
        m
    } else if has_fraction(bits) {
        -m - 1
    } else {
        -m
    }
}

/// The bound beyond which a floor is not computed but held.
pub const REACH: i64 = 0x100_0000_0000;

/// A whole number held to the range from `-REACH` to `REACH`.
pub open spec fn held(v: int) -> int {
    if v < -REACH {
        -REACH as int
    } else if v > REACH {
        REACH as int
    } else {
        v
    }
}

/// Two to the power `k`.
fn two_to(k: u32) -> (r: u32)
    requires
        k <= 23,
    ensures
        r == pow2(k as nat),
        1 <= r <= 0x80_0000,
{
    let mut r: u32 = 1;
    let mut i: u32 = 0;
    proof {
        lemma2_to64();
    }
    while i < k
        invariant
            i <= k <= 23,
            r == pow2(i as nat),
            1 <= r,
            pow2(23) == 0x80_0000,
        decreases k - i,
    {
        proof {
            lemma_pow2_unfold((i + 1) as nat);
            if i + 1 < 23 {
                lemma_pow2_strictly_increases((i + 1) as nat, 23);
            }
        }
        r = r * 2;
        i = i + 1;
    }
    proof {
        if k < 23 {
            lemma_pow2_strictly_increases(k as nat, 23);
        }
    }
    r
}

/// Whether the pattern stands for no number at all.
pub fn single_is_nan(bits: u32) -> (r: bool)
    ensures
        r == is_nan(bits),
{
    (bits / 0x80_0000) % 256 == 255 && bits % 0x80_0000 != 0
}

/// Whether the number with the given bit pattern is no whole number.
pub fn single_has_fraction(bits: u32) -> (r: bool)
    ensures
        r == has_fraction(bits),
{
    let e: u32 = (bits / 0x80_0000) % 256;
    let mantissa: u32 = bits % 0x80_0000;
    if e < 127 {
        e != 0 || mantissa != 0
    } else if e >= 150 {
        false
    } else {
        (mantissa + 0x80_0000) % two_to(150 - e) != 0
    }
}

/// The floor of the number with the given bit pattern, held to the range
/// from `-REACH` to `REACH`.
pub fn single_floor(bits: u32) -> (r: i64)
    ensures
        r == held(floor_of(bits)),
{
    let e: u32 = (bits / 0x80_0000) % 256;
    let mantissa: u32 = bits % 0x80_0000;
    let negative = bits >= 0x8000_0000;
    let significand: u32 = mantissa + 0x80_0000;
    if e < 127 {
        return if negative && (e != 0 || mantissa != 0) {
            -1
        } else {
            0
        };
    }
    if e >= 167 {
        proof {
            lemma2_to64();
            if e > 167 {
                lemma_pow2_strictly_increases(17, (e - 150) as nat);
            }
            let p = pow2((e - 150) as nat) as int;
            assert(significand * p >= 0x100_0000_0000) by (nonlinear_arith)
                requires
                    significand >= 0x80_0000,
                    p >= 0x2_0000,
            ;
        }
        return if negative {
            -REACH
        } else {
            REACH
        };
    }
    if e >= 150 {
        let p = two_to(e - 150);
        proof {
            lemma2_to64();
            if e < 166 {
                lemma_pow2_strictly_increases((e - 150) as nat, 16);
            }
            assert(significand * p < 0x100_0000_0000) by (nonlinear_arith)
                requires
                    significand < 0x100_0000,
                    1 <= p <= 0x1_0000,
            ;
        }
        let m: i64 = significand as i64 * p as i64;
        if negative {
            -m
        } else {
            m
        }
    } else {
        let p = two_to(150 - e);
        let m: i64 = (significand / p) as i64;
        if !negative {
            m
        } else if significand % p != 0 {
            -m - 1
        } else {
            -m
        }
    }
}

} // verus!
