//! Reading a number from its IEEE 754 binary64 bit pattern: whether it is
//! above zero, and its whole part as a saturated `i64` (what `as i64` gives).

use vstd::prelude::*;
use vstd::arithmetic::power2::{pow2, lemma2_to64, lemma_pow2_adds, lemma_pow2_pos};
use vstd::bits::{lemma_u64_shl_is_mul, lemma_u64_shr_is_div};

verus! {

/// The sign bit.
pub open spec fn binary64_negative_sign(bits: u64) -> bool {
    bits >= 0x8000_0000_0000_0000
}

/// The biased exponent field (11 bits).
pub open spec fn binary64_exponent(bits: u64) -> nat {
    ((bits / 0x10_0000_0000_0000) % 2048) as nat
}

/// The fraction field (52 bits).
pub open spec fn binary64_fraction(bits: u64) -> nat {
    (bits % 0x10_0000_0000_0000) as nat
}

/// Not a number.
pub open spec fn binary64_is_nan(bits: u64) -> bool {
    binary64_exponent(bits) == 2047 && binary64_fraction(bits) != 0
}

/// The number is greater than zero.
pub open spec fn binary64_positive(bits: u64) -> bool {
    !binary64_negative_sign(bits) && !binary64_is_nan(bits) && (binary64_exponent(bits) != 0
        || binary64_fraction(bits) != 0)
}

/// The significand as an integer: the fraction, with the hidden bit for a
/// normal number. A finite number's magnitude is this times
/// `2^(max(exponent, 1) - 1075)`.
pub open spec fn binary64_significand(bits: u64) -> nat {
    if binary64_exponent(bits) == 0 {
        binary64_fraction(bits)
    } else {
        binary64_fraction(bits) + 0x10_0000_0000_0000
    }
}

/// The whole part of a finite number's magnitude.
pub open spec fn binary64_whole_magnitude(bits: u64) -> nat {
    let e = binary64_exponent(bits);
    let m = binary64_significand(bits);
    if e < 1023 {
        0
    } else if e <= 1075 {
        m / pow2((1075 - e) as nat)
    } else {
        m * pow2((e - 1075) as nat)
    }
}

/// The number as `as i64` converts it: truncated towards zero, saturated at
/// the ends of `i64`, and 0 for not-a-number.
pub open spec fn binary64_as_i64(bits: u64) -> i64 {
    if binary64_is_nan(bits) {
        0
    } else if binary64_exponent(bits) == 2047 {
        if binary64_negative_sign(bits) {
            i64::MIN
        } else {
            i64::MAX
        }
    } else {
        let w = binary64_whole_magnitude(bits);
        if binary64_negative_sign(bits) {
            if w >= 0x8000_0000_0000_0000 {
                i64::MIN
            } else {
                (-w) as i64
            }
        } else {
            if w > i64::MAX {
                i64::MAX
            } else {
                w as i64
            }
        }
    }
}

/// Whether the number with bit pattern `bits` is greater than zero.
pub fn binary64_is_positive(bits: u64) -> (r: bool)
    ensures
        r == binary64_positive(bits),
{
    let exp = (bits / 0x10_0000_0000_0000) % 2048;
    let frac = bits % 0x10_0000_0000_0000;
    let nan = exp == 2047 && frac != 0;
    bits < 0x8000_0000_0000_0000 && !nan && (exp != 0 || frac != 0)
}

/// The number with bit pattern `bits` converted `as i64`.
pub fn binary64_to_i64(bits: u64) -> (r: i64)
    ensures
        r == binary64_as_i64(bits),
{
    let exp = (bits / 0x10_0000_0000_0000) % 2048;
    let frac = bits % 0x10_0000_0000_0000;
    let negative = bits >= 0x8000_0000_0000_0000;
    if exp == 2047 {
        if frac != 0 {
            return 0;
        }
        return if negative {
            i64::MIN
        } else {
            i64::MAX
        };
    }
    let m: u64 = if exp == 0 {
        frac
    } else {
        frac + 0x10_0000_0000_0000
    };
    assert(m == binary64_significand(bits));
    assert(m < 0x20_0000_0000_0000);
    // The whole magnitude, or `None` when it is at least 2^63.
    let w: Option<u64> = if exp < 1023 {
        Some(0)
    } else if exp <= 1075 {
        let s = 1075 - exp;
        proof {
            lemma_u64_shr_is_div(m, s);
        }
        Some(m >> s)
    } else {
        let k = exp - 1075;
        if k >= 11 {
            proof {
                lemma2_to64();
                lemma_pow2_adds(11, (k - 11) as nat);
                lemma_pow2_pos((k - 11) as nat);
                let p = pow2(k as nat);
                assert(p >= 2048);
                assert(m >= 0x10_0000_0000_0000);
                assert(m * p >= 0x10_0000_0000_0000 * 2048) by (nonlinear_arith)
                    requires
                        m >= 0x10_0000_0000_0000,
                        p >= 2048,
                ;
            }
            None
        } else {
            proof {
                lemma2_to64();
                let p = pow2(k as nat);
                assert(p <= 1024) by {
                    if k < 10 {
                        lemma_pow2_adds(k as nat, (10 - k) as nat);
                        lemma_pow2_pos((10 - k) as nat);
                    }
                }
                assert(m * p <= 0x20_0000_0000_0000 * 1024) by (nonlinear_arith)
                    requires
                        m < 0x20_0000_0000_0000,
                        p <= 1024,
                ;
                lemma_u64_shl_is_mul(m, k);
            }
            Some(m << k)
        }
    };
    match w {
        None => if negative {
            i64::MIN
        } else {
            i64::MAX
        },
        Some(w) => {
            assert(w == binary64_whole_magnitude(bits));
            if negative {
                if w >= 0x8000_0000_0000_0000 {
                    i64::MIN
                } else {
                    -(w as i64)
                }
            } else if w > 0x7FFF_FFFF_FFFF_FFFF {
                i64::MAX
            } else {
                w as i64
            }
        },
    }
}

} // verus!
