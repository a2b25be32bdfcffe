//! Single-precision amplitudes as fixed-point numbers.
//!
//! A sample that a container holds in IEEE 754 single precision arrives
//! here as its 32-bit pattern: one sign bit, eight exponent bits, twenty-three
//! fraction bits. Its magnitude is `m * 2^(e - 150)`, where `m` is the
//! significand and `e` the exponent field (1 where the field is 0). The
//! fixed-point amplitude is that value in units of 2^-40, cut off towards
//! zero and held within 2^62 either way.

use vstd::prelude::*;
use vstd::arithmetic::power2::{
    lemma2_to64,
    lemma2_to64_rest,
    lemma_pow2_strictly_increases,
    lemma_pow2_unfold,
    pow2,
};

verus! {

/// The denominator of fixed-point amplitudes, 2^40.
pub const FIXED_POINT_SCALE: u64 = 0x100_0000_0000;

/// The largest magnitude of a fixed-point numerator, 2^62.
pub const FIXED_POINT_LIMIT: i64 = 0x4000_0000_0000_0000;

/// The eight exponent bits of a pattern.
pub open spec fn exponent_field(bits: u32) -> int {
    (bits as int / 0x80_0000) % 256
}

/// The twenty-three fraction bits of a pattern.
pub open spec fn fraction_field(bits: u32) -> int {
    bits as int % 0x80_0000
}

/// Whether the sign bit of a pattern is set.
pub open spec fn sign_set(bits: u32) -> bool {
    bits >= 0x8000_0000
}

/// The significand of a finite pattern: the fraction bits, with the hidden
/// leading bit where the exponent field is not 0.
pub open spec fn significand(bits: u32) -> int {
    if exponent_field(bits) == 0 {
        fraction_field(bits)
    } else {
        fraction_field(bits) + 0x80_0000
    }
}

/// The exponent `e` of a finite pattern, whose magnitude is
/// `significand * 2^(e - 150)`.
pub open spec fn binary_exponent(bits: u32) -> int {
    if exponent_field(bits) == 0 {
        1
    } else {
        exponent_field(bits)
    }
}

/// The magnitude of a pattern in units of 2^-40, cut off towards zero and
/// capped at 2^62. An infinity gives the cap; a pattern that is not a number
/// gives 0.
pub open spec fn fixed_magnitude(bits: u32) -> int {
    let e = binary_exponent(bits);
    let m = significand(bits);
    if exponent_field(bits) == 255 {
        if fraction_field(bits) == 0 {
            FIXED_POINT_LIMIT as int
        } else {
            0
        }
    } else if e >= 110 {
        let exact = m * pow2((e - 110) as nat);
        if exact > FIXED_POINT_LIMIT {
            FIXED_POINT_LIMIT as int
        } else {
            exact
        }
    } else {
        m / (pow2((110 - e) as nat) as int)
    }
}

/// The fixed-point numerator of a pattern: its magnitude with its sign.
pub open spec fn fixed_of_single(bits: u32) -> int {
    if sign_set(bits) {
        -fixed_magnitude(bits)
    } else {
        fixed_magnitude(bits)
    }
}

/// Two to the power `k`.
fn power_of_two(k: u32) -> (p: u64)
    requires
        k <= 62,
    ensures
        p == pow2(k as nat),
{
    let mut p: u64 = 1;
    let mut j: u32 = 0;
    proof {
        lemma2_to64();
    }
    while j < k
        invariant
            j <= k <= 62,
            p == pow2(j as nat),
        decreases k - j,
    {
        proof {
            lemma_pow2_unfold((j + 1) as nat);
            lemma2_to64_rest();
            if j + 1 < 63 {
                lemma_pow2_strictly_increases((j + 1) as nat, 63);
            }
        }
        p = p * 2;
        j += 1;
    }
    p
}

/// Converts a single-precision bit pattern into its fixed-point numerator
/// over `FIXED_POINT_SCALE`.
///
/// The conversion is exact for every finite value that is a multiple of
/// 2^-40 and below 2^22 in magnitude. Smaller parts are cut off, larger
/// values and infinities are held at 2^62, and a pattern that is not a
/// number reads as 0.
pub fn fixed_from_single(bits: u32) -> (r: i64)
    ensures
        r == fixed_of_single(bits),
        -FIXED_POINT_LIMIT <= r <= FIXED_POINT_LIMIT,
{
    let negative: bool = bits >= 0x8000_0000;
    let field: u32 = (bits / 0x80_0000) % 256;
    let fraction: u32 = bits % 0x80_0000;
    let magnitude: i64 = if field == 255 {
        if fraction == 0 {
            FIXED_POINT_LIMIT
        } else {
            0
        }
    } else {
        let m: u64 = if field == 0 {
            fraction as u64
        } else {
            fraction as u64 + 0x80_0000
        };
        let e: u32 = if field == 0 {
            1
        } else {
            field
        };
        if e >= 110 {
            let k: u32 = e - 110;
            if k > 38 {
                proof {
                    lemma2_to64_rest();
                    if k > 39 {
                        lemma_pow2_strictly_increases(39, k as nat);
                    }
                    let p = pow2(k as nat) as int;
                    assert(m * p >= 0x80_0000 * 0x80_0000_0000) by (nonlinear_arith)
                        requires
                            m >= 0x80_0000,
                            p >= 0x80_0000_0000,
                    ;
                }
                FIXED_POINT_LIMIT
            } else {
                let p: u64 = power_of_two(k);
                proof {
                    lemma2_to64_rest();
                    vstd::arithmetic::power2::lemma_pow2_pos(k as nat);
                    if k < 38 {
                        lemma_pow2_strictly_increases(k as nat, 38);
                    }
                    assert(m * p < 0x100_0000 * 0x40_0000_0000) by (nonlinear_arith)
                        requires
                            0 <= m < 0x100_0000,
                            0 < p <= 0x40_0000_0000,
                    ;
                }
                (m * p) as i64
            }
        } else {
            let d: u32 = 110 - e;
            if d >= 24 {
                proof {
                    lemma2_to64();
                    if d > 24 {
                        lemma_pow2_strictly_increases(24, d as nat);
                    }
                    let p = pow2(d as nat) as int;
                    assert(m as int / p == 0) by (nonlinear_arith)
                        requires
                            0 <= m < p,
                    ;
                }
                0
            } else {
                let p: u64 = power_of_two(d);
                proof {
                    vstd::arithmetic::power2::lemma_pow2_pos(d as nat);
                }
                (m / p) as i64
            }
        }
    };
    if negative {
        -magnitude
    } else {
        magnitude
    }
}

} // verus!
