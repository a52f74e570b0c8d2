//! Bit-level model of IEEE-754 single- and half-precision encodings.
//!
//! Every float that flows through the library is carried as its bit
//! pattern (`u32` for single precision, `u16` for half precision).  The
//! spec functions here interpret a pattern as sign, exponent and
//! fraction fields, and give each non-NaN pattern an exact integer
//! magnitude in fixed units (`2^-149` for single precision, `2^-24` for
//! half precision), so that contracts can speak about the represented
//! values with mathematical integers.

use vstd::prelude::*;
use vstd::arithmetic::power2::*;
use vstd::arithmetic::mul::*;

verus! {

/// Sign bit of a single-precision pattern.
pub open spec fn f32_sign(b: u32) -> bool {
    b >> 31 == 1
}

/// Biased exponent field of a single-precision pattern.
pub open spec fn f32_exp(b: u32) -> u32 {
    (b >> 23) & 0xff
}

/// Fraction field of a single-precision pattern.
pub open spec fn f32_frac(b: u32) -> u32 {
    b & 0x7f_ffff
}

/// A single-precision pattern encodes NaN.
pub open spec fn f32_is_nan(b: u32) -> bool {
    f32_exp(b) == 255 && f32_frac(b) != 0
}

/// Magnitude of a single-precision pattern in units of `2^-149`.
///
/// Subnormals use the fraction directly; normal numbers carry the
/// implicit leading bit.  Infinities fall out of the same formula as a
/// magnitude above every finite one, which is exactly the ordering
/// IEEE-754 comparisons give them.
pub open spec fn f32_mag(b: u32) -> nat {
    if f32_exp(b) == 0 {
        f32_frac(b) as nat
    } else {
        ((f32_frac(b) + 0x80_0000) as nat) * pow2((f32_exp(b) - 1) as nat)
    }
}

/// Signed value of a single-precision pattern in units of `2^-149`.
/// `-0.0` and `+0.0` both map to `0`, as IEEE-754 equality demands.
pub open spec fn f32_val(b: u32) -> int {
    if f32_sign(b) {
        -(f32_mag(b) as int)
    } else {
        f32_mag(b) as int
    }
}

/// Sign bit of a half-precision pattern.
pub open spec fn f16_sign(h: u16) -> bool {
    h >> 15 == 1
}

/// Biased exponent field of a half-precision pattern.
pub open spec fn f16_exp(h: u16) -> u16 {
    (h >> 10) & 0x1f
}

/// Fraction field of a half-precision pattern.
pub open spec fn f16_frac(h: u16) -> u16 {
    h & 0x3ff
}

/// A half-precision pattern encodes NaN.
pub open spec fn f16_is_nan(h: u16) -> bool {
    f16_exp(h) == 31 && f16_frac(h) != 0
}

/// Magnitude of a half-precision pattern in units of `2^-24`.
pub open spec fn f16_mag(h: u16) -> nat {
    if f16_exp(h) == 0 {
        f16_frac(h) as nat
    } else {
        ((f16_frac(h) + 0x400) as nat) * pow2((f16_exp(h) - 1) as nat)
    }
}

/// IEEE-754 `>=` on single-precision values, stated over the bit
/// model: false whenever either side is NaN, otherwise comparison of
/// the represented values.
pub open spec fn spec_f32_ge(a: u32, b: u32) -> bool {
    !f32_is_nan(a) && !f32_is_nan(b) && f32_val(a) >= f32_val(b)
}

/// Magnitude, in single-precision units of `2^-149`, that a half
/// pattern takes on after promotion: finite halves rescale exactly,
/// and the half infinity becomes the single infinity.
pub open spec fn spec_promoted_f16_mag(h: u16) -> nat {
    if f16_exp(h) == 31 {
        (0x80_0000 as nat) * pow2(254)
    } else {
        f16_mag(h) * pow2(125)
    }
}

/// The magnitude field (everything but the sign bit) orders
/// single-precision magnitudes: a larger field means a strictly larger
/// magnitude.  This is the classic monotonicity of the IEEE-754
/// encoding.
proof fn lemma_f32_mag_field(a: u32)
    ensures
        (a & 0x7fff_ffff) == f32_exp(a) * 0x80_0000 + f32_frac(a),
        f32_exp(a) <= 255,
{
    assert((a & 0x7fff_ffff) == ((a >> 23) & 0xff) * 0x80_0000 + (a & 0x7f_ffff)
        && ((a >> 23) & 0xff) <= 255) by (bit_vector);
}

/// Strict monotonicity of `f32_mag` in the unsigned magnitude field.
pub proof fn lemma_f32_mag_monotone(a: u32, b: u32)
    requires
        (a & 0x7fff_ffff) < (b & 0x7fff_ffff),
    ensures
        f32_mag(a) < f32_mag(b),
{
    lemma_f32_mag_field(a);
    lemma_f32_mag_field(b);
    let ea = f32_exp(a);
    let eb = f32_exp(b);
    let fa = f32_frac(a);
    let fb = f32_frac(b);
    assert(a & 0x7f_ffff < 0x80_0000 && b & 0x7f_ffff < 0x80_0000) by (bit_vector);
    if ea == eb {
        assert(fa < fb);
        if ea == 0 {
        } else {
            lemma_pow2_pos((ea - 1) as nat);
            lemma_mul_strict_inequality(
                (fa + 0x80_0000) as int,
                (fb + 0x80_0000) as int,
                pow2((ea - 1) as nat) as int,
            );
        }
    } else {
        assert(ea < eb);
        lemma_pow2_pos((eb - 1) as nat);
        lemma_mul_inequality(0x80_0000, (fb + 0x80_0000) as int, pow2((eb - 1) as nat) as int);
        assert(pow2(24) == 0x100_0000 && pow2(23) == 0x80_0000) by {
            lemma2_to64();
        }
        lemma_pow2_adds(23, (eb - 1) as nat);
        assert(f32_mag(b) >= pow2((eb + 22) as nat));
        if ea == 0 {
            // mag(a) = fa < 2^23 <= 2^23 * pow2(eb-1) <= mag(b)
            assert(pow2(23) <= pow2((eb + 22) as nat)) by {
                if 23 < eb + 22 {
                    lemma_pow2_strictly_increases(23, (eb + 22) as nat);
                }
            }
            assert(f32_mag(a) < pow2(23));
        } else {
            // mag(a) < 2^24 * pow2(ea-1) = pow2(ea+23) <= pow2(eb+22) <= mag(b)
            lemma_pow2_pos((ea - 1) as nat);
            lemma_mul_strict_inequality(
                (fa + 0x80_0000) as int,
                0x100_0000,
                pow2((ea - 1) as nat) as int,
            );
            lemma_pow2_adds(24, (ea - 1) as nat);
            assert(f32_mag(a) < pow2((ea + 23) as nat));
            assert(pow2((ea + 23) as nat) <= pow2((eb + 22) as nat)) by {
                if ea + 23 < eb + 22 {
                    lemma_pow2_strictly_increases((ea + 23) as nat, (eb + 22) as nat);
                }
            }
        }
    }
}

/// Equal magnitude fields give equal magnitudes.
pub proof fn lemma_f32_mag_same_field(a: u32, b: u32)
    requires
        (a & 0x7fff_ffff) == (b & 0x7fff_ffff),
    ensures
        f32_mag(a) == f32_mag(b),
{
    assert(f32_exp(a) == f32_exp(b) && f32_frac(a) == f32_frac(b)) by (bit_vector)
        requires (a & 0x7fff_ffff) == (b & 0x7fff_ffff);
}

/// IEEE-754 `>=` on single-precision bit patterns: false whenever either
/// side is NaN, otherwise comparison of the represented values (so
/// `-0.0 >= +0.0` holds).
pub fn f32_ge_bits(a: u32, b: u32) -> (r: bool)
    ensures
        r == spec_f32_ge(a, b),
{
    let ea: u32 = (a >> 23) & 0xff;
    let fa: u32 = a & 0x7f_ffff;
    let eb: u32 = (b >> 23) & 0xff;
    let fb: u32 = b & 0x7f_ffff;
    if (ea == 255 && fa != 0) || (eb == 255 && fb != 0) {
        return false;
    }
    let sa: bool = (a >> 31) == 1;
    let sb: bool = (b >> 31) == 1;
    let ma: u32 = a & 0x7fff_ffff;
    let mb: u32 = b & 0x7fff_ffff;
    proof {
        if ma < mb {
            lemma_f32_mag_monotone(a, b);
        } else if mb < ma {
            lemma_f32_mag_monotone(b, a);
        } else {
            lemma_f32_mag_same_field(a, b);
        }
        assert(0u32 & 0x7fff_ffff == 0 && (0u32 >> 23) & 0xff == 0 && 0u32 & 0x7f_ffff == 0)
            by (bit_vector);
        assert(f32_mag(0u32) == 0);
        if ma != 0 {
            lemma_f32_mag_monotone(0u32, a);
        } else {
            assert(f32_exp(a) == 0 && f32_frac(a) == 0) by (bit_vector)
                requires (a & 0x7fff_ffff) == 0;
        }
        if mb != 0 {
            lemma_f32_mag_monotone(0u32, b);
        } else {
            assert(f32_exp(b) == 0 && f32_frac(b) == 0) by (bit_vector)
                requires (b & 0x7fff_ffff) == 0;
        }
    }
    if !sa && !sb {
        ma >= mb
    } else if sa && sb {
        mb >= ma
    } else if !sa {
        // a non-negative, b non-positive
        true
    } else {
        // a non-positive, b non-negative: only equal when both are zero
        ma == 0 && mb == 0
    }
}

/// Half-to-single promotion, exact on the bit level.
///
/// For every finite half-precision pattern the promoted magnitude is the
/// half-precision magnitude rescaled from units of `2^-24` to units of
/// `2^-149`; infinities map to infinities, NaNs to NaNs, and the sign is
/// always preserved.  This is the standard lossless half-to-single
/// conversion.
#[verifier::rlimit(50)]
pub fn promote_f16_bits(h: u16) -> (r: u32)
    ensures
        f32_sign(r) == f16_sign(h),
        f32_is_nan(r) == f16_is_nan(h),
        !f16_is_nan(h) ==> f32_mag(r) == spec_promoted_f16_mag(h),
        f16_exp(h) < 31 ==> f32_exp(r) < 255,
{
    let sign: u32 = ((h >> 15) as u32) << 31;
    let e: u32 = ((h >> 10) & 0x1f) as u32;
    let f: u32 = (h & 0x3ff) as u32;
    proof {
        assert(((h >> 15) as u32) << 31 == if h >> 15 == 1 { 0x8000_0000u32 } else { 0u32 })
            by (bit_vector);
        assert((h >> 10) & 0x1f < 32 && (h & 0x3ff) < 0x400) by (bit_vector);
    }
    if e == 31 {
        let r: u32 = sign | (255u32 << 23) | (f << 13);
        proof {
            assert(f32_exp(r) == 255 && f32_frac(r) == f << 13
                && (r >> 31 == 1) == (sign == 0x8000_0000u32)
                && ((f << 13) == 0) == (f == 0)) by (bit_vector)
                requires
                    r == sign | (255u32 << 23) | (f << 13),
                    f < 0x400,
                    sign == 0x8000_0000u32 || sign == 0u32;
            assert(f16_exp(h) == 31);
            if f == 0 {
                assert(f16_frac(h) == 0);
                assert(!f16_is_nan(h));
                assert(f32_mag(r) == ((0 + 0x80_0000) as nat) * pow2(254));
                assert(spec_promoted_f16_mag(h) == (0x80_0000 as nat) * pow2(254));
            } else {
                assert(f16_frac(h) != 0);
                assert(f16_is_nan(h));
            }
        }
        r
    } else if e > 0 {
        let r: u32 = sign | ((e + 112) << 23) | (f << 13);
        proof {
            let e32 = (e + 112) as u32;
            assert(f32_exp(r) == e32 && f32_frac(r) == f << 13
                && (r >> 31 == 1) == (sign == 0x8000_0000u32)
                && (f << 13) == f * 0x2000) by (bit_vector)
                requires
                    r == sign | (e32 << 23) | (f << 13),
                    f < 0x400,
                    0 < e < 31,
                    e32 == (e + 112) as u32,
                    sign == 0x8000_0000u32 || sign == 0u32;
            // (f * 2^13 + 2^23) * pow2(e + 111) == (f + 2^10) * pow2(e - 1) * pow2(125)
            assert(f32_mag(r) == (f * 0x2000 + 0x80_0000) * pow2((e + 111) as nat));
            assert((f * 0x2000 + 0x80_0000) * pow2((e + 111) as nat)
                == (f + 0x400) * pow2((e + 124) as nat)) by {
                assert(pow2(13) == 0x2000) by { lemma2_to64(); }
                lemma_pow2_adds(13, (e + 111) as nat);
                assert((f * 0x2000 + 0x80_0000) * pow2((e + 111) as nat)
                    == (f + 0x400) * (0x2000 * pow2((e + 111) as nat))) by (nonlinear_arith);
            }
            assert(f16_mag(h) * pow2(125) == (f + 0x400) * pow2((e + 124) as nat)) by {
                lemma_pow2_adds((e - 1) as nat, 125);
                assert((f + 0x400) * pow2((e - 1) as nat) * pow2(125)
                    == (f + 0x400) * (pow2((e - 1) as nat) * pow2(125))) by (nonlinear_arith);
            }
        }
        r
    } else if f == 0 {
        proof {
            assert(f32_exp(sign) == 0 && f32_frac(sign) == 0
                && (sign >> 31 == 1) == (sign == 0x8000_0000u32)) by (bit_vector)
                requires sign == 0x8000_0000u32 || sign == 0u32;
        }
        sign
    } else {
        // Subnormal half: normalize the fraction into a normal single.
        let mut m: u32 = f;
        let mut e32: u32 = 113;
        proof {
            assert(pow2(0) == 1) by { lemma2_to64(); }
            assert(m == f * pow2((113 - e32) as nat)) by {
                assert((113 - e32) as nat == 0);
                assert(f * pow2(0) == f * 1 == f);
            }
        }
        while m < 0x400
            invariant
                1 <= m < 0x800,
                103 <= e32 <= 113,
                m == f * pow2((113 - e32) as nat),
                f >= 1,
            decreases 0x800 - m,
        {
            proof {
                assert(e32 >= 104) by {
                    if e32 == 103 {
                        assert(pow2(10) == 1024) by { lemma2_to64(); }
                        lemma_mul_inequality(1, f as int, pow2(10) as int);
                        lemma_mul_is_commutative(f as int, pow2(10) as int);
                    }
                }
                lemma_pow2_adds((113 - e32) as nat, 1);
                assert(pow2(1) == 2) by { lemma2_to64(); }
                assert(f * pow2((113 - e32) as nat) * 2 == f * (pow2((113 - e32) as nat) * 2))
                    by (nonlinear_arith);
            }
            m = m * 2;
            e32 = e32 - 1;
        }
        let r: u32 = sign | (e32 << 23) | ((m - 0x400) << 13);
        proof {
            let fr = ((m - 0x400) as u32);
            assert(f32_exp(r) == e32 && f32_frac(r) == fr << 13
                && (r >> 31 == 1) == (sign == 0x8000_0000u32)
                && (fr << 13) == fr * 0x2000) by (bit_vector)
                requires
                    r == sign | (e32 << 23) | (fr << 13),
                    fr == ((m - 0x400) as u32),
                    0x400 <= m < 0x800,
                    103 <= e32 <= 113,
                    sign == 0x8000_0000u32 || sign == 0u32;
            // ((m - 2^10) * 2^13 + 2^23) * pow2(e32 - 1) == m * pow2(e32 + 12)
            //   == f * pow2(113 - e32) * pow2(e32 + 12) == f * pow2(125)
            assert(f32_mag(r) == (fr * 0x2000 + 0x80_0000) * pow2((e32 - 1) as nat));
            assert((fr * 0x2000 + 0x80_0000) * pow2((e32 - 1) as nat)
                == m * pow2((e32 + 12) as nat)) by {
                assert(fr * 0x2000 + 0x80_0000 == 0x2000 * m) by (nonlinear_arith)
                    requires fr == ((m - 0x400) as u32), 0x400 <= m < 0x800;
                assert(pow2(13) == 0x2000) by { lemma2_to64(); }
                lemma_pow2_adds(13, (e32 - 1) as nat);
                assert((0x2000 * m) * pow2((e32 - 1) as nat)
                    == m * (0x2000 * pow2((e32 - 1) as nat))) by (nonlinear_arith);
            }
            assert(m * pow2((e32 + 12) as nat) == f * pow2(125)) by {
                lemma_pow2_adds((113 - e32) as nat, (e32 + 12) as nat);
                assert((f * pow2((113 - e32) as nat)) * pow2((e32 + 12) as nat)
                    == f * (pow2((113 - e32) as nat) * pow2((e32 + 12) as nat)))
                    by (nonlinear_arith);
            }
            assert(f16_mag(h) == f as nat);
        }
        r
    }
}

} // verus!
