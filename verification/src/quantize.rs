//! Exact quantization of float bit patterns into histogram bins.
//!
//! Every quantizer here computes the mathematical
//! `floor(scaled value)` of the represented float, then clamps the
//! result into the bin range, so a value exactly at the upper bound
//! lands in the last bin and anything below the lower bound lands in
//! bin zero.  NaN quantizes to bin zero.  The angle quantizer divides
//! by pi through a 125-fractional-bit fixed-point constant, which is
//! more precise than any single-precision intermediate could be.

use vstd::prelude::*;
use vstd::arithmetic::power2::*;
use vstd::arithmetic::mul::*;
use vstd::arithmetic::div_mod::*;
use crate::fbits::{f32_exp, f32_frac, f32_is_nan, f32_mag, f32_sign};

verus! {

/// Pi in fixed point with 125 fractional bits: `floor(pi * 2^125)`.
pub const PI_FIX: u128 = 0x6487_ed51_10b4_611a_6263_3145_c06e_0e68;

/// Largest accepted bin count for one axis of the accumulator grid.
pub const MAX_BINS: usize = 0x1_0000;

/// Clamp from above.
pub open spec fn spec_cap(x: nat, cap: nat) -> nat {
    if x > cap { cap } else { x }
}

/// Bin of a normalized angle expected in `[0, 1)`:
/// `floor(value * bins)` clamped into `[0, bins - 1]`; NaN and negative
/// values give bin 0.
pub open spec fn spec_unit_bin(b: u32, bins: nat) -> nat
    recommends
        1 <= bins,
{
    if f32_is_nan(b) || f32_sign(b) {
        0
    } else {
        spec_cap((f32_mag(b) * bins) / pow2(149), (bins - 1) as nat)
    }
}

/// Bin of an offset expected in `[-1, 1]`:
/// `floor(((value + 1) / 2) * scale)` clamped into `[0, cap]`; NaN and
/// values at or below `-1` give bin 0.
pub open spec fn spec_sym_bin(b: u32, scale: nat, cap: nat) -> nat {
    if f32_is_nan(b) {
        0
    } else if f32_sign(b) {
        if f32_mag(b) >= pow2(149) {
            0
        } else {
            spec_cap((((pow2(149) - f32_mag(b)) as nat) * scale) / pow2(150), cap)
        }
    } else {
        spec_cap(((pow2(149) + f32_mag(b)) * scale) / pow2(150), cap)
    }
}

/// Bin of a raw angle expected in `[0, pi)`:
/// `floor(value * bins / pi)` clamped into `[0, bins - 1]`, with pi
/// taken as `PI_FIX / 2^125`; NaN and negative values give bin 0.
pub open spec fn spec_theta_bin(b: u32, bins: nat) -> nat
    recommends
        1 <= bins,
{
    if f32_is_nan(b) || f32_sign(b) {
        0
    } else {
        spec_cap((f32_mag(b) * bins) / (pow2(24) * (PI_FIX as nat)), (bins - 1) as nat)
    }
}

/// Numeric range of the fixed-point pi constant.
proof fn lemma_pi_fix_bounds()
    ensures
        pow2(126) <= (PI_FIX as nat) < pow2(127),
{
    lemma2_to64();
    lemma2_to64_rest();
    lemma_pow2_adds(64, 62);
    lemma_pow2_adds(64, 63);
}

/// A pattern with biased exponent at least 127 has magnitude at least
/// `2^149`, that is, represents a value of absolute value at least 1.
proof fn lemma_mag_ge_one(b: u32)
    requires
        f32_exp(b) >= 127,
    ensures
        f32_mag(b) >= pow2(149),
{
    assert((b & 0x7f_ffff) < 0x80_0000) by (bit_vector);
    assert(pow2((f32_exp(b) - 1) as nat) >= pow2(126)) by {
        if 126 < f32_exp(b) - 1 {
            lemma_pow2_strictly_increases(126, (f32_exp(b) - 1) as nat);
        }
    }
    lemma_pow2_pos(126);
    assert(((f32_frac(b) + 0x80_0000) as nat) * pow2((f32_exp(b) - 1) as nat)
        >= (0x80_0000 as nat) * pow2(126)) by (nonlinear_arith)
        requires
            pow2((f32_exp(b) - 1) as nat) >= pow2(126),
            pow2(126) > 0,
            f32_frac(b) >= 0;
    assert((0x80_0000 as nat) * pow2(126) == pow2(149)) by {
        assert(pow2(23) == 0x80_0000) by { lemma2_to64(); }
        lemma_pow2_adds(23, 126);
    }
}

/// A pattern with biased exponent at most 126 has magnitude below
/// `2^149`, that is, represents a value of absolute value below 1.
proof fn lemma_mag_lt_one(b: u32)
    requires
        f32_exp(b) <= 126,
    ensures
        f32_mag(b) < pow2(149),
{
    assert((b & 0x7f_ffff) < 0x80_0000) by (bit_vector);
    lemma_pow2_pos(149);
    if f32_exp(b) == 0 {
        assert(pow2(23) == 0x80_0000) by { lemma2_to64(); }
        lemma_pow2_strictly_increases(23, 149);
    } else {
        assert(pow2((f32_exp(b) - 1) as nat) <= pow2(125)) by {
            if f32_exp(b) - 1 < 125 {
                lemma_pow2_strictly_increases((f32_exp(b) - 1) as nat, 125);
            }
        }
        lemma_mul_upper_bound((f32_frac(b) + 0x80_0000) as int, 0xff_ffff,
            pow2((f32_exp(b) - 1) as nat) as int, pow2(125) as int);
        assert(0xff_ffff * pow2(125) < pow2(24) * pow2(125)) by {
            assert(pow2(24) == 0x100_0000) by { lemma2_to64(); }
            lemma_pow2_pos(125);
            lemma_mul_strict_inequality(0xff_ffff, 0x100_0000, pow2(125) as int);
        }
        lemma_pow2_adds(24, 125);
    }
}

/// Magnitude of a non-NaN pattern decomposed as `M * 2^E` with
/// `M < 2^24`.
pub(crate) fn mag_parts(b: u32) -> (r: (u32, u32))
    ensures
        f32_mag(b) == (r.0 as nat) * pow2(r.1 as nat),
        r.0 < 0x100_0000,
        r.1 <= 254,
        f32_exp(b) == 0 ==> r.1 == 0,
        f32_exp(b) >= 1 ==> r.1 == f32_exp(b) - 1,
        f32_exp(b) <= 126 ==> r.1 <= 125,
{
    let e: u32 = (b >> 23) & 0xff;
    let f: u32 = b & 0x7f_ffff;
    proof {
        assert((b >> 23) & 0xff <= 255 && (b & 0x7f_ffff) < 0x80_0000) by (bit_vector);
        assert(pow2(0) == 1) by { lemma2_to64(); }
        assert(e == f32_exp(b));
        assert(f == f32_frac(b));
    }
    if e == 0 {
        proof {
            assert(f32_mag(b) == (f as nat) * pow2(0));
        }
        (f, 0)
    } else {
        proof {
            assert(f32_mag(b) == ((f + 0x80_0000) as nat) * pow2((e - 1) as nat));
        }
        (f + 0x80_0000, e - 1)
    }
}

/// `2^k` as an unsigned 128-bit value.
pub(crate) fn pow2_u128(k: u32) -> (r: u128)
    requires
        k <= 127,
    ensures
        r == pow2(k as nat),
{
    proof {
        assert(pow2(0) == 1) by { lemma2_to64(); }
    }
    let mut r: u128 = 1;
    let mut i: u32 = 0;
    while i < k
        invariant
            i <= k <= 127,
            r == pow2(i as nat),
        decreases k - i,
    {
        proof {
            lemma_pow2_adds(i as nat, 1);
            assert(pow2(1) == 2) by { lemma2_to64(); }
            assert(pow2((i + 1) as nat) <= pow2(127)) by {
                if i + 1 < 127 {
                    lemma_pow2_strictly_increases((i + 1) as nat, 127);
                }
            }
            assert(pow2(127) < pow2(128)) by {
                lemma_pow2_strictly_increases(127, 128);
            }
            assert(pow2(128) == 0x1_0000_0000_0000_0000_0000_0000_0000_0000) by {
                lemma_pow2_adds(64, 64);
                lemma2_to64();
            }
        }
        r = r * 2;
        i = i + 1;
    }
    r
}

/// Splits `m * 2^e` into limbs `(hi, lo)` with value `hi * 2^95 + lo`
/// and `lo < 2^95`.
fn mag_limbs(m: u32, e: u32) -> (r: (u128, u128))
    requires
        m < 0x100_0000,
        e <= 125,
    ensures
        (r.0 as nat) * pow2(95) + (r.1 as nat) == (m as nat) * pow2(e as nat),
        r.1 < pow2(95),
        r.0 < pow2(54),
{
    if e >= 95 {
        let pshift = pow2_u128(e - 95);
        proof {
            assert(pow2((e - 95) as nat) <= pow2(30)) by {
                if e - 95 < 30 {
                    lemma_pow2_strictly_increases((e - 95) as nat, 30);
                }
            }
            assert(pow2(30) == 0x4000_0000) by { lemma2_to64(); }
            lemma_mul_upper_bound(m as int, 0xff_ffff, pshift as int, 0x4000_0000);
        }
        let hi = (m as u128) * pshift;
        proof {
            lemma_pow2_adds((e - 95) as nat, 95);
            assert((m as nat) * (pow2((e - 95) as nat) * pow2(95))
                == ((m as nat) * pow2((e - 95) as nat)) * pow2(95)) by (nonlinear_arith);
            assert(pow2(54) == 0x40_0000_0000_0000) by {
                lemma_pow2_adds(30, 24);
                lemma2_to64();
            }
            assert(pow2(95) > 0) by { lemma_pow2_pos(95); }
            assert(pow2(e as nat) == pow2((e - 95) as nat) * pow2(95));
            assert((hi as nat) * pow2(95) == ((m as nat) * pow2((e - 95) as nat)) * pow2(95))
                by (nonlinear_arith)
                requires hi == (m as nat) * pow2((e - 95) as nat);
        }
        (hi, 0)
    } else {
        let pe = pow2_u128(e);
        proof {
            assert(pow2(e as nat) <= pow2(94)) by {
                if e < 94 {
                    lemma_pow2_strictly_increases(e as nat, 94);
                }
            }
            lemma_mul_upper_bound(m as int, 0xff_ffff, pe as int, pow2(94) as int);
            assert(pow2(94) == 0x4000_0000_0000_0000_0000_0000) by {
                lemma_pow2_adds(64, 30);
                lemma2_to64();
            }
        }
        let t = (m as u128) * pe;
        let p95 = pow2_u128(95);
        proof {
            assert(0xff_ffff * pow2(94) < pow2(24) * pow2(94)) by {
                assert(pow2(24) == 0x100_0000) by { lemma2_to64(); }
                lemma_pow2_pos(94);
                lemma_mul_strict_inequality(0xff_ffff, 0x100_0000, pow2(94) as int);
            }
            lemma_pow2_adds(24, 94);
            assert(pow2(118) < pow2(128)) by { lemma_pow2_strictly_increases(118, 128); }
            assert(pow2(128) == 0x1_0000_0000_0000_0000_0000_0000_0000_0000) by {
                lemma_pow2_adds(64, 64);
                lemma2_to64();
            }
            lemma_pow2_pos(95);
        }
        let hi = t / p95;
        let lo = t % p95;
        proof {
            lemma_fundamental_div_mod(t as int, p95 as int);
            assert((p95 as int) * ((t as int) / (p95 as int))
                == ((t as int) / (p95 as int)) * (pow2(95) as int)) by (nonlinear_arith)
                requires p95 == pow2(95);
            assert((hi as nat) * pow2(95) + (lo as nat) == t as nat);
            assert(t < pow2(118));
            lemma_pow2_adds(95, 23);
            assert(pow2(118) == pow2(95) * pow2(23));
            lemma_multiply_divide_lt(t as int, pow2(95) as int, pow2(23) as int);
            assert(pow2(23) < pow2(54)) by { lemma_pow2_strictly_increases(23, 54); }
        }
        (hi, lo)
    }
}

/// `floor((hi * 2^95 + lo) * s / (2^95 * d))` where `d == 2^k`.
fn scaled_floor(hi: u128, lo: u128, s: u128, d: u128, Ghost(k): Ghost<nat>) -> (r: u128)
    requires
        hi < pow2(57),
        lo < pow2(95),
        s <= 0x2_0000,
        d == pow2(k),
    ensures
        r == (((hi * pow2(95) + lo) * s) as nat) / (pow2(95) * pow2(k)),
{
    let p95 = pow2_u128(95);
    proof {
        lemma_pow2_pos(95);
        lemma_pow2_pos(k);
        lemma_pow2_pos(57);
        assert(pow2(57) == 0x200_0000_0000_0000) by {
            lemma_pow2_adds(32, 25);
            lemma2_to64();
        }
        assert(pow2(95) == 0x8000_0000_0000_0000_0000_0000) by {
            lemma_pow2_adds(64, 31);
            lemma2_to64();
        }
        lemma_mul_upper_bound(s as int, 0x2_0000, hi as int, pow2(57) as int);
        lemma_mul_upper_bound(s as int, 0x2_0000, lo as int, pow2(95) as int);
    }
    let a = s * hi;
    let b2 = s * lo;
    let q1 = a + b2 / p95;
    proof {
        let p = pow2(95) as int;
        let x: int = (((hi as nat) * pow2(95) + (lo as nat)) * (s as nat)) as int;
        assert(x == (s as int) * (hi as int) * p + (s as int) * (lo as int))
            by (nonlinear_arith)
            requires
                x == ((hi as int) * p + (lo as int)) * (s as int);
        lemma_fundamental_div_mod(b2 as int, p);
        assert(x == (q1 as int) * p + (b2 as int) % p) by {
            assert(((a as int) + (b2 as int) / p) * p == (a as int) * p + ((b2 as int) / p) * p)
                by (nonlinear_arith);
            assert(((s as int) * (hi as int)) * p == (s as int) * (hi as int) * p)
                by (nonlinear_arith);
        }
        lemma_mod_division_less_than_divisor(b2 as int, p);
        lemma_fundamental_div_mod_converse(x, p, q1 as int, (b2 as int) % p);
        assert(x / p == q1 as int);
        lemma_div_denominator(x, p, pow2(k) as int);
        assert(x / (p * (pow2(k) as int)) == (q1 as int) / (d as int));
    }
    q1 / d
}

/// `floor(x * 2^j / PI_FIX)`, by shift-and-subtract long division.
/// The quotient is known to stay below `bound` because the caller has
/// established `x * 2^j < PI_FIX * bound`.
fn div_pi_shifted(x: u128, j: u32, bound: u128) -> (q: u128)
    requires
        x < 0x200_0000_0000,
        j <= 104,
        1 <= bound <= 0x1_0000,
        (x as nat) * pow2(j as nat) < (PI_FIX as nat) * bound,
    ensures
        q == ((x as nat) * pow2(j as nat)) / (PI_FIX as nat),
        q < bound,
{
    let mut q: u128 = 0;
    let mut r: u128 = x;
    let mut i: u32 = 0;
    proof {
        assert(pow2(0) == 1) by { lemma2_to64(); }
    }
    while i < j
        invariant
            i <= j <= 104,
            x < 0x200_0000_0000,
            1 <= bound <= 0x1_0000,
            (x as nat) * pow2(j as nat) < (PI_FIX as nat) * bound,
            (x as nat) * pow2(i as nat) == (q as nat) * (PI_FIX as nat) + (r as nat),
            r < PI_FIX,
        decreases j - i,
    {
        proof {
            // q stays below bound, so doubling it cannot overflow
            assert(pow2(i as nat) <= pow2(j as nat)) by {
                if i < j {
                    lemma_pow2_strictly_increases(i as nat, j as nat);
                }
            }
            lemma_mul_inequality(pow2(i as nat) as int, pow2(j as nat) as int, x as int);
            assert(x * pow2(i as nat) == pow2(i as nat) * x) by (nonlinear_arith);
            assert(x * pow2(j as nat) == pow2(j as nat) * x) by (nonlinear_arith);
            assert((q as nat) * (PI_FIX as nat) < (PI_FIX as nat) * bound);
            assert((q as nat) * (PI_FIX as nat) == (PI_FIX as nat) * (q as nat))
                by (nonlinear_arith);
            lemma_mul_strict_inequality_converse(q as int, bound as int, PI_FIX as int);
            lemma_pow2_adds(i as nat, 1);
            assert(pow2(1) == 2) by { lemma2_to64(); }
            assert((x as nat) * (pow2(i as nat) * 2)
                == ((x as nat) * pow2(i as nat)) * 2) by (nonlinear_arith);
        }
        q = q * 2;
        r = r * 2;
        if r >= PI_FIX {
            r = r - PI_FIX;
            q = q + 1;
        }
        i = i + 1;
    }
    proof {
        lemma_fundamental_div_mod_converse(
            ((x as nat) * pow2(j as nat)) as int,
            PI_FIX as int,
            q as int,
            r as int,
        );
        assert((q as nat) * (PI_FIX as nat) < (PI_FIX as nat) * bound);
        assert((q as nat) * (PI_FIX as nat) == (PI_FIX as nat) * (q as nat)) by (nonlinear_arith);
        lemma_mul_strict_inequality_converse(q as int, bound as int, PI_FIX as int);
    }
    q
}

/// Quantizes a normalized angle (expected in `[0, 1)`) into
/// `[0, bins - 1]` by `floor(value * bins)`, clamped at both ends.
pub fn quantize_unit(b: u32, bins: usize) -> (t: usize)
    requires
        1 <= bins <= MAX_BINS,
    ensures
        t == spec_unit_bin(b, bins as nat),
        t < bins,
{
    let e: u32 = (b >> 23) & 0xff;
    let f: u32 = b & 0x7f_ffff;
    let nan = e == 255 && f != 0;
    let neg = (b >> 31) == 1;
    if nan || neg {
        return 0;
    }
    if e >= 127 {
        // value >= 1, so the unclamped bin is at least `bins`
        proof {
            lemma_mag_ge_one(b);
            lemma_pow2_pos(149);
            lemma_mul_inequality(pow2(149) as int, f32_mag(b) as int, bins as int);
            assert(f32_mag(b) * (bins as nat) >= pow2(149) * (bins as nat)) by (nonlinear_arith)
                requires f32_mag(b) >= pow2(149), bins >= 1;
            lemma_div_is_ordered(
                (pow2(149) * (bins as nat)) as int,
                (f32_mag(b) * (bins as nat)) as int,
                pow2(149) as int,
            );
            assert((pow2(149) * (bins as nat)) / pow2(149) == bins as int) by {
                lemma_div_multiples_vanish(bins as int, pow2(149) as int);
                assert(pow2(149) * (bins as nat) == (bins as nat) * pow2(149))
                    by (nonlinear_arith);
            }
        }
        return bins - 1;
    }
    let (m, ex) = mag_parts(b);
    let (hi, lo) = mag_limbs(m, ex);
    let p54 = pow2_u128(54);
    proof {
        assert(pow2(54) < pow2(57)) by { lemma_pow2_strictly_increases(54, 57); }
        lemma_pow2_adds(95, 54);
    }
    let q = scaled_floor(hi, lo, bins as u128, p54, Ghost(54nat));
    proof {
        assert((hi * pow2(95) + lo) == f32_mag(b));
        assert(q == (f32_mag(b) * (bins as nat)) / pow2(149));
        lemma_pow2_pos(149);
    }
    if q >= (bins as u128) - 1 {
        bins - 1
    } else {
        q as usize
    }
}

/// Quantizes an offset (expected in `[-1, 1]`) by remapping it to
/// `[0, 1]` and scaling: `floor(((value + 1) / 2) * scale)`, clamped
/// into `[0, cap]`.
pub fn quantize_sym(b: u32, scale: usize, cap: usize) -> (t: usize)
    requires
        scale <= MAX_BINS,
        cap <= scale,
    ensures
        t == spec_sym_bin(b, scale as nat, cap as nat),
        t <= cap,
{
    let e: u32 = (b >> 23) & 0xff;
    let f: u32 = b & 0x7f_ffff;
    let nan = e == 255 && f != 0;
    if nan {
        return 0;
    }
    let neg = (b >> 31) == 1;
    if neg && e >= 127 {
        // value at or below -1: remaps to at most 0
        proof {
            lemma_mag_ge_one(b);
        }
        return 0;
    }
    if !neg && e >= 127 {
        // value at or above 1: remaps to at least 1, so at least `scale`
        proof {
            lemma_mag_ge_one(b);
            lemma_pow2_pos(150);
            lemma_pow2_adds(149, 1);
            assert(pow2(1) == 2) by { lemma2_to64(); }
            assert(pow2(149) + f32_mag(b) >= pow2(150));
            lemma_mul_inequality(pow2(150) as int, (pow2(149) + f32_mag(b)) as int,
                scale as int);
            assert((pow2(149) + f32_mag(b)) * (scale as nat)
                >= pow2(150) * (scale as nat)) by (nonlinear_arith)
                requires pow2(149) + f32_mag(b) >= pow2(150), scale >= 0;
            lemma_div_is_ordered(
                (pow2(150) * (scale as nat)) as int,
                ((pow2(149) + f32_mag(b)) * (scale as nat)) as int,
                pow2(150) as int,
            );
            assert((pow2(150) * (scale as nat)) / pow2(150) == scale as int) by {
                lemma_div_multiples_vanish(scale as int, pow2(150) as int);
                assert(pow2(150) * (scale as nat) == (scale as nat) * pow2(150))
                    by (nonlinear_arith);
            }
        }
        return cap;
    }
    // |value| < 1 from here on
    let (m, ex) = mag_parts(b);
    let (hi, lo) = mag_limbs(m, ex);
    let p54 = pow2_u128(54);
    let p55 = pow2_u128(55);
    let p95 = pow2_u128(95);
    proof {
        lemma_mag_lt_one(b);
        lemma_pow2_adds(54, 95);
        assert(pow2(54) < pow2(57)) by { lemma_pow2_strictly_increases(54, 57); }
        assert(pow2(55) < pow2(57)) by { lemma_pow2_strictly_increases(55, 57); }
        lemma_pow2_pos(95);
        lemma_pow2_pos(54);
        lemma_pow2_adds(95, 55);
    }
    proof {
        assert(pow2(54) == 0x40_0000_0000_0000) by {
            lemma_pow2_adds(30, 24);
            lemma2_to64();
        }
        assert(pow2(57) == 0x200_0000_0000_0000) by {
            lemma_pow2_adds(32, 25);
            lemma2_to64();
        }
        assert(pow2(95) == 0x8000_0000_0000_0000_0000_0000) by {
            lemma_pow2_adds(64, 31);
            lemma2_to64();
        }
        lemma_pow2_adds(54, 95);
    }
    let (nh, nl): (u128, u128) = if neg {
        // 2^149 - mag, with a borrow out of the low limb when needed
        proof {
            assert(hi < p54) by {
                if hi >= p54 {
                    assert((hi as nat) * pow2(95) >= (p54 as nat) * pow2(95))
                        by (nonlinear_arith)
                        requires hi >= p54, pow2(95) > 0;
                }
            }
        }
        if lo == 0 {
            let nh = p54 - hi;
            proof {
                assert((nh as nat) * pow2(95) + 0
                    == (pow2(149) - (hi as nat) * pow2(95)) as nat) by (nonlinear_arith)
                    requires
                        nh == p54 - hi,
                        hi <= p54,
                        (p54 as nat) * pow2(95) == pow2(149);
            }
            (nh, 0)
        } else {
            let nh = p54 - hi - 1;
            let nl = p95 - lo;
            proof {
                assert((nh as nat) * pow2(95) + (nl as nat)
                    == (pow2(149) - ((hi as nat) * pow2(95) + lo)) as nat) by (nonlinear_arith)
                    requires
                        nh == p54 - hi - 1,
                        nl == p95 - lo,
                        hi < p54,
                        0 < lo < p95,
                        p95 == pow2(95),
                        (p54 as nat) * pow2(95) == pow2(149);
            }
            (nh, nl)
        }
    } else {
        let nh = p54 + hi;
        proof {
            assert((nh as nat) * pow2(95) + (lo as nat)
                == pow2(149) + ((hi as nat) * pow2(95) + lo)) by (nonlinear_arith)
                requires
                    nh == p54 + hi,
                    (p54 as nat) * pow2(95) == pow2(149);
        }
        (nh, lo)
    };
    let q = scaled_floor(nh, nl, scale as u128, p55, Ghost(55nat));
    proof {
        if neg {
            assert((nh as nat) * pow2(95) + (nl as nat)
                == (pow2(149) - f32_mag(b)) as nat);
        } else {
            assert((nh as nat) * pow2(95) + (nl as nat) == pow2(149) + f32_mag(b));
        }
    }
    if q >= cap as u128 {
        cap
    } else {
        q as usize
    }
}

/// Quantizes a raw angle (expected in `[0, pi)`) into `[0, bins - 1]`
/// by `floor(value * bins / pi)`, clamped at both ends, with pi taken
/// as `PI_FIX / 2^125`.
pub fn quantize_theta(b: u32, bins: usize) -> (t: usize)
    requires
        1 <= bins <= MAX_BINS,
    ensures
        t == spec_theta_bin(b, bins as nat),
        t < bins,
{
    let e: u32 = (b >> 23) & 0xff;
    let f: u32 = b & 0x7f_ffff;
    let nan = e == 255 && f != 0;
    let neg = (b >> 31) == 1;
    if nan || neg {
        return 0;
    }
    let denom: Ghost<nat> = Ghost(pow2(24) * (PI_FIX as nat));
    proof {
        lemma_pow2_pos(24);
        lemma_mul_strictly_positive(pow2(24) as int, PI_FIX as int);
    }
    if e >= 129 {
        // value at least 4, which is above pi: the unclamped bin is at
        // least `bins`
        proof {
            assert(f32_mag(b) >= pow2(151)) by {
                assert((b & 0x7f_ffff) < 0x80_0000) by (bit_vector);
                assert(pow2((f32_exp(b) - 1) as nat) >= pow2(128)) by {
                    if 128 < f32_exp(b) - 1 {
                        lemma_pow2_strictly_increases(128, (f32_exp(b) - 1) as nat);
                    }
                }
                lemma_pow2_pos(128);
                assert(((f32_frac(b) + 0x80_0000) as nat) * pow2((f32_exp(b) - 1) as nat)
                    >= (0x80_0000 as nat) * pow2(128)) by (nonlinear_arith)
                    requires
                        pow2((f32_exp(b) - 1) as nat) >= pow2(128),
                        pow2(128) > 0,
                        f32_frac(b) >= 0;
                assert((0x80_0000 as nat) * pow2(128) == pow2(151)) by {
                    assert(pow2(23) == 0x80_0000) by { lemma2_to64(); }
                    lemma_pow2_adds(23, 128);
                }
            }
            assert(pow2(24) * (PI_FIX as nat) < pow2(151)) by {
                assert((PI_FIX as nat) < pow2(127)) by {
                    lemma_pi_fix_bounds();
                }
                lemma_pow2_pos(24);
                lemma_mul_strict_inequality(PI_FIX as int, pow2(127) as int, pow2(24) as int);
                assert(pow2(24) * (PI_FIX as nat) == (PI_FIX as nat) * pow2(24))
                    by (nonlinear_arith);
                assert((pow2(127) as int) * (pow2(24) as int) == pow2(151)) by {
                    lemma_pow2_adds(127, 24);
                }
            }
            lemma_mul_inequality(denom@ as int, f32_mag(b) as int, bins as int);
            assert(f32_mag(b) * (bins as nat) >= denom@ * (bins as nat)) by (nonlinear_arith)
                requires f32_mag(b) >= denom@, bins >= 1;
            lemma_div_is_ordered(
                (denom@ * (bins as nat)) as int,
                (f32_mag(b) * (bins as nat)) as int,
                denom@ as int,
            );
            assert((denom@ * (bins as nat)) / denom@ == bins as nat) by {
                lemma_div_multiples_vanish(bins as int, denom@ as int);
                assert(denom@ * (bins as nat) == (bins as nat) * denom@) by (nonlinear_arith);
            }
        }
        return bins - 1;
    }
    let (m, ex) = mag_parts(b);
    if ex < 24 {
        // the magnitude is far below pi: the scaled value floors to 0
        proof {
            assert(pow2(ex as nat) <= pow2(23)) by {
                if ex < 23 {
                    lemma_pow2_strictly_increases(ex as nat, 23);
                }
            }
            lemma_mul_upper_bound(m as int, 0x100_0000, pow2(ex as nat) as int, pow2(23) as int);
            assert((0x100_0000) * pow2(23) == pow2(47)) by {
                assert(pow2(24) == 0x100_0000) by { lemma2_to64(); }
                lemma_pow2_adds(24, 23);
            }
            lemma_mul_upper_bound(f32_mag(b) as int, pow2(47) as int, bins as int, 0x1_0000);
            assert(pow2(47) * 0x1_0000 == pow2(63)) by {
                assert(pow2(16) == 0x1_0000) by { lemma2_to64(); }
                lemma_pow2_adds(47, 16);
            }
            assert(pow2(63) < denom@) by {
                assert((PI_FIX as nat) >= pow2(126)) by {
                    lemma_pi_fix_bounds();
                }
                lemma_pow2_pos(24);
                lemma_mul_inequality(pow2(126) as int, PI_FIX as int, pow2(24) as int);
                assert(pow2(24) * (PI_FIX as nat) == (PI_FIX as nat) * pow2(24))
                    by (nonlinear_arith);
                assert(pow2(126) * pow2(24) == pow2(150)) by { lemma_pow2_adds(126, 24); }
                lemma_pow2_strictly_increases(63, 150);
            }
            lemma_basic_div((f32_mag(b) * (bins as nat)) as int, denom@ as int);
        }
        return 0;
    }
    // ex >= 24: compare the magnitude against pi and divide
    let pshift = pow2_u128(ex - 24);
    proof {
        assert(pow2((ex - 24) as nat) <= pow2(103)) by {
            if ex - 24 < 103 {
                lemma_pow2_strictly_increases((ex - 24) as nat, 103);
            }
        }
        lemma_mul_upper_bound(m as int, 0x100_0000, pshift as int, pow2(103) as int);
        assert((0x100_0000) * pow2(103) == pow2(127)) by {
            assert(pow2(24) == 0x100_0000) by { lemma2_to64(); }
            lemma_pow2_adds(24, 103);
        }
        assert(pow2(127) < pow2(128)) by { lemma_pow2_strictly_increases(127, 128); }
        assert(pow2(128) == 0x1_0000_0000_0000_0000_0000_0000_0000_0000) by {
            lemma_pow2_adds(64, 64);
            lemma2_to64();
        }
    }
    let shifted = (m as u128) * pshift;
    proof {
        // mag == shifted * 2^24
        lemma_pow2_adds((ex - 24) as nat, 24);
        assert((m as nat) * (pow2((ex - 24) as nat) * pow2(24))
            == ((m as nat) * pow2((ex - 24) as nat)) * pow2(24)) by (nonlinear_arith);
    }
    if shifted >= PI_FIX {
        // value at or above pi: the unclamped bin is at least `bins`
        proof {
            assert(f32_mag(b) >= denom@) by {
                lemma_pow2_pos(24);
                lemma_mul_inequality(PI_FIX as int, shifted as int, pow2(24) as int);
                assert((shifted as nat) * pow2(24) == pow2(24) * (shifted as nat))
                    by (nonlinear_arith);
                assert((PI_FIX as nat) * pow2(24) == pow2(24) * (PI_FIX as nat))
                    by (nonlinear_arith);
            }
            lemma_mul_inequality(denom@ as int, f32_mag(b) as int, bins as int);
            assert(f32_mag(b) * (bins as nat) >= denom@ * (bins as nat)) by (nonlinear_arith)
                requires f32_mag(b) >= denom@, bins >= 1;
            lemma_div_is_ordered(
                (denom@ * (bins as nat)) as int,
                (f32_mag(b) * (bins as nat)) as int,
                denom@ as int,
            );
            assert((denom@ * (bins as nat)) / denom@ == bins as nat) by {
                lemma_div_multiples_vanish(bins as int, denom@ as int);
                assert(denom@ * (bins as nat) == (bins as nat) * denom@) by (nonlinear_arith);
            }
        }
        return bins - 1;
    }
    proof {
        lemma_mul_upper_bound(m as int, 0x100_0000, bins as int, 0x1_0000);
    }
    let x = (m as u128) * (bins as u128);
    proof {
        // x * 2^(ex-24) < PI_FIX * bins, because shifted < PI_FIX
        assert((x as nat) * pow2((ex - 24) as nat)
            == ((shifted as nat) * (bins as nat))) by (nonlinear_arith)
            requires
                x == (m as nat) * (bins as nat),
                shifted == (m as nat) * pow2((ex - 24) as nat);
        lemma_mul_strict_inequality(shifted as int, PI_FIX as int, bins as int);
        assert((shifted as nat) * (bins as nat) < (PI_FIX as nat) * (bins as nat))
            by (nonlinear_arith)
            requires shifted < PI_FIX, bins >= 1;
    }
    let q = div_pi_shifted(x, ex - 24, bins as u128);
    proof {
        // (mag * bins) / (2^24 * PI_FIX) == (m * bins * 2^(ex-24)) / PI_FIX
        let a = (x as nat) * pow2((ex - 24) as nat);
        assert(f32_mag(b) * (bins as nat) == a * pow2(24)) by (nonlinear_arith)
            requires
                f32_mag(b) == ((m as nat) * pow2((ex - 24) as nat)) * pow2(24),
                x == (m as nat) * (bins as nat),
                a == (x as nat) * pow2((ex - 24) as nat);
        lemma_pow2_pos(24);
        assert((a * pow2(24)) / (pow2(24) * (PI_FIX as nat)) == a / (PI_FIX as nat)) by {
            lemma_div_denominator((a * pow2(24)) as int, pow2(24) as int, PI_FIX as int);
            assert((a * pow2(24)) / pow2(24) == a as int) by {
                lemma_div_multiples_vanish(a as int, pow2(24) as int);
                assert(a * pow2(24) == pow2(24) * a) by (nonlinear_arith);
            }
        }
    }
    q as usize
}

} // verus!
