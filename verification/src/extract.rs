//! Line-mask extraction: the dominant-line analysis mode.
//!
//! Given parallel magnitude and angle/offset buffers of equal pixel
//! count, every pixel is quantized once into an (angle, offset) bin
//! and votes for it with a weight derived from its magnitude; the
//! single dominant bin is then selected deterministically, and the
//! output marks exactly the pixels whose own bin is the dominant one.
//!
//! The weight of a vote is the magnitude in unsigned 32.32 fixed
//! point, truncated and saturated: `floor(value * 2^32)`, clamped to
//! the `u64` range, with NaN and negative magnitudes weighing nothing.
//! Vote totals are therefore exact integers, which makes the whole
//! pass deterministic and lets partial accumulations merge by plain
//! addition.

use vstd::prelude::*;
use vstd::arithmetic::power2::*;
use vstd::arithmetic::mul::*;
use vstd::arithmetic::div_mod::*;
use crate::spec_le16;
use crate::spec_le32;
use crate::accumulator::{
    lemma_first_max_idx_ok, lemma_first_max_unique, lemma_flat_index_in_range,
    lemma_votes_total_bound, spec_first_max_idx, spec_votes_total, HoughAccumulator,
};
use crate::fbits::{
    f16_is_nan, f16_sign, f32_exp, f32_frac, f32_is_nan, f32_mag, f32_sign, promote_f16_bits,
    spec_promoted_f16_mag,
};
use crate::float_view::FloatView;
use crate::half_view::Half2View;
use crate::quantize::{
    quantize_sym, quantize_theta, spec_cap, spec_sym_bin, spec_theta_bin, MAX_BINS, PI_FIX,
};

verus! {

/// Angle bins used by the default frame pass.
pub const THETA_BINS: usize = 64;

/// Offset bins used by the default frame pass.
pub const RHO_BINS: usize = 128;

/// Bit pattern of the single-precision value 1.0, the mask value of a
/// selected pixel.
pub const ONE_BITS: u32 = 0x3f80_0000;

/// One quantized pixel: its (angle, offset) bin and its vote weight.
#[derive(Clone, Copy, Debug, PartialEq, Eq, Structural)]
pub struct EdgeSample {
    /// Angle bin index.
    pub theta_bin: u16,
    /// Offset bin index.
    pub rho_bin: u16,
    /// Vote weight derived from the pixel's magnitude.
    pub weight: u64,
}

/// Vote weight of a magnitude pattern: `floor(value * 2^32)` saturated
/// to `u64`; NaN and negative magnitudes weigh nothing.
pub open spec fn spec_mag_weight(b: u32) -> u64 {
    if f32_is_nan(b) || f32_sign(b) {
        0u64
    } else if f32_mag(b) >= pow2(181) {
        0xffff_ffff_ffff_ffffu64
    } else {
        (f32_mag(b) / pow2(117)) as u64
    }
}

/// Angle bin of a raw half-precision angle, after exact promotion:
/// `floor(value * bins / pi)` clamped into `[0, bins - 1]`.
pub open spec fn spec_theta_bin_h(h: u16, bins: nat) -> nat
    recommends
        1 <= bins,
{
    if f16_is_nan(h) || f16_sign(h) {
        0
    } else {
        spec_cap(
            (spec_promoted_f16_mag(h) * bins) / (pow2(24) * (PI_FIX as nat)),
            (bins - 1) as nat,
        )
    }
}

/// Offset bin of a raw half-precision offset, after exact promotion:
/// `floor(((value + 1) / 2) * scale)` clamped into `[0, cap]`.
pub open spec fn spec_rho_bin_h(h: u16, scale: nat, cap: nat) -> nat {
    if f16_is_nan(h) {
        0
    } else if f16_sign(h) {
        if spec_promoted_f16_mag(h) >= pow2(149) {
            0
        } else {
            spec_cap(
                (((pow2(149) - spec_promoted_f16_mag(h)) as nat) * scale) / pow2(150),
                cap,
            )
        }
    } else {
        spec_cap(((pow2(149) + spec_promoted_f16_mag(h)) * scale) / pow2(150), cap)
    }
}

/// Raw angle pattern of pixel `i` in a packed half-pair buffer.
pub open spec fn spec_px_theta(hough: Seq<u8>, i: int) -> u16 {
    spec_le16(hough[4 * i], hough[4 * i + 1])
}

/// Raw offset pattern of pixel `i` in a packed half-pair buffer.
pub open spec fn spec_px_rho(hough: Seq<u8>, i: int) -> u16 {
    spec_le16(hough[4 * i + 2], hough[4 * i + 3])
}

/// Magnitude pattern of pixel `i` in a packed float buffer.
pub open spec fn spec_px_mag(mag: Seq<u8>, i: int) -> u32 {
    spec_le32(mag[4 * i], mag[4 * i + 1], mag[4 * i + 2], mag[4 * i + 3])
}

/// Flat bin index that pixel `i` votes for.
pub open spec fn spec_sample_flat(hough: Seq<u8>, i: int, tb: nat, rb: nat) -> int {
    (spec_theta_bin_h(spec_px_theta(hough, i), tb) * rb + spec_rho_bin_h(
        spec_px_rho(hough, i),
        (rb - 1) as nat,
        (rb - 1) as nat,
    )) as int
}

/// The whole vote sequence of a frame, one vote per pixel in pixel
/// order.
pub open spec fn spec_votes(mag: Seq<u8>, hough: Seq<u8>, tb: nat, rb: nat) -> Seq<(int, u64)> {
    Seq::new(mag.len() / 4, |i: int| (spec_sample_flat(hough, i, tb, rb), spec_mag_weight(
        spec_px_mag(mag, i),
    )))
}

/// The fully accumulated grid of a frame.
pub open spec fn spec_totals(mag: Seq<u8>, hough: Seq<u8>, tb: nat, rb: nat) -> Seq<u128> {
    Seq::new((tb * rb) as nat, |c: int| spec_votes_total(spec_votes(mag, hough, tb, rb), c) as u128)
}

/// Flat index of the dominant bin of a frame.
pub open spec fn spec_dominant(mag: Seq<u8>, hough: Seq<u8>, tb: nat, rb: nat) -> int {
    spec_first_max_idx(spec_totals(mag, hough, tb, rb))
}

/// The line mask of a frame: 1.0 for pixels whose bin is the dominant
/// bin, 0.0 for every other pixel, in pixel order.
pub open spec fn spec_line_mask(mag: Seq<u8>, hough: Seq<u8>, tb: nat, rb: nat) -> Seq<u32> {
    Seq::new(mag.len() / 4, |i: int| if spec_sample_flat(hough, i, tb, rb) == spec_dominant(
        mag,
        hough,
        tb,
        rb,
    ) {
        ONE_BITS
    } else {
        0u32
    })
}

/// Running the extraction twice on the same buffers gives the same
/// mask: the result is a function of the input bytes alone.
pub proof fn lemma_line_mask_deterministic(
    mag: Seq<u8>,
    hough: Seq<u8>,
    tb: nat,
    rb: nat,
    out1: Seq<u32>,
    out2: Seq<u32>,
)
    requires
        out1 == spec_line_mask(mag, hough, tb, rb),
        out2 == spec_line_mask(mag, hough, tb, rb),
    ensures
        out1 == out2,
{
}

/// Vote weight of a magnitude pattern, computed exactly.
pub fn mag_weight(b: u32) -> (w: u64)
    ensures
        w == spec_mag_weight(b),
{
    let e: u32 = (b >> 23) & 0xff;
    let f: u32 = b & 0x7f_ffff;
    let nan = e == 255 && f != 0;
    let neg = (b >> 31) == 1;
    if nan || neg {
        return 0;
    }
    if e >= 159 {
        // value at least 2^32: saturate
        proof {
            assert((b & 0x7f_ffff) < 0x80_0000) by (bit_vector);
            assert(pow2((f32_exp(b) - 1) as nat) >= pow2(158)) by {
                if 158 < f32_exp(b) - 1 {
                    lemma_pow2_strictly_increases(158, (f32_exp(b) - 1) as nat);
                }
            }
            lemma_pow2_pos(158);
            assert(((f32_frac(b) + 0x80_0000) as nat) * pow2((f32_exp(b) - 1) as nat)
                >= (0x80_0000 as nat) * pow2(158)) by (nonlinear_arith)
                requires
                    pow2((f32_exp(b) - 1) as nat) >= pow2(158),
                    pow2(158) > 0,
                    f32_frac(b) >= 0;
            assert((0x80_0000 as nat) * pow2(158) == pow2(181)) by {
                assert(pow2(23) == 0x80_0000) by { lemma2_to64(); }
                lemma_pow2_adds(23, 158);
            }
        }
        return 0xffff_ffff_ffff_ffff;
    }
    // magnitude below 2^181: exact fixed-point truncation
    let (m, ex) = crate::quantize::mag_parts(b);
    proof {
        assert(f32_mag(b) < pow2(181)) by {
            assert(pow2(ex as nat) <= pow2(157)) by {
                if ex < 157 {
                    lemma_pow2_strictly_increases(ex as nat, 157);
                }
            }
            lemma_mul_upper_bound(m as int, 0xff_ffff, pow2(ex as nat) as int, pow2(157) as int);
            assert(0xff_ffff * pow2(157) < pow2(24) * pow2(157)) by {
                assert(pow2(24) == 0x100_0000) by { lemma2_to64(); }
                lemma_pow2_pos(157);
                lemma_mul_strict_inequality(0xff_ffff, 0x100_0000, pow2(157) as int);
            }
            lemma_pow2_adds(24, 157);
        }
    }
    if ex >= 117 {
        // whole multiple of the fixed-point unit
        let shift = crate::quantize::pow2_u128(ex - 117);
        proof {
            assert(pow2((ex - 117) as nat) <= pow2(40)) by {
                if ex - 117 < 40 {
                    lemma_pow2_strictly_increases((ex - 117) as nat, 40);
                }
            }
            assert(pow2(40) == 0x100_0000_0000) by {
                lemma_pow2_adds(32, 8);
                lemma2_to64();
            }
            lemma_mul_upper_bound(m as int, 0xff_ffff, shift as int, 0x100_0000_0000);
        }
        let w128 = (m as u128) * shift;
        proof {
            // m * 2^ex / 2^117 == m * 2^(ex-117)
            lemma_pow2_adds((ex - 117) as nat, 117);
            assert((m as nat) * (pow2((ex - 117) as nat) * pow2(117))
                == ((m as nat) * pow2((ex - 117) as nat)) * pow2(117)) by (nonlinear_arith);
            lemma_pow2_pos(117);
            lemma_div_multiples_vanish((w128 as nat) as int, pow2(117) as int);
            assert((w128 as nat) * pow2(117) == pow2(117) * (w128 as nat)) by (nonlinear_arith);
            assert(f32_mag(b) / pow2(117) == w128 as nat);
            assert(w128 < pow2(64)) by {
                assert(pow2(181) == pow2(64) * pow2(117)) by { lemma_pow2_adds(64, 117); }
                lemma_multiply_divide_lt(f32_mag(b) as int, pow2(117) as int, pow2(64) as int);
                assert(f32_mag(b) == (w128 as nat) * pow2(117));
                assert((w128 as nat) * pow2(117) == pow2(117) * (w128 as nat))
                    by (nonlinear_arith);
                assert(f32_mag(b) / pow2(117) < pow2(64));
            }
            assert(pow2(64) == 0x1_0000_0000_0000_0000) by { lemma2_to64(); }
        }
        w128 as u64
    } else {
        // truncating shift to the right
        if ex + 24 <= 117 {
            // the magnitude is below one fixed-point unit
            proof {
                assert(f32_mag(b) < pow2(117)) by {
                    assert(pow2(ex as nat) <= pow2(93)) by {
                        if ex < 93 {
                            lemma_pow2_strictly_increases(ex as nat, 93);
                        }
                    }
                    lemma_mul_upper_bound(m as int, 0xff_ffff, pow2(ex as nat) as int,
                        pow2(93) as int);
                    assert(0xff_ffff * pow2(93) < pow2(24) * pow2(93)) by {
                        assert(pow2(24) == 0x100_0000) by { lemma2_to64(); }
                        lemma_pow2_pos(93);
                        lemma_mul_strict_inequality(0xff_ffff, 0x100_0000, pow2(93) as int);
                    }
                    lemma_pow2_adds(24, 93);
                }
                lemma_pow2_pos(117);
                lemma_basic_div(f32_mag(b) as int, pow2(117) as int);
            }
            0
        } else {
            let div = crate::quantize::pow2_u128(117 - ex);
            proof {
                lemma_pow2_pos((117 - ex) as nat);
            }
            let w128 = (m as u128) / div;
            proof {
                // m * 2^ex / 2^117 == m / 2^(117-ex)
                lemma_pow2_pos(ex as nat);
                lemma_pow2_adds(ex as nat, (117 - ex) as nat);
                lemma_div_denominator(
                    f32_mag(b) as int,
                    pow2(ex as nat) as int,
                    pow2((117 - ex) as nat) as int,
                );
                lemma_div_multiples_vanish(m as int, pow2(ex as nat) as int);
                assert((m as nat) * pow2(ex as nat) == pow2(ex as nat) * (m as nat))
                    by (nonlinear_arith);
                assert(f32_mag(b) / pow2(ex as nat) == m as nat);
                assert(w128 <= m as u128);
                lemma_div_nonincreasing(m as int, div as int);
            }
            w128 as u64
        }
    }
}

/// Quantizing the exactly promoted pattern gives the same bins as the
/// half-precision model says directly.
proof fn lemma_bins_of_promoted(h: u16, p: u32, bins: nat, scale: nat, cap: nat)
    requires
        crate::fbits::f32_sign(p) == f16_sign(h),
        f32_is_nan(p) == f16_is_nan(h),
        !f16_is_nan(h) ==> f32_mag(p) == spec_promoted_f16_mag(h),
    ensures
        spec_theta_bin(p, bins) == spec_theta_bin_h(h, bins),
        spec_sym_bin(p, scale, cap) == spec_rho_bin_h(h, scale, cap),
{
}

/// Line-mask extraction over parallel magnitude and angle/offset
/// buffers: quantize every pixel once, let each pixel vote with its
/// magnitude weight, pick the dominant bin deterministically, and mark
/// exactly the pixels that voted for it.  Empty input yields an
/// all-zero grid, dominant bin `(0, 0)`, and an empty mask.  The
/// result holds one single-precision bit pattern per pixel: 1.0 for
/// marked pixels, 0.0 for the rest.
pub fn line_mask(
    magnitude_bytes: &[u8],
    hough_bytes: &[u8],
    theta_bins: usize,
    rho_bins: usize,
) -> (luma: Vec<u32>)
    requires
        magnitude_bytes@.len() % 4 == 0,
        hough_bytes@.len() % 4 == 0,
        magnitude_bytes@.len() == hough_bytes@.len(),
        1 <= theta_bins <= MAX_BINS,
        1 <= rho_bins <= MAX_BINS,
        theta_bins * rho_bins <= usize::MAX,
    ensures
        luma@ == spec_line_mask(
            magnitude_bytes@,
            hough_bytes@,
            theta_bins as nat,
            rho_bins as nat,
        ),
        luma@.len() == magnitude_bytes@.len() / 4,
{
    let ghost gm = magnitude_bytes@;
    let ghost gh = hough_bytes@;
    let ghost tbn = theta_bins as nat;
    let ghost rbn = rho_bins as nat;
    let ghost gvotes = spec_votes(gm, gh, tbn, rbn);
    let magnitude = FloatView::new(magnitude_bytes);
    let hough = Half2View::new(hough_bytes);
    let len = magnitude.len();

    // Phase one: quantize every pixel once.
    let mut samples: Vec<EdgeSample> = Vec::new();
    let mut i: usize = 0;
    while i < len
        invariant
            i <= len,
            len == gm.len() / 4,
            gm.len() % 4 == 0,
            gh.len() % 4 == 0,
            gm.len() == gh.len(),
            magnitude.raw() == gm,
            hough.raw() == gh,
            magnitude.wf(),
            hough.wf(),
            1 <= theta_bins <= MAX_BINS,
            1 <= rho_bins <= MAX_BINS,
            tbn == theta_bins as nat,
            rbn == rho_bins as nat,
            samples@.len() == i,
            forall|j: int| 0 <= j < i ==> {
                let s = #[trigger] samples@[j];
                &&& s.theta_bin as nat == spec_theta_bin_h(spec_px_theta(gh, j), tbn)
                &&& s.rho_bin as nat == spec_rho_bin_h(
                    spec_px_rho(gh, j),
                    (rbn - 1) as nat,
                    (rbn - 1) as nat,
                )
                &&& s.weight == spec_mag_weight(spec_px_mag(gm, j))
                &&& s.theta_bin < theta_bins
                &&& s.rho_bin < rho_bins
            },
        decreases len - i,
    {
        let pair = hough.get(i);
        let pt = promote_f16_bits(pair.x);
        let pr = promote_f16_bits(pair.y);
        let ti = quantize_theta(pt, theta_bins);
        let ri = quantize_sym(pr, rho_bins - 1, rho_bins - 1);
        let w = mag_weight(magnitude.get(i));
        proof {
            assert(pair.x == spec_px_theta(gh, i as int));
            assert(pair.y == spec_px_rho(gh, i as int));
            lemma_bins_of_promoted(pair.x, pt, tbn, (rbn - 1) as nat, (rbn - 1) as nat);
            lemma_bins_of_promoted(pair.y, pr, tbn, (rbn - 1) as nat, (rbn - 1) as nat);
        }
        samples.push(EdgeSample { theta_bin: ti as u16, rho_bin: ri as u16, weight: w });
        i = i + 1;
    }

    // Phase two: magnitude-weighted voting.
    let mut acc = HoughAccumulator::new(theta_bins, rho_bins);
    let mut k: usize = 0;
    while k < len
        invariant
            k <= len,
            len == gm.len() / 4,
            gvotes == spec_votes(gm, gh, tbn, rbn),
            gvotes.len() == len,
            1 <= theta_bins <= MAX_BINS,
            1 <= rho_bins <= MAX_BINS,
            tbn == theta_bins as nat,
            rbn == rho_bins as nat,
            acc.wf(),
            acc.spec_theta_bins() == tbn,
            acc.spec_rho_bins() == rbn,
            samples@.len() == len,
            forall|j: int| 0 <= j < len ==> {
                let s = #[trigger] samples@[j];
                &&& s.theta_bin as nat == spec_theta_bin_h(spec_px_theta(gh, j), tbn)
                &&& s.rho_bin as nat == spec_rho_bin_h(
                    spec_px_rho(gh, j),
                    (rbn - 1) as nat,
                    (rbn - 1) as nat,
                )
                &&& s.weight == spec_mag_weight(spec_px_mag(gm, j))
                &&& s.theta_bin < theta_bins
                &&& s.rho_bin < rho_bins
            },
            forall|c: int| 0 <= c < acc.grid().len() ==> (#[trigger] acc.grid()[c]) as nat
                == spec_votes_total(gvotes.take(k as int), c),
        decreases len - k,
    {
        let s = samples[k];
        let ghost flat = (s.theta_bin as int) * (rbn as int) + (s.rho_bin as int);
        proof {
            lemma_flat_index_in_range(
                s.theta_bin as int,
                s.rho_bin as int,
                tbn as int,
                rbn as int,
            );
            lemma_votes_total_bound(gvotes.take(k as int), flat);
            assert(gvotes.take(k as int).len() == k);
            assert(spec_votes_total(gvotes.take(k as int), flat) + s.weight <= u128::MAX) by {
                assert(spec_votes_total(gvotes.take(k as int), flat)
                    <= (k as nat) * 0xffff_ffff_ffff_ffff);
                assert((k as nat) * 0xffff_ffff_ffff_ffff + 0xffff_ffff_ffff_ffff
                    <= u128::MAX) by (nonlinear_arith)
                    requires k <= 0xffff_ffff_ffff_ffff;
            }
        }
        acc.vote_at(s.theta_bin as usize, s.rho_bin as usize, s.weight);
        proof {
            assert(gvotes.take((k + 1) as int).drop_last() =~= gvotes.take(k as int));
            assert(gvotes.take((k + 1) as int).last() == gvotes[k as int]);
            assert(gvotes[k as int] == (spec_sample_flat(gh, k as int, tbn, rbn),
                spec_mag_weight(spec_px_mag(gm, k as int))));
            assert(spec_sample_flat(gh, k as int, tbn, rbn) == flat);
            assert(forall|c: int| 0 <= c < acc.grid().len() ==> (#[trigger] acc.grid()[c]) as nat
                == spec_votes_total(gvotes.take((k + 1) as int), c)) by {
                assert(forall|c: int| 0 <= c < acc.grid().len()
                    ==> spec_votes_total(#[trigger] gvotes.take((k + 1) as int), c)
                        == spec_votes_total(gvotes.take(k as int), c) + if flat == c {
                        s.weight as nat
                    } else {
                        0nat
                    });
            }
        }
        k = k + 1;
    }

    // Phase three: deterministic dominant-bin selection.
    let ghost totals = spec_totals(gm, gh, tbn, rbn);
    proof {
        assert(gvotes.take(len as int) =~= gvotes);
        lemma_mul_strictly_positive(tbn as int, rbn as int);
        assert forall|c: int| 0 <= c < totals.len() implies #[trigger] totals[c] as nat
            == spec_votes_total(gvotes, c) by {
            lemma_votes_total_bound(gvotes, c);
            assert((len as nat) * 0xffff_ffff_ffff_ffff
                < 0x1_0000_0000_0000_0000_0000_0000_0000_0000) by (nonlinear_arith)
                requires len <= 0xffff_ffff_ffff_ffff;
        }
        assert(acc.grid() =~= totals);
    }
    let (bt, br) = acc.dominant_bin();
    proof {
        lemma_first_max_idx_ok(totals);
        lemma_first_max_unique(
            totals,
            (bt as int) * (rbn as int) + (br as int),
            spec_dominant(gm, gh, tbn, rbn),
        );
        lemma_flat_index_in_range(bt as int, br as int, tbn as int, rbn as int);
    }
    let dom = bt * rho_bins + br;

    // Phase four: emit the mask.
    let mut luma: Vec<u32> = Vec::new();
    let mut p: usize = 0;
    while p < len
        invariant
            p <= len,
            len == gm.len() / 4,
            1 <= theta_bins <= MAX_BINS,
            1 <= rho_bins <= MAX_BINS,
            tbn == theta_bins as nat,
            rbn == rho_bins as nat,
            theta_bins * rho_bins <= usize::MAX,
            samples@.len() == len,
            dom == spec_dominant(gm, gh, tbn, rbn),
            forall|j: int| 0 <= j < len ==> {
                let s = #[trigger] samples@[j];
                &&& s.theta_bin as nat == spec_theta_bin_h(spec_px_theta(gh, j), tbn)
                &&& s.rho_bin as nat == spec_rho_bin_h(
                    spec_px_rho(gh, j),
                    (rbn - 1) as nat,
                    (rbn - 1) as nat,
                )
                &&& s.theta_bin < theta_bins
                &&& s.rho_bin < rho_bins
            },
            luma@.len() == p,
            forall|j: int| 0 <= j < p ==> #[trigger] luma@[j] == spec_line_mask(
                gm,
                gh,
                tbn,
                rbn,
            )[j],
        decreases len - p,
    {
        let s = samples[p];
        proof {
            lemma_flat_index_in_range(
                s.theta_bin as int,
                s.rho_bin as int,
                tbn as int,
                rbn as int,
            );
            assert(spec_sample_flat(gh, p as int, tbn, rbn)
                == (s.theta_bin as int) * (rbn as int) + (s.rho_bin as int));
        }
        let flat = (s.theta_bin as usize) * rho_bins + (s.rho_bin as usize);
        if flat == dom {
            luma.push(ONE_BITS);
        } else {
            luma.push(0);
        }
        p = p + 1;
    }
    proof {
        assert(luma@ =~= spec_line_mask(gm, gh, tbn, rbn));
    }
    luma
}

/// The default frame pass: line-mask extraction over the fixed
/// 64 x 128 (angle, offset) grid.  Mismatched or misaligned buffers
/// are a caller contract violation, ruled out here; `try_draw` is the
/// checked entry point.
pub fn draw(magnitude_bytes: &[u8], hough_bytes: &[u8]) -> (luma: Vec<u32>)
    requires
        magnitude_bytes@.len() % 4 == 0,
        hough_bytes@.len() % 4 == 0,
        magnitude_bytes@.len() == hough_bytes@.len(),
    ensures
        luma@ == spec_line_mask(
            magnitude_bytes@,
            hough_bytes@,
            THETA_BINS as nat,
            RHO_BINS as nat,
        ),
        luma@.len() == magnitude_bytes@.len() / 4,
{
    line_mask(magnitude_bytes, hough_bytes, THETA_BINS, RHO_BINS)
}

/// Checked entry point for the default frame pass: verifies the caller
/// contract instead of assuming it, and refuses — producing no output
/// buffer — exactly when a buffer length is not a multiple of four or
/// the pixel counts differ.
pub fn try_draw(magnitude_bytes: &[u8], hough_bytes: &[u8]) -> (r: Option<Vec<u32>>)
    ensures
        r is Some <==> magnitude_bytes@.len() % 4 == 0 && hough_bytes@.len() % 4 == 0
            && magnitude_bytes@.len() == hough_bytes@.len(),
        r is Some ==> r.unwrap()@ == spec_line_mask(
            magnitude_bytes@,
            hough_bytes@,
            THETA_BINS as nat,
            RHO_BINS as nat,
        ),
{
    if magnitude_bytes.len() % 4 != 0 || hough_bytes.len() % 4 != 0
        || magnitude_bytes.len() != hough_bytes.len() {
        None
    } else {
        Some(draw(magnitude_bytes, hough_bytes))
    }
}

} // verus!
