//! Structure-threshold filtering: the pixel-local analysis mode.
//!
//! Each pixel passes through unchanged when it is simultaneously a
//! strong edge (magnitude at least the magnitude threshold, by IEEE-754
//! comparison of the represented values) and geometrically coherent
//! (raw continuity score at least the continuity threshold); otherwise
//! it goes dark.  No pixel's result depends on any other pixel.

use vstd::prelude::*;
use crate::continuity::ContinuityView;
use crate::fbits::{f32_ge_bits, spec_f32_ge};
use crate::float_view::FloatView;
use crate::extract::spec_px_mag;
use crate::spec_le24;

verus! {

/// Caller-supplied thresholds for one filter invocation.
///
/// The magnitude threshold is a single-precision bit pattern; the
/// continuity threshold is a raw 24-bit UNORM value on the same scale
/// as the decoded continuity scores (`raw / (2^24 - 1)` is the
/// represented fraction).
#[derive(Clone, Copy, Debug, PartialEq, Eq, Structural)]
pub struct StructurePassSettings {
    /// Least raw continuity score that counts as coherent.
    pub continuity_threshold: u32,
    /// Bit pattern of the least magnitude that counts as a strong edge.
    pub magnitude_threshold: u32,
}

impl StructurePassSettings {
    /// Bundles the two thresholds of one invocation.
    pub fn new(continuity_threshold: u32, magnitude_threshold: u32) -> (r: Self)
        ensures
            r.continuity_threshold == continuity_threshold,
            r.magnitude_threshold == magnitude_threshold,
    {
        StructurePassSettings { continuity_threshold, magnitude_threshold }
    }
}

/// Raw continuity score of pixel `i` in a packed continuity buffer.
pub open spec fn spec_px_score(cont: Seq<u8>, i: int) -> u32 {
    spec_le24(cont[4 * i + 1], cont[4 * i + 2], cont[4 * i + 3])
}

/// A pixel is kept when its magnitude reaches the magnitude
/// threshold and its score reaches the continuity threshold.
pub open spec fn spec_passes(mag_bits: u32, score: u32, s: StructurePassSettings) -> bool {
    spec_f32_ge(mag_bits, s.magnitude_threshold) && score >= s.continuity_threshold
}

/// Output of one pixel: its own magnitude when it passes, 0.0 when it
/// fails.
pub open spec fn spec_gate(mag_bits: u32, score: u32, s: StructurePassSettings) -> u32 {
    if spec_passes(mag_bits, score, s) {
        mag_bits
    } else {
        0u32
    }
}

/// The whole filtered frame, one single-precision bit pattern per
/// pixel in pixel order.
pub open spec fn spec_structure_pass(
    mag: Seq<u8>,
    cont: Seq<u8>,
    s: StructurePassSettings,
) -> Seq<u32> {
    Seq::new(mag.len() / 4, |i: int| spec_gate(spec_px_mag(mag, i), spec_px_score(cont, i), s))
}

/// Monotonicity at one pixel: raising either threshold can only
/// darken a previously kept pixel, never brighten a dark one, so the
/// raised output is either unchanged or dark.
pub proof fn lemma_gate_monotone(
    mag_bits: u32,
    score: u32,
    lo: StructurePassSettings,
    hi: StructurePassSettings,
)
    requires
        spec_f32_ge(hi.magnitude_threshold, lo.magnitude_threshold),
        lo.continuity_threshold <= hi.continuity_threshold,
    ensures
        spec_passes(mag_bits, score, hi) ==> spec_passes(mag_bits, score, lo),
        spec_gate(mag_bits, score, hi) == 0 || spec_gate(mag_bits, score, hi) == spec_gate(
            mag_bits,
            score,
            lo,
        ),
{
}

/// Monotonicity over a whole frame: with thresholds raised, every
/// output pixel is either unchanged or dark.
pub proof fn lemma_structure_pass_monotone(
    mag: Seq<u8>,
    cont: Seq<u8>,
    lo: StructurePassSettings,
    hi: StructurePassSettings,
)
    requires
        spec_f32_ge(hi.magnitude_threshold, lo.magnitude_threshold),
        lo.continuity_threshold <= hi.continuity_threshold,
    ensures
        forall|i: int| 0 <= i < mag.len() / 4 ==> #[trigger] spec_structure_pass(
            mag,
            cont,
            hi,
        )[i] == 0 || spec_structure_pass(mag, cont, hi)[i] == spec_structure_pass(
            mag,
            cont,
            lo,
        )[i],
{
    assert forall|i: int| 0 <= i < mag.len() / 4 implies #[trigger] spec_structure_pass(
        mag,
        cont,
        hi,
    )[i] == 0 || spec_structure_pass(mag, cont, hi)[i] == spec_structure_pass(
        mag,
        cont,
        lo,
    )[i] by {
        lemma_gate_monotone(spec_px_mag(mag, i), spec_px_score(cont, i), lo, hi);
    }
}

/// Structure-threshold filtering over parallel magnitude and
/// continuity buffers.  The result holds one single-precision bit
/// pattern per pixel: the pixel's own magnitude where both gates pass,
/// 0.0 elsewhere.  Mismatched or misaligned buffers are a caller
/// contract violation, ruled out here; `try_structure_pass` is the
/// checked entry point.
pub fn structure_pass(
    magnitude_bytes: &[u8],
    continuity_bytes: &[u8],
    settings: &StructurePassSettings,
) -> (out: Vec<u32>)
    requires
        magnitude_bytes@.len() % 4 == 0,
        continuity_bytes@.len() % 4 == 0,
        magnitude_bytes@.len() == continuity_bytes@.len(),
    ensures
        out@ == spec_structure_pass(magnitude_bytes@, continuity_bytes@, *settings),
        out@.len() == magnitude_bytes@.len() / 4,
{
    let ghost gm = magnitude_bytes@;
    let ghost gc = continuity_bytes@;
    let magnitude = FloatView::new(magnitude_bytes);
    let continuity = ContinuityView::new(continuity_bytes);
    let len = magnitude.len();
    let mut out: Vec<u32> = Vec::new();
    let mut i: usize = 0;
    while i < len
        invariant
            i <= len,
            len == gm.len() / 4,
            gm.len() % 4 == 0,
            gc.len() % 4 == 0,
            gm.len() == gc.len(),
            magnitude.raw() == gm,
            continuity.raw() == gc,
            magnitude.wf(),
            continuity.wf(),
            out@.len() == i,
            forall|j: int| 0 <= j < i ==> #[trigger] out@[j] == spec_gate(
                spec_px_mag(gm, j),
                spec_px_score(gc, j),
                *settings,
            ),
        decreases len - i,
    {
        let mag_bits = magnitude.get(i);
        let score = continuity.score(i);
        let strong = f32_ge_bits(mag_bits, settings.magnitude_threshold);
        let coherent = score >= settings.continuity_threshold;
        if strong && coherent {
            out.push(mag_bits);
        } else {
            out.push(0);
        }
        i = i + 1;
    }
    proof {
        assert(out@ =~= spec_structure_pass(gm, gc, *settings));
    }
    out
}

/// Checked entry point for the threshold mode: refuses — producing no
/// output buffer — exactly when a buffer length is not a multiple of
/// four or the pixel counts differ.
pub fn try_structure_pass(
    magnitude_bytes: &[u8],
    continuity_bytes: &[u8],
    settings: &StructurePassSettings,
) -> (r: Option<Vec<u32>>)
    ensures
        r is Some <==> magnitude_bytes@.len() % 4 == 0 && continuity_bytes@.len() % 4 == 0
            && magnitude_bytes@.len() == continuity_bytes@.len(),
        r is Some ==> r.unwrap()@ == spec_structure_pass(
            magnitude_bytes@,
            continuity_bytes@,
            *settings,
        ),
{
    if magnitude_bytes.len() % 4 != 0 || continuity_bytes.len() % 4 != 0
        || magnitude_bytes.len() != continuity_bytes.len() {
        None
    } else {
        Some(structure_pass(magnitude_bytes, continuity_bytes, settings))
    }
}

} // verus!
