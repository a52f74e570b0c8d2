//! Whole-pipeline tests: the two analysis modes, their scenarios, and
//! determinism.

use linemask::extract::{draw, line_mask, try_draw, ONE_BITS};
use linemask::filter::{structure_pass, try_structure_pass, StructurePassSettings};
use linemask::{process_frame, AnalysisMode};

fn pack_f32(values: &[f32]) -> Vec<u8> {
    let mut bytes = Vec::new();
    for v in values {
        bytes.extend_from_slice(&v.to_bits().to_le_bytes());
    }
    bytes
}

fn pack_half_pairs(values: &[(f32, f32)]) -> Vec<u8> {
    let mut bytes = Vec::new();
    for (x, y) in values {
        bytes.extend_from_slice(&half::f16::from_f32(*x).to_bits().to_le_bytes());
        bytes.extend_from_slice(&half::f16::from_f32(*y).to_bits().to_le_bytes());
    }
    bytes
}

fn pack_continuity(records: &[(u8, u8, u32)]) -> Vec<u8> {
    let mut bytes = Vec::new();
    for &(pos, neg, score) in records {
        bytes.push((pos << 4) | (neg & 0x0f));
        let le = score.to_le_bytes();
        bytes.extend_from_slice(&le[..3]);
    }
    bytes
}

#[test]
fn hough_mode_two_pixels_same_line() {
    // both pixels carry theta = 0.0, rho = -1.0: they quantize to bin
    // (0, 0), that bin dominates, and the mask selects both pixels
    let magnitude = pack_f32(&[5.0, 3.0]);
    let hough = pack_half_pairs(&[(0.0, -1.0), (0.0, -1.0)]);
    let mask = draw(&magnitude, &hough);
    assert_eq!(mask, vec![ONE_BITS, ONE_BITS]);
    assert_eq!(f32::from_bits(mask[0]), 1.0);
}

#[test]
fn hough_mode_selects_strongest_line_only() {
    // two pixels on one line with total weight 8, one pixel on another
    // line with weight 6: only the first line's pixels are marked
    let magnitude = pack_f32(&[5.0, 6.0, 3.0]);
    let hough = pack_half_pairs(&[(0.0, -1.0), (1.5, 0.5), (0.0, -1.0)]);
    let mask = draw(&magnitude, &hough);
    assert_eq!(mask, vec![ONE_BITS, 0, ONE_BITS]);
}

#[test]
fn hough_mode_empty_input_yields_empty_mask() {
    let mask = draw(&[], &[]);
    assert!(mask.is_empty());
}

#[test]
fn hough_mode_is_deterministic() {
    let magnitude = pack_f32(&[0.25, 7.5, 0.0, 2.5, 1.0e-3, 100.0]);
    let hough = pack_half_pairs(&[
        (0.1, -0.5),
        (2.0, 0.5),
        (3.1, 0.99),
        (2.0, 0.5),
        (0.1, -0.5),
        (2.0, 0.5),
    ]);
    let first = draw(&magnitude, &hough);
    let second = draw(&magnitude, &hough);
    assert_eq!(first, second);
}

#[test]
fn hough_mode_custom_grid() {
    // one pixel, trivially dominant on a small grid
    let magnitude = pack_f32(&[2.0]);
    let hough = pack_half_pairs(&[(0.0, -1.0)]);
    let mask = line_mask(&magnitude, &hough, 4, 4);
    assert_eq!(mask, vec![ONE_BITS]);
}

#[test]
fn mismatched_pixel_counts_abort_without_output() {
    // one magnitude pixel versus two angle/offset pixels
    let magnitude = pack_f32(&[5.0]);
    let hough = pack_half_pairs(&[(0.0, -1.0), (0.0, -1.0)]);
    assert!(try_draw(&magnitude, &hough).is_none());
    // misaligned buffer length is refused too
    assert!(try_draw(&magnitude[..3], &hough[..4]).is_none());
    // well-formed input goes through
    assert!(try_draw(&magnitude, &hough[..4]).is_some());
}

#[test]
fn threshold_mode_gates_on_both_signals() {
    // thresholds: magnitude 0.5, continuity 0.2 (as a raw UNORM step)
    let ct = (0.2f32 * 16777215.0) as u32;
    let settings = StructurePassSettings::new(ct, 0.5f32.to_bits());
    let low_score = (0.1f32 * 16777215.0) as u32;
    let high_score = (0.5f32 * 16777215.0) as u32;
    let magnitude = pack_f32(&[0.8, 0.8]);
    let continuity = pack_continuity(&[(1, 6, low_score), (1, 6, high_score)]);
    let out = structure_pass(&magnitude, &continuity, &settings);
    // weak continuity darkens the pixel, strong continuity lets the
    // magnitude through bit-exactly
    assert_eq!(f32::from_bits(out[0]), 0.0);
    assert_eq!(f32::from_bits(out[1]), 0.8);
    assert_eq!(out[1], 0.8f32.to_bits());
}

#[test]
fn threshold_mode_magnitude_gate() {
    let settings = StructurePassSettings::new(0, 0.5f32.to_bits());
    let magnitude = pack_f32(&[0.4, 0.5, f32::NAN]);
    let continuity = pack_continuity(&[(0, 0, 100), (0, 0, 100), (0, 0, 100)]);
    let out = structure_pass(&magnitude, &continuity, &settings);
    assert_eq!(f32::from_bits(out[0]), 0.0);
    assert_eq!(out[1], 0.5f32.to_bits());
    // NaN magnitude never reaches the threshold
    assert_eq!(out[2], 0);
}

#[test]
fn threshold_mode_raising_thresholds_only_darkens() {
    let magnitude = pack_f32(&[0.3, 0.6, 0.9, 1.5]);
    let continuity = pack_continuity(&[
        (0, 0, 1_000_000),
        (0, 0, 5_000_000),
        (0, 0, 9_000_000),
        (0, 0, 16_000_000),
    ]);
    let lo = StructurePassSettings::new(2_000_000, 0.5f32.to_bits());
    let hi_mag = StructurePassSettings::new(2_000_000, 0.8f32.to_bits());
    let hi_cont = StructurePassSettings::new(8_000_000, 0.5f32.to_bits());
    let base = structure_pass(&magnitude, &continuity, &lo);
    for raised in [
        structure_pass(&magnitude, &continuity, &hi_mag),
        structure_pass(&magnitude, &continuity, &hi_cont),
    ] {
        for i in 0..base.len() {
            assert!(raised[i] == 0 || raised[i] == base[i]);
        }
    }
}

#[test]
fn threshold_mode_checked_entry_point() {
    let settings = StructurePassSettings::new(0, 0);
    let magnitude = pack_f32(&[1.0]);
    let continuity = pack_continuity(&[(0, 0, 0), (0, 0, 0)]);
    assert!(try_structure_pass(&magnitude, &continuity, &settings).is_none());
    let one_record = pack_continuity(&[(0, 0, 0)]);
    assert!(try_structure_pass(&magnitude, &one_record, &settings).is_some());
}

#[test]
fn frame_dispatch_selects_mode() {
    let magnitude = pack_f32(&[5.0, 3.0]);
    let hough = pack_half_pairs(&[(0.0, -1.0), (0.0, -1.0)]);
    let continuity = pack_continuity(&[(1, 6, 16_000_000), (1, 6, 0)]);
    let settings = StructurePassSettings::new(8_000_000, 1.0f32.to_bits());

    let masked = process_frame(AnalysisMode::LineMask, &magnitude, &hough, &continuity, &settings);
    assert_eq!(masked, vec![ONE_BITS, ONE_BITS]);

    let gated = process_frame(
        AnalysisMode::StructureThreshold,
        &magnitude,
        &hough,
        &continuity,
        &settings,
    );
    assert_eq!(gated, vec![5.0f32.to_bits(), 0]);
}
