//! Quantizer and accumulator tests: boundary clamping, tie-break, and
//! additivity on concrete values.

use linemask::accumulator::HoughAccumulator;
use linemask::extract::mag_weight;
use linemask::quantize::{quantize_sym, quantize_theta, quantize_unit};

#[test]
fn unit_bin_boundaries_clamp() {
    // exactly at the upper bound lands in the last bin
    assert_eq!(quantize_unit(1.0f32.to_bits(), 64), 63);
    assert_eq!(quantize_unit(2.5f32.to_bits(), 64), 63);
    assert_eq!(quantize_unit(0.0f32.to_bits(), 64), 0);
    assert_eq!(quantize_unit((-0.25f32).to_bits(), 64), 0);
    assert_eq!(quantize_unit(f32::NAN.to_bits(), 64), 0);
    assert_eq!(quantize_unit(0.5f32.to_bits(), 64), 32);
    assert_eq!(quantize_unit(0.9999999f32.to_bits(), 64), 63);
}

#[test]
fn sym_bin_boundaries_clamp() {
    // rho = 1.0 quantizes to the last bin, rho = -1.0 to bin 0
    assert_eq!(quantize_sym(1.0f32.to_bits(), 128, 127), 127);
    assert_eq!(quantize_sym((-1.0f32).to_bits(), 128, 127), 0);
    assert_eq!(quantize_sym(0.0f32.to_bits(), 128, 127), 64);
    assert_eq!(quantize_sym(2.0f32.to_bits(), 128, 127), 127);
    assert_eq!(quantize_sym((-2.0f32).to_bits(), 128, 127), 0);
    assert_eq!(quantize_sym(f32::NAN.to_bits(), 128, 127), 0);
    // the extractor's scale: rho_bins - 1 after remapping
    assert_eq!(quantize_sym(1.0f32.to_bits(), 127, 127), 127);
    assert_eq!(quantize_sym((-1.0f32).to_bits(), 127, 127), 0);
    assert_eq!(quantize_sym(0.0f32.to_bits(), 127, 127), 63);
}

#[test]
fn theta_bin_boundaries_clamp() {
    // theta = pi (exactly at the upper bound) quantizes to the last bin
    assert_eq!(quantize_theta(std::f32::consts::PI.to_bits(), 64), 63);
    assert_eq!(quantize_theta(0.0f32.to_bits(), 64), 0);
    assert_eq!(quantize_theta((-0.5f32).to_bits(), 64), 0);
    assert_eq!(quantize_theta(f32::NAN.to_bits(), 64), 0);
    assert_eq!(quantize_theta(f32::INFINITY.to_bits(), 64), 63);
    // pi/2 sits at the start of the upper half
    assert_eq!(quantize_theta(std::f32::consts::FRAC_PI_2.to_bits(), 64), 32);
    // one quarter turn
    assert_eq!(quantize_theta(std::f32::consts::FRAC_PI_4.to_bits(), 64), 16);
}

#[test]
fn mag_weight_is_exact_fixed_point() {
    assert_eq!(mag_weight(5.0f32.to_bits()), 5u64 << 32);
    assert_eq!(mag_weight(3.0f32.to_bits()), 3u64 << 32);
    assert_eq!(mag_weight(0.5f32.to_bits()), 1u64 << 31);
    // 0.8 in single precision is 13421773 * 2^-24
    assert_eq!(mag_weight(0.8f32.to_bits()), 13_421_773u64 << 8);
    assert_eq!(mag_weight(0.0f32.to_bits()), 0);
    assert_eq!(mag_weight((-3.0f32).to_bits()), 0);
    assert_eq!(mag_weight(f32::NAN.to_bits()), 0);
    assert_eq!(mag_weight(f32::INFINITY.to_bits()), u64::MAX);
    assert_eq!(mag_weight(5.0e9f32.to_bits()), u64::MAX);
}

#[test]
fn accumulator_starts_zeroed_and_accumulates() {
    let mut acc = HoughAccumulator::new(4, 8);
    assert_eq!(acc.theta_bins(), 4);
    assert_eq!(acc.rho_bins(), 8);
    assert_eq!(acc.get(0, 0), 0);
    assert_eq!(acc.get(3, 7), 0);
    acc.vote_at(2, 5, 10);
    acc.vote_at(2, 5, 7);
    assert_eq!(acc.get(2, 5), 17);
    assert_eq!(acc.get(2, 4), 0);
}

#[test]
fn accumulator_vote_quantizes_normalized_inputs() {
    let mut acc = HoughAccumulator::new(64, 128);
    // theta exactly at the upper bound of [0,1) and rho at both ends
    acc.vote(1.0f32.to_bits(), 1.0f32.to_bits(), 2);
    assert_eq!(acc.get(63, 127), 2);
    acc.vote(0.0f32.to_bits(), (-1.0f32).to_bits(), 3);
    assert_eq!(acc.get(0, 0), 3);
    acc.vote(0.5f32.to_bits(), 0.0f32.to_bits(), 4);
    assert_eq!(acc.get(32, 64), 4);
}

#[test]
fn dominant_bin_of_zero_grid_is_origin() {
    let acc = HoughAccumulator::new(2, 3);
    assert_eq!(acc.dominant_bin(), (0, 0));
}

#[test]
fn dominant_bin_breaks_ties_toward_lower_flat_index() {
    // two cells with equal maximal totals: flat index 1 beats flat index 2
    let mut acc = HoughAccumulator::new(2, 2);
    acc.vote_at(1, 0, 5); // flat index 2
    acc.vote_at(0, 1, 5); // flat index 1
    assert_eq!(acc.dominant_bin(), (0, 1));

    // and the strictly larger cell still wins regardless of order
    acc.vote_at(1, 1, 6); // flat index 3
    assert_eq!(acc.dominant_bin(), (1, 1));
}

#[test]
fn split_accumulation_merges_by_addition() {
    // accumulate a vote set whole, and split in two parts
    let votes = [(0usize, 0usize, 5u64), (1, 2, 7), (0, 0, 3), (1, 2, 2), (0, 1, 9)];
    let mut whole = HoughAccumulator::new(2, 3);
    for &(t, r, w) in &votes {
        whole.vote_at(t, r, w);
    }
    let mut part_a = HoughAccumulator::new(2, 3);
    let mut part_b = HoughAccumulator::new(2, 3);
    for &(t, r, w) in &votes[..2] {
        part_a.vote_at(t, r, w);
    }
    for &(t, r, w) in &votes[2..] {
        part_b.vote_at(t, r, w);
    }
    for t in 0..2 {
        for r in 0..3 {
            assert_eq!(whole.get(t, r), part_a.get(t, r) + part_b.get(t, r));
        }
    }
}
