//! Decoder tests: bit-exact byte composition, views, and promotion.

use linemask::continuity::ContinuityView;
use linemask::fbits::{f32_ge_bits, promote_f16_bits};
use linemask::float_view::FloatView;
use linemask::half_view::{Half2View, HoughSamples};
use linemask::{le16, le16_bytes, le24, le24_bytes, le32, le32_bytes};

#[test]
fn le32_composition_and_split_round_trip() {
    let w = le32(0x78, 0x56, 0x34, 0x12);
    assert_eq!(w, 0x1234_5678);
    let (b0, b1, b2, b3) = le32_bytes(0xdead_beef);
    assert_eq!((b0, b1, b2, b3), (0xef, 0xbe, 0xad, 0xde));
    assert_eq!(le32(b0, b1, b2, b3), 0xdead_beef);
}

#[test]
fn le16_composition_and_split_round_trip() {
    assert_eq!(le16(0xcd, 0xab), 0xabcd);
    let (b0, b1) = le16_bytes(0xbeef);
    assert_eq!(le16(b0, b1), 0xbeef);
}

#[test]
fn le24_composition_and_split_round_trip() {
    assert_eq!(le24(0x56, 0x34, 0x12), 0x12_3456);
    let (b0, b1, b2) = le24_bytes(0xff_ffff);
    assert_eq!(le24(b0, b1, b2), 0xff_ffff);
    let (b0, b1, b2) = le24_bytes(0);
    assert_eq!(le24(b0, b1, b2), 0);
}

#[test]
fn float_view_recovers_exact_bits() {
    let values = [0.0f32, -0.0, 1.0, -1.0, 3.5, f32::NAN, f32::INFINITY, 1.0e-42, 5.0];
    let mut bytes = Vec::new();
    for v in values {
        bytes.extend_from_slice(&v.to_bits().to_le_bytes());
    }
    let view = FloatView::new(&bytes);
    assert_eq!(view.len(), values.len());
    for (i, v) in values.iter().enumerate() {
        // decoding recovers the written value bit for bit
        assert_eq!(view.get(i), v.to_bits());
    }
    assert_eq!(view.bytes().len(), bytes.len());
}

#[test]
fn float_view_round_trip_through_encoder() {
    // decode, re-encode arithmetically, decode again: bit-identical
    let bytes = [0x12u8, 0x34, 0x56, 0x78];
    let view = FloatView::new(&bytes);
    let w = view.get(0);
    let (b0, b1, b2, b3) = le32_bytes(w);
    assert_eq!([b0, b1, b2, b3], bytes);
}

#[test]
fn half_view_raw_pairs() {
    let x = half::f16::from_f32(0.5).to_bits();
    let y = half::f16::from_f32(-0.25).to_bits();
    let mut bytes = Vec::new();
    bytes.extend_from_slice(&x.to_le_bytes());
    bytes.extend_from_slice(&y.to_le_bytes());
    let view = Half2View::new(&bytes);
    assert_eq!(view.len(), 1);
    assert!(!view.is_empty());
    let pair = view.get(0);
    assert_eq!(pair.x, x);
    assert_eq!(pair.y, y);

    let empty = Half2View::new(&[]);
    assert!(empty.is_empty());
    assert_eq!(empty.len(), 0);
}

#[test]
fn half_view_sample_sequence_is_restartable() {
    let mut bytes = Vec::new();
    for v in [(0.0f32, -1.0f32), (1.5, 0.25), (-2.0, 0.75)] {
        bytes.extend_from_slice(&half::f16::from_f32(v.0).to_bits().to_le_bytes());
        bytes.extend_from_slice(&half::f16::from_f32(v.1).to_bits().to_le_bytes());
    }
    let view = Half2View::new(&bytes);
    assert_eq!(view.sample_count(), 3);
    let first_pass: Vec<_> = (0..3).map(|i| view.sample_at(i)).collect();
    let second_pass: Vec<_> = (0..3).map(|i| view.sample_at(i)).collect();
    assert_eq!(first_pass, second_pass);
    assert_eq!(first_pass[1], view.get(1));
    let all = view.iter_hough_samples();
    assert_eq!(all, first_pass);
}

#[test]
fn promotion_matches_reference_half_crate_exhaustively() {
    // every finite and infinite half pattern promotes bit-identically
    for h in 0..=u16::MAX {
        let ours = promote_f16_bits(h);
        let reference = half::f16::from_bits(h).to_f32().to_bits();
        let is_nan = half::f16::from_bits(h).is_nan();
        if is_nan {
            assert!(f32::from_bits(ours).is_nan(), "pattern {h:#06x}");
        } else {
            assert_eq!(ours, reference, "pattern {h:#06x}");
        }
    }
}

#[test]
fn continuity_record_decodes_directions_and_exact_score() {
    // pos index 2 (NE), neg index 5 (SW), score 0x123456
    let bytes = [0x25u8, 0x56, 0x34, 0x12];
    let view = ContinuityView::new(&bytes);
    assert_eq!(view.len(), 1);
    let rec = view.get(0);
    assert_eq!(rec.pos, (-1, 1));
    assert_eq!(rec.neg, (1, -1));
    assert_eq!(rec.score_unorm, 0x12_3456);
    assert_eq!(view.score(0), 0x12_3456);
}

#[test]
fn continuity_score_recovers_source_integer_within_unorm_step() {
    for source in [0u32, 1, 0x7f_ffff, 0xff_fffe, 0xff_ffff] {
        let (b0, b1, b2) = le24_bytes(source);
        let bytes = [0x01, b0, b1, b2];
        let view = ContinuityView::new(&bytes);
        let raw = view.score(0);
        assert_eq!(raw, source);
        // the normalized value sits within one UNORM step of the source
        let normalized = raw as f32 / 16777215.0;
        let expected = source as f32 / 16777215.0;
        assert!((normalized - expected).abs() <= 1.0 / 16777215.0);
    }
}

#[test]
fn ge_comparison_matches_hardware_floats() {
    let values = [
        0.0f32,
        -0.0,
        1.0,
        -1.0,
        0.5,
        -0.5,
        f32::NAN,
        f32::INFINITY,
        f32::NEG_INFINITY,
        f32::MIN_POSITIVE,
        1.0e-42,
        -1.0e-42,
        f32::MAX,
        f32::MIN,
        3.141_592_7,
    ];
    for &a in &values {
        for &b in &values {
            assert_eq!(
                f32_ge_bits(a.to_bits(), b.to_bits()),
                a >= b,
                "a={a}, b={b}"
            );
        }
    }
}
