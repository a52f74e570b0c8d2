//! Verified core of a per-frame line/structure highlighting post-process.
//!
//! The library decodes byte-packed GPU readback buffers (exact 32-bit
//! floats, half-precision pairs, packed continuity records) into typed
//! values, runs a discretized Hough vote over angle/offset samples to
//! find the single dominant line, and offers a per-pixel
//! magnitude/continuity threshold filter as an alternative analysis
//! mode.
//!
//! Floating-point values never appear here as machine floats: every
//! float is carried as its IEEE-754 bit pattern and interpreted through
//! the exact integer model in [`fbits`].  The thin host layer converts
//! between machine floats and bit patterns at the boundary.

use vstd::prelude::*;

pub mod accumulator;
pub mod continuity;
pub mod extract;
pub mod fbits;
pub mod filter;
pub mod float_view;
pub mod half_view;
pub mod quantize;

verus! {

/// Composes two bytes, little-endian, into one 16-bit word.
pub open spec fn spec_le16(b0: u8, b1: u8) -> u16 {
    (b0 as u16) | ((b1 as u16) << 8)
}

/// Composes three bytes, little-endian-positional, into a 24-bit value.
pub open spec fn spec_le24(b0: u8, b1: u8, b2: u8) -> u32 {
    (b0 as u32) | ((b1 as u32) << 8) | ((b2 as u32) << 16)
}

/// Composes four bytes, little-endian, into one 32-bit word.
pub open spec fn spec_le32(b0: u8, b1: u8, b2: u8, b3: u8) -> u32 {
    (b0 as u32) | ((b1 as u32) << 8) | ((b2 as u32) << 16) | ((b3 as u32) << 24)
}

/// Little-endian composition of two bytes into one 16-bit word.
pub fn le16(b0: u8, b1: u8) -> (r: u16)
    ensures
        r == spec_le16(b0, b1),
{
    (b0 as u16) | ((b1 as u16) << 8)
}

/// Little-endian-positional composition of three bytes into a 24-bit value.
pub fn le24(b0: u8, b1: u8, b2: u8) -> (r: u32)
    ensures
        r == spec_le24(b0, b1, b2),
        r < 0x100_0000,
{
    proof {
        assert((b0 as u32) | ((b1 as u32) << 8) | ((b2 as u32) << 16) < 0x100_0000)
            by (bit_vector);
    }
    (b0 as u32) | ((b1 as u32) << 8) | ((b2 as u32) << 16)
}

/// Little-endian composition of four bytes into one 32-bit word.
pub fn le32(b0: u8, b1: u8, b2: u8, b3: u8) -> (r: u32)
    ensures
        r == spec_le32(b0, b1, b2, b3),
{
    (b0 as u32) | ((b1 as u32) << 8) | ((b2 as u32) << 16) | ((b3 as u32) << 24)
}

/// Splits a 32-bit word into its four little-endian bytes; composing
/// them again gives the word back.
pub fn le32_bytes(w: u32) -> (r: (u8, u8, u8, u8))
    ensures
        spec_le32(r.0, r.1, r.2, r.3) == w,
{
    let b0: u8 = (w & 0xff) as u8;
    let b1: u8 = ((w >> 8) & 0xff) as u8;
    let b2: u8 = ((w >> 16) & 0xff) as u8;
    let b3: u8 = ((w >> 24) & 0xff) as u8;
    proof {
        assert((((w & 0xff) as u8) as u32)
            | ((((w >> 8) & 0xff) as u8) as u32) << 8
            | ((((w >> 16) & 0xff) as u8) as u32) << 16
            | ((((w >> 24) & 0xff) as u8) as u32) << 24 == w) by (bit_vector);
    }
    (b0, b1, b2, b3)
}

/// Splits a 16-bit word into its two little-endian bytes; composing
/// them again gives the word back.
pub fn le16_bytes(w: u16) -> (r: (u8, u8))
    ensures
        spec_le16(r.0, r.1) == w,
{
    let b0: u8 = (w & 0xff) as u8;
    let b1: u8 = ((w >> 8) & 0xff) as u8;
    proof {
        assert((((w & 0xff) as u8) as u16)
            | ((((w >> 8) & 0xff) as u8) as u16) << 8 == w) by (bit_vector);
    }
    (b0, b1)
}

/// Splits a 24-bit value into its three little-endian-positional
/// bytes; composing them again gives the value back, so a continuity
/// score decodes to exactly the integer it was written from.
pub fn le24_bytes(w: u32) -> (r: (u8, u8, u8))
    requires
        w < 0x100_0000,
    ensures
        spec_le24(r.0, r.1, r.2) == w,
{
    let b0: u8 = (w & 0xff) as u8;
    let b1: u8 = ((w >> 8) & 0xff) as u8;
    let b2: u8 = ((w >> 16) & 0xff) as u8;
    proof {
        assert((((w & 0xff) as u8) as u32)
            | ((((w >> 8) & 0xff) as u8) as u32) << 8
            | ((((w >> 16) & 0xff) as u8) as u32) << 16 == w) by (bit_vector)
            requires w < 0x100_0000u32;
    }
    (b0, b1, b2)
}

/// The two mutually exclusive analysis modes layered over the same
/// decoded buffers: global dominant-line voting, or the pixel-local
/// magnitude/continuity threshold gate.
#[derive(Clone, Copy, Debug, PartialEq, Eq, Structural)]
pub enum AnalysisMode {
    /// Hough-based line-mask extraction over the default grid.
    LineMask,
    /// Per-pixel structure-threshold filtering.
    StructureThreshold,
}

/// Runs one frame through the selected analysis mode.  Both modes read
/// the magnitude buffer; the line-mask mode reads the angle/offset
/// buffer, while the threshold mode reads the continuity buffer and
/// accepts the angle/offset buffer without consulting it.
pub fn process_frame(
    mode: AnalysisMode,
    magnitude_bytes: &[u8],
    hough_bytes: &[u8],
    continuity_bytes: &[u8],
    settings: &filter::StructurePassSettings,
) -> (out: Vec<u32>)
    requires
        magnitude_bytes@.len() % 4 == 0,
        mode is LineMask ==> hough_bytes@.len() % 4 == 0 && magnitude_bytes@.len()
            == hough_bytes@.len(),
        mode is StructureThreshold ==> continuity_bytes@.len() % 4 == 0
            && magnitude_bytes@.len() == continuity_bytes@.len(),
    ensures
        mode is LineMask ==> out@ == extract::spec_line_mask(
            magnitude_bytes@,
            hough_bytes@,
            extract::THETA_BINS as nat,
            extract::RHO_BINS as nat,
        ),
        mode is StructureThreshold ==> out@ == filter::spec_structure_pass(
            magnitude_bytes@,
            continuity_bytes@,
            *settings,
        ),
        out@.len() == magnitude_bytes@.len() / 4,
{
    match mode {
        AnalysisMode::LineMask => extract::draw(magnitude_bytes, hough_bytes),
        AnalysisMode::StructureThreshold => filter::structure_pass(
            magnitude_bytes,
            continuity_bytes,
            settings,
        ),
    }
}

/// Round trip at the word level: decoding four bytes and splitting the
/// word again recovers the original bytes bit for bit.
pub proof fn lemma_le32_round_trip(b0: u8, b1: u8, b2: u8, b3: u8)
    ensures
        (spec_le32(b0, b1, b2, b3) & 0xff) as u8 == b0,
        ((spec_le32(b0, b1, b2, b3) >> 8) & 0xff) as u8 == b1,
        ((spec_le32(b0, b1, b2, b3) >> 16) & 0xff) as u8 == b2,
        ((spec_le32(b0, b1, b2, b3) >> 24) & 0xff) as u8 == b3,
{
    let w = spec_le32(b0, b1, b2, b3);
    assert((w & 0xff) as u8 == b0
        && ((w >> 8) & 0xff) as u8 == b1
        && ((w >> 16) & 0xff) as u8 == b2
        && ((w >> 24) & 0xff) as u8 == b3) by (bit_vector)
        requires
            w == (b0 as u32) | ((b1 as u32) << 8) | ((b2 as u32) << 16) | ((b3 as u32) << 24);
}

} // verus!
