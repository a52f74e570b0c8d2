//! Decoder for packed per-pixel continuity records.
//!
//! Each record occupies four bytes.  Byte 0 carries two 4-bit indices
//! into the fixed 8-entry direction table (`pos` in the high nibble,
//! `neg` in the low nibble); bytes 1-3 carry a 24-bit unsigned score,
//! little-endian-positional.  The score is a UNORM value: the host
//! normalizes it by dividing by `2^24 - 1`; the library keeps the raw
//! integer, which the normalization maps one-to-one.

use vstd::prelude::*;
use vstd::slice::*;
use vstd::arithmetic::div_mod::lemma_fundamental_div_mod;
use crate::spec_le24;
use crate::le24;

verus! {

/// Largest raw continuity score: `2^24 - 1`, the UNORM denominator.
pub const SCORE_UNORM_MAX: u32 = 0xff_ffff;

/// The fixed 8-connected neighborhood, in row-major order over
/// `(dy, dx)` starting at the upper-left neighbor:
/// NW, N, NE, W, E, SW, S, SE.
pub open spec fn spec_offset(i: int) -> (i8, i8) {
    if i == 0 { (-1i8, -1i8) }
    else if i == 1 { (-1i8, 0i8) }
    else if i == 2 { (-1i8, 1i8) }
    else if i == 3 { (0i8, -1i8) }
    else if i == 4 { (0i8, 1i8) }
    else if i == 5 { (1i8, -1i8) }
    else if i == 6 { (1i8, 0i8) }
    else { (1i8, 1i8) }
}

/// Entry `index` of the fixed direction table.
pub fn offset(index: u8) -> (r: (i8, i8))
    requires
        index < 8,
    ensures
        r == spec_offset(index as int),
{
    if index == 0 { (-1, -1) }
    else if index == 1 { (-1, 0) }
    else if index == 2 { (-1, 1) }
    else if index == 3 { (0, -1) }
    else if index == 4 { (0, 1) }
    else if index == 5 { (1, -1) }
    else if index == 6 { (1, 0) }
    else { (1, 1) }
}

/// One decoded continuity record: the two unit direction offsets and
/// the raw 24-bit UNORM score.
#[derive(Clone, Copy, Debug, PartialEq, Eq)]
pub struct Continuity {
    /// Direction of the positive continuation.
    pub pos: (i8, i8),
    /// Direction of the negative continuation.
    pub neg: (i8, i8),
    /// Raw 24-bit UNORM score; the represented value is
    /// `score_unorm / (2^24 - 1)`.
    pub score_unorm: u32,
}

/// Read-only view over a byte buffer holding one continuity record per
/// pixel.
pub struct ContinuityView<'a> {
    bytes: &'a [u8],
}

impl<'a> ContinuityView<'a> {
    /// The raw bytes behind the view.
    pub closed spec fn raw(&self) -> Seq<u8> {
        self.bytes@
    }

    /// The buffer length is an exact multiple of four bytes.
    pub open spec fn wf(&self) -> bool {
        self.raw().len() % 4 == 0
    }

    /// Number of pixels in the view.
    pub open spec fn spec_len(&self) -> nat {
        self.raw().len() / 4
    }

    /// Both direction nibbles of record `i` index the 8-entry table.
    pub open spec fn spec_dirs_ok(&self, i: int) -> bool {
        &&& (self.raw()[4 * i] >> 4) & 0x0f < 8
        &&& self.raw()[4 * i] & 0x0f < 8
    }

    /// Decoded record `i`.
    pub open spec fn spec_get(&self, i: int) -> Continuity {
        Continuity {
            pos: spec_offset(((self.raw()[4 * i] >> 4) & 0x0f) as int),
            neg: spec_offset((self.raw()[4 * i] & 0x0f) as int),
            score_unorm: spec_le24(
                self.raw()[4 * i + 1],
                self.raw()[4 * i + 2],
                self.raw()[4 * i + 3],
            ),
        }
    }

    /// Raw 24-bit score of record `i`, without the direction fields.
    pub open spec fn spec_score(&self, i: int) -> u32 {
        spec_le24(self.raw()[4 * i + 1], self.raw()[4 * i + 2], self.raw()[4 * i + 3])
    }

    /// Wraps a packed buffer whose length is a multiple of four.
    pub fn new(bytes: &'a [u8]) -> (r: Self)
        requires
            bytes@.len() % 4 == 0,
        ensures
            r.raw() == bytes@,
            r.wf(),
    {
        Self { bytes }
    }

    /// Number of pixels (byte length divided by four).
    pub fn len(&self) -> (r: usize)
        ensures
            r == self.spec_len(),
    {
        self.bytes.len() / 4
    }

    /// Decoded record for pixel `index`.  A direction nibble outside
    /// the 8-entry table is a caller contract violation, so it is ruled
    /// out here rather than handled.
    pub fn get(&self, index: usize) -> (r: Continuity)
        requires
            self.wf(),
            index < self.spec_len(),
            self.spec_dirs_ok(index as int),
        ensures
            r == self.spec_get(index as int),
            r.score_unorm <= SCORE_UNORM_MAX,
    {
        let n = self.bytes.len();
        proof {
            lemma_fundamental_div_mod(n as int, 4);
            assert(4 * index + 3 < n);
        }
        let i = index * 4;
        let d = *slice_index_get(self.bytes, i);
        let pos_i: u8 = (d >> 4) & 0x0f;
        let neg_i: u8 = d & 0x0f;
        let b1 = *slice_index_get(self.bytes, i + 1);
        let b2 = *slice_index_get(self.bytes, i + 2);
        let b3 = *slice_index_get(self.bytes, i + 3);
        let score_unorm = le24(b1, b2, b3);
        Continuity { pos: offset(pos_i), neg: offset(neg_i), score_unorm }
    }

    /// Raw 24-bit score for pixel `index`; valid whatever the
    /// direction nibbles hold.
    pub fn score(&self, index: usize) -> (r: u32)
        requires
            self.wf(),
            index < self.spec_len(),
        ensures
            r == self.spec_score(index as int),
            r <= SCORE_UNORM_MAX,
    {
        let n = self.bytes.len();
        proof {
            lemma_fundamental_div_mod(n as int, 4);
            assert(4 * index + 3 < n);
        }
        let i = index * 4;
        let b1 = *slice_index_get(self.bytes, i + 1);
        let b2 = *slice_index_get(self.bytes, i + 2);
        let b3 = *slice_index_get(self.bytes, i + 3);
        le24(b1, b2, b3)
    }
}

} // verus!
