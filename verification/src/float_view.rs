//! View over a packed buffer of little-endian IEEE-754 32-bit floats.
//!
//! Each element occupies four bytes; `get` returns the exact bit
//! pattern written upstream, with no rounding and no copying of the
//! underlying buffer.

use vstd::prelude::*;
use vstd::slice::*;
use vstd::arithmetic::div_mod::lemma_fundamental_div_mod;
use crate::spec_le32;
use crate::le32;

verus! {

/// Read-only view over a byte buffer holding one 32-bit float bit
/// pattern per pixel.
pub struct FloatView<'a> {
    bytes: &'a [u8],
}

impl<'a> FloatView<'a> {
    /// The raw bytes behind the view.
    pub closed spec fn raw(&self) -> Seq<u8> {
        self.bytes@
    }

    /// The buffer length is an exact multiple of four bytes.
    pub open spec fn wf(&self) -> bool {
        self.raw().len() % 4 == 0
    }

    /// Number of pixels in the view.
    pub open spec fn spec_len(&self) -> nat {
        self.raw().len() / 4
    }

    /// Bit pattern of pixel `i`: four bytes, little-endian.
    pub open spec fn spec_get(&self, i: int) -> u32 {
        spec_le32(
            self.raw()[4 * i],
            self.raw()[4 * i + 1],
            self.raw()[4 * i + 2],
            self.raw()[4 * i + 3],
        )
    }

    /// Wraps a packed buffer whose length is a multiple of four.
    pub fn new(bytes: &'a [u8]) -> (r: Self)
        requires
            bytes@.len() % 4 == 0,
        ensures
            r.raw() == bytes@,
            r.wf(),
    {
        Self { bytes }
    }

    /// Number of pixels (byte length divided by four).
    pub fn len(&self) -> (r: usize)
        ensures
            r == self.spec_len(),
    {
        self.bytes.len() / 4
    }

    /// The whole underlying buffer, unchanged and uncopied.
    pub fn bytes(&self) -> (r: &'a [u8])
        ensures
            r@ == self.raw(),
    {
        self.bytes
    }

    /// Exact bit pattern of the float written for pixel `index`.
    pub fn get(&self, index: usize) -> (r: u32)
        requires
            self.wf(),
            index < self.spec_len(),
        ensures
            r == self.spec_get(index as int),
    {
        let n = self.bytes.len();
        proof {
            lemma_fundamental_div_mod(n as int, 4);
            assert(4 * index + 3 < n);
        }
        let i = index * 4;
        let b0 = *slice_index_get(self.bytes, i);
        let b1 = *slice_index_get(self.bytes, i + 1);
        let b2 = *slice_index_get(self.bytes, i + 2);
        let b3 = *slice_index_get(self.bytes, i + 3);
        le32(b0, b1, b2, b3)
    }
}

} // verus!
