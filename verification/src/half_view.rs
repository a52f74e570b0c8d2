//! View over a packed buffer of little-endian half-precision pairs.
//!
//! Each element occupies four bytes: bytes 0-1 hold `x`, bytes 2-3 hold
//! `y`, each a little-endian IEEE-754 16-bit float.  The view hands the
//! raw 16-bit patterns out; promotion to single precision is an exact
//! bit-level operation provided by [`crate::fbits::promote_f16_bits`].

use vstd::prelude::*;
use vstd::slice::*;
use vstd::arithmetic::div_mod::lemma_fundamental_div_mod;
use crate::spec_le16;
use crate::le16;

verus! {

/// One packed element: two raw half-precision bit patterns.
#[derive(Clone, Copy, Debug, PartialEq, Eq, Structural)]
pub struct Half2Bits {
    /// Bit pattern of the first half-precision value (bytes 0-1).
    pub x: u16,
    /// Bit pattern of the second half-precision value (bytes 2-3).
    pub y: u16,
}

/// A decoder that can hand out its pixels as a restartable sequence of
/// angle/offset sample pairs, one raw half-precision pair per pixel.
pub trait HoughSamples {
    /// Well-formedness of the underlying decoder.
    spec fn inv(&self) -> bool;

    /// The sample sequence this decoder represents.
    spec fn samples(&self) -> Seq<Half2Bits>;

    /// Number of samples available.
    fn sample_count(&self) -> (n: usize)
        requires
            self.inv(),
        ensures
            n == self.samples().len(),
    ;

    /// The sample at position `i`; calling again with the same `i`
    /// yields the same pair, so iteration can restart at any point.
    fn sample_at(&self, i: usize) -> (s: Half2Bits)
        requires
            self.inv(),
            i < self.samples().len(),
        ensures
            s == self.samples()[i as int],
    ;

    /// All samples in pixel order, as one buffer.
    fn iter_hough_samples(&self) -> (v: Vec<Half2Bits>)
        requires
            self.inv(),
        ensures
            v@ == self.samples(),
    ;
}

/// Read-only view over a byte buffer holding one half-precision pair
/// per pixel.
pub struct Half2View<'a> {
    bytes: &'a [u8],
}

impl<'a> Half2View<'a> {
    /// The raw bytes behind the view.
    pub closed spec fn raw(&self) -> Seq<u8> {
        self.bytes@
    }

    /// The buffer length is an exact multiple of four bytes.
    pub open spec fn wf(&self) -> bool {
        self.raw().len() % 4 == 0
    }

    /// Number of pixels in the view.
    pub open spec fn spec_len(&self) -> nat {
        self.raw().len() / 4
    }

    /// Raw pair of pixel `i`: bytes 0-1 are `x`, bytes 2-3 are `y`.
    pub open spec fn spec_get(&self, i: int) -> Half2Bits {
        Half2Bits {
            x: spec_le16(self.raw()[4 * i], self.raw()[4 * i + 1]),
            y: spec_le16(self.raw()[4 * i + 2], self.raw()[4 * i + 3]),
        }
    }

    /// Wraps a packed buffer whose length is a multiple of four.
    pub fn new(bytes: &'a [u8]) -> (r: Self)
        requires
            bytes@.len() % 4 == 0,
        ensures
            r.raw() == bytes@,
            r.wf(),
    {
        Self { bytes }
    }

    /// Number of pixels (byte length divided by four).
    pub fn len(&self) -> (r: usize)
        ensures
            r == self.spec_len(),
    {
        self.bytes.len() / 4
    }

    /// True when the view holds no pixels.
    pub fn is_empty(&self) -> (r: bool)
        requires
            self.wf(),
        ensures
            r == (self.spec_len() == 0),
    {
        self.bytes.len() == 0
    }

    /// Raw half-precision pair of pixel `index`, unconverted.
    pub fn get(&self, index: usize) -> (r: Half2Bits)
        requires
            self.wf(),
            index < self.spec_len(),
        ensures
            r == self.spec_get(index as int),
    {
        let n = self.bytes.len();
        proof {
            lemma_fundamental_div_mod(n as int, 4);
            assert(4 * index + 3 < n);
        }
        let i = index * 4;
        let b0 = *slice_index_get(self.bytes, i);
        let b1 = *slice_index_get(self.bytes, i + 1);
        let b2 = *slice_index_get(self.bytes, i + 2);
        let b3 = *slice_index_get(self.bytes, i + 3);
        Half2Bits { x: le16(b0, b1), y: le16(b2, b3) }
    }
}

impl<'a> HoughSamples for Half2View<'a> {
    /// A view is usable as a sample source when it is well formed.
    open spec fn inv(&self) -> bool {
        self.wf()
    }

    /// The pixel sequence of the view, decoded pairwise.
    open spec fn samples(&self) -> Seq<Half2Bits> {
        Seq::new(self.spec_len(), |i: int| self.spec_get(i))
    }

    fn sample_count(&self) -> (n: usize) {
        self.len()
    }

    fn sample_at(&self, i: usize) -> (s: Half2Bits) {
        self.get(i)
    }

    fn iter_hough_samples(&self) -> (v: Vec<Half2Bits>) {
        let len = self.len();
        let mut v: Vec<Half2Bits> = Vec::new();
        let mut i: usize = 0;
        while i < len
            invariant
                i <= len,
                self.wf(),
                len == self.spec_len(),
                v@.len() == i,
                forall|j: int| 0 <= j < i ==> #[trigger] v@[j] == self.spec_get(j),
            decreases len - i,
        {
            v.push(self.get(i));
            i = i + 1;
        }
        proof {
            assert(v@ =~= self.samples());
        }
        v
    }
}

} // verus!
