//! 4x4 matrices held as the bit patterns of their 32-bit float entries, in
//! column-major order, and their little-endian byte encoding.
//!
//! The library never does float arithmetic itself: products and inverses are
//! computed by `glam`, and what they return is known here only by name.
//! Float arithmetic leaves the sign and payload of a NaN open, so every
//! product is brought to one canonical NaN before the library uses it.
use vstd::prelude::*;

verus! {

/// The bit pattern of the float `1.0`.
pub const ONE_BITS: u32 = 0x3f80_0000;

/// The size in bytes of one encoded matrix.
pub const MATRIX_SIZE_BYTES: usize = 64;

/// A 4x4 matrix of 32-bit floats, column-major: entry `(row, col)` is the
/// float whose bits are `cols[4 * col + row]`.
#[derive(Clone, Copy, PartialEq, Eq, Debug)]
pub struct Mat4 {
    pub cols: [u32; 16],
}

/// The identity matrix.
pub open spec fn identity_matrix() -> Mat4 {
    Mat4 {
        cols: [
            ONE_BITS, 0, 0, 0,
            0, ONE_BITS, 0, 0,
            0, 0, ONE_BITS, 0,
            0, 0, 0, ONE_BITS,
        ],
    }
}

/// The float product `a * b` as `glam` computes it, with every NaN entry
/// in the canonical form `CANONICAL_NAN_BITS`.
pub uninterp spec fn product_of(a: Mat4, b: Mat4) -> Mat4;

/// The one bit pattern that this library gives every NaN.
pub const CANONICAL_NAN_BITS: u32 = 0x7fc0_0000;

/// Whether `w` is the bit pattern of a NaN: all exponent bits set and a
/// non-zero mantissa.
pub open spec fn is_nan_bits(w: u32) -> bool {
    w & 0x7f80_0000u32 == 0x7f80_0000u32 && w & 0x007f_ffffu32 != 0
}

/// `w`, with a NaN of any sign and payload replaced by the canonical NaN.
pub open spec fn canonical_word(w: u32) -> u32 {
    if is_nan_bits(w) {
        CANONICAL_NAN_BITS
    } else {
        w
    }
}

/// `c` is `m` with every NaN entry made canonical.
pub open spec fn canonical_form(m: Mat4, c: Mat4) -> bool {
    forall|i: int| 0 <= i < 16 ==> #[trigger] c.cols@[i] == canonical_word(m.cols@[i])
}

/// The inverse of `m` as `glam` computes it, or `None` when `m` has no finite
/// inverse.
pub uninterp spec fn inverse_of(m: Mat4) -> Option<Mat4>;

/// The four little-endian bytes of `w`.
pub open spec fn word_bytes(w: u32) -> Seq<u8> {
    seq![w as u8, (w >> 8u32) as u8, (w >> 16u32) as u8, (w >> 24u32) as u8]
}

/// The little-endian encoding of a sequence of words, one after another.
pub open spec fn words_bytes(ws: Seq<u32>) -> Seq<u8>
    decreases ws.len(),
{
    if ws.len() == 0 {
        seq![]
    } else {
        words_bytes(ws.drop_last()) + word_bytes(ws.last())
    }
}

/// The encoding of a sequence of matrices: 64 bytes each, column-major
/// entries, in sequence order.
pub open spec fn matrices_bytes(ms: Seq<Mat4>) -> Seq<u8>
    decreases ms.len(),
{
    if ms.len() == 0 {
        seq![]
    } else {
        matrices_bytes(ms.drop_last()) + words_bytes(ms.last().cols@)
    }
}

pub proof fn lemma_words_bytes_len(ws: Seq<u32>)
    ensures
        words_bytes(ws).len() == 4 * ws.len(),
    decreases ws.len(),
{
    if ws.len() > 0 {
        lemma_words_bytes_len(ws.drop_last());
    }
}

/// Every matrix takes exactly 64 bytes.
pub proof fn lemma_matrices_bytes_len(ms: Seq<Mat4>)
    ensures
        matrices_bytes(ms).len() == 64 * ms.len(),
    decreases ms.len(),
{
    if ms.len() > 0 {
        lemma_matrices_bytes_len(ms.drop_last());
        lemma_words_bytes_len(ms.last().cols@);
    }
}

impl Mat4 {
    /// The identity matrix.
    pub fn identity() -> (r: Mat4)
        ensures
            r == identity_matrix(),
    {
        Mat4 {
            cols: [
                ONE_BITS, 0, 0, 0,
                0, ONE_BITS, 0, 0,
                0, 0, ONE_BITS, 0,
                0, 0, 0, ONE_BITS,
            ],
        }
    }

    /// Appends the little-endian encoding of this matrix to `buffer`.
    pub fn write_bytes(&self, buffer: &mut Vec<u8>)
        ensures
            final(buffer)@ == old(buffer)@ + words_bytes(self.cols@),
    {
        let ghost start = buffer@;
        let mut i: usize = 0;
        while i < 16
            invariant
                i <= 16,
                self.cols@.len() == 16,
                buffer@ == start + words_bytes(self.cols@.take(i as int)),
            decreases 16 - i,
        {
            let w = self.cols[i];
            buffer.push(w as u8);
            buffer.push((w >> 8u32) as u8);
            buffer.push((w >> 16u32) as u8);
            buffer.push((w >> 24u32) as u8);
            proof {
                let next = self.cols@.take(i + 1);
                assert(next.drop_last() =~= self.cols@.take(i as int));
                assert(next.last() == w);
            }
            i = i + 1;
        }
        assert(self.cols@.take(16) =~= self.cols@);
    }
}

/// Appends the encoding of `ms`, matrix after matrix, to `buffer`.
pub fn write_matrices(buffer: &mut Vec<u8>, ms: &Vec<Mat4>)
    ensures
        final(buffer)@ == old(buffer)@ + matrices_bytes(ms@),
{
    let ghost start = buffer@;
    let mut i: usize = 0;
    while i < ms.len()
        invariant
            i <= ms@.len(),
            buffer@ == start + matrices_bytes(ms@.take(i as int)),
        decreases ms.len() - i,
    {
        ms[i].write_bytes(buffer);
        proof {
            let next = ms@.take(i + 1);
            assert(next.drop_last() =~= ms@.take(i as int));
            assert(start + matrices_bytes(ms@.take(i as int)) + words_bytes(ms@[i as int].cols@)
                =~= start + matrices_bytes(next));
        }
        i = i + 1;
    }
    assert(ms@.take(ms@.len() as int) =~= ms@);
}

/// Relies on glam's `Mat4 * Mat4`: the float product of two matrices. The
/// sign and payload of a NaN that float arithmetic produces are left open,
/// so only the result with its NaNs made canonical is a function of the
/// arguments.
#[verifier::external_body]
fn glam_product(a: &Mat4, b: &Mat4) -> (r: Mat4)
    ensures
        canonical_form(r, product_of(*a, *b)),
{
    let x: glam::Mat4 = bytemuck::cast(a.cols);
    let y: glam::Mat4 = bytemuck::cast(b.cols);
    Mat4 { cols: bytemuck::cast(x * y) }
}

impl Mat4 {
    /// This matrix with every NaN entry replaced by the canonical NaN.
    pub fn canonicalize(&self) -> (r: Mat4)
        ensures
            canonical_form(*self, r),
    {
        let mut cols = self.cols;
        let mut i: usize = 0;
        while i < 16
            invariant
                i <= 16,
                cols@.len() == 16,
                self.cols@.len() == 16,
                forall|j: int| 0 <= j < i ==> #[trigger] cols@[j] == canonical_word(self.cols@[j]),
                forall|j: int| i <= j < 16 ==> #[trigger] cols@[j] == self.cols@[j],
            decreases 16 - i,
        {
            let w = cols[i];
            if w & 0x7f80_0000u32 == 0x7f80_0000u32 && w & 0x007f_ffffu32 != 0 {
                cols[i] = CANONICAL_NAN_BITS;
            }
            i = i + 1;
        }
        Mat4 { cols }
    }
}

/// The product `a * b`, every NaN entry in canonical form.
pub(crate) fn multiply(a: &Mat4, b: &Mat4) -> (r: Mat4)
    ensures
        r == product_of(*a, *b),
{
    let r = glam_product(a, b).canonicalize();
    let ghost p = product_of(*a, *b);
    assert forall|i: int| 0 <= i < 16 implies r.cols[i] == p.cols[i] by {
        assert(r.cols@[i] == p.cols@[i]);
    }
    assert(r.cols =~= p.cols);
    r
}

/// Relies on glam's `Mat4::try_inverse`: the inverse, or `None` when the
/// matrix is not invertible or its inverse is not finite.
#[verifier::external_body]
pub(crate) fn try_inverse(m: &Mat4) -> (r: Option<Mat4>)
    ensures
        r == inverse_of(*m),
{
    let x: glam::Mat4 = bytemuck::cast(m.cols);
    x.try_inverse().map(|inv| Mat4 { cols: bytemuck::cast(inv) })
}

} // verus!
