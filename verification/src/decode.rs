//! The IDX decoder: turns the raw bytes of an MNIST image or label file into
//! a pixel matrix or a label sequence.
//!
//! An image file is a 16-byte header — magic number, image count, row count,
//! column count, each a big-endian `u32` — followed by one byte per pixel in
//! row-major order. A label file is an 8-byte header — magic number, label
//! count — followed by one byte per label. The magic number is consumed but
//! not inspected; the row and column counts must both be 28. Decoding is
//! fail-fast: on any violation the whole decode aborts with an error and no
//! partial result.

use vstd::prelude::*;
use crate::DecodeError;
use crate::matrix::{NormMatrix, PixelMatrix};
use crate::reader::{be32_at, ByteReader};
use crate::transform::normalize;

verus! {

/// Number of pixels in one image: MNIST images are 28 rows of 28 columns.
pub const IMAGE_PIXELS: usize = 784;

/// What decoding an image file returns on the bytes `s`: either the decoded
/// rows (one flattened image per row, raw intensities in 0..=255) or the
/// error that aborts the decode. Fields are checked in file order, so a
/// buffer too short for the header fails as truncated before the dimensions
/// are ever seen.
pub open spec fn spec_decode_images(s: Seq<u8>) -> Result<Seq<Seq<u8>>, DecodeError> {
    if s.len() < 12 {
        Err(DecodeError::TruncatedInput)
    } else if be32_at(s, 8) != 28 {
        Err(DecodeError::UnsupportedDimensions)
    } else if s.len() < 16 {
        Err(DecodeError::TruncatedInput)
    } else if be32_at(s, 12) != 28 {
        Err(DecodeError::UnsupportedDimensions)
    } else if s.len() < 16 + be32_at(s, 4) * 784 {
        Err(DecodeError::TruncatedInput)
    } else {
        Ok(
            Seq::new(
                be32_at(s, 4) as nat,
                |i: int| Seq::new(784, |j: int| s[16 + i * 784 + j]),
            ),
        )
    }
}

/// What decoding a label file returns on the bytes `s`: either the labels in
/// file order, one byte each, or the error that aborts the decode.
pub open spec fn spec_decode_labels(s: Seq<u8>) -> Result<Seq<u8>, DecodeError> {
    if s.len() < 8 {
        Err(DecodeError::TruncatedInput)
    } else if s.len() < 8 + be32_at(s, 4) {
        Err(DecodeError::TruncatedInput)
    } else {
        Ok(Seq::new(be32_at(s, 4) as nat, |i: int| s[8 + i]))
    }
}

/// Whenever an image file decodes at all, it decodes to the shape its
/// header promises: one row per image counted in the header, 784 entries —
/// one 28x28 image — per row. Entries are bytes, so every raw value lies in
/// 0..=255.
pub proof fn lemma_decoded_images_shape(s: Seq<u8>)
    requires
        spec_decode_images(s) is Ok,
    ensures
        spec_decode_images(s)->Ok_0.len() == be32_at(s, 4),
        forall|i: int|
            0 <= i < spec_decode_images(s)->Ok_0.len() ==> (#[trigger] spec_decode_images(
                s,
            )->Ok_0[i]).len() == 784,
{
}

/// Decodes an MNIST image file held in `buf` into a matrix with one
/// flattened 28x28 image per row, raw pixel intensities in 0..=255.
///
/// The header's image count fixes the number of rows; each row has 784
/// columns. Fails with `UnsupportedDimensions` when the header's row or
/// column count is not 28, and with `TruncatedInput` when the buffer ends
/// before the header or the promised pixels do.
pub fn decode_images(buf: &Vec<u8>) -> (r: Result<PixelMatrix, DecodeError>)
    ensures
        match r {
            Ok(m) => {
                &&& spec_decode_images(buf@) == Ok::<Seq<Seq<u8>>, DecodeError>(m@)
                &&& m.wf()
                &&& m@.len() == be32_at(buf@, 4)
                &&& m.spec_cols() == 784
            },
            Err(e) => spec_decode_images(buf@) == Err::<Seq<Seq<u8>>, DecodeError>(e),
        },
{
    let mut reader = ByteReader::new(buf);
    let _magic = match reader.read_u32_be() {
        Ok(v) => v,
        Err(e) => { return Err(e); },
    };
    let nb_images = match reader.read_u32_be() {
        Ok(v) => v,
        Err(e) => { return Err(e); },
    };
    let nb_rows = match reader.read_u32_be() {
        Ok(v) => v,
        Err(e) => { return Err(e); },
    };
    if nb_rows != 28 {
        return Err(DecodeError::UnsupportedDimensions);
    }
    let nb_columns = match reader.read_u32_be() {
        Ok(v) => v,
        Err(e) => { return Err(e); },
    };
    if nb_columns != 28 {
        return Err(DecodeError::UnsupportedDimensions);
    }
    let need = nb_images as u64 * IMAGE_PIXELS as u64;
    if (reader.remaining() as u64) < need {
        return Err(DecodeError::TruncatedInput);
    }
    let total = nb_images as usize * IMAGE_PIXELS;
    let mut data: Vec<u8> = Vec::new();
    for k in 0..total
        invariant
            reader.wf(),
            reader.data() == buf@,
            reader.cursor() == 16 + k,
            16 + total <= buf@.len(),
            data@.len() == k,
            forall|m: int| 0 <= m < k ==> #[trigger] data@[m] == buf@[16 + m],
    {
        let b = match reader.read_u8() {
            Ok(b) => b,
            Err(e) => { return Err(e); },
        };
        data.push(b);
    }
    let m = PixelMatrix::from_flat(nb_images as usize, IMAGE_PIXELS, data);
    proof {
        let model = spec_decode_images(buf@)->Ok_0;
        assert forall|i: int| 0 <= i < m@.len() implies #[trigger] m@[i] == model[i] by {
            assert(m@[i].len() == 784);
            assert forall|j: int| 0 <= j < 784 implies #[trigger] m@[i][j] == model[i][j] by {
                assert(m@[i][j] == buf@[16 + (i * 784 + j)]);
            }
            assert(m@[i] =~= model[i]);
        }
        assert(m@ =~= model);
    }
    Ok(m)
}

/// Decodes an MNIST label file held in `buf` into its label bytes, in file
/// order. The header's label count fixes the length of the result; label
/// values are passed through uninterpreted. Fails with `TruncatedInput` when
/// the buffer ends before the header or the promised labels do.
pub fn decode_labels(buf: &Vec<u8>) -> (r: Result<Vec<u8>, DecodeError>)
    ensures
        match r {
            Ok(labels) => {
                &&& spec_decode_labels(buf@) == Ok::<Seq<u8>, DecodeError>(labels@)
                &&& labels@.len() == be32_at(buf@, 4)
            },
            Err(e) => spec_decode_labels(buf@) == Err::<Seq<u8>, DecodeError>(e),
        },
{
    let mut reader = ByteReader::new(buf);
    let _magic = match reader.read_u32_be() {
        Ok(v) => v,
        Err(e) => { return Err(e); },
    };
    let nb_labels = match reader.read_u32_be() {
        Ok(v) => v,
        Err(e) => { return Err(e); },
    };
    if (reader.remaining() as u64) < nb_labels as u64 {
        return Err(DecodeError::TruncatedInput);
    }
    let total = nb_labels as usize;
    let mut labels: Vec<u8> = Vec::new();
    for k in 0..total
        invariant
            reader.wf(),
            reader.data() == buf@,
            reader.cursor() == 8 + k,
            8 + total <= buf@.len(),
            labels@.len() == k,
            forall|m: int| 0 <= m < k ==> #[trigger] labels@[m] == buf@[8 + m],
    {
        let b = match reader.read_u8() {
            Ok(b) => b,
            Err(e) => { return Err(e); },
        };
        labels.push(b);
    }
    proof {
        assert(labels@ =~= spec_decode_labels(buf@)->Ok_0);
    }
    Ok(labels)
}

/// Decodes an MNIST image file and scales every pixel into the unit
/// interval in one call: the result holds, for each pixel, the raw intensity
/// as the numerator of an exact fraction over 255.
///
/// This is decoding followed by `normalize`, not a separate decode path: it
/// accepts and rejects exactly the buffers that `decode_images` does, and
/// the numerators it returns are exactly the raw pixels.
pub fn decode_images_normalized(buf: &Vec<u8>) -> (r: Result<NormMatrix, DecodeError>)
    ensures
        match r {
            Ok(n) => {
                &&& spec_decode_images(buf@) == Ok::<Seq<Seq<u8>>, DecodeError>(n@)
                &&& n.wf()
                &&& n@.len() == be32_at(buf@, 4)
                &&& n.spec_cols() == 784
            },
            Err(e) => spec_decode_images(buf@) == Err::<Seq<Seq<u8>>, DecodeError>(e),
        },
{
    match decode_images(buf) {
        Ok(m) => Ok(normalize(&m)),
        Err(e) => Err(e),
    }
}

} // verus!
