//! Decoder for the IDX binary files of the MNIST handwritten-digit dataset,
//! together with the transforms that prepare the decoded data for a learner:
//! normalization, one-hot encoding of labels, and filtering by label value.
//!
//! The crate works on plain byte buffers: reading a file into memory and
//! rendering the decoded images are left to the surrounding program.

use vstd::prelude::*;

pub mod decode;
pub mod matrix;
pub mod reader;
pub mod transform;

verus! {

/// Why a decode or a transform failed.
///
/// `TruncatedInput`: the buffer ended before a field that the header promised.
/// `UnsupportedDimensions`: an image header whose row or column count is not 28.
/// `LabelOutOfRange`: a label of 10 or more was handed to one-hot encoding.
#[derive(Clone, Copy, Debug, PartialEq, Eq, Structural)]
pub enum DecodeError {
    TruncatedInput,
    UnsupportedDimensions,
    LabelOutOfRange,
}

} // verus!
