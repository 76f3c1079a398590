//! Low-rank registration of slightly misaligned images for photometric stereo.
//!
//! This crate holds the integer, exactly checkable part of the method: dense
//! column-major matrices, conversions between bitmaps and matrices, cropping,
//! mean pyramids, gradient norms, the sparse pixel selector and the rules that
//! govern how an image stack is loaded.

pub mod crop;
pub mod dataset;
pub mod error;
pub mod gradients;
pub mod interop;
pub mod matrix;
pub mod pixel;
pub mod pyramid;
pub mod ratio;
pub mod registration;
pub mod sparse;
pub mod utils;
