//! Error values for UltraHDR operations.

use vstd::prelude::*;

verus! {

/// Errors that can arise while reading or writing UltraHDR files.
///
/// Fixed-point fields (`InvalidHdrCapacity`) carry values in millionths,
/// as everywhere in this crate.
#[derive(Debug, Clone)]
pub enum UltraHdrError {
    /// Invalid JPEG format or corrupted data
    InvalidJpeg(String),
    /// Missing required marker or segment
    MissingMarker(String),
    /// XMP parsing or validation error
    XmpError(String),
    /// Gain map metadata error
    MetadataError(String),
    /// Image dimension mismatch: SDR width/height versus HDR width/height
    DimensionMismatch(u32, u32, u32, u32),
    /// Invalid dimensions (e.g. odd width or height)
    InvalidDimensions(String),
    /// Quality outside 1..=100
    InvalidQuality(u8),
    /// HDR capacity window is empty or target is not positive (millionths)
    InvalidHdrCapacity(i64, i64),
    /// Image decoding error
    DecodeError(String),
    /// Image encoding error
    EncodeError(String),
    /// Color space conversion error
    ColorSpaceError(String),
    /// No gain map found in image
    NoGainMap,
    /// I/O error
    IoError(String),
    /// Unsupported feature
    Unsupported(String),
}

} // verus!
