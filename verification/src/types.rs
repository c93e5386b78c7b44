//! Result and option records for UltraHDR operations.

use vstd::prelude::*;

use crate::error::UltraHdrError;
use crate::metadata::GainMapMetadata;

verus! {

/// Result of decoding an UltraHDR image.
#[derive(Debug, Clone)]
pub struct UltraHdrDecodeResult {
    /// The SDR base image as JPEG bytes
    pub sdr_image: Vec<u8>,
    /// The gain map as JPEG bytes
    pub gain_map: Vec<u8>,
    /// Gain map metadata
    pub metadata: GainMapMetadata,
    /// Image width in pixels
    pub width: u32,
    /// Image height in pixels
    pub height: u32,
    /// Gain map width in pixels (may differ from image width)
    pub gain_map_width: u32,
    /// Gain map height in pixels (may differ from image height)
    pub gain_map_height: u32,
}

impl UltraHdrDecodeResult {
    /// Creates a new decode result.
    pub fn new(
        sdr_image: Vec<u8>,
        gain_map: Vec<u8>,
        metadata: GainMapMetadata,
        width: u32,
        height: u32,
        gain_map_width: u32,
        gain_map_height: u32,
    ) -> (r: UltraHdrDecodeResult)
        ensures
            r.sdr_image@ == sdr_image@,
            r.gain_map@ == gain_map@,
            r.metadata@ == metadata@,
            r.width == width,
            r.height == height,
            r.gain_map_width == gain_map_width,
            r.gain_map_height == gain_map_height,
    {
        UltraHdrDecodeResult {
            sdr_image,
            gain_map,
            metadata,
            width,
            height,
            gain_map_width,
            gain_map_height,
        }
    }
}

/// Options for encoding UltraHDR images. The target HDR capacity is a
/// fixed-point count of millionths, as everywhere in this crate.
#[derive(Debug, Clone, Copy, PartialEq, Eq, Structural)]
pub struct UltraHdrEncodeOptions {
    /// JPEG quality for the base image (1-100)
    pub base_quality: u8,
    /// JPEG quality for the gain map (1-100)
    pub gain_map_quality: u8,
    /// Target HDR capacity in millionths (typically 2.0-4.0 stops)
    pub target_hdr_capacity: i64,
    /// Whether to include ISO 21496-1 metadata
    pub include_iso_metadata: bool,
    /// Whether to include UltraHDR v1 metadata for Android compatibility
    pub include_ultrahdr_v1: bool,
    /// Downscale factor for the gain map (1 = same size, 2 = half, ...)
    pub gain_map_scale: u8,
}

impl UltraHdrEncodeOptions {
    /// Creates encoding options with default values.
    pub fn new() -> (r: UltraHdrEncodeOptions)
        ensures
            r == Self::spec_default(),
    {
        Self::default()
    }

    /// The default options: qualities 85/75, capacity 3.0, both metadata
    /// forms, full-size gain map.
    pub open spec fn spec_default() -> UltraHdrEncodeOptions {
        UltraHdrEncodeOptions {
            base_quality: 85,
            gain_map_quality: 75,
            target_hdr_capacity: 3000000,
            include_iso_metadata: true,
            include_ultrahdr_v1: true,
            gain_map_scale: 1,
        }
    }

    /// Creates options optimized for high quality output.
    pub fn high_quality() -> (r: UltraHdrEncodeOptions)
        ensures
            r == (UltraHdrEncodeOptions {
                base_quality: 95,
                gain_map_quality: 85,
                target_hdr_capacity: 4000000,
                include_iso_metadata: true,
                include_ultrahdr_v1: true,
                gain_map_scale: 1,
            }),
    {
        UltraHdrEncodeOptions {
            base_quality: 95,
            gain_map_quality: 85,
            target_hdr_capacity: 4000000,
            include_iso_metadata: true,
            include_ultrahdr_v1: true,
            gain_map_scale: 1,
        }
    }

    /// Creates options optimized for smaller file size.
    pub fn small_size() -> (r: UltraHdrEncodeOptions)
        ensures
            r == (UltraHdrEncodeOptions {
                base_quality: 75,
                gain_map_quality: 65,
                target_hdr_capacity: 3000000,
                include_iso_metadata: true,
                include_ultrahdr_v1: true,
                gain_map_scale: 2,
            }),
    {
        UltraHdrEncodeOptions {
            base_quality: 75,
            gain_map_quality: 65,
            target_hdr_capacity: 3000000,
            include_iso_metadata: true,
            include_ultrahdr_v1: true,
            gain_map_scale: 2,
        }
    }
}

impl Default for UltraHdrEncodeOptions {
    /// The default options: qualities 85/75, capacity 3.0, both metadata
    /// forms, full-size gain map.
    fn default() -> (r: UltraHdrEncodeOptions)
        ensures
            r == Self::spec_default(),
    {
        UltraHdrEncodeOptions {
            base_quality: 85,
            gain_map_quality: 75,
            target_hdr_capacity: 3000000,
            include_iso_metadata: true,
            include_ultrahdr_v1: true,
            gain_map_scale: 1,
        }
    }
}

/// Whether encode options are acceptable: both qualities within 1..=100
/// and a positive target capacity.
pub open spec fn spec_options_ok(o: UltraHdrEncodeOptions) -> bool {
    1 <= o.base_quality <= 100 && 1 <= o.gain_map_quality <= 100 && o.target_hdr_capacity > 0
}

/// Validates encoding options: succeeds exactly on acceptable options. A
/// quality outside 1..=100 is an invalid-quality error carrying the value
/// (base quality first); a non-positive target capacity is an
/// invalid-HDR-capacity error.
pub fn validate_options(options: &UltraHdrEncodeOptions) -> (r: Result<(), UltraHdrError>)
    ensures
        r is Ok <==> spec_options_ok(*options),
        r matches Err(e) ==> if !(1 <= options.base_quality <= 100) {
            e matches UltraHdrError::InvalidQuality(q) && q == options.base_quality
        } else if !(1 <= options.gain_map_quality <= 100) {
            e matches UltraHdrError::InvalidQuality(q) && q == options.gain_map_quality
        } else {
            e matches UltraHdrError::InvalidHdrCapacity(lo, hi) && lo == 0 && hi
                == options.target_hdr_capacity
        },
{
    if options.base_quality == 0 || options.base_quality > 100 {
        return Err(UltraHdrError::InvalidQuality(options.base_quality));
    }
    if options.gain_map_quality == 0 || options.gain_map_quality > 100 {
        return Err(UltraHdrError::InvalidQuality(options.gain_map_quality));
    }
    if options.target_hdr_capacity <= 0 {
        return Err(UltraHdrError::InvalidHdrCapacity(0, options.target_hdr_capacity));
    }
    Ok(())
}

/// Result of probing an image for UltraHDR components. `hdr_capacity` is a
/// fixed-point count of millionths.
#[derive(Debug, Clone)]
pub struct UltraHdrProbeResult {
    /// Whether the image is a valid UltraHDR image (has all components)
    pub is_valid: bool,
    /// Whether a primary JPEG image was found
    pub has_primary_image: bool,
    /// Whether a gain map image was found
    pub has_gain_map: bool,
    /// Whether gain map metadata (XMP) was found
    pub has_metadata: bool,
    /// Primary image width in pixels (0 if not found)
    pub width: u32,
    /// Primary image height in pixels (0 if not found)
    pub height: u32,
    /// Gain map width in pixels (0 if not found)
    pub gain_map_width: u32,
    /// Gain map height in pixels (0 if not found)
    pub gain_map_height: u32,
    /// HDR capacity in millionths (0 if not found)
    pub hdr_capacity: i64,
    /// Metadata version string (empty if not found)
    pub metadata_version: String,
}

impl UltraHdrProbeResult {
    /// Whether a probe result has every flag cleared and every field zeroed.
    pub open spec fn spec_is_empty(self) -> bool {
        !self.is_valid && !self.has_primary_image && !self.has_gain_map && !self.has_metadata
            && self.width == 0 && self.height == 0 && self.gain_map_width == 0
            && self.gain_map_height == 0 && self.hdr_capacity == 0 && self.metadata_version@
            == Seq::<char>::empty()
    }

    /// Creates a new probe result with default (invalid) values.
    pub fn new() -> (r: UltraHdrProbeResult)
        ensures
            r.spec_is_empty(),
    {
        Self::default()
    }
}

impl Default for UltraHdrProbeResult {
    /// The empty probe result: everything false or zero.
    fn default() -> (r: UltraHdrProbeResult)
        ensures
            r.spec_is_empty(),
    {
        UltraHdrProbeResult {
            is_valid: false,
            has_primary_image: false,
            has_gain_map: false,
            has_metadata: false,
            width: 0,
            height: 0,
            gain_map_width: 0,
            gain_map_height: 0,
            hdr_capacity: 0,
            metadata_version: String::new(),
        }
    }
}

} // verus!
