//! Reading and writing of UltraHDR JPEG files: a JPEG container engine that
//! parses and rewrites marker segments, an MPF (Multi-Picture Format) index
//! pointing at an appended gain-map JPEG, and the XMP gain-map metadata
//! block, with the metadata modelled in fixed-point millionths.

pub mod container;
pub mod error;
pub mod fixed;
pub mod marker;
pub mod metadata;
pub mod mpf;
pub mod parser;
pub mod segment;
pub mod types;
pub mod writer;
pub mod xmp;

pub use container::{
    decode, encode_from_components, extract_base, extract_metadata, find_primary_eoi_offset,
    has_gainmap_metadata, is_ultra_hdr, probe,
};
pub use error::UltraHdrError;
pub use marker::MarkerType;
pub use metadata::{estimate_hdr_headroom, is_meaningful_hdr, validate_metadata, GainMapMetadata};
pub use mpf::{create_mpf_data, parse_mpf_for_gainmap};
pub use parser::JpegParser;
pub use segment::JpegSegment;
pub use types::{
    validate_options, UltraHdrDecodeResult, UltraHdrEncodeOptions, UltraHdrProbeResult,
};
pub use writer::JpegWriter;
pub use xmp::{XmpParser, XmpWriter, HDRGM_NAMESPACE, HDRGM_PREFIX};
