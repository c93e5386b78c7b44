//! Tests for detection, probing, decoding and composing UltraHDR files.

use ultrahdr::container::{
    decode, encode_from_components, extract_base, extract_metadata, find_primary_eoi_offset,
    has_gainmap_metadata, is_ultra_hdr, probe,
};
use ultrahdr::metadata::GainMapMetadata;
use ultrahdr::mpf::parse_mpf_for_gainmap;
use ultrahdr::parser::JpegParser;
use ultrahdr::types::UltraHdrEncodeOptions;
use ultrahdr::UltraHdrError;

#[test]
fn test_has_gainmap_metadata_non_jpeg() {
    assert!(!has_gainmap_metadata(&[0x89, 0x50, 0x4E, 0x47])); // PNG
    assert!(!has_gainmap_metadata(&[]));
    assert!(!has_gainmap_metadata(&[0xFF]));
}

#[test]
fn test_has_gainmap_metadata_regular_jpeg() {
    // Minimal JPEG without gain map
    let minimal_jpeg = vec![0xFF, 0xD8, 0xFF, 0xD9];
    assert!(!has_gainmap_metadata(&minimal_jpeg));
}

#[test]
fn test_find_eoi_minimal_jpeg() {
    let jpeg = vec![0xFF, 0xD8, 0xFF, 0xD9];
    let result = find_primary_eoi_offset(&jpeg);
    assert!(result.is_ok());
    assert_eq!(result.unwrap(), 2);
}

#[test]
fn test_parse_mpf_invalid() {
    assert!(parse_mpf_for_gainmap(&[]).is_none());
    assert!(parse_mpf_for_gainmap(b"NOTMPF").is_none());
}

#[test]
fn test_create_mpf_data() {
    let data = ultrahdr::mpf::create_mpf_data(1000, 500);
    assert!(data.as_slice().starts_with(b"MPF\0"));
}

#[test]
fn test_mpf_round_trip() {
    let data = ultrahdr::mpf::create_mpf_data(123_456, 7_890);
    assert_eq!(parse_mpf_for_gainmap(&data), Some((123_456, 7_890)));
}

#[test]
fn test_probe_empty_buffer() {
    let result = probe(&[]);
    assert!(!result.is_valid);
    assert!(!result.has_primary_image);
    assert!(!result.has_gain_map);
    assert!(!result.has_metadata);
    assert_eq!(result.width, 0);
    assert_eq!(result.height, 0);
}

#[test]
fn test_probe_non_jpeg() {
    // PNG magic bytes
    let png = [0x89, 0x50, 0x4E, 0x47];
    let result = probe(&png);
    assert!(!result.is_valid);
    assert!(!result.has_primary_image);
}

#[test]
fn test_probe_minimal_jpeg() {
    // Minimal valid JPEG (SOI + EOI)
    let minimal_jpeg = vec![0xFF, 0xD8, 0xFF, 0xD9];
    let result = probe(&minimal_jpeg);

    assert!(!result.is_valid); // Not UltraHDR
    assert!(result.has_primary_image); // But is a JPEG
    assert!(!result.has_gain_map);
    assert!(!result.has_metadata);
}

#[test]
fn test_probe_never_panics() {
    // Various edge cases that should never panic
    let test_cases: Vec<&[u8]> = vec![
        &[],
        &[0xFF],
        &[0xFF, 0xD8],
        &[0xFF, 0xD8, 0xFF],
        &[0x00, 0x00, 0x00, 0x00],
        &[0xFF, 0xD8, 0xFF, 0xD9], // Minimal JPEG
        &[0xFF, 0xD8, 0xFF, 0xDA, 0x00, 0x02],
        &[0xFF, 0xD8, 0xFF, 0xE2, 0x00, 0x06, b'M', b'P', b'F', 0x00],
    ];

    for data in test_cases {
        let result = probe(data);
        assert!(result.is_valid == (result.has_primary_image && result.has_gain_map && result.has_metadata));
    }
}

#[test]
fn test_is_ultra_hdr_non_jpeg() {
    assert!(!is_ultra_hdr(&[]));
    assert!(!is_ultra_hdr(&[0x89, 0x50, 0x4E, 0x47])); // PNG
}

#[test]
fn test_is_ultra_hdr_regular_jpeg() {
    // Minimal JPEG without gain map
    let jpeg = vec![0xFF, 0xD8, 0xFF, 0xD9];
    assert!(!is_ultra_hdr(&jpeg));
}

#[test]
fn test_decode_non_jpeg_fails() {
    let png = [0x89, 0x50, 0x4E, 0x47];
    assert!(matches!(
        decode(&png),
        Err(UltraHdrError::InvalidJpeg(_))
    ));
}

#[test]
fn test_extract_metadata_plain_jpeg() {
    let jpeg = vec![0xFF, 0xD8, 0xFF, 0xD9];
    assert!(matches!(
        extract_metadata(&jpeg),
        Err(UltraHdrError::NoGainMap)
    ));
}

/// Encodes a small RGB image as a JPEG through the external codec.
fn encode_rgb_jpeg(pixels: &[u8], w: u32, h: u32) -> Vec<u8> {
    let mut out = std::io::Cursor::new(Vec::new());
    let mut encoder = image::codecs::jpeg::JpegEncoder::new_with_quality(&mut out, 90);
    encoder
        .encode(pixels, w, h, image::ExtendedColorType::Rgb8)
        .unwrap();
    out.into_inner()
}

/// Encodes a small grayscale image as a JPEG through the external codec.
fn encode_gray_jpeg(pixels: &[u8], w: u32, h: u32) -> Vec<u8> {
    let mut out = std::io::Cursor::new(Vec::new());
    let mut encoder = image::codecs::jpeg::JpegEncoder::new_with_quality(&mut out, 90);
    encoder
        .encode(pixels, w, h, image::ExtendedColorType::L8)
        .unwrap();
    out.into_inner()
}

/// Composes a 2x2 UltraHDR file from synthetic components.
fn encode_synthetic() -> (Vec<u8>, Vec<u8>) {
    let sdr_jpeg = encode_rgb_jpeg(&[0x80; 12], 2, 2);
    let gain_jpeg = encode_gray_jpeg(&[0x60, 0x60, 0x60, 0x60], 2, 2);
    let metadata = GainMapMetadata::default();
    let options = UltraHdrEncodeOptions::default();
    let out = encode_from_components(&sdr_jpeg, &gain_jpeg, &metadata, &options).unwrap();
    (out, gain_jpeg)
}

#[test]
fn test_encode_produces_valid_ultrahdr() {
    let (out, _) = encode_synthetic();
    assert_eq!(&out[0..2], &[0xFF, 0xD8]);
    assert!(is_ultra_hdr(&out));
    let result = probe(&out);
    assert!(result.is_valid);
    assert!(result.has_primary_image);
    assert!(result.has_metadata);
    assert!(result.has_gain_map);
    assert_eq!((result.width, result.height), (2, 2));
    assert_eq!((result.gain_map_width, result.gain_map_height), (2, 2));
}

#[test]
fn test_encode_mpf_offsets_are_byte_exact() {
    let (out, gain_jpeg) = encode_synthetic();
    let parser = JpegParser::parse(&out).unwrap();
    let mpf_seg = parser.find_mpf_segment().unwrap();
    let (offset, size) = parse_mpf_for_gainmap(&mpf_seg.data).unwrap();
    let offset = offset as usize;
    let size = size as usize;
    // The declared range is exactly the appended gain-map JPEG.
    assert_eq!(&out[offset..offset + size], gain_jpeg.as_slice());
    assert_eq!(offset + size, out.len());
    // The slice re-parses as a JPEG with the gain map's dimensions.
    let gm_parser = JpegParser::parse(&out[offset..offset + size]).unwrap();
    assert_eq!(gm_parser.get_dimensions().unwrap(), (2, 2));
}

#[test]
fn test_encode_trailing_jpeg_after_eoi() {
    let (out, _) = encode_synthetic();
    let eoi = find_primary_eoi_offset(&out).unwrap();
    let rest = &out[eoi + 2..];
    assert!(rest.len() >= 2);
    assert_eq!(&rest[0..2], &[0xFF, 0xD8]);
}

#[test]
fn test_decode_recovers_components() {
    let (out, gain_jpeg) = encode_synthetic();
    let result = decode(&out).unwrap();
    assert_eq!((result.width, result.height), (2, 2));
    assert_eq!((result.gain_map_width, result.gain_map_height), (2, 2));
    assert_eq!(result.gain_map, gain_jpeg);
    assert_eq!(result.metadata.gain_map_max, vec![3_000_000; 3]);
    assert!(result.sdr_image.starts_with(&[0xFF, 0xD8]));
    assert!(result.sdr_image.ends_with(&[0xFF, 0xD9]));
}

#[test]
fn test_extract_base_decodes_with_same_dimensions() {
    let (out, _) = encode_synthetic();
    let base = extract_base(&out).unwrap();
    let img = image::load_from_memory_with_format(&base, image::ImageFormat::Jpeg).unwrap();
    let rgb = img.to_rgb8();
    assert_eq!((rgb.width(), rgb.height()), (2, 2));
}

#[test]
fn test_extract_metadata_from_encoded() {
    let (out, _) = encode_synthetic();
    let md = extract_metadata(&out).unwrap();
    assert_eq!(md.version, "1.0");
    assert_eq!(md.hdr_capacity_max, 3_000_000);
}

#[test]
fn test_encode_requires_metadata_flag() {
    let sdr_jpeg = encode_rgb_jpeg(&[0x80; 12], 2, 2);
    let gain_jpeg = encode_gray_jpeg(&[0x60; 4], 2, 2);
    let metadata = GainMapMetadata::default();
    let mut options = UltraHdrEncodeOptions::default();
    options.include_iso_metadata = false;
    options.include_ultrahdr_v1 = false;
    let r = encode_from_components(&sdr_jpeg, &gain_jpeg, &metadata, &options);
    assert!(matches!(r, Err(UltraHdrError::MetadataError(_))));
}
