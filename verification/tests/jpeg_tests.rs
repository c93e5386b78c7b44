//! Tests for the JPEG marker, segment, parser and writer layers.

use ultrahdr::marker::MarkerType;
use ultrahdr::parser::JpegParser;
use ultrahdr::segment::JpegSegment;
use ultrahdr::writer::JpegWriter;

#[test]
fn test_marker_type_conversion() {
    assert_eq!(MarkerType::from_byte(0xD8), MarkerType::Soi);
    assert_eq!(MarkerType::from_byte(0xE1), MarkerType::App1);
    assert_eq!(MarkerType::App1.to_byte(), 0xE1);
}

#[test]
fn test_minimal_jpeg() {
    // Minimal valid JPEG: SOI + EOI
    let data = vec![0xFF, 0xD8, 0xFF, 0xD9];
    let parser = JpegParser::parse(&data).unwrap();
    assert_eq!(parser.segments().len(), 2);
    assert_eq!(parser.segments()[0].marker, MarkerType::Soi);
    assert_eq!(parser.segments()[1].marker, MarkerType::Eoi);
}

#[test]
fn test_invalid_jpeg() {
    let data = vec![0x00, 0x00];
    assert!(JpegParser::parse(&data).is_err());
}

#[test]
fn test_empty_writer() {
    let writer = JpegWriter::empty();
    let result = writer.write().unwrap();
    // Should have SOI + EOI
    assert_eq!(result, vec![0xFF, 0xD8, 0xFF, 0xD9]);
}

/// A synthetic JPEG with several segments and an entropy-coded scan holding
/// stuffed bytes and a restart marker.
fn synthetic_jpeg() -> Vec<u8> {
    let mut data = vec![0xFF, 0xD8];
    // APP0, payload "JFIF"
    data.extend_from_slice(&[0xFF, 0xE0, 0x00, 0x06, 0x4A, 0x46, 0x49, 0x46]);
    // SOF0: precision 8, height 2, width 2, 1 component
    data.extend_from_slice(&[
        0xFF, 0xC0, 0x00, 0x0B, 0x08, 0x00, 0x02, 0x00, 0x02, 0x01, 0x01, 0x11, 0x00,
    ]);
    // SOS header with a single component
    data.extend_from_slice(&[0xFF, 0xDA, 0x00, 0x08, 0x01, 0x01, 0x00, 0x00, 0x3F, 0x00]);
    // Scan bytes: plain, a stuffed FF 00, a restart marker, more plain
    data.extend_from_slice(&[0x12, 0x34, 0xFF, 0x00, 0xFF, 0xD0, 0x56]);
    data.extend_from_slice(&[0xFF, 0xD9]);
    data
}

#[test]
fn test_parse_write_round_trip_bytes() {
    let data = synthetic_jpeg();
    let parser = JpegParser::parse(&data).unwrap();
    let writer = JpegWriter::new(parser.segments().clone(), parser.scan_data().clone());
    let rewritten = writer.write().unwrap();
    assert_eq!(rewritten, data);
}

#[test]
fn test_parse_scan_content() {
    let data = synthetic_jpeg();
    let parser = JpegParser::parse(&data).unwrap();
    // The scan keeps the stuffed byte and the restart marker verbatim.
    assert_eq!(
        parser.scan_data().as_slice(),
        &[0x12, 0x34, 0xFF, 0x00, 0xFF, 0xD0, 0x56]
    );
    // SOI, APP0, SOF0, SOS, EOI
    assert_eq!(parser.segments().len(), 5);
    let (w, h) = parser.get_dimensions().unwrap();
    assert_eq!((w, h), (2, 2));
}

#[test]
fn test_parse_stops_at_primary_eoi() {
    let mut data = synthetic_jpeg();
    // A trailing second JPEG must not disturb the primary parse.
    data.extend_from_slice(&[0xFF, 0xD8, 0xFF, 0xD9]);
    let parser = JpegParser::parse(&data).unwrap();
    assert_eq!(parser.segments().len(), 5);
    assert_eq!(parser.segments()[4].marker, MarkerType::Eoi);
}

#[test]
fn test_segment_queries() {
    let xmp_payload = b"http://ns.adobe.com/xap/1.0/\0<x:xmpmeta/>".to_vec();
    let seg = JpegSegment::new(MarkerType::App1, xmp_payload, 0);
    assert!(seg.is_xmp());
    assert!(!seg.is_exif());
    assert_eq!(seg.get_xmp_data().unwrap(), b"<x:xmpmeta/>");

    let exif = JpegSegment::new(MarkerType::App1, b"Exif\0\0abc".to_vec(), 0);
    assert!(exif.is_exif());
    assert!(!exif.is_xmp());

    let mpf = JpegSegment::new(MarkerType::App2, b"MPF\0xyz".to_vec(), 0);
    assert!(mpf.is_mpf());
    assert!(!mpf.is_icc_profile());
}

#[test]
fn test_writer_insertion_order() {
    let data = synthetic_jpeg();
    let parser = JpegParser::parse(&data).unwrap();
    let mut writer = JpegWriter::new(parser.segments().clone(), parser.scan_data().clone());
    writer.add_xmp_segment(b"<x:xmpmeta/>").unwrap();
    let out = writer.write().unwrap();
    let reparsed = JpegParser::parse(&out).unwrap();
    // SOI, APP0, XMP APP1, SOF0, SOS, EOI: the XMP lands after APP0.
    assert_eq!(reparsed.segments().len(), 6);
    assert!(reparsed.segments()[2].is_xmp());
}

#[test]
fn test_oversize_xmp_rejected() {
    let mut writer = JpegWriter::empty();
    let big = vec![b'x'; 70000];
    let r = writer.add_xmp_segment(&big);
    assert!(matches!(r, Err(ultrahdr::UltraHdrError::XmpError(_))));
}

#[test]
fn test_extended_xmp_segment_layout() {
    let data = synthetic_jpeg();
    let parser = JpegParser::parse(&data).unwrap();
    let mut writer = JpegWriter::new(parser.segments().clone(), parser.scan_data().clone());
    writer.add_xmp_segment(b"<x:xmpmeta/>").unwrap();
    let digest = "0123456789abcdef0123456789abcdef";
    writer
        .add_extended_xmp_segment(b"chunk-bytes", digest, 7, 42)
        .unwrap();
    let out = writer.write().unwrap();
    let reparsed = JpegParser::parse(&out).unwrap();
    // The extended XMP stands directly after the XMP segment.
    assert!(reparsed.segments()[2].is_xmp());
    let ext = &reparsed.segments()[3];
    assert!(ext.is_extended_xmp());
    let payload = &ext.data;
    let ns_len = "http://ns.adobe.com/xmp/extension/\0".len();
    assert_eq!(&payload[ns_len..ns_len + 32], digest.as_bytes());
    // Big-endian total length 42, then chunk offset 7, then the chunk.
    assert_eq!(&payload[ns_len + 32..ns_len + 36], &[0, 0, 0, 42]);
    assert_eq!(&payload[ns_len + 36..ns_len + 40], &[0, 0, 0, 7]);
    assert_eq!(&payload[ns_len + 40..], b"chunk-bytes");
}

#[test]
fn test_writer_add_and_remove_segments() {
    let mut writer = JpegWriter::empty();
    writer.add_segment(JpegSegment::new(MarkerType::Soi, Vec::new(), 0));
    writer.add_segment(JpegSegment::new(
        MarkerType::App2,
        b"MPF\0junk".to_vec(),
        0,
    ));
    writer.add_segment(JpegSegment::new(MarkerType::Eoi, Vec::new(), 0));
    writer.remove_mpf_segments();
    let out = writer.write().unwrap();
    assert_eq!(out, vec![0xFF, 0xD8, 0xFF, 0xD9]);
}

#[test]
fn test_set_scan_data_rewrites_scan() {
    let data = synthetic_jpeg();
    let parser = JpegParser::parse(&data).unwrap();
    let mut writer = JpegWriter::new(parser.segments().clone(), parser.scan_data().clone());
    writer.set_scan_data(vec![0x01, 0x02, 0x03]);
    let out = writer.write().unwrap();
    let reparsed = JpegParser::parse(&out).unwrap();
    assert_eq!(reparsed.scan_data().as_slice(), &[0x01, 0x02, 0x03]);
}
