//! Tests for XMP serialization and parsing.

use ultrahdr::metadata::GainMapMetadata;
use ultrahdr::xmp::{XmpParser, XmpWriter, HDRGM_NAMESPACE};

#[test]
fn test_parse_gain_map_metadata() {
    let xmp = r#"<?xml version="1.0" encoding="UTF-8"?>
        <x:xmpmeta xmlns:x="adobe:ns:meta/">
            <rdf:RDF xmlns:rdf="http://www.w3.org/1999/02/22-rdf-syntax-ns#"
                     xmlns:hdrgm="http://ns.adobe.com/hdr-gain-map/1.0/">
                <rdf:Description rdf:about=""
                    hdrgm:Version="1.0"
                    hdrgm:BaseRenditionIsHDR="False"
                    hdrgm:GainMapMin="0.0"
                    hdrgm:GainMapMax="3.0"
                    hdrgm:Gamma="1.0"
                    hdrgm:OffsetSDR="0.015625"
                    hdrgm:OffsetHDR="0.015625"
                    hdrgm:HDRCapacityMin="0.0"
                    hdrgm:HDRCapacityMax="3.0"/>
            </rdf:RDF>
        </x:xmpmeta>"#;

    let metadata = XmpParser::parse_str(xmp).unwrap();
    assert_eq!(metadata.version, "1.0");
    assert!(!metadata.base_rendition_is_hdr);
    assert_eq!(metadata.gain_map_max, vec![3_000_000, 3_000_000, 3_000_000]);
    assert_eq!(metadata.hdr_capacity_max, 3_000_000);
}

#[test]
fn test_write_iso_xmp() {
    let metadata = GainMapMetadata::default();
    let xmp = XmpWriter::create_iso_xmp(&metadata).unwrap();
    let xmp_str = std::str::from_utf8(&xmp).unwrap();

    assert!(xmp_str.contains("hdrgm:Version"));
    assert!(xmp_str.contains(HDRGM_NAMESPACE));
}

#[test]
fn test_has_gain_map_metadata() {
    let xmp_with = b"<x:xmpmeta xmlns:hdrgm=\"http://ns.adobe.com/hdr-gain-map/1.0/\"></x:xmpmeta>";
    let xmp_without = b"<x:xmpmeta></x:xmpmeta>";

    assert!(XmpParser::has_gain_map_metadata(xmp_with));
    assert!(!XmpParser::has_gain_map_metadata(xmp_without));
}

#[test]
fn test_roundtrip() {
    let original = GainMapMetadata {
        version: "1.0".to_string(),
        base_rendition_is_hdr: false,
        gain_map_min: vec![-1_000_000, -1_000_000, -1_000_000],
        gain_map_max: vec![3_000_000, 3_000_000, 3_000_000],
        gamma: vec![1_000_000, 1_000_000, 1_000_000],
        offset_sdr: vec![15_625, 15_625, 15_625],
        offset_hdr: vec![15_625, 15_625, 15_625],
        hdr_capacity_min: 1_000_000,
        hdr_capacity_max: 4_000_000,
    };

    let xmp = XmpWriter::create_iso_xmp(&original).unwrap();
    let parsed = XmpParser::parse(&xmp).unwrap();

    assert_eq!(original.version, parsed.version);
    assert_eq!(original.base_rendition_is_hdr, parsed.base_rendition_is_hdr);
    assert_eq!(original.hdr_capacity_max, parsed.hdr_capacity_max);
}

#[test]
fn test_xmp_full_round_trip() {
    // Distinct channel values survive the write and the parse exactly.
    let original = GainMapMetadata {
        version: "1.0".to_string(),
        base_rendition_is_hdr: true,
        gain_map_min: vec![-500_000, 0, 250_000],
        gain_map_max: vec![2_000_000, 3_000_000, 4_500_000],
        gamma: vec![1_000_000, 1_200_000, 800_000],
        offset_sdr: vec![15_625, 31_250, 15_625],
        offset_hdr: vec![15_625, 15_625, 62_500],
        hdr_capacity_min: 500_000,
        hdr_capacity_max: 3_500_000,
    };
    let xmp = XmpWriter::create_iso_xmp(&original).unwrap();
    let parsed = XmpParser::parse(&xmp).unwrap();
    assert_eq!(original.version, parsed.version);
    assert_eq!(original.base_rendition_is_hdr, parsed.base_rendition_is_hdr);
    assert_eq!(original.gain_map_min, parsed.gain_map_min);
    assert_eq!(original.gain_map_max, parsed.gain_map_max);
    assert_eq!(original.gamma, parsed.gamma);
    assert_eq!(original.offset_sdr, parsed.offset_sdr);
    assert_eq!(original.offset_hdr, parsed.offset_hdr);
    assert_eq!(original.hdr_capacity_min, parsed.hdr_capacity_min);
    assert_eq!(original.hdr_capacity_max, parsed.hdr_capacity_max);
}

#[test]
fn test_xmp_v1_round_trip() {
    let original = GainMapMetadata::default();
    let xmp = XmpWriter::create_ultrahdr_v1_xmp(&original, "image/jpeg").unwrap();
    let text = std::str::from_utf8(&xmp).unwrap();
    assert!(text.contains("Container:Directory"));
    assert!(text.contains("Item:Semantic=\"Primary\""));
    assert!(text.contains("Item:Semantic=\"GainMap\""));
    let parsed = XmpParser::parse(&xmp).unwrap();
    assert_eq!(original.gain_map_max, parsed.gain_map_max);
    assert_eq!(original.hdr_capacity_max, parsed.hdr_capacity_max);
}

#[test]
fn test_xmp_scalar_broadcast() {
    // A scalar attribute broadcasts to all three channels.
    let xmp = r#"<x:xmpmeta><rdf:Description hdrgm:GainMapMax="3.0"/></x:xmpmeta>"#;
    let metadata = XmpParser::parse_str(xmp).unwrap();
    assert_eq!(metadata.gain_map_max, vec![3_000_000, 3_000_000, 3_000_000]);

    // Three equal channels collapse back to a single scalar.
    let out = XmpWriter::create_iso_xmp(&metadata).unwrap();
    let text = std::str::from_utf8(&out).unwrap();
    assert!(text.contains("hdrgm:GainMapMax=\"3.000000\""));
    assert!(!text.contains("hdrgm:GainMapMax=\"3.000000,"));
}

#[test]
fn test_xmp_element_text_form() {
    // Values as element text content under the hdrgm: prefix.
    let xmp = "<x:xmpmeta><hdrgm:HDRCapacityMax>2.5</hdrgm:HDRCapacityMax></x:xmpmeta>";
    let metadata = XmpParser::parse_str(xmp).unwrap();
    assert_eq!(metadata.hdr_capacity_max, 2_500_000);
}

#[test]
fn test_xmp_bad_float_is_error() {
    let xmp = r#"<x:xmpmeta><rdf:Description hdrgm:GainMapMax="abc"/></x:xmpmeta>"#;
    let r = XmpParser::parse_str(xmp);
    assert!(matches!(r, Err(ultrahdr::UltraHdrError::MetadataError(_))));
}

#[test]
fn test_xmp_invalid_utf8_rejected() {
    let mut bytes = vec![0xFF, 0xFE];
    bytes.extend_from_slice(b"hdrgm:");
    assert!(!XmpParser::has_gain_map_metadata(&bytes));
    assert!(matches!(
        XmpParser::parse(&bytes),
        Err(ultrahdr::UltraHdrError::XmpError(_))
    ));
}

#[test]
fn test_xmp_reads_with_xml_parser() {
    // The generated document is well-formed XML: an independent XML reader
    // finds the metadata attributes.
    let metadata = GainMapMetadata::default();
    let xmp = XmpWriter::create_iso_xmp(&metadata).unwrap();
    let text = std::str::from_utf8(&xmp).unwrap();
    let mut reader = quick_xml::Reader::from_str(text);
    let mut found_version = false;
    loop {
        match reader.read_event().unwrap() {
            quick_xml::events::Event::Empty(e) => {
                for attr in e.attributes() {
                    let attr = attr.unwrap();
                    if attr.key.as_ref() == "hdrgm:Version" {
                        assert_eq!(attr.value.as_ref(), "1.0");
                        found_version = true;
                    }
                }
            }
            quick_xml::events::Event::Eof => break,
            _ => {}
        }
    }
    assert!(found_version);
}
