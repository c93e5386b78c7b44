//! Tests for metadata validation, headroom estimation and encode options.

use ultrahdr::metadata::{
    estimate_hdr_headroom, is_meaningful_hdr, validate_metadata, GainMapMetadata,
};
use ultrahdr::types::{validate_options, UltraHdrEncodeOptions};
use ultrahdr::UltraHdrError;

#[test]
fn test_validate_metadata_valid() {
    let metadata = GainMapMetadata::default();
    assert!(validate_metadata(&metadata).is_ok());
}

#[test]
fn test_validate_metadata_invalid_channel_count() {
    let mut metadata = GainMapMetadata::default();
    metadata.gain_map_min = vec![0, 0]; // Only 2 values
    assert!(validate_metadata(&metadata).is_err());
}

#[test]
fn test_validate_metadata_invalid_gain_range() {
    let mut metadata = GainMapMetadata::default();
    metadata.gain_map_min = vec![5_000_000, 5_000_000, 5_000_000];
    metadata.gain_map_max = vec![3_000_000, 3_000_000, 3_000_000]; // min > max
    assert!(matches!(
        validate_metadata(&metadata),
        Err(UltraHdrError::MetadataError(_))
    ));
}

#[test]
fn test_validate_metadata_invalid_gamma() {
    let mut metadata = GainMapMetadata::default();
    metadata.gamma = vec![1_000_000, -1_000_000, 1_000_000]; // Negative gamma
    assert!(matches!(
        validate_metadata(&metadata),
        Err(UltraHdrError::MetadataError(_))
    ));
}

#[test]
fn test_validate_metadata_invalid_capacity() {
    let mut metadata = GainMapMetadata::default();
    metadata.hdr_capacity_min = 4_000_000;
    metadata.hdr_capacity_max = 3_000_000;
    assert!(matches!(
        validate_metadata(&metadata),
        Err(UltraHdrError::InvalidHdrCapacity(4_000_000, 3_000_000))
    ));
}

#[test]
fn metadata_test_estimate_hdr_headroom() {
    let metadata = GainMapMetadata {
        gain_map_max: vec![3_000_000, 3_000_000, 3_000_000],
        ..Default::default()
    };
    assert_eq!(estimate_hdr_headroom(&metadata), 3_000_000);
}

#[test]
fn test_estimate_hdr_headroom_clamps_at_zero() {
    let metadata = GainMapMetadata {
        gain_map_max: vec![-1_000_000, -2_000_000, -500_000],
        ..Default::default()
    };
    assert_eq!(estimate_hdr_headroom(&metadata), 0);
}

#[test]
fn test_is_meaningful_hdr() {
    let low_hdr = GainMapMetadata {
        gain_map_max: vec![200_000, 200_000, 200_000],
        ..Default::default()
    };
    assert!(!is_meaningful_hdr(&low_hdr));

    let high_hdr = GainMapMetadata {
        gain_map_max: vec![3_000_000, 3_000_000, 3_000_000],
        ..Default::default()
    };
    assert!(is_meaningful_hdr(&high_hdr));
}

#[test]
fn test_for_sdr_base() {
    let metadata = GainMapMetadata::for_sdr_base(4_000_000);
    assert_eq!(metadata.gain_map_max, vec![4_000_000, 4_000_000, 4_000_000]);
    assert_eq!(metadata.hdr_capacity_max, 4_000_000);
    assert_eq!(metadata.gain_map_min, vec![0, 0, 0]);
    assert!(!metadata.base_rendition_is_hdr);
}

#[test]
fn test_validate_options_valid() {
    let options = UltraHdrEncodeOptions::default();
    assert!(validate_options(&options).is_ok());
}

#[test]
fn test_validate_options_invalid_quality() {
    let mut options = UltraHdrEncodeOptions::default();
    options.base_quality = 0;
    assert!(validate_options(&options).is_err());

    options.base_quality = 101;
    assert!(validate_options(&options).is_err());
}

#[test]
fn test_validate_options_invalid_capacity() {
    let mut options = UltraHdrEncodeOptions::default();
    options.target_hdr_capacity = -1_000_000;
    assert!(matches!(
        validate_options(&options),
        Err(UltraHdrError::InvalidHdrCapacity(0, -1_000_000))
    ));
}

#[test]
fn test_create_default_options() {
    let opts = UltraHdrEncodeOptions::default();
    assert_eq!(opts.base_quality, 85);
    assert_eq!(opts.gain_map_quality, 75);
    assert_eq!(opts.target_hdr_capacity, 3_000_000);
}

#[test]
fn test_create_high_quality_options() {
    let opts = UltraHdrEncodeOptions::high_quality();
    assert_eq!(opts.base_quality, 95);
    assert_eq!(opts.target_hdr_capacity, 4_000_000);
}

#[test]
fn test_create_small_size_options() {
    let opts = UltraHdrEncodeOptions::small_size();
    assert_eq!(opts.base_quality, 75);
    assert_eq!(opts.gain_map_scale, 2);
}

#[test]
fn test_validate_metadata() {
    let metadata = GainMapMetadata::default();
    assert!(validate_metadata(&metadata).is_ok());
}

#[test]
fn lib_test_estimate_hdr_headroom() {
    let metadata = GainMapMetadata::default();
    assert!(estimate_hdr_headroom(&metadata) > 0);
}
