//! ISO 21496-1 gain-map metadata, modelled in fixed-point millionths, with
//! validation and headroom estimation.

use vstd::prelude::*;

use crate::error::UltraHdrError;

verus! {

/// The ghost model of a metadata record: every fixed-point field as a
/// mathematical integer count of millionths.
pub ghost struct MetadataModel {
    /// Specification version text
    pub version: Seq<char>,
    /// Whether the base rendition is HDR
    pub base_rendition_is_hdr: bool,
    /// Minimum gain per channel, log2 millionths
    pub gain_map_min: Seq<int>,
    /// Maximum gain per channel, log2 millionths
    pub gain_map_max: Seq<int>,
    /// Gamma per channel, millionths
    pub gamma: Seq<int>,
    /// SDR offset per channel, millionths
    pub offset_sdr: Seq<int>,
    /// HDR offset per channel, millionths
    pub offset_hdr: Seq<int>,
    /// Minimum HDR capacity, log2 millionths
    pub hdr_capacity_min: int,
    /// Maximum HDR capacity, log2 millionths
    pub hdr_capacity_max: int,
}

/// The integer values of a fixed-point vector.
pub open spec fn micro_seq(v: Seq<i64>) -> Seq<int> {
    Seq::new(v.len(), |i: int| v[i] as int)
}

/// ISO 21496-1 Gain Map Metadata.
///
/// Every real-valued field of the serialized form is held as an `i64` count
/// of millionths: `1_000_000` stands for 1.0. Per-channel fields hold three
/// entries (red, green, blue).
#[derive(Debug, Clone)]
pub struct GainMapMetadata {
    /// Specification version (e.g. "1.0")
    pub version: String,
    /// Whether the base rendition is HDR (false = SDR base)
    pub base_rendition_is_hdr: bool,
    /// Minimum gain value per channel (RGB), log2 scale, in millionths
    pub gain_map_min: Vec<i64>,
    /// Maximum gain value per channel (RGB), log2 scale, in millionths
    pub gain_map_max: Vec<i64>,
    /// Gamma correction per channel (RGB), in millionths
    pub gamma: Vec<i64>,
    /// SDR offset per channel (RGB), in millionths
    pub offset_sdr: Vec<i64>,
    /// HDR offset per channel (RGB), in millionths
    pub offset_hdr: Vec<i64>,
    /// Minimum HDR capacity, log2 scale, in millionths
    pub hdr_capacity_min: i64,
    /// Maximum HDR capacity, log2 scale, in millionths
    pub hdr_capacity_max: i64,
}

impl View for GainMapMetadata {
    type V = MetadataModel;

    open spec fn view(&self) -> MetadataModel {
        MetadataModel {
            version: self.version@,
            base_rendition_is_hdr: self.base_rendition_is_hdr,
            gain_map_min: micro_seq(self.gain_map_min@),
            gain_map_max: micro_seq(self.gain_map_max@),
            gamma: micro_seq(self.gamma@),
            offset_sdr: micro_seq(self.offset_sdr@),
            offset_hdr: micro_seq(self.offset_hdr@),
            hdr_capacity_min: self.hdr_capacity_min as int,
            hdr_capacity_max: self.hdr_capacity_max as int,
        }
    }
}

/// The model of the default metadata: version "1.0", SDR base, gains 0..3,
/// gamma 1, offsets 1/64, capacity 0..3 (all in millionths).
pub open spec fn default_metadata_model() -> MetadataModel {
    MetadataModel {
        version: "1.0"@,
        base_rendition_is_hdr: false,
        gain_map_min: seq![0int, 0int, 0int],
        gain_map_max: seq![3000000int, 3000000int, 3000000int],
        gamma: seq![1000000int, 1000000int, 1000000int],
        offset_sdr: seq![15625int, 15625int, 15625int],
        offset_hdr: seq![15625int, 15625int, 15625int],
        hdr_capacity_min: 0,
        hdr_capacity_max: 3000000,
    }
}

/// Builds the three-entry vector holding `a`, `b`, `c`.
pub(crate) fn vec3(a: i64, b: i64, c: i64) -> (r: Vec<i64>)
    ensures
        micro_seq(r@) =~= seq![a as int, b as int, c as int],
        r@.len() == 3,
{
    let mut v: Vec<i64> = Vec::new();
    v.push(a);
    v.push(b);
    v.push(c);
    v
}

impl GainMapMetadata {
    /// Creates a new GainMapMetadata with default values.
    pub fn new() -> (r: GainMapMetadata)
        ensures
            r@ == default_metadata_model(),
    {
        Self::default()
    }

    /// Creates metadata suitable for a typical SDR base with an HDR gain
    /// map reaching `hdr_capacity_max` millionths of log2 headroom.
    pub fn for_sdr_base(hdr_capacity_max: i64) -> (r: GainMapMetadata)
        ensures
            r@ == (MetadataModel {
                gain_map_max: seq![
                    hdr_capacity_max as int,
                    hdr_capacity_max as int,
                    hdr_capacity_max as int,
                ],
                hdr_capacity_max: hdr_capacity_max as int,
                ..default_metadata_model()
            }),
    {
        let r = GainMapMetadata {
            version: String::from_str("1.0"),
            base_rendition_is_hdr: false,
            gain_map_min: vec3(0, 0, 0),
            gain_map_max: vec3(hdr_capacity_max, hdr_capacity_max, hdr_capacity_max),
            gamma: vec3(1000000, 1000000, 1000000),
            offset_sdr: vec3(15625, 15625, 15625),
            offset_hdr: vec3(15625, 15625, 15625),
            hdr_capacity_min: 0,
            hdr_capacity_max,
        };
        r
    }
}

impl Default for GainMapMetadata {
    /// The default metadata: version "1.0", SDR base, gains 0..3, gamma 1,
    /// offsets 1/64, capacity window 0..3.
    fn default() -> (r: GainMapMetadata)
        ensures
            r@ == default_metadata_model(),
    {
        GainMapMetadata {
            version: String::from_str("1.0"),
            base_rendition_is_hdr: false,
            gain_map_min: vec3(0, 0, 0),
            gain_map_max: vec3(3000000, 3000000, 3000000),
            gamma: vec3(1000000, 1000000, 1000000),
            offset_sdr: vec3(15625, 15625, 15625),
            offset_hdr: vec3(15625, 15625, 15625),
            hdr_capacity_min: 0,
            hdr_capacity_max: 3000000,
        }
    }
}

/// All five per-channel arrays hold exactly three entries.
pub open spec fn spec_lens_ok(m: MetadataModel) -> bool {
    m.gain_map_min.len() == 3 && m.gain_map_max.len() == 3 && m.gamma.len() == 3
        && m.offset_sdr.len() == 3 && m.offset_hdr.len() == 3
}

/// Each channel's minimum gain does not exceed its maximum.
pub open spec fn spec_ranges_ok(m: MetadataModel) -> bool {
    forall|i: int| 0 <= i < 3 ==> #[trigger] m.gain_map_min[i] <= m.gain_map_max[i]
}

/// Every gamma is strictly positive.
pub open spec fn spec_gammas_ok(m: MetadataModel) -> bool {
    forall|i: int| 0 <= i < 3 ==> #[trigger] m.gamma[i] > 0
}

/// The HDR capacity window is not empty.
pub open spec fn spec_capacity_ok(m: MetadataModel) -> bool {
    m.hdr_capacity_min <= m.hdr_capacity_max
}

/// A metadata record is valid when its arrays have three entries, each
/// minimum is at most its maximum, gammas are positive, and the capacity
/// window is not empty.
pub open spec fn spec_valid_metadata(m: MetadataModel) -> bool {
    spec_lens_ok(m) && spec_ranges_ok(m) && spec_gammas_ok(m) && spec_capacity_ok(m)
}

/// Validates gain map metadata: succeeds exactly on valid records. A
/// failure is a metadata error, except that a record failing only the
/// capacity check is reported as an invalid-HDR-capacity error carrying the
/// window bounds.
pub fn validate_metadata(metadata: &GainMapMetadata) -> (r: Result<(), UltraHdrError>)
    ensures
        r is Ok <==> spec_valid_metadata(metadata@),
        r matches Err(e) ==> if spec_lens_ok(metadata@) && spec_ranges_ok(metadata@)
            && spec_gammas_ok(metadata@) {
            e matches UltraHdrError::InvalidHdrCapacity(lo, hi) && lo == metadata@.hdr_capacity_min
                && hi == metadata@.hdr_capacity_max
        } else {
            e matches UltraHdrError::MetadataError(_)
        },
{
    if metadata.gain_map_min.len() != 3 {
        return Err(UltraHdrError::MetadataError(String::from_str("gain_map_min must have 3 values")));
    }
    if metadata.gain_map_max.len() != 3 {
        return Err(UltraHdrError::MetadataError(String::from_str("gain_map_max must have 3 values")));
    }
    if metadata.gamma.len() != 3 {
        return Err(UltraHdrError::MetadataError(String::from_str("gamma must have 3 values")));
    }
    if metadata.offset_sdr.len() != 3 {
        return Err(UltraHdrError::MetadataError(String::from_str("offset_sdr must have 3 values")));
    }
    if metadata.offset_hdr.len() != 3 {
        return Err(UltraHdrError::MetadataError(String::from_str("offset_hdr must have 3 values")));
    }
    proof {
        assert(metadata@.gain_map_min[0] == metadata.gain_map_min@[0]);
        assert(metadata@.gain_map_min[1] == metadata.gain_map_min@[1]);
        assert(metadata@.gain_map_min[2] == metadata.gain_map_min@[2]);
        assert(metadata@.gain_map_max[0] == metadata.gain_map_max@[0]);
        assert(metadata@.gain_map_max[1] == metadata.gain_map_max@[1]);
        assert(metadata@.gain_map_max[2] == metadata.gain_map_max@[2]);
        assert(metadata@.gamma[0] == metadata.gamma@[0]);
        assert(metadata@.gamma[1] == metadata.gamma@[1]);
        assert(metadata@.gamma[2] == metadata.gamma@[2]);
    }
    if metadata.gain_map_min[0] > metadata.gain_map_max[0] || metadata.gain_map_min[1]
        > metadata.gain_map_max[1] || metadata.gain_map_min[2] > metadata.gain_map_max[2] {
        assert(!spec_ranges_ok(metadata@));
        return Err(
            UltraHdrError::MetadataError(String::from_str("gain_map_min exceeds gain_map_max")),
        );
    }
    assert(spec_ranges_ok(metadata@)) by {
        assert forall|i: int| 0 <= i < 3 implies #[trigger] metadata@.gain_map_min[i]
            <= metadata@.gain_map_max[i] by {
            assert(metadata@.gain_map_min[i] == metadata.gain_map_min@[i]);
            assert(metadata@.gain_map_max[i] == metadata.gain_map_max@[i]);
        }
    }
    if metadata.gamma[0] <= 0 || metadata.gamma[1] <= 0 || metadata.gamma[2] <= 0 {
        assert(!spec_gammas_ok(metadata@));
        return Err(UltraHdrError::MetadataError(String::from_str("gamma must be positive")));
    }
    assert(spec_gammas_ok(metadata@)) by {
        assert forall|i: int| 0 <= i < 3 implies #[trigger] metadata@.gamma[i] > 0 by {
            assert(metadata@.gamma[i] == metadata.gamma@[i]);
        }
    }
    if metadata.hdr_capacity_min > metadata.hdr_capacity_max {
        return Err(
            UltraHdrError::InvalidHdrCapacity(metadata.hdr_capacity_min, metadata.hdr_capacity_max),
        );
    }
    Ok(())
}

/// The headroom of a gain-map-max sequence: its largest entry, or zero when
/// every entry is below zero or the sequence is empty.
pub open spec fn spec_headroom(s: Seq<int>) -> int
    decreases s.len(),
{
    if s.len() == 0 {
        0
    } else {
        let rest = spec_headroom(s.drop_last());
        if s.last() > rest {
            s.last()
        } else {
            rest
        }
    }
}

/// Estimates the HDR headroom from metadata: the largest per-channel
/// maximum gain, clamped below by zero (millionths of log2 stops).
pub fn estimate_hdr_headroom(metadata: &GainMapMetadata) -> (r: i64)
    ensures
        r == spec_headroom(metadata@.gain_map_max),
{
    let n = metadata.gain_map_max.len();
    let mut best: i64 = 0;
    let mut i: usize = 0;
    assert(metadata@.gain_map_max.take(0) =~= Seq::<int>::empty());
    while i < n
        invariant
            n == metadata.gain_map_max@.len(),
            metadata@.gain_map_max.len() == n,
            0 <= i <= n,
            best >= 0,
            best == spec_headroom(metadata@.gain_map_max.take(i as int)),
        decreases n - i,
    {
        let v = metadata.gain_map_max[i];
        proof {
            assert(metadata@.gain_map_max.take(i as int + 1).drop_last() =~= metadata@
                .gain_map_max.take(i as int));
            assert(metadata@.gain_map_max.take(i as int + 1).last() == metadata@.gain_map_max[
                i as int]);
            assert(metadata@.gain_map_max[i as int] == metadata.gain_map_max@[i as int]);
        }
        if v > best {
            best = v;
        }
        i += 1;
    }
    proof {
        assert(metadata@.gain_map_max.take(n as int) =~= metadata@.gain_map_max);
    }
    best
}

/// Whether metadata indicates a meaningful HDR image: more than half a
/// stop (500000 millionths) of headroom.
pub fn is_meaningful_hdr(metadata: &GainMapMetadata) -> (r: bool)
    ensures
        r == (spec_headroom(metadata@.gain_map_max) > 500000),
{
    let headroom = estimate_hdr_headroom(metadata);
    headroom > 500000
}

} // verus!
