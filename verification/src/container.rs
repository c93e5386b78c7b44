//! The UltraHDR container: locating and extracting the SDR base, the
//! gain-map JPEG and the XMP metadata, probing, and composing the final
//! file with byte-exact MPF offsets.

use vstd::prelude::*;

use crate::error::UltraHdrError;
use crate::marker::MarkerType;
use crate::metadata::GainMapMetadata;
use crate::mpf;
use crate::parser::{
    copy_range, lemma_parse_shape, spec_dimensions, spec_find_mpf, spec_find_xmp, spec_parse,
    JpegModel, JpegParser,
};
use crate::segment::{seg_models, JpegSegment, SegmentModel};
use crate::types::{UltraHdrDecodeResult, UltraHdrEncodeOptions, UltraHdrProbeResult};
use crate::writer::{
    clone_bytes, clone_segment, drop_mpf_segments, drop_xmp_segments, spec_serialize, JpegWriter,
};
use crate::xmp::{
    iso_xmp_bytes, seq_contains, spec_xmp_parse, v1_xmp_bytes, XmpOutcome, XmpParser, XmpWriter,
};

verus! {

/// Copies a segment list; the copies carry the same models.
pub(crate) fn clone_segments(src: &Vec<JpegSegment>) -> (r: Vec<JpegSegment>)
    ensures
        seg_models(r@) == seg_models(src@),
{
    let n = src.len();
    let mut out: Vec<JpegSegment> = Vec::new();
    let mut i: usize = 0;
    while i < n
        invariant
            n == src@.len(),
            0 <= i <= n,
            out@.len() == i,
            forall|j: int| 0 <= j < i ==> (#[trigger] out@[j])@ == src@[j]@,
        decreases n - i,
    {
        let copy = clone_segment(&src[i]);
        out.push(copy);
        i += 1;
    }
    assert(seg_models(out@) =~= seg_models(src@));
    out
}

/// The byte offset of the primary EOI marker of a parseable JPEG: the
/// offset recorded in the last segment of its parse.
pub open spec fn spec_eoi_offset(m: JpegModel) -> int {
    m.segments.last().offset as int
}

/// Finds the offset of the primary image's EOI marker, walking the stream
/// with the same stuffed-byte and restart-marker rules as the parser.
pub fn find_primary_eoi_offset(data: &[u8]) -> (r: Result<usize, UltraHdrError>)
    ensures
        match r {
            Ok(off) => spec_parse(data@) matches Some(m) && off == spec_eoi_offset(m) && off + 2
                <= data@.len(),
            Err(e) => spec_parse(data@) is None && e matches UltraHdrError::InvalidJpeg(_),
        },
{
    proof {
        lemma_parse_shape(data@);
    }
    let parser = match JpegParser::parse(data) {
        Ok(p) => p,
        Err(e) => {
            return Err(e);
        },
    };
    let segs = parser.segments();
    let last = &segs[segs.len() - 1];
    proof {
        assert(seg_models(segs@).last() == segs@[segs@.len() - 1]@);
    }
    Ok(last.offset)
}

/// Extracts the SDR base image: the input bytes through the primary EOI
/// marker, byte-exact with no re-encoding.
pub fn extract_base(data: &[u8]) -> (r: Result<Vec<u8>, UltraHdrError>)
    ensures
        match r {
            Ok(v) => spec_parse(data@) matches Some(m) && v@ == data@.subrange(
                0,
                spec_eoi_offset(m) + 2,
            ),
            Err(e) => spec_parse(data@) is None && e matches UltraHdrError::InvalidJpeg(_),
        },
{
    let n = data.len();
    let eoi = match find_primary_eoi_offset(data) {
        Ok(off) => off,
        Err(e) => {
            return Err(e);
        },
    };
    assert(eoi + 2 <= n);
    Ok(copy_range(data, 0, eoi + 2))
}

/// Gets the dimensions of a standalone JPEG from its SOF segment.
pub fn get_jpeg_dimensions(jpeg_data: &[u8]) -> (r: Result<(u32, u32), UltraHdrError>)
    ensures
        match r {
            Ok(wh) => spec_parse(jpeg_data@) matches Some(m) && spec_dimensions(m.segments)
                == Some(wh),
            Err(e) => {
                &&& e matches UltraHdrError::InvalidJpeg(_)
                &&& match spec_parse(jpeg_data@) {
                    Some(m) => spec_dimensions(m.segments) is None,
                    None => true,
                }
            },
        },
{
    let parser = match JpegParser::parse(jpeg_data) {
        Ok(p) => p,
        Err(e) => {
            return Err(e);
        },
    };
    match parser.get_dimensions() {
        Some(wh) => Ok(wh),
        None => Err(
            UltraHdrError::InvalidJpeg(String::from_str("Cannot determine gain map dimensions")),
        ),
    }
}

/// Whether the XMP payload of the first XMP segment, if any, carries gain
/// map metadata.
pub open spec fn spec_has_metadata(m: JpegModel) -> bool {
    match spec_find_xmp(m.segments) {
        Some(seg) => vstd::utf8::valid_utf8(seg.xmp_data()) && (seq_contains(
            seg.xmp_data(),
            vstd::utf8::encode_utf8("http://ns.adobe.com/hdr-gain-map/1.0/"@),
        ) || seq_contains(seg.xmp_data(), vstd::utf8::encode_utf8("hdrgm:"@))),
        None => false,
    }
}

/// Whether a byte stream is a JPEG carrying UltraHDR markers: it parses,
/// and either its XMP payload holds gain-map metadata or an MPF segment is
/// present.
pub open spec fn spec_has_gainmap_metadata(data: Seq<u8>) -> bool {
    match spec_parse(data) {
        Some(m) => match spec_find_xmp(m.segments) {
            Some(seg) => vstd::utf8::valid_utf8(seg.xmp_data()) && (seq_contains(
                seg.xmp_data(),
                vstd::utf8::encode_utf8("http://ns.adobe.com/hdr-gain-map/1.0/"@),
            ) || seq_contains(seg.xmp_data(), vstd::utf8::encode_utf8("hdrgm:"@))),
            None => spec_find_mpf(m.segments) is Some,
        },
        None => false,
    }
}

/// Checks if a JPEG contains UltraHDR/gain map metadata: its XMP payload
/// mentions the gain-map namespace or prefix, or an MPF segment stands in
/// for it.
pub fn has_gainmap_metadata(data: &[u8]) -> (r: bool)
    ensures
        r == spec_has_gainmap_metadata(data@),
{
    if data.len() < 2 {
        return false;
    }
    if data[0] != 0xFF || data[1] != 0xD8 {
        return false;
    }
    let parser = match JpegParser::parse(data) {
        Ok(p) => p,
        Err(_) => {
            return false;
        },
    };
    match parser.find_xmp_segment() {
        Some(seg) => {
            assert(spec_find_xmp(parser.spec_segments()) == Some(seg@));
            match seg.get_xmp_data() {
                Some(xmp) => {
                    assert(xmp@ == seg@.xmp_data());
                    XmpParser::has_gain_map_metadata(xmp)
                },
                None => {
                    assert(false);
                    parser.find_mpf_segment().is_some()
                },
            }
        },
        None => parser.find_mpf_segment().is_some(),
    }
}

/// Checks if a buffer contains UltraHDR/gain map data.
pub fn is_ultra_hdr(buffer: &[u8]) -> (r: bool)
    ensures
        r == spec_has_gainmap_metadata(buffer@),
{
    has_gainmap_metadata(buffer)
}

/// Extracts just the metadata from an UltraHDR JPEG. The input must parse
/// as a JPEG (else invalid-JPEG); without an XMP segment whose payload
/// carries gain-map metadata the error is no-gain-map; otherwise the
/// result is exactly the tolerant XMP parse of the payload.
pub fn extract_metadata(data: &[u8]) -> (r: Result<GainMapMetadata, UltraHdrError>)
    ensures
        match spec_parse(data@) {
            None => r matches Err(e) && e matches UltraHdrError::InvalidJpeg(_),
            Some(m) => if !spec_has_metadata(m) {
                r matches Err(e) && e matches UltraHdrError::NoGainMap
            } else {
                match spec_xmp_parse(spec_xmp_payload(m)) {
                    XmpOutcome::Parsed(md) => r matches Ok(x) && x@ == md,
                    XmpOutcome::BadXml => r matches Err(e) && e
                        matches UltraHdrError::XmpError(_),
                    XmpOutcome::BadField => r matches Err(e) && e
                        matches UltraHdrError::MetadataError(_),
                }
            },
        },
{
    let parser = match JpegParser::parse(data) {
        Ok(p) => p,
        Err(e) => {
            return Err(e);
        },
    };
    extract_metadata_from_parser(&parser)
}

/// Extracts gain map metadata from a parsed JPEG: no-gain-map without an
/// XMP segment carrying it, else exactly the tolerant XMP parse of the
/// payload.
pub(crate) fn extract_metadata_from_parser(parser: &JpegParser) -> (r: Result<
    GainMapMetadata,
    UltraHdrError,
>)
    ensures
        ({
            let m = parser.spec_model();
            if !spec_has_metadata(m) {
                r matches Err(e) && e matches UltraHdrError::NoGainMap
            } else {
                match spec_xmp_parse(spec_xmp_payload(m)) {
                    XmpOutcome::Parsed(md) => r matches Ok(x) && x@ == md,
                    XmpOutcome::BadXml => r matches Err(e) && e
                        matches UltraHdrError::XmpError(_),
                    XmpOutcome::BadField => r matches Err(e) && e
                        matches UltraHdrError::MetadataError(_),
                }
            }
        }),
{
    let xmp_segment = match parser.find_xmp_segment() {
        Some(seg) => seg,
        None => {
            return Err(UltraHdrError::NoGainMap);
        },
    };
    let xmp_data = match xmp_segment.get_xmp_data() {
        Some(d) => d,
        None => {
            assert(false);
            return Err(UltraHdrError::NoGainMap);
        },
    };
    if !XmpParser::has_gain_map_metadata(xmp_data) {
        return Err(UltraHdrError::NoGainMap);
    }
    match XmpParser::parse(xmp_data) {
        Ok(md) => Ok(md),
        Err(e) => Err(e),
    }
}

/// The XMP payload of a model's first XMP segment (meaningful only when
/// one exists).
pub open spec fn spec_xmp_payload(m: JpegModel) -> Seq<u8> {
    spec_find_xmp(m.segments).unwrap().xmp_data()
}

/// Where the gain map of a parsed file stands: the bytes with their SOF
/// dimensions; a located range or trailing JPEG that does not parse with
/// dimensions; or no gain map at all.
pub ghost enum GainMapOutcome {
    /// The gain-map JPEG bytes and their dimensions.
    Found(Seq<u8>, u32, u32),
    /// A candidate was located but does not parse as a JPEG with an SOF.
    BadSlice,
    /// Neither an MPF range nor a trailing JPEG is present.
    Absent,
}

/// The gain map of a parsed file: the MPF-declared slice when one is
/// usable, else the bytes after the primary EOI when they begin a JPEG.
pub open spec fn spec_extract_gain_map(data: Seq<u8>, m: JpegModel) -> GainMapOutcome {
    match spec_mpf_candidate(data, m.segments) {
        Some((off, size)) => {
            let g = data.subrange(off, off + size);
            match spec_parse(g) {
                Some(gm) => match spec_dimensions(gm.segments) {
                    Some(wh) => GainMapOutcome::Found(g, wh.0, wh.1),
                    None => GainMapOutcome::BadSlice,
                },
                None => GainMapOutcome::BadSlice,
            }
        },
        None => {
            let r0 = spec_eoi_offset(m) + 2;
            if data.len() - r0 >= 2 && data[r0] == 0xFFu8 && data[r0 + 1] == 0xD8u8 {
                let g = data.skip(r0);
                match spec_parse(g) {
                    Some(gm) => match spec_dimensions(gm.segments) {
                        Some(wh) => GainMapOutcome::Found(g, wh.0, wh.1),
                        None => GainMapOutcome::BadSlice,
                    },
                    None => GainMapOutcome::BadSlice,
                }
            } else {
                GainMapOutcome::Absent
            }
        },
    }
}

/// The MPF-declared gain map location, when an MPF segment is present, its
/// payload parses, and the range lies within the file.
pub open spec fn spec_mpf_candidate(data: Seq<u8>, segs: Seq<SegmentModel>) -> Option<(int, int)> {
    match spec_find_mpf(segs) {
        Some(seg) => match mpf::spec_parse_mpf(seg.data) {
            Some((off, size)) => if off + size <= data.len() {
                Some((off as int, size as int))
            } else {
                None
            },
            None => None,
        },
        None => None,
    }
}

/// Extracts the gain map JPEG: through the MPF-declared range when one is
/// usable, else the bytes after the primary EOI when they begin a JPEG.
/// Success and failure are exactly determined: with a usable MPF range the
/// result is that slice, which must parse with dimensions; without one the
/// trailing JPEG is taken when present, and its absence is the no-gain-map
/// error.
pub fn extract_gain_map(data: &[u8], parser: &JpegParser) -> (r: Result<
    (Vec<u8>, u32, u32),
    UltraHdrError,
>)
    requires
        spec_parse(data@) matches Some(m) && m.segments == parser.spec_segments(),
    ensures
        match spec_extract_gain_map(data@, spec_parse(data@).unwrap()) {
            GainMapOutcome::Found(g, w, h) => r matches Ok(t) && t.0@ == g && t.1 == w && t.2
                == h,
            GainMapOutcome::BadSlice => r matches Err(e) && e
                matches UltraHdrError::InvalidJpeg(_),
            GainMapOutcome::Absent => r matches Err(e) && e matches UltraHdrError::NoGainMap,
        },
{
    let n = data.len();
    match parser.find_mpf_segment() {
        Some(mpf_seg) => {
            match mpf::parse_mpf_for_gainmap(mpf_seg.data.as_slice()) {
                Some((off32, size32)) => {
                    if off32 as u64 + size32 as u64 <= n as u64 {
                        let off = off32 as usize;
                        let size = size32 as usize;
                        let g = copy_range(data, off, off + size);
                        let (w, h) = match get_jpeg_dimensions(g.as_slice()) {
                            Ok(wh) => wh,
                            Err(e) => {
                                return Err(e);
                            },
                        };
                        return Ok((g, w, h));
                    }
                },
                None => {},
            }
        },
        None => {},
    }
    // Fallback: a second JPEG directly after the primary EOI.
    let eoi = match find_primary_eoi_offset(data) {
        Ok(off) => off,
        Err(e) => {
            return Err(e);
        },
    };
    let rem = eoi + 2;
    if n - rem >= 2 && data[rem] == 0xFF && data[rem + 1] == 0xD8 {
        let g = copy_range(data, rem, n);
        assert(g@ =~= data@.skip(rem as int));
        let (w, h) = match get_jpeg_dimensions(g.as_slice()) {
            Ok(wh) => wh,
            Err(e) => {
                return Err(e);
            },
        };
        return Ok((g, w, h));
    }
    Err(UltraHdrError::NoGainMap)
}

/// The gain-map dimensions a probe reports: the MPF-declared slice when it
/// parses with dimensions, else the trailing JPEG after the primary EOI.
pub open spec fn spec_probe_gain_map(data: Seq<u8>, segs: Seq<SegmentModel>) -> Option<(u32, u32)> {
    let via_mpf = match spec_mpf_candidate(data, segs) {
        Some((off, size)) => match spec_parse(data.subrange(off, off + size)) {
            Some(gm) => spec_dimensions(gm.segments),
            None => None,
        },
        None => None,
    };
    if via_mpf is Some {
        via_mpf
    } else {
        match spec_parse(data) {
            Some(m) => {
                let r0 = spec_eoi_offset(m) + 2;
                if data.len() - r0 >= 2 && data[r0] == 0xFFu8 && data[r0 + 1] == 0xD8u8 {
                    match spec_parse(data.skip(r0)) {
                        Some(gm) => spec_dimensions(gm.segments),
                        None => None,
                    }
                } else {
                    None
                }
            },
            None => None,
        }
    }
}

/// Probes for a gain map and returns its dimensions if one is found.
pub fn probe_for_gain_map(data: &[u8], parser: &JpegParser) -> (r: Option<(u32, u32)>)
    requires
        spec_parse(data@) matches Some(m) && m.segments == parser.spec_segments(),
    ensures
        r == spec_probe_gain_map(data@, parser.spec_segments()),
{
    let n = data.len();
    match parser.find_mpf_segment() {
        Some(mpf_seg) => {
            match mpf::parse_mpf_for_gainmap(mpf_seg.data.as_slice()) {
                Some((off32, size32)) => {
                    if off32 as u64 + size32 as u64 <= n as u64 {
                        let off = off32 as usize;
                        let size = size32 as usize;
                        let g = copy_range(data, off, off + size);
                        match get_jpeg_dimensions(g.as_slice()) {
                            Ok(wh) => {
                                return Some(wh);
                            },
                            Err(_) => {},
                        }
                    }
                },
                None => {},
            }
        },
        None => {},
    }
    let eoi = match find_primary_eoi_offset(data) {
        Ok(off) => off,
        Err(_) => {
            return None;
        },
    };
    let rem = eoi + 2;
    if n - rem >= 2 && data[rem] == 0xFF && data[rem + 1] == 0xD8 {
        let g = copy_range(data, rem, n);
        assert(g@ =~= data@.skip(rem as int));
        match get_jpeg_dimensions(g.as_slice()) {
            Ok(wh) => {
                return Some(wh);
            },
            Err(_) => {
                return None;
            },
        }
    }
    None
}

/// Probes an image for UltraHDR components. Never fails: every flag and
/// field of the result is exactly determined by what the bytes hold, and
/// the result is valid exactly when a primary image, gain map and metadata
/// were all found.
pub fn probe(data: &[u8]) -> (r: UltraHdrProbeResult)
    ensures
        r.has_primary_image == (data@.len() >= 2 && data@[0] == 0xFFu8 && data@[1] == 0xD8u8),
        r.is_valid == (r.has_primary_image && r.has_gain_map && r.has_metadata),
        spec_parse(data@) is None ==> !r.has_gain_map && !r.has_metadata && r.width == 0
            && r.height == 0 && r.gain_map_width == 0 && r.gain_map_height == 0
            && r.hdr_capacity == 0 && r.metadata_version@ == Seq::<char>::empty(),
        spec_parse(data@) matches Some(m) ==> {
            &&& r.has_metadata == spec_has_metadata(m)
            &&& (match spec_dimensions(m.segments) {
                Some(wh) => r.width == wh.0 && r.height == wh.1,
                None => r.width == 0 && r.height == 0,
            })
            &&& r.has_gain_map == (spec_probe_gain_map(data@, m.segments) is Some)
            &&& (match spec_probe_gain_map(data@, m.segments) {
                Some(wh) => r.gain_map_width == wh.0 && r.gain_map_height == wh.1,
                None => r.gain_map_width == 0 && r.gain_map_height == 0,
            })
            &&& (if spec_has_metadata(m) {
                match spec_xmp_parse(spec_xmp_payload(m)) {
                    XmpOutcome::Parsed(md) => r.hdr_capacity == md.hdr_capacity_max
                        && r.metadata_version@ == md.version,
                    XmpOutcome::BadXml => r.hdr_capacity == 0 && r.metadata_version@
                        == Seq::<char>::empty(),
                    XmpOutcome::BadField => r.hdr_capacity == 0 && r.metadata_version@
                        == Seq::<char>::empty(),
                }
            } else {
                r.hdr_capacity == 0 && r.metadata_version@ == Seq::<char>::empty()
            })
        },
{
    let mut result = UltraHdrProbeResult::default();

    if data.len() < 2 || data[0] != 0xFF || data[1] != 0xD8 {
        return result;
    }
    result.has_primary_image = true;

    let parser = match JpegParser::parse(data) {
        Ok(p) => p,
        Err(_) => {
            return result;
        },
    };

    match parser.get_dimensions() {
        Some((width, height)) => {
            result.width = width;
            result.height = height;
        },
        None => {},
    }

    match parser.find_xmp_segment() {
        Some(xmp_segment) => {
            match xmp_segment.get_xmp_data() {
                Some(xmp_data) => {
                    if XmpParser::has_gain_map_metadata(xmp_data) {
                        result.has_metadata = true;
                        match XmpParser::parse(xmp_data) {
                            Ok(md) => {
                                result.hdr_capacity = md.hdr_capacity_max;
                                result.metadata_version = md.version;
                            },
                            Err(_) => {},
                        }
                    }
                },
                None => {
                    assert(false);
                },
            }
        },
        None => {},
    }

    match probe_for_gain_map(data, &parser) {
        Some((gm_width, gm_height)) => {
            result.has_gain_map = true;
            result.gain_map_width = gm_width;
            result.gain_map_height = gm_height;
        },
        None => {},
    }

    result.is_valid = result.has_primary_image && result.has_gain_map && result.has_metadata;
    result
}

/// Decodes an UltraHDR JPEG, extracting the SDR base bytes, the gain map
/// bytes, the metadata and all dimensions. Every outcome is determined:
/// the input must parse with SOF dimensions and carry gain-map metadata
/// whose payload parses, the gain map must be locatable, and then the
/// result holds the byte-exact SDR prefix, the located gain-map bytes with
/// their dimensions, and exactly the parsed metadata.
pub fn decode(data: &[u8]) -> (r: Result<UltraHdrDecodeResult, UltraHdrError>)
    ensures
        match spec_parse(data@) {
            None => r matches Err(e) && e matches UltraHdrError::InvalidJpeg(_),
            Some(m) => if spec_dimensions(m.segments) is None {
                r matches Err(e) && e matches UltraHdrError::InvalidJpeg(_)
            } else if !spec_has_metadata(m) {
                r matches Err(e) && e matches UltraHdrError::NoGainMap
            } else {
                match spec_xmp_parse(spec_xmp_payload(m)) {
                    XmpOutcome::BadXml => r matches Err(e) && e
                        matches UltraHdrError::XmpError(_),
                    XmpOutcome::BadField => r matches Err(e) && e
                        matches UltraHdrError::MetadataError(_),
                    XmpOutcome::Parsed(md) => match spec_extract_gain_map(data@, m) {
                        GainMapOutcome::BadSlice => r matches Err(e) && e
                            matches UltraHdrError::InvalidJpeg(_),
                        GainMapOutcome::Absent => r matches Err(e) && e
                            matches UltraHdrError::NoGainMap,
                        GainMapOutcome::Found(g, gw, gh) => {
                            &&& r matches Ok(res)
                            &&& res.width == spec_dimensions(m.segments).unwrap().0
                            &&& res.height == spec_dimensions(m.segments).unwrap().1
                            &&& res.metadata@ == md
                            &&& res.gain_map@ == g
                            &&& res.gain_map_width == gw
                            &&& res.gain_map_height == gh
                            &&& res.sdr_image@ == data@.subrange(0, spec_eoi_offset(m) + 2)
                        },
                    },
                }
            },
        },
{
    let parser = match JpegParser::parse(data) {
        Ok(p) => p,
        Err(e) => {
            return Err(e);
        },
    };
    let (width, height) = match parser.get_dimensions() {
        Some(wh) => wh,
        None => {
            return Err(
                UltraHdrError::InvalidJpeg(String::from_str("Cannot determine image dimensions")),
            );
        },
    };
    let metadata = match extract_metadata_from_parser(&parser) {
        Ok(md) => md,
        Err(e) => {
            return Err(e);
        },
    };
    let (gain_map, gm_width, gm_height) = match extract_gain_map(data, &parser) {
        Ok(t) => t,
        Err(e) => {
            return Err(e);
        },
    };
    let sdr_image = match extract_base(data) {
        Ok(v) => v,
        Err(e) => {
            return Err(e);
        },
    };
    Ok(
        UltraHdrDecodeResult::new(
            sdr_image,
            gain_map,
            metadata,
            width,
            height,
            gm_width,
            gm_height,
        ),
    )
}


/// Layout of the composed file: inserting the fixed-size MPF segment puts
/// the gain map at exactly `base_len + 90`.
proof fn lemma_compose_layout(
    with_xmp: Seq<SegmentModel>,
    mpf_seg: SegmentModel,
    scan: Seq<u8>,
    out_bytes: Seq<u8>,
    gain: Seq<u8>,
    base_len: int,
)
    requires
        mpf_seg.marker == MarkerType::App2,
        mpf_seg.data.len() == 86,
        0 <= JpegWriter::spec_mpf_insert_pos(with_xmp) <= with_xmp.len(),
        out_bytes == spec_serialize(
            with_xmp.insert(JpegWriter::spec_mpf_insert_pos(with_xmp), mpf_seg),
            scan,
        ) + gain,
        base_len == spec_serialize(with_xmp, scan).len(),
    ensures
        out_bytes.len() == base_len + 90 + gain.len(),
        out_bytes.subrange(base_len + 90, base_len + 90 + gain.len() as int) == gain,
{
    let pos = JpegWriter::spec_mpf_insert_pos(with_xmp);
    crate::writer::lemma_serialize_insert(with_xmp, pos, mpf_seg, scan);
    assert(crate::writer::seg_bytes(mpf_seg, scan).len() == 90);
    assert(spec_serialize(with_xmp.insert(pos, mpf_seg), scan).len() == spec_serialize(
        with_xmp,
        scan,
    ).len() + 90);
    assert(out_bytes.subrange(base_len + 90, base_len + 90 + gain.len() as int) =~= gain);
}


/// Validates the raw encode inputs per the container's rules: width and
/// height must be even (chroma subsampling and the MPF convention), the
/// decoded SDR buffer must hold exactly width*height*3 bytes, and the HDR
/// buffer as many samples. Succeeds exactly on conforming inputs; odd
/// dimensions and a wrong SDR size are invalid-dimensions errors, a wrong
/// HDR size is a dimension mismatch carrying the observed row count.
pub fn validate_encode_inputs(width: u32, height: u32, sdr_rgb_len: usize, hdr_len: usize) -> (r:
    Result<(), UltraHdrError>)
    ensures
        r is Ok <==> (width <= 0xFFFF && height <= 0xFFFF && width % 2 == 0 && height % 2 == 0
            && sdr_rgb_len == width * height * 3 && hdr_len == width * height * 3),
        r matches Err(e) ==> if !(width <= 0xFFFF && height <= 0xFFFF && width % 2 == 0 && height
            % 2 == 0) || sdr_rgb_len != width * height * 3 {
            e matches UltraHdrError::InvalidDimensions(_)
        } else {
            e matches UltraHdrError::DimensionMismatch(w2, h2, _, h3) && w2 == width && h2
                == height && h3 == height
        },
{
    if width > 0xFFFF || height > 0xFFFF {
        // JPEG SOF dimensions are 16-bit; anything larger cannot have come
        // from a parsed frame.
        return Err(UltraHdrError::InvalidDimensions(String::from_str("Dimensions out of range")));
    }
    if width % 2 != 0 {
        return Err(UltraHdrError::InvalidDimensions(String::from_str("Width must be even")));
    }
    if height % 2 != 0 {
        return Err(UltraHdrError::InvalidDimensions(String::from_str("Height must be even")));
    }
    proof {
        assert(width * height <= 0xFFFF * 0xFFFF) by (nonlinear_arith)
            requires
                width <= 0xFFFF && height <= 0xFFFF,
        ;
    }
    let expected: u64 = width as u64 * height as u64 * 3;
    if sdr_rgb_len as u64 != expected {
        return Err(
            UltraHdrError::InvalidDimensions(
                String::from_str("SDR RGB size doesn't match dimensions"),
            ),
        );
    }
    if hdr_len as u64 != expected {
        let rows: u32 = if height == 0 {
            0
        } else {
            (((hdr_len as u64 / 3) % 0x100000000) as u32) / height
        };
        return Err(UltraHdrError::DimensionMismatch(width, height, rows, height));
    }
    Ok(())
}

/// The XMP payload that the encoder embeds: the UltraHDR v1 form when that
/// flag is set, else the ISO form.
pub open spec fn spec_xmp_payload_for(
    options: UltraHdrEncodeOptions,
    m: crate::metadata::MetadataModel,
) -> Seq<u8> {
    if options.include_ultrahdr_v1 {
        v1_xmp_bytes(m, "image/jpeg"@)
    } else {
        iso_xmp_bytes(m)
    }
}

/// The segment list of the composed file before the MPF segment: the
/// parsed SDR segments with XMP and MPF segments removed and the fresh XMP
/// segment inserted.
pub open spec fn spec_base_segments(
    m: JpegModel,
    options: UltraHdrEncodeOptions,
    md: crate::metadata::MetadataModel,
) -> Seq<SegmentModel> {
    let cleaned = drop_mpf_segments(drop_xmp_segments(m.segments));
    cleaned.insert(
        JpegWriter::spec_xmp_insert_pos(cleaned),
        SegmentModel {
            marker: MarkerType::App1,
            data: crate::segment::xmp_ns_prefix() + spec_xmp_payload_for(options, md),
            offset: 0,
        },
    )
}


/// Writes the base JPEG, inserts the MPF segment pointing at the end of
/// the base plus the fixed MPF segment size, and appends the gain map.
fn finish_compose(writer: &mut JpegWriter, gain_map_jpeg: &[u8]) -> (r: Result<
    Vec<u8>,
    UltraHdrError,
>)
    requires
        old(writer).spec_segments().len() >= 1,
    ensures
        match r {
            Ok(v) => {
                let with_xmp = old(writer).spec_segments();
                let scan = old(writer).spec_scan();
                let base_len = spec_serialize(with_xmp, scan).len();
                let mpf_seg = SegmentModel {
                    marker: MarkerType::App2,
                    data: mpf::mpf_payload((base_len + 90) as u32, gain_map_jpeg@.len() as u32),
                    offset: 0,
                };
                let final_segs = with_xmp.insert(
                    JpegWriter::spec_mpf_insert_pos(with_xmp),
                    mpf_seg,
                );
                &&& v@ == spec_serialize(final_segs, scan) + gain_map_jpeg@
                &&& v@.len() == base_len + 90 + gain_map_jpeg@.len()
                &&& v@.subrange(
                    base_len as int + 90,
                    base_len as int + 90 + gain_map_jpeg@.len() as int,
                ) == gain_map_jpeg@
            },
            Err(e) => {
                &&& e matches UltraHdrError::EncodeError(_)
                &&& (gain_map_jpeg@.len() > 0xFFFFFFFF || spec_serialize(
                    old(writer).spec_segments(),
                    old(writer).spec_scan(),
                ).len() > 0xFFFFFFFF - 90)
            },
        },
{
    let ghost with_xmp = writer.spec_segments();
    let ghost scan = writer.spec_scan();
    let base = match writer.write() {
        Ok(b) => b,
        Err(_) => {
            return Err(UltraHdrError::EncodeError(String::from_str("Serialization failed")));
        },
    };
    let base_len = base.len();
    if gain_map_jpeg.len() as u64 > 0xFFFFFFFFu64 {
        return Err(UltraHdrError::EncodeError(String::from_str("Gain map too large for MPF")));
    }
    if base_len as u64 > 0xFFFFFFFFu64 - 90 {
        return Err(UltraHdrError::EncodeError(String::from_str("Base image too large for MPF")));
    }
    let gain_map_offset: u32 = (base_len as u32) + 90;
    let gain_map_size: u32 = gain_map_jpeg.len() as u32;
    match writer.add_mpf_segment(gain_map_offset, gain_map_size) {
        Ok(_) => {},
        Err(_) => {
            return Err(UltraHdrError::EncodeError(String::from_str("MPF insertion failed")));
        },
    }
    let ghost mpf_seg = SegmentModel {
        marker: MarkerType::App2,
        data: mpf::mpf_payload(gain_map_offset, gain_map_size),
        offset: 0,
    };
    let out = match writer.write_with_gain_map(gain_map_jpeg) {
        Ok(v) => v,
        Err(_) => {
            return Err(UltraHdrError::EncodeError(String::from_str("Serialization failed")));
        },
    };
    proof {
        lemma_compose_layout(with_xmp, mpf_seg, scan, out@, gain_map_jpeg@, base_len as int);
    }
    Ok(out)
}

/// Creates the final UltraHDR JPEG: the SDR JPEG rewritten with fresh XMP
/// and MPF segments, with the gain-map JPEG appended directly after the
/// primary EOI, and the MPF payload declaring the gain map's exact byte
/// offset and size in the final file.
#[verifier::rlimit(100)]
fn create_ultrahdr_jpeg(
    sdr_jpeg: &[u8],
    gain_map_jpeg: &[u8],
    metadata: &GainMapMetadata,
    options: &UltraHdrEncodeOptions,
) -> (r: Result<Vec<u8>, UltraHdrError>)
    ensures
        match r {
            Ok(v) => spec_parse(sdr_jpeg@) matches Some(m) && (options.include_iso_metadata
                || options.include_ultrahdr_v1) && {
                let with_xmp = spec_base_segments(m, *options, metadata@);
                let base_len = spec_serialize(with_xmp, m.scan).len();
                let mpf_seg = SegmentModel {
                    marker: MarkerType::App2,
                    data: mpf::mpf_payload((base_len + 90) as u32, gain_map_jpeg@.len() as u32),
                    offset: 0,
                };
                let final_segs = with_xmp.insert(
                    JpegWriter::spec_mpf_insert_pos(with_xmp),
                    mpf_seg,
                );
                &&& v@ == spec_serialize(final_segs, m.scan) + gain_map_jpeg@
                &&& v@.len() == base_len + 90 + gain_map_jpeg@.len()
                &&& v@.subrange(
                    base_len as int + 90,
                    base_len as int + 90 + gain_map_jpeg@.len() as int,
                ) == gain_map_jpeg@
            },
            Err(e) => match spec_parse(sdr_jpeg@) {
                None => e matches UltraHdrError::InvalidJpeg(_),
                Some(m) => if !options.include_iso_metadata && !options.include_ultrahdr_v1 {
                    e matches UltraHdrError::MetadataError(_)
                } else if crate::segment::xmp_ns_prefix().len() + spec_xmp_payload_for(
                    *options,
                    metadata@,
                ).len() > 65533 {
                    e matches UltraHdrError::XmpError(_)
                } else {
                    &&& e matches UltraHdrError::EncodeError(_)
                    &&& (gain_map_jpeg@.len() > 0xFFFFFFFF || spec_serialize(
                        spec_base_segments(m, *options, metadata@),
                        m.scan,
                    ).len() > 0xFFFFFFFF - 90)
                },
            },
        },
{
    proof {
        lemma_parse_shape(sdr_jpeg@);
    }
    let parser = match JpegParser::parse(sdr_jpeg) {
        Ok(p) => p,
        Err(e) => {
            return Err(e);
        },
    };
    let ghost m = parser.spec_model();

    let mut writer = JpegWriter::new(
        clone_segments(parser.segments()),
        clone_bytes(parser.scan_data()),
    );
    writer.remove_xmp_segments();
    writer.remove_mpf_segments();
    let ghost cleaned = drop_mpf_segments(drop_xmp_segments(m.segments));
    assert(writer.spec_segments() == cleaned);

    let xmp_data = if options.include_ultrahdr_v1 {
        match XmpWriter::create_combined_xmp(metadata) {
            Ok(v) => v,
            Err(e) => {
                return Err(e);
            },
        }
    } else if options.include_iso_metadata {
        match XmpWriter::create_iso_xmp(metadata) {
            Ok(v) => v,
            Err(e) => {
                return Err(e);
            },
        }
    } else {
        return Err(
            UltraHdrError::MetadataError(
                String::from_str("At least one metadata format must be enabled"),
            ),
        );
    };
    assert(xmp_data@ == spec_xmp_payload_for(*options, metadata@));

    match writer.add_xmp_segment(xmp_data.as_slice()) {
        Ok(_) => {},
        Err(e) => {
            return Err(e);
        },
    }
    let ghost with_xmp = spec_base_segments(m, *options, metadata@);
    assert(writer.spec_segments() == with_xmp);

    proof {
        assert(m.segments[0].marker == MarkerType::Soi);
        assert(!m.segments[0].is_xmp() && !m.segments[0].is_extended_xmp());
        crate::writer::lemma_drop_xmp_keeps_head(m.segments);
        assert(!drop_xmp_segments(m.segments)[0].is_mpf());
        crate::writer::lemma_drop_mpf_keeps_head(drop_xmp_segments(m.segments));
        assert(cleaned.len() >= 1);
        assert(with_xmp.len() >= 1);
    }
    match finish_compose(&mut writer, gain_map_jpeg) {
        Ok(v) => Ok(v),
        Err(e) => Err(e),
    }
}

/// Encodes an UltraHDR JPEG from already-computed components: the SDR
/// JPEG, the encoded gain-map JPEG, and its metadata.
pub fn encode_from_components(
    sdr_jpeg: &[u8],
    gain_map_jpeg: &[u8],
    metadata: &GainMapMetadata,
    options: &UltraHdrEncodeOptions,
) -> (r: Result<Vec<u8>, UltraHdrError>)
    ensures
        match r {
            Ok(v) => spec_parse(sdr_jpeg@) matches Some(m) && (options.include_iso_metadata
                || options.include_ultrahdr_v1) && {
                let with_xmp = spec_base_segments(m, *options, metadata@);
                let base_len = spec_serialize(with_xmp, m.scan).len();
                let mpf_seg = SegmentModel {
                    marker: MarkerType::App2,
                    data: mpf::mpf_payload((base_len + 90) as u32, gain_map_jpeg@.len() as u32),
                    offset: 0,
                };
                let final_segs = with_xmp.insert(
                    JpegWriter::spec_mpf_insert_pos(with_xmp),
                    mpf_seg,
                );
                &&& v@ == spec_serialize(final_segs, m.scan) + gain_map_jpeg@
                &&& v@.len() == base_len + 90 + gain_map_jpeg@.len()
                &&& v@.subrange(
                    base_len as int + 90,
                    base_len as int + 90 + gain_map_jpeg@.len() as int,
                ) == gain_map_jpeg@
            },
            Err(e) => match spec_parse(sdr_jpeg@) {
                None => e matches UltraHdrError::InvalidJpeg(_),
                Some(m) => if !options.include_iso_metadata && !options.include_ultrahdr_v1 {
                    e matches UltraHdrError::MetadataError(_)
                } else if crate::segment::xmp_ns_prefix().len() + spec_xmp_payload_for(
                    *options,
                    metadata@,
                ).len() > 65533 {
                    e matches UltraHdrError::XmpError(_)
                } else {
                    &&& e matches UltraHdrError::EncodeError(_)
                    &&& (gain_map_jpeg@.len() > 0xFFFFFFFF || spec_serialize(
                        spec_base_segments(m, *options, metadata@),
                        m.scan,
                    ).len() > 0xFFFFFFFF - 90)
                },
            },
        },
{
    create_ultrahdr_jpeg(sdr_jpeg, gain_map_jpeg, metadata, options)
}

} // verus!
