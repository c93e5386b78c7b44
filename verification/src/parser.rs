//! JPEG segment parser: walks a JPEG byte stream into an ordered segment
//! list plus the entropy-coded scan bytes, respecting stuffed bytes and
//! restart markers inside the scan.
//!
//! The parser's behaviour is given by the specification functions
//! [`spec_parse`], [`parse_segs`] and [`parse_scan`]; the executable parser
//! is proved to return exactly what they describe.

use vstd::prelude::*;

use crate::error::UltraHdrError;
use crate::marker::MarkerType;
use crate::segment::{seg_models, JpegSegment, SegmentModel};
use crate::writer::{seg_bytes, serialize_segments, spec_serialize};

verus! {

/// The parsed form of a JPEG: its segments, the entropy-coded scan bytes,
/// and the byte position where the scan started.
pub ghost struct JpegModel {
    /// Segment models, in file order; begins with SOI and ends with EOI.
    pub segments: Seq<SegmentModel>,
    /// The entropy-coded scan bytes, stuffed bytes and restart markers kept.
    pub scan: Seq<u8>,
    /// The byte position where the scan started, 0 when there is no scan.
    pub scan_offset: nat,
}

/// A 16-bit big-endian read at `pos` (in bounds at every use).
pub open spec fn rd_be16(data: Seq<u8>, pos: int) -> int {
    data[pos] * 0x100 + data[pos + 1]
}

/// Parses segments from `pos`, with the segments, scan bytes and scan
/// offset accumulated so far. Bytes before the next `0xFF` are skipped as
/// garbage and runs of `0xFF` are padding; the byte after them is the
/// marker code, and the `0xFF` before it the segment's recorded offset.
/// Returns the finished model upon the EOI marker, and `None` for a stream
/// that ends without one or carries an impossible length field.
pub open spec fn parse_segs(
    data: Seq<u8>,
    pos: int,
    segs: Seq<SegmentModel>,
    scan: Seq<u8>,
    scan_off: nat,
) -> Option<JpegModel>
    decreases data.len() - pos, 0int,
{
    if pos < 0 || pos >= data.len() {
        None
    } else if data[pos] != 0xFFu8 {
        parse_segs(data, pos + 1, segs, scan, scan_off)
    } else if pos + 1 >= data.len() {
        None
    } else if data[pos + 1] == 0xFFu8 {
        parse_segs(data, pos + 1, segs, scan, scan_off)
    } else {
        let m = MarkerType::spec_from_byte(data[pos + 1]);
        let q = pos + 2;
        if m == MarkerType::Eoi {
            Some(
                JpegModel {
                    segments: segs.push(
                        SegmentModel {
                            marker: MarkerType::Eoi,
                            data: Seq::empty(),
                            offset: pos as nat,
                        },
                    ),
                    scan,
                    scan_offset: scan_off,
                },
            )
        } else if m == MarkerType::Soi {
            parse_segs(data, q, segs, scan, scan_off)
        } else if m == MarkerType::Sos {
            if q + 2 > data.len() {
                None
            } else {
                let l = rd_be16(data, q);
                if l < 2 || q + l > data.len() {
                    None
                } else {
                    let seg = SegmentModel {
                        marker: MarkerType::Sos,
                        data: data.subrange(q + 2, q + l),
                        offset: pos as nat,
                    };
                    parse_scan(data, q + l, segs.push(seg), scan, (q + l) as nat)
                }
            }
        } else if m.spec_has_length() {
            if q + 2 > data.len() {
                None
            } else {
                let l = rd_be16(data, q);
                if l < 2 || q + l > data.len() {
                    None
                } else {
                    let seg = SegmentModel {
                        marker: m,
                        data: data.subrange(q + 2, q + l),
                        offset: pos as nat,
                    };
                    parse_segs(data, q + l, segs.push(seg), scan, scan_off)
                }
            }
        } else {
            let seg = SegmentModel { marker: m, data: Seq::empty(), offset: pos as nat };
            parse_segs(data, q, segs.push(seg), scan, scan_off)
        }
    }
}

/// Walks the entropy-coded scan from `pos`: plain bytes and the stuffed
/// `FF 00` and restart `FF D0`..`FF D7` pairs are accumulated into the scan;
/// `FF D9` ends the stream as the primary EOI; any other marker returns to
/// segment parsing at the `FF`.
pub open spec fn parse_scan(
    data: Seq<u8>,
    pos: int,
    segs: Seq<SegmentModel>,
    scan: Seq<u8>,
    scan_off: nat,
) -> Option<JpegModel>
    decreases data.len() - pos, 1int,
{
    if pos < 0 || pos >= data.len() {
        None
    } else if data[pos] != 0xFFu8 {
        parse_scan(data, pos + 1, segs, scan.push(data[pos]), scan_off)
    } else if pos + 1 >= data.len() {
        None
    } else {
        let nb = data[pos + 1];
        if nb == 0x00u8 {
            parse_scan(data, pos + 2, segs, scan + seq![0xFFu8, 0x00u8], scan_off)
        } else if nb == 0xD9u8 {
            Some(
                JpegModel {
                    segments: segs.push(
                        SegmentModel {
                            marker: MarkerType::Eoi,
                            data: Seq::empty(),
                            offset: pos as nat,
                        },
                    ),
                    scan,
                    scan_offset: scan_off,
                },
            )
        } else if 0xD0u8 <= nb && nb <= 0xD7u8 {
            parse_scan(data, pos + 2, segs, scan + seq![0xFFu8, nb], scan_off)
        } else {
            parse_segs(data, pos, segs, scan, scan_off)
        }
    }
}

/// The parse of a whole byte stream: it must begin with `FF D8`, and the
/// model accumulates from an initial SOI segment.
pub open spec fn spec_parse(data: Seq<u8>) -> Option<JpegModel> {
    if data.len() < 2 || data[0] != 0xFFu8 || data[1] != 0xD8u8 {
        None
    } else {
        parse_segs(
            data,
            2,
            seq![SegmentModel { marker: MarkerType::Soi, data: Seq::empty(), offset: 0 }],
            Seq::empty(),
            0,
        )
    }
}

/// Copies `data[a..b]` into a fresh vector.
pub(crate) fn copy_range(data: &[u8], a: usize, b: usize) -> (r: Vec<u8>)
    requires
        a <= b <= data@.len(),
    ensures
        r@ == data@.subrange(a as int, b as int),
{
    let mut out: Vec<u8> = Vec::new();
    out.extend_from_slice(&data[a..b]);
    assert(out@ =~= data@.subrange(a as int, b as int));
    out
}

/// JPEG file parser.
pub struct JpegParser {
    segments: Vec<JpegSegment>,
    scan_data: Vec<u8>,
    scan_offset: usize,
}

impl JpegParser {
    /// The models of the parsed segments, in file order.
    pub closed spec fn spec_segments(self) -> Seq<SegmentModel> {
        seg_models(self.segments@)
    }

    /// The parsed scan bytes.
    pub closed spec fn spec_scan(self) -> Seq<u8> {
        self.scan_data@
    }

    /// The byte position where the scan started.
    pub closed spec fn spec_scan_offset(self) -> nat {
        self.scan_offset as nat
    }

    /// The whole parsed model.
    pub open spec fn spec_model(self) -> JpegModel {
        JpegModel {
            segments: self.spec_segments(),
            scan: self.spec_scan(),
            scan_offset: self.spec_scan_offset(),
        }
    }

    /// Parses a JPEG file from a byte buffer: the result holds exactly the
    /// model that [`spec_parse`] assigns to the bytes, and parsing fails
    /// with an invalid-JPEG error exactly when that model does not exist
    /// (no leading `FF D8`, an impossible length field, or a stream that
    /// ends before the primary EOI).
    pub fn parse(data: &[u8]) -> (r: Result<JpegParser, UltraHdrError>)
        ensures
            match r {
                Ok(p) => spec_parse(data@) == Some(p.spec_model()),
                Err(e) => spec_parse(data@) is None && e matches UltraHdrError::InvalidJpeg(_),
            },
    {
        let n = data.len();
        if n < 2 {
            return Err(UltraHdrError::InvalidJpeg(String::from_str("File too small")));
        }
        if data[0] != 0xFF || data[1] != 0xD8 {
            return Err(UltraHdrError::InvalidJpeg(String::from_str("Missing JPEG SOI marker")));
        }

        let mut segments: Vec<JpegSegment> = Vec::new();
        let mut scan_data: Vec<u8> = Vec::new();
        let mut scan_offset: usize = 0;
        segments.push(JpegSegment::new(MarkerType::Soi, Vec::new(), 0));
        assert(seg_models(segments@) =~= seq![
            SegmentModel { marker: MarkerType::Soi, data: Seq::empty(), offset: 0 },
        ]);

        let mut pos: usize = 2;
        let mut in_scan: bool = false;

        loop
            invariant
                n == data@.len(),
                2 <= pos,
                pos <= n,
                spec_parse(data@) == if in_scan {
                    parse_scan(
                        data@,
                        pos as int,
                        seg_models(segments@),
                        scan_data@,
                        scan_offset as nat,
                    )
                } else {
                    parse_segs(
                        data@,
                        pos as int,
                        seg_models(segments@),
                        scan_data@,
                        scan_offset as nat,
                    )
                },
            decreases n - pos, (if in_scan { 1int } else { 0int }),
        {
            if in_scan {
                // Scan mode: accumulate entropy-coded bytes.
                if pos >= n {
                    return Err(
                        UltraHdrError::InvalidJpeg(String::from_str("Unterminated scan data")),
                    );
                }
                let b = data[pos];
                if b != 0xFF {
                    let ghost pre = scan_data@;
                    scan_data.push(b);
                    assert(scan_data@ =~= pre.push(b));
                    pos += 1;
                    continue;
                }
                if pos + 1 >= n {
                    return Err(
                        UltraHdrError::InvalidJpeg(String::from_str("Unterminated scan data")),
                    );
                }
                let nb = data[pos + 1];
                if nb == 0x00 {
                    let ghost pre = scan_data@;
                    scan_data.push(0xFF);
                    scan_data.push(0x00);
                    assert(scan_data@ =~= pre + seq![0xFFu8, 0x00u8]);
                    pos += 2;
                    continue;
                }
                if nb == 0xD9 {
                    let ghost pre = seg_models(segments@);
                    segments.push(JpegSegment::new(MarkerType::Eoi, Vec::new(), pos));
                    assert(seg_models(segments@) =~= pre.push(
                        (SegmentModel {
                            marker: MarkerType::Eoi,
                            data: Seq::empty(),
                            offset: pos as nat,
                        }),
                    ));
                    let p = JpegParser { segments, scan_data, scan_offset };
                    assert(spec_parse(data@) == Some(p.spec_model()));
                    return Ok(p);
                }
                if 0xD0 <= nb && nb <= 0xD7 {
                    let ghost pre = scan_data@;
                    scan_data.push(0xFF);
                    scan_data.push(nb);
                    assert(scan_data@ =~= pre + seq![0xFFu8, nb]);
                    pos += 2;
                    continue;
                }
                // Another marker: return to segment mode at the FF.
                in_scan = false;
                continue;
            }

            // Segment mode: skip garbage bytes up to the next FF.
            let ghost pos0 = pos as int;
            while pos < n && data[pos] != 0xFF
                invariant
                    n == data@.len(),
                    2 <= pos <= n,
                    pos0 <= pos,
                    spec_parse(data@) == parse_segs(
                        data@,
                        pos as int,
                        seg_models(segments@),
                        scan_data@,
                        scan_offset as nat,
                    ),
                decreases n - pos,
            {
                pos += 1;
            }
            if pos >= n {
                return Err(
                    UltraHdrError::InvalidJpeg(String::from_str("Stream ended before EOI marker")),
                );
            }
            // Skip runs of FF padding: the marker code is the byte after
            // the last FF.
            while pos + 1 < n && data[pos + 1] == 0xFF
                invariant
                    n == data@.len(),
                    2 <= pos < n,
                    pos0 <= pos,
                    data@[pos as int] == 0xFFu8,
                    spec_parse(data@) == parse_segs(
                        data@,
                        pos as int,
                        seg_models(segments@),
                        scan_data@,
                        scan_offset as nat,
                    ),
                decreases n - pos,
            {
                pos += 1;
            }
            if pos + 1 >= n {
                return Err(
                    UltraHdrError::InvalidJpeg(String::from_str("Stream ended before EOI marker")),
                );
            }
            let ffp = pos;
            let mb = data[ffp + 1];
            let marker = MarkerType::from_byte(mb);
            let q = ffp + 2;

            match marker {
                MarkerType::Eoi => {
                    let ghost pre = seg_models(segments@);
                    segments.push(JpegSegment::new(MarkerType::Eoi, Vec::new(), ffp));
                    assert(seg_models(segments@) =~= pre.push(
                        (SegmentModel {
                            marker: MarkerType::Eoi,
                            data: Seq::empty(),
                            offset: ffp as nat,
                        }),
                    ));
                    let p = JpegParser { segments, scan_data, scan_offset };
                    assert(spec_parse(data@) == Some(p.spec_model()));
                    return Ok(p);
                },
                MarkerType::Soi => {
                    pos = q;
                    continue;
                },
                MarkerType::Sos => {
                    if n - q < 2 {
                        return Err(
                            UltraHdrError::InvalidJpeg(
                                String::from_str("Truncated segment length"),
                            ),
                        );
                    }
                    let l: usize = (data[q] as usize) * 256 + (data[q + 1] as usize);
                    if l < 2 {
                        return Err(
                            UltraHdrError::InvalidJpeg(String::from_str("Invalid segment length")),
                        );
                    }
                    if l > n - q {
                        return Err(
                            UltraHdrError::InvalidJpeg(String::from_str("Truncated segment data")),
                        );
                    }
                    let payload = copy_range(data, q + 2, q + l);
                    let ghost pre = seg_models(segments@);
                    segments.push(JpegSegment::new(MarkerType::Sos, payload, ffp));
                    assert(seg_models(segments@) =~= pre.push(
                        (SegmentModel {
                            marker: MarkerType::Sos,
                            data: data@.subrange(q as int + 2, q as int + l as int),
                            offset: ffp as nat,
                        }),
                    ));
                    pos = q + l;
                    scan_offset = pos;
                    in_scan = true;
                    continue;
                },
                _ => {
                    if marker.has_length() {
                        if n - q < 2 {
                            return Err(
                                UltraHdrError::InvalidJpeg(
                                    String::from_str("Truncated segment length"),
                                ),
                            );
                        }
                        let l: usize = (data[q] as usize) * 256 + (data[q + 1] as usize);
                        if l < 2 {
                            return Err(
                                UltraHdrError::InvalidJpeg(
                                    String::from_str("Invalid segment length"),
                                ),
                            );
                        }
                        if l > n - q {
                            return Err(
                                UltraHdrError::InvalidJpeg(
                                    String::from_str("Truncated segment data"),
                                ),
                            );
                        }
                        let payload = copy_range(data, q + 2, q + l);
                        let ghost pre = seg_models(segments@);
                        segments.push(JpegSegment::new(marker, payload, ffp));
                        assert(seg_models(segments@) =~= pre.push(
                            (SegmentModel {
                                marker: MarkerType::spec_from_byte(mb),
                                data: data@.subrange(q as int + 2, q as int + l as int),
                                offset: ffp as nat,
                            }),
                        ));
                        pos = q + l;
                        continue;
                    } else {
                        let ghost pre = seg_models(segments@);
                        segments.push(JpegSegment::new(marker, Vec::new(), ffp));
                        assert(seg_models(segments@) =~= pre.push(
                            (SegmentModel {
                                marker: MarkerType::spec_from_byte(mb),
                                data: Seq::empty(),
                                offset: ffp as nat,
                            }),
                        ));
                        pos = q;
                        continue;
                    }
                },
            }
        }
    }
}


/// The views of a sequence of segment references.
pub open spec fn ref_models(s: Seq<&JpegSegment>) -> Seq<SegmentModel> {
    Seq::new(s.len(), |i: int| s[i]@)
}

/// The APP1 segments of a list, complete and in order.
pub open spec fn keep_app1_segments(segs: Seq<SegmentModel>) -> Seq<SegmentModel>
    decreases segs.len(),
{
    if segs.len() == 0 {
        Seq::empty()
    } else if segs[0].marker == MarkerType::App1 {
        seq![segs[0]] + keep_app1_segments(segs.drop_first())
    } else {
        keep_app1_segments(segs.drop_first())
    }
}

/// The APP2 segments of a list, complete and in order.
pub open spec fn keep_app2_segments(segs: Seq<SegmentModel>) -> Seq<SegmentModel>
    decreases segs.len(),
{
    if segs.len() == 0 {
        Seq::empty()
    } else if segs[0].marker == MarkerType::App2 {
        seq![segs[0]] + keep_app2_segments(segs.drop_first())
    } else {
        keep_app2_segments(segs.drop_first())
    }
}

/// The first XMP segment of a list, if any.
pub open spec fn spec_find_xmp(segs: Seq<SegmentModel>) -> Option<SegmentModel> {
    if exists|j: int| 0 <= j < segs.len() && (#[trigger] segs[j]).is_xmp() {
        Some(
            segs[choose|j: int|
                0 <= j < segs.len() && (#[trigger] segs[j]).is_xmp() && forall|k: int|
                    0 <= k < j ==> !(#[trigger] segs[k]).is_xmp()],
        )
    } else {
        None
    }
}

/// The first Exif segment of a list, if any.
pub open spec fn spec_find_exif(segs: Seq<SegmentModel>) -> Option<SegmentModel> {
    if exists|j: int| 0 <= j < segs.len() && (#[trigger] segs[j]).is_exif() {
        Some(
            segs[choose|j: int|
                0 <= j < segs.len() && (#[trigger] segs[j]).is_exif() && forall|k: int|
                    0 <= k < j ==> !(#[trigger] segs[k]).is_exif()],
        )
    } else {
        None
    }
}

/// The first MPF segment of a list, if any.
pub open spec fn spec_find_mpf(segs: Seq<SegmentModel>) -> Option<SegmentModel> {
    if exists|j: int| 0 <= j < segs.len() && (#[trigger] segs[j]).is_mpf() {
        Some(
            segs[choose|j: int|
                0 <= j < segs.len() && (#[trigger] segs[j]).is_mpf() && forall|k: int|
                    0 <= k < j ==> !(#[trigger] segs[k]).is_mpf()],
        )
    } else {
        None
    }
}

/// Whether a segment is a start-of-frame segment (baseline or progressive).
pub open spec fn is_sof(seg: SegmentModel) -> bool {
    seg.marker == MarkerType::Sof0 || seg.marker == MarkerType::Sof2
}

/// The first SOF segment of a list, if any.
pub open spec fn spec_find_sof(segs: Seq<SegmentModel>) -> Option<SegmentModel> {
    if exists|j: int| 0 <= j < segs.len() && is_sof(#[trigger] segs[j]) {
        Some(
            segs[choose|j: int|
                0 <= j < segs.len() && is_sof(#[trigger] segs[j]) && forall|k: int|
                    0 <= k < j ==> !is_sof(#[trigger] segs[k])],
        )
    } else {
        None
    }
}

/// The (width, height) pair read from the first SOF segment: height at
/// payload bytes 1..3 and width at 3..5, big-endian. `None` without an SOF
/// segment or with one too short.
pub open spec fn spec_dimensions(segs: Seq<SegmentModel>) -> Option<(u32, u32)> {
    match spec_find_sof(segs) {
        None => None,
        Some(sof) => if sof.data.len() < 5 {
            None
        } else {
            Some(
                (
                    (sof.data[3] * 0x100 + sof.data[4]) as u32,
                    (sof.data[1] * 0x100 + sof.data[2]) as u32,
                ),
            )
        },
    }
}

impl JpegParser {
    /// Returns all segments.
    pub fn segments(&self) -> (r: &Vec<JpegSegment>)
        ensures
            seg_models(r@) == self.spec_segments(),
    {
        &self.segments
    }

    /// Returns the scan data (entropy-coded image data).
    pub fn scan_data(&self) -> (r: &Vec<u8>)
        ensures
            r@ == self.spec_scan(),
    {
        &self.scan_data
    }

    /// Returns the scan data offset in the original file.
    pub fn scan_offset(&self) -> (r: usize)
        ensures
            r == self.spec_scan_offset(),
    {
        self.scan_offset
    }

    /// Finds all APP1 segments, complete and in order.
    pub fn find_app1_segments(&self) -> (r: Vec<&JpegSegment>)
        ensures
            ref_models(r@) == keep_app1_segments(self.spec_segments()),
    {
        let ghost models = self.spec_segments();
        let mut out: Vec<&JpegSegment> = Vec::new();
        let n = self.segments.len();
        let mut i: usize = 0;
        assert(models.skip(0) =~= models);
        assert(ref_models(out@) =~= Seq::<SegmentModel>::empty());
        while i < n
            invariant
                n == self.segments@.len(),
                models == self.spec_segments(),
                models.len() == n,
                0 <= i <= n,
                ref_models(out@) + keep_app1_segments(models.skip(i as int))
                    == keep_app1_segments(models),
            decreases n - i,
        {
            proof {
                assert(models.skip(i as int)[0] == models[i as int]);
                assert(models[i as int] == self.segments@[i as int]@);
                assert(models.skip(i as int).drop_first() =~= models.skip(i as int + 1));
            }
            let ghost pre = ref_models(out@);
            if matches!(self.segments[i].marker, MarkerType::App1) {
                out.push(&self.segments[i]);
                assert(ref_models(out@) =~= pre + seq![models[i as int]]);
                assert(ref_models(out@) + keep_app1_segments(models.skip(i as int + 1))
                    =~= keep_app1_segments(models));
            }
            i += 1;
        }
        proof {
            assert(models.skip(n as int) =~= Seq::<SegmentModel>::empty());
            assert(ref_models(out@) =~= keep_app1_segments(models));
        }
        out
    }

    /// Finds all APP2 segments, complete and in order.
    pub fn find_app2_segments(&self) -> (r: Vec<&JpegSegment>)
        ensures
            ref_models(r@) == keep_app2_segments(self.spec_segments()),
    {
        let ghost models = self.spec_segments();
        let mut out: Vec<&JpegSegment> = Vec::new();
        let n = self.segments.len();
        let mut i: usize = 0;
        assert(models.skip(0) =~= models);
        assert(ref_models(out@) =~= Seq::<SegmentModel>::empty());
        while i < n
            invariant
                n == self.segments@.len(),
                models == self.spec_segments(),
                models.len() == n,
                0 <= i <= n,
                ref_models(out@) + keep_app2_segments(models.skip(i as int))
                    == keep_app2_segments(models),
            decreases n - i,
        {
            proof {
                assert(models.skip(i as int)[0] == models[i as int]);
                assert(models[i as int] == self.segments@[i as int]@);
                assert(models.skip(i as int).drop_first() =~= models.skip(i as int + 1));
            }
            let ghost pre = ref_models(out@);
            if matches!(self.segments[i].marker, MarkerType::App2) {
                out.push(&self.segments[i]);
                assert(ref_models(out@) =~= pre + seq![models[i as int]]);
                assert(ref_models(out@) + keep_app2_segments(models.skip(i as int + 1))
                    =~= keep_app2_segments(models));
            }
            i += 1;
        }
        proof {
            assert(models.skip(n as int) =~= Seq::<SegmentModel>::empty());
            assert(ref_models(out@) =~= keep_app2_segments(models));
        }
        out
    }

    /// Finds the XMP segment.
    pub fn find_xmp_segment(&self) -> (r: Option<&JpegSegment>)
        ensures
            match r {
                Some(seg) => spec_find_xmp(self.spec_segments()) == Some(seg@) && seg@.is_xmp(),
                None => spec_find_xmp(self.spec_segments()) is None,
            },
    {
        let ghost models = self.spec_segments();
        let n = self.segments.len();
        let mut i: usize = 0;
        while i < n
            invariant
                n == self.segments@.len(),
                models == self.spec_segments(),
                models.len() == n,
                0 <= i <= n,
                forall|k: int| 0 <= k < i ==> !(#[trigger] models[k]).is_xmp(),
            decreases n - i,
        {
            proof {
                assert(models[i as int] == self.segments@[i as int]@);
            }
            if self.segments[i].is_xmp() {
                proof {
                    let w = choose|j: int|
                        0 <= j < models.len() && (#[trigger] models[j]).is_xmp() && forall|k: int|
                            0 <= k < j ==> !(#[trigger] models[k]).is_xmp();
                    assert(w == i as int);
                }
                return Some(&self.segments[i]);
            }
            i += 1;
        }
        None
    }

    /// Finds the Exif segment.
    pub fn find_exif_segment(&self) -> (r: Option<&JpegSegment>)
        ensures
            match r {
                Some(seg) => spec_find_exif(self.spec_segments()) == Some(seg@) && seg@.is_exif(),
                None => spec_find_exif(self.spec_segments()) is None,
            },
    {
        let ghost models = self.spec_segments();
        let n = self.segments.len();
        let mut i: usize = 0;
        while i < n
            invariant
                n == self.segments@.len(),
                models == self.spec_segments(),
                models.len() == n,
                0 <= i <= n,
                forall|k: int| 0 <= k < i ==> !(#[trigger] models[k]).is_exif(),
            decreases n - i,
        {
            proof {
                assert(models[i as int] == self.segments@[i as int]@);
            }
            if self.segments[i].is_exif() {
                proof {
                    let w = choose|j: int|
                        0 <= j < models.len() && (#[trigger] models[j]).is_exif() && forall|k: int|
                            0 <= k < j ==> !(#[trigger] models[k]).is_exif();
                    assert(w == i as int);
                }
                return Some(&self.segments[i]);
            }
            i += 1;
        }
        None
    }

    /// Finds the MPF segment.
    pub fn find_mpf_segment(&self) -> (r: Option<&JpegSegment>)
        ensures
            match r {
                Some(seg) => spec_find_mpf(self.spec_segments()) == Some(seg@) && seg@.is_mpf(),
                None => spec_find_mpf(self.spec_segments()) is None,
            },
    {
        let ghost models = self.spec_segments();
        let n = self.segments.len();
        let mut i: usize = 0;
        while i < n
            invariant
                n == self.segments@.len(),
                models == self.spec_segments(),
                models.len() == n,
                0 <= i <= n,
                forall|k: int| 0 <= k < i ==> !(#[trigger] models[k]).is_mpf(),
            decreases n - i,
        {
            proof {
                assert(models[i as int] == self.segments@[i as int]@);
            }
            if self.segments[i].is_mpf() {
                proof {
                    let w = choose|j: int|
                        0 <= j < models.len() && (#[trigger] models[j]).is_mpf() && forall|k: int|
                            0 <= k < j ==> !(#[trigger] models[k]).is_mpf();
                    assert(w == i as int);
                }
                return Some(&self.segments[i]);
            }
            i += 1;
        }
        None
    }

    /// Finds the SOF (Start of Frame) segment to get image dimensions.
    pub fn find_sof_segment(&self) -> (r: Option<&JpegSegment>)
        ensures
            match r {
                Some(seg) => spec_find_sof(self.spec_segments()) == Some(seg@) && is_sof(seg@),
                None => spec_find_sof(self.spec_segments()) is None,
            },
    {
        let ghost models = self.spec_segments();
        let n = self.segments.len();
        let mut i: usize = 0;
        while i < n
            invariant
                n == self.segments@.len(),
                models == self.spec_segments(),
                models.len() == n,
                0 <= i <= n,
                forall|k: int| 0 <= k < i ==> !is_sof(#[trigger] models[k]),
            decreases n - i,
        {
            proof {
                assert(models[i as int] == self.segments@[i as int]@);
            }
            if matches!(self.segments[i].marker, MarkerType::Sof0 | MarkerType::Sof2) {
                proof {
                    let w = choose|j: int|
                        0 <= j < models.len() && is_sof(#[trigger] models[j]) && forall|k: int|
                            0 <= k < j ==> !is_sof(#[trigger] models[k]);
                    assert(w == i as int);
                }
                return Some(&self.segments[i]);
            }
            i += 1;
        }
        None
    }

    /// Gets image dimensions from the SOF segment.
    pub fn get_dimensions(&self) -> (r: Option<(u32, u32)>)
        ensures
            r == spec_dimensions(self.spec_segments()),
    {
        let sof = match self.find_sof_segment() {
            None => {
                return None;
            },
            Some(s) => s,
        };
        if sof.data.len() < 5 {
            return None;
        }
        let height: u32 = (sof.data[1] as u32) * 0x100 + (sof.data[2] as u32);
        let width: u32 = (sof.data[3] as u32) * 0x100 + (sof.data[4] as u32);
        Some((width, height))
    }
}

/// Shape of a successful segment parse: the accumulated segments are kept,
/// at least one more is added, and the last one is the EOI whose marker
/// bytes lie within the data.
pub proof fn lemma_parse_segs_shape(
    data: Seq<u8>,
    pos: int,
    segs: Seq<SegmentModel>,
    scan: Seq<u8>,
    scan_off: nat,
)
    ensures
        parse_segs(data, pos, segs, scan, scan_off) matches Some(m) ==> {
            &&& m.segments.len() >= segs.len() + 1
            &&& forall|i: int| 0 <= i < segs.len() ==> m.segments[i] == segs[i]
            &&& m.segments.last().marker == MarkerType::Eoi
            &&& m.segments.last().offset + 2 <= data.len()
        },
    decreases data.len() - pos, 0int,
{
    if pos < 0 || pos >= data.len() {
    } else if data[pos] != 0xFFu8 {
        lemma_parse_segs_shape(data, pos + 1, segs, scan, scan_off);
    } else if pos + 1 >= data.len() {
    } else if data[pos + 1] == 0xFFu8 {
        lemma_parse_segs_shape(data, pos + 1, segs, scan, scan_off);
    } else {
        let m = MarkerType::spec_from_byte(data[pos + 1]);
        let q = pos + 2;
        if m == MarkerType::Eoi {
        } else if m == MarkerType::Soi {
            lemma_parse_segs_shape(data, q, segs, scan, scan_off);
        } else if m == MarkerType::Sos {
            if q + 2 <= data.len() {
                let l = rd_be16(data, q);
                if 2 <= l && q + l <= data.len() {
                    let seg = SegmentModel {
                        marker: MarkerType::Sos,
                        data: data.subrange(q + 2, q + l),
                        offset: pos as nat,
                    };
                    lemma_parse_scan_shape(data, q + l, segs.push(seg), scan, (q + l) as nat);
                    lemma_shape_push_carry(
                        parse_scan(data, q + l, segs.push(seg), scan, (q + l) as nat),
                        segs,
                        seg,
                    );
                }
            }
        } else if m.spec_has_length() {
            if q + 2 <= data.len() {
                let l = rd_be16(data, q);
                if 2 <= l && q + l <= data.len() {
                    let seg = SegmentModel {
                        marker: m,
                        data: data.subrange(q + 2, q + l),
                        offset: pos as nat,
                    };
                    lemma_parse_segs_shape(data, q + l, segs.push(seg), scan, scan_off);
                    lemma_shape_push_carry(
                        parse_segs(data, q + l, segs.push(seg), scan, scan_off),
                        segs,
                        seg,
                    );
                }
            }
        } else {
            let seg = SegmentModel { marker: m, data: Seq::empty(), offset: pos as nat };
            lemma_parse_segs_shape(data, q, segs.push(seg), scan, scan_off);
            lemma_shape_push_carry(parse_segs(data, q, segs.push(seg), scan, scan_off), segs, seg);
        }
    }
}

/// Carries index preservation through one pushed segment.
proof fn lemma_shape_push_carry(r: Option<JpegModel>, segs: Seq<SegmentModel>, seg: SegmentModel)
    requires
        r matches Some(m) ==> {
            &&& m.segments.len() >= segs.push(seg).len() + 1
            &&& forall|i: int| 0 <= i < segs.push(seg).len() ==> m.segments[i] == segs.push(seg)[i]
        },
    ensures
        r matches Some(m) ==> {
            &&& m.segments.len() >= segs.len() + 1
            &&& forall|i: int| 0 <= i < segs.len() ==> m.segments[i] == segs[i]
        },
{
    match r {
        Some(m) => {
            assert forall|i: int| 0 <= i < segs.len() implies m.segments[i] == segs[i] by {
                assert(segs.push(seg)[i] == segs[i]);
            }
        },
        None => {},
    }
}

/// Shape of a successful scan parse, as for segment parsing.
pub proof fn lemma_parse_scan_shape(
    data: Seq<u8>,
    pos: int,
    segs: Seq<SegmentModel>,
    scan: Seq<u8>,
    scan_off: nat,
)
    ensures
        parse_scan(data, pos, segs, scan, scan_off) matches Some(m) ==> {
            &&& m.segments.len() >= segs.len() + 1
            &&& forall|i: int| 0 <= i < segs.len() ==> m.segments[i] == segs[i]
            &&& m.segments.last().marker == MarkerType::Eoi
            &&& m.segments.last().offset + 2 <= data.len()
        },
    decreases data.len() - pos, 1int,
{
    if pos < 0 || pos >= data.len() {
    } else if data[pos] != 0xFFu8 {
        lemma_parse_scan_shape(data, pos + 1, segs, scan.push(data[pos]), scan_off);
    } else if pos + 1 >= data.len() {
    } else {
        let nb = data[pos + 1];
        if nb == 0x00u8 {
            lemma_parse_scan_shape(data, pos + 2, segs, scan + seq![0xFFu8, 0x00u8], scan_off);
        } else if nb == 0xD9u8 {
        } else if 0xD0u8 <= nb && nb <= 0xD7u8 {
            lemma_parse_scan_shape(data, pos + 2, segs, scan + seq![0xFFu8, nb], scan_off);
        } else {
            lemma_parse_segs_shape(data, pos, segs, scan, scan_off);
        }
    }
}

/// Shape of a successful whole-stream parse: at least SOI and EOI, the
/// first segment the initial SOI, the last the EOI standing within the
/// data, and the EOI marker bytes `FF D9` at its recorded offset.
pub proof fn lemma_parse_shape(data: Seq<u8>)
    ensures
        spec_parse(data) matches Some(m) ==> {
            &&& m.segments.len() >= 2
            &&& m.segments[0] == (SegmentModel {
                marker: MarkerType::Soi,
                data: Seq::<u8>::empty(),
                offset: 0,
            })
            &&& m.segments.last().marker == MarkerType::Eoi
            &&& m.segments.last().offset + 2 <= data.len()
        },
{
    if data.len() >= 2 && data[0] == 0xFFu8 && data[1] == 0xD8u8 {
        let init = seq![SegmentModel { marker: MarkerType::Soi, data: Seq::<u8>::empty(), offset: 0 }];
        lemma_parse_segs_shape(data, 2, init, Seq::empty(), 0);
        match parse_segs(data, 2, init, Seq::empty(), 0) {
            Some(m) => {
                assert(m.segments[0] == init[0]);
            },
            None => {},
        }
    }
}

/// A marker byte that can stand in segment position: not a stuffed or
/// padding byte, not SOI/EOI, and not a restart marker.
pub open spec fn plain_marker_byte(b: u8) -> bool {
    b != 0x00u8 && b != 0xFFu8 && b != 0xD8u8 && b != 0xD9u8 && !(0xD0u8 <= b && b <= 0xD7u8)
}

/// A segment that the serializer and parser exchange faithfully: its
/// marker byte reads back as the same marker, stands in segment position,
/// and its payload fits the 16-bit length field.
pub open spec fn wf_seg(seg: SegmentModel) -> bool {
    &&& MarkerType::spec_from_byte(seg.marker.spec_to_byte()) == seg.marker
    &&& plain_marker_byte(seg.marker.spec_to_byte())
    &&& seg.data.len() + 2 <= 0xFFFF
}

/// Scan bytes that the walker consumes in full: every `FF` is followed by
/// a stuffed `00` or a restart marker.
pub open spec fn wf_scan_bytes(s: Seq<u8>) -> bool
    decreases s.len(),
{
    if s.len() == 0 {
        true
    } else if s[0] != 0xFFu8 {
        wf_scan_bytes(s.drop_first())
    } else if s.len() < 2 {
        false
    } else if s[1] == 0x00u8 || (0xD0u8 <= s[1] && s[1] <= 0xD7u8) {
        wf_scan_bytes(s.skip(2))
    } else {
        false
    }
}

/// Whether a segment list holds a start-of-scan segment.
pub open spec fn has_sos(segs: Seq<SegmentModel>) -> bool {
    exists|i: int| 0 <= i < segs.len() && (#[trigger] segs[i]).marker == MarkerType::Sos
}

/// A canonical serializable model: well-formed segments, at most one SOS,
/// well-formed scan bytes, and scan bytes only behind an SOS.
pub open spec fn wf_model(segs: Seq<SegmentModel>, scan: Seq<u8>) -> bool {
    &&& forall|i: int| 0 <= i < segs.len() ==> wf_seg(#[trigger] segs[i])
    &&& forall|i: int, j: int|
        0 <= i < j < segs.len() ==> !((#[trigger] segs[i]).marker == MarkerType::Sos && (
        #[trigger] segs[j]).marker == MarkerType::Sos)
    &&& wf_scan_bytes(scan)
    &&& (has_sos(segs) || scan.len() == 0)
}

/// The parse result extends the accumulated segments with ones matching
/// `rest` in marker and payload, then the closing EOI.
pub open spec fn parse_reproduces(
    result: Seq<SegmentModel>,
    acc: Seq<SegmentModel>,
    rest: Seq<SegmentModel>,
) -> bool {
    &&& result.len() == acc.len() + rest.len() + 1
    &&& forall|i: int| 0 <= i < acc.len() ==> result[i] == acc[i]
    &&& forall|i: int|
        0 <= i < rest.len() ==> (#[trigger] result[acc.len() + i]).marker == rest[i].marker
            && result[acc.len() + i].data == rest[i].data
    &&& result.last().marker == MarkerType::Eoi
    &&& result.last().data == Seq::<u8>::empty()
}

/// Serialization of an SOS-free list does not read the scan bytes.
proof fn lemma_serialize_scan_indep(segs: Seq<SegmentModel>, s1: Seq<u8>, s2: Seq<u8>)
    requires
        forall|i: int| 0 <= i < segs.len() ==> (#[trigger] segs[i]).marker != MarkerType::Sos,
    ensures
        serialize_segments(segs, s1) == serialize_segments(segs, s2),
    decreases segs.len(),
{
    if segs.len() > 0 {
        assert(segs[0].marker != MarkerType::Sos);
        assert forall|i: int| 0 <= i < segs.drop_first().len() implies (#[trigger] segs
            .drop_first()[i]).marker != MarkerType::Sos by {
            assert(segs.drop_first()[i] == segs[i + 1]);
        }
        lemma_serialize_scan_indep(segs.drop_first(), s1, s2);
        assert(seg_bytes(segs[0], s1) == seg_bytes(segs[0], s2));
    }
}

/// Serialization agrees on lists that match pointwise in marker and
/// payload, when any SOS implies the scans agree too.
proof fn lemma_serialize_equiv(
    a: Seq<SegmentModel>,
    b: Seq<SegmentModel>,
    sa: Seq<u8>,
    sb: Seq<u8>,
)
    requires
        a.len() == b.len(),
        forall|i: int|
            0 <= i < a.len() ==> (#[trigger] a[i]).marker == b[i].marker && a[i].data == b[i].data,
        forall|i: int| 0 <= i < a.len() ==> ((#[trigger] a[i]).marker == MarkerType::Sos ==> sa
            == sb),
    ensures
        serialize_segments(a, sa) == serialize_segments(b, sb),
    decreases a.len(),
{
    if a.len() > 0 {
        assert(a[0].marker == b[0].marker && a[0].data == b[0].data);
        assert forall|i: int|
            0 <= i < a.drop_first().len() implies (#[trigger] a.drop_first()[i]).marker == b
            .drop_first()[i].marker && a.drop_first()[i].data == b.drop_first()[i].data by {
            assert(a.drop_first()[i] == a[i + 1]);
            assert(b.drop_first()[i] == b[i + 1]);
        }
        assert forall|i: int|
            0 <= i < a.drop_first().len() implies ((#[trigger] a.drop_first()[i]).marker
            == MarkerType::Sos ==> sa == sb) by {
            assert(a.drop_first()[i] == a[i + 1]);
        }
        lemma_serialize_equiv(a.drop_first(), b.drop_first(), sa, sb);
        assert(seg_bytes(a[0], sa) == seg_bytes(b[0], sb));
    }
}

/// Re-parsing serialized segments: from a position where the remaining
/// bytes are the serialization of well-formed segments `rest` followed by
/// the closing EOI, segment parsing succeeds and reproduces `rest`.
#[verifier::rlimit(100)]
proof fn lemma_rt_segs(
    data: Seq<u8>,
    pos: int,
    acc: Seq<SegmentModel>,
    acc_scan: Seq<u8>,
    acc_off: nat,
    rest: Seq<SegmentModel>,
    scan: Seq<u8>,
    extra: Seq<u8>,
)
    requires
        0 <= pos <= data.len(),
        data.skip(pos) == serialize_segments(rest, scan) + seq![0xFFu8, 0xD9u8] + extra,
        forall|i: int| 0 <= i < rest.len() ==> wf_seg(#[trigger] rest[i]),
        forall|i: int, j: int|
            0 <= i < j < rest.len() ==> !((#[trigger] rest[i]).marker == MarkerType::Sos && (
            #[trigger] rest[j]).marker == MarkerType::Sos),
        wf_scan_bytes(scan),
        has_sos(rest) || scan.len() == 0,
    ensures
        parse_segs(data, pos, acc, acc_scan, acc_off) matches Some(m) && parse_reproduces(
            m.segments,
            acc,
            rest,
        ) && m.scan == acc_scan + (if has_sos(rest) {
            scan
        } else {
            Seq::<u8>::empty()
        }),
    decreases rest.len(), scan.len(), 0int,
{
    let tail = data.skip(pos);
    assert(tail.len() == data.len() - pos);
    if rest.len() == 0 {
        assert(serialize_segments(rest, scan) == Seq::<u8>::empty());
        assert(tail =~= seq![0xFFu8, 0xD9u8] + extra);
        assert(data[pos] == tail[0]);
        assert(data[pos + 1] == tail[1]);
        assert(data[pos] == 0xFFu8 && data[pos + 1] == 0xD9u8);
        assert(!has_sos(rest));
        let m = parse_segs(data, pos, acc, acc_scan, acc_off).unwrap();
        assert(m.segments == acc.push(
            SegmentModel { marker: MarkerType::Eoi, data: Seq::empty(), offset: pos as nat },
        ));
        assert(parse_reproduces(m.segments, acc, rest));
        assert(m.scan =~= acc_scan + Seq::<u8>::empty());
    } else {
        let seg = rest[0];
        let rest1 = rest.drop_first();
        let sb = seg_bytes(seg, scan);
        assert(serialize_segments(rest, scan) == sb + serialize_segments(rest1, scan));
        assert(tail =~= sb + (serialize_segments(rest1, scan) + seq![0xFFu8, 0xD9u8] + extra));
        let mb = seg.marker.spec_to_byte();
        assert(wf_seg(seg));
        assert(seg.marker != MarkerType::Soi && seg.marker != MarkerType::Eoi);
        assert(seg.marker.spec_has_length());
        let pl = seg.data.len() as int;
        let lf = crate::writer::len_field(seg.data.len());
        assert(lf == pl + 2);
        let hdr: Seq<u8> = if seg.marker == MarkerType::Sos {
            seq![0xFFu8, 0xDAu8]
        } else {
            seq![0xFFu8, mb]
        };
        assert(sb == hdr + crate::writer::be16(lf) + seg.data + (if seg.marker
            == MarkerType::Sos {
            scan
        } else {
            Seq::<u8>::empty()
        })) by {
            if seg.marker == MarkerType::Sos {
            } else {
                assert(sb == seq![0xFFu8, mb] + crate::writer::be16(lf) + seg.data);
                assert(sb =~= seq![0xFFu8, mb] + crate::writer::be16(lf) + seg.data
                    + Seq::<u8>::empty());
            }
        }
        assert(sb.len() == 4 + pl + (if seg.marker == MarkerType::Sos {
            scan.len() as int
        } else {
            0
        }));
        // The marker pair and length field stand at the parse position.
        assert(data[pos] == tail[0] && tail[0] == sb[0] && sb[0] == 0xFFu8);
        assert(data[pos + 1] == tail[1] && tail[1] == sb[1]);
        assert(sb[1] == (if seg.marker == MarkerType::Sos {
            0xDAu8
        } else {
            mb
        }));
        assert(seg.marker == MarkerType::Sos ==> mb == 0xDAu8);
        assert(data[pos + 1] == mb);
        assert(mb != 0xFFu8);
        assert(MarkerType::spec_from_byte(data[pos + 1]) == seg.marker);
        assert(data[pos + 2] == tail[2] && tail[2] == sb[2] && sb[2] == crate::writer::be16(lf)[0]);
        assert(data[pos + 3] == tail[3] && tail[3] == sb[3] && sb[3] == crate::writer::be16(lf)[1]);
        assert(rd_be16(data, pos + 2) == (lf / 256) * 256 + (lf % 256));
        assert(rd_be16(data, pos + 2) == pl + 2);
        let q = pos + 2;
        let l = pl + 2;
        assert(q + 2 <= data.len());
        assert(q + l <= data.len());
        // The payload re-reads exactly.
        assert(data.subrange(q + 2, q + l) =~= seg.data) by {
            assert forall|t: int| 0 <= t < pl implies data.subrange(q + 2, q + l)[t] == seg
                .data[t] by {
                assert(data.subrange(q + 2, q + l)[t] == data[pos + 4 + t]);
                assert(data[pos + 4 + t] == tail[4 + t]);
                assert(tail[4 + t] == sb[4 + t]);
                assert(sb[4 + t] == seg.data[t]);
            }
        }
        let pushed = SegmentModel { marker: seg.marker, data: seg.data, offset: pos as nat };
        let acc1 = acc.push(pushed);
        let newpos = pos + 4 + pl;
        if seg.marker == MarkerType::Sos {
            // The scan and the remaining segments follow the payload.
            assert forall|i: int| 0 <= i < rest1.len() implies (#[trigger] rest1[i]).marker
                != MarkerType::Sos by {
                assert(rest1[i] == rest[i + 1]);
            }
            lemma_serialize_scan_indep(rest1, scan, Seq::<u8>::empty());
            assert(data.skip(newpos) =~= scan + (serialize_segments(rest1, Seq::<u8>::empty())
                + seq![0xFFu8, 0xD9u8] + extra)) by {
                assert forall|t: int| 0 <= t < data.len() - newpos implies data.skip(newpos)[t]
                    == (scan + (serialize_segments(rest1, Seq::<u8>::empty()) + seq![
                    0xFFu8,
                    0xD9u8,
                ] + extra))[t] by {
                    assert(data.skip(newpos)[t] == data[newpos + t]);
                    assert(data[newpos + t] == tail[4 + pl + t]);
                    if t < scan.len() {
                        assert(tail[4 + pl + t] == sb[4 + pl + t]);
                        assert(sb[4 + pl + t] == scan[t]);
                    } else {
                        assert(tail[4 + pl + t] == (serialize_segments(rest1, scan) + seq![
                            0xFFu8,
                            0xD9u8,
                        ] + extra)[t - scan.len()]);
                    }
                }
            }
            assert forall|i: int| 0 <= i < rest1.len() implies wf_seg(#[trigger] rest1[i]) by {
                assert(rest1[i] == rest[i + 1]);
            }
            lemma_rt_scan(data, newpos, acc1, acc_scan, (newpos) as nat, scan, rest1, extra);
            let m = parse_scan(data, newpos, acc1, acc_scan, (newpos) as nat).unwrap();
            assert(parse_segs(data, pos, acc, acc_scan, acc_off) == Some(m));
            assert(parse_reproduces(m.segments, acc1, rest1));
            assert(parse_reproduces(m.segments, acc, rest)) by {
                assert forall|i: int| 0 <= i < acc.len() implies m.segments[i] == acc[i] by {
                    assert(m.segments[i] == acc1[i]);
                    assert(acc1[i] == acc[i]);
                }
                assert forall|i: int|
                    0 <= i < rest.len() implies (#[trigger] m.segments[acc.len() as int + i]).marker
                    == rest[i].marker && m.segments[acc.len() as int + i].data == rest[i].data by {
                    if i == 0 {
                        assert(m.segments[acc.len() as int] == acc1[acc.len() as int]);
                        assert(acc1[acc.len() as int] == pushed);
                    } else {
                        assert(m.segments[acc1.len() as int + (i - 1)].marker == rest1[i - 1].marker
                            && m.segments[acc1.len() as int + (i - 1)].data == rest1[i - 1].data);
                        assert(rest1[i - 1] == rest[i]);
                    }
                }
            }
            assert(has_sos(rest));
            assert(m.scan == acc_scan + scan);
        } else {
            assert(data.skip(newpos) =~= serialize_segments(rest1, scan) + seq![0xFFu8, 0xD9u8]
                + extra) by {
                assert forall|t: int| 0 <= t < data.len() - newpos implies data.skip(newpos)[t]
                    == (serialize_segments(rest1, scan) + seq![0xFFu8, 0xD9u8] + extra)[t] by {
                    assert(data.skip(newpos)[t] == data[newpos + t]);
                    assert(data[newpos + t] == tail[4 + pl + t]);
                    assert(tail[4 + pl + t] == (serialize_segments(rest1, scan) + seq![
                        0xFFu8,
                        0xD9u8,
                    ] + extra)[t]);
                }
            }
            assert forall|i: int| 0 <= i < rest1.len() implies wf_seg(#[trigger] rest1[i]) by {
                assert(rest1[i] == rest[i + 1]);
            }
            assert forall|i: int, j: int|
                0 <= i < j < rest1.len() implies !((#[trigger] rest1[i]).marker
                == MarkerType::Sos && (#[trigger] rest1[j]).marker == MarkerType::Sos) by {
                assert(rest1[i] == rest[i + 1]);
                assert(rest1[j] == rest[j + 1]);
            }
            assert(has_sos(rest1) || scan.len() == 0) by {
                if has_sos(rest) {
                    let w = choose|i: int|
                        0 <= i < rest.len() && (#[trigger] rest[i]).marker == MarkerType::Sos;
                    assert(w != 0);
                    assert(rest1[w - 1] == rest[w]);
                    assert(has_sos(rest1));
                }
            }
            lemma_rt_segs(data, newpos, acc1, acc_scan, acc_off, rest1, scan, extra);
            let m = parse_segs(data, newpos, acc1, acc_scan, acc_off).unwrap();
            assert(parse_segs(data, pos, acc, acc_scan, acc_off) == Some(m));
            assert(parse_reproduces(m.segments, acc, rest)) by {
                assert forall|i: int| 0 <= i < acc.len() implies m.segments[i] == acc[i] by {
                    assert(m.segments[i] == acc1[i]);
                    assert(acc1[i] == acc[i]);
                }
                assert forall|i: int|
                    0 <= i < rest.len() implies (#[trigger] m.segments[acc.len() as int + i]).marker
                    == rest[i].marker && m.segments[acc.len() as int + i].data == rest[i].data by {
                    if i == 0 {
                        assert(m.segments[acc.len() as int] == acc1[acc.len() as int]);
                        assert(acc1[acc.len() as int] == pushed);
                    } else {
                        assert(m.segments[acc1.len() as int + (i - 1)].marker == rest1[i - 1].marker
                            && m.segments[acc1.len() as int + (i - 1)].data == rest1[i - 1].data);
                        assert(rest1[i - 1] == rest[i]);
                    }
                }
            }
            assert(has_sos(rest) == has_sos(rest1)) by {
                if has_sos(rest) {
                    let w = choose|i: int|
                        0 <= i < rest.len() && (#[trigger] rest[i]).marker == MarkerType::Sos;
                    assert(w != 0);
                    assert(rest1[w - 1] == rest[w]);
                }
                if has_sos(rest1) {
                    let w = choose|i: int|
                        0 <= i < rest1.len() && (#[trigger] rest1[i]).marker == MarkerType::Sos;
                    assert(rest[w + 1] == rest1[w]);
                }
            }
        }
    }
}

/// Re-parsing the scan: from a position where the remaining bytes are
/// well-formed scan bytes, then the serialization of SOS-free segments and
/// the closing EOI, scan parsing accumulates the scan bytes exactly.
#[verifier::rlimit(100)]
proof fn lemma_rt_scan(
    data: Seq<u8>,
    pos: int,
    acc: Seq<SegmentModel>,
    acc_scan: Seq<u8>,
    acc_off: nat,
    scanrest: Seq<u8>,
    rest: Seq<SegmentModel>,
    extra: Seq<u8>,
)
    requires
        0 <= pos <= data.len(),
        data.skip(pos) == scanrest + (serialize_segments(rest, Seq::<u8>::empty()) + seq![
            0xFFu8,
            0xD9u8,
        ] + extra),
        wf_scan_bytes(scanrest),
        forall|i: int| 0 <= i < rest.len() ==> wf_seg(#[trigger] rest[i]),
        forall|i: int| 0 <= i < rest.len() ==> (#[trigger] rest[i]).marker != MarkerType::Sos,
    ensures
        parse_scan(data, pos, acc, acc_scan, acc_off) matches Some(m) && parse_reproduces(
            m.segments,
            acc,
            rest,
        ) && m.scan == acc_scan + scanrest,
    decreases rest.len(), scanrest.len(), 1int,
{
    let tail = data.skip(pos);
    assert(tail.len() == data.len() - pos);
    assert(tail.len() >= 2);
    if scanrest.len() == 0 {
        assert(tail =~= serialize_segments(rest, Seq::<u8>::empty()) + seq![0xFFu8, 0xD9u8]
            + extra);
        if rest.len() == 0 {
            assert(serialize_segments(rest, Seq::<u8>::empty()) == Seq::<u8>::empty());
            assert(data[pos] == tail[0] && data[pos + 1] == tail[1]);
            assert(tail =~= seq![0xFFu8, 0xD9u8] + extra);
            assert(data[pos] == 0xFFu8 && data[pos + 1] == 0xD9u8);
            let m = parse_scan(data, pos, acc, acc_scan, acc_off).unwrap();
            assert(parse_reproduces(m.segments, acc, rest));
            assert(m.scan =~= acc_scan + scanrest);
        } else {
            // The next marker returns parsing to segment mode at this FF.
            let seg = rest[0];
            let sb = seg_bytes(seg, Seq::<u8>::empty());
            assert(serialize_segments(rest, Seq::<u8>::empty()) == sb + serialize_segments(
                rest.drop_first(),
                Seq::<u8>::empty(),
            ));
            let mb = seg.marker.spec_to_byte();
            assert(wf_seg(seg));
            assert(seg.marker != MarkerType::Soi && seg.marker != MarkerType::Eoi);
            assert(seg.marker.spec_has_length());
            assert(seg.marker != MarkerType::Sos);
            assert(sb == seq![0xFFu8, mb] + crate::writer::be16(
                crate::writer::len_field(seg.data.len()),
            ) + seg.data);
            assert(data[pos] == tail[0] && tail[0] == sb[0] && sb[0] == 0xFFu8);
            assert(data[pos + 1] == tail[1] && tail[1] == sb[1] && sb[1] == mb);
            assert(plain_marker_byte(mb));
            assert(parse_scan(data, pos, acc, acc_scan, acc_off) == parse_segs(
                data,
                pos,
                acc,
                acc_scan,
                acc_off,
            ));
            assert(data.skip(pos) =~= serialize_segments(rest, Seq::<u8>::empty()) + seq![
                0xFFu8,
                0xD9u8,
            ] + extra);
            lemma_rt_segs(data, pos, acc, acc_scan, acc_off, rest, Seq::<u8>::empty(), extra);
            assert(!has_sos(rest));
        }
    } else if scanrest[0] != 0xFFu8 {
        let b = scanrest[0];
        assert(data[pos] == tail[0] && tail[0] == b);
        assert(data.skip(pos + 1) =~= scanrest.drop_first() + (serialize_segments(
            rest,
            Seq::<u8>::empty(),
        ) + seq![0xFFu8, 0xD9u8] + extra)) by {
            assert forall|t: int| 0 <= t < data.len() - pos - 1 implies data.skip(pos + 1)[t]
                == (scanrest.drop_first() + (serialize_segments(rest, Seq::<u8>::empty()) + seq![
                0xFFu8,
                0xD9u8,
            ] + extra))[t] by {
                assert(data.skip(pos + 1)[t] == data[pos + 1 + t]);
                assert(data[pos + 1 + t] == tail[1 + t]);
                if t < scanrest.len() - 1 {
                    assert(tail[1 + t] == scanrest[1 + t]);
                    assert(scanrest.drop_first()[t] == scanrest[1 + t]);
                } else {
                    assert(tail[1 + t] == (serialize_segments(rest, Seq::<u8>::empty()) + seq![
                        0xFFu8,
                        0xD9u8,
                    ] + extra)[1 + t - scanrest.len()]);
                }
            }
        }
        lemma_rt_scan(
            data,
            pos + 1,
            acc,
            acc_scan.push(b),
            acc_off,
            scanrest.drop_first(),
            rest,
            extra,
        );
        let m = parse_scan(data, pos + 1, acc, acc_scan.push(b), acc_off).unwrap();
        assert(parse_scan(data, pos, acc, acc_scan, acc_off) == Some(m));
        assert(m.scan =~= acc_scan + scanrest) by {
            assert(m.scan == acc_scan.push(b) + scanrest.drop_first());
        }
    } else {
        // A stuffed byte or restart marker pair.
        assert(scanrest.len() >= 2);
        let nb = scanrest[1];
        assert(nb == 0x00u8 || (0xD0u8 <= nb && nb <= 0xD7u8));
        assert(data[pos] == tail[0] && tail[0] == 0xFFu8);
        assert(data[pos + 1] == tail[1] && tail[1] == nb);
        assert(data.skip(pos + 2) =~= scanrest.skip(2) + (serialize_segments(
            rest,
            Seq::<u8>::empty(),
        ) + seq![0xFFu8, 0xD9u8] + extra)) by {
            assert forall|t: int| 0 <= t < data.len() - pos - 2 implies data.skip(pos + 2)[t]
                == (scanrest.skip(2) + (serialize_segments(rest, Seq::<u8>::empty()) + seq![
                0xFFu8,
                0xD9u8,
            ] + extra))[t] by {
                assert(data.skip(pos + 2)[t] == data[pos + 2 + t]);
                assert(data[pos + 2 + t] == tail[2 + t]);
                if t < scanrest.len() - 2 {
                    assert(tail[2 + t] == scanrest[2 + t]);
                    assert(scanrest.skip(2)[t] == scanrest[2 + t]);
                } else {
                    assert(tail[2 + t] == (serialize_segments(rest, Seq::<u8>::empty()) + seq![
                        0xFFu8,
                        0xD9u8,
                    ] + extra)[2 + t - scanrest.len()]);
                }
            }
        }
        let acc_scan2 = acc_scan + seq![0xFFu8, nb];
        lemma_rt_scan(data, pos + 2, acc, acc_scan2, acc_off, scanrest.skip(2), rest, extra);
        let m = parse_scan(data, pos + 2, acc, acc_scan2, acc_off).unwrap();
        assert(parse_scan(data, pos, acc, acc_scan, acc_off) == Some(m));
        assert(m.scan =~= acc_scan + scanrest) by {
            assert(m.scan == acc_scan2 + scanrest.skip(2));
            assert(scanrest[0] == 0xFFu8 && scanrest[1] == nb);
        }
    }
}

/// Round trip: parsing the serialization of any canonical model succeeds,
/// and re-serializing the parse reproduces the bytes exactly.
pub proof fn lemma_parse_serialize_round_trip(segs: Seq<SegmentModel>, scan: Seq<u8>)
    requires
        wf_model(segs, scan),
    ensures
        spec_parse(spec_serialize(segs, scan)) matches Some(m) && spec_serialize(
            m.segments,
            m.scan,
        ) == spec_serialize(segs, scan),
{
    let data = spec_serialize(segs, scan);
    let body = serialize_segments(segs, scan);
    assert(data == seq![0xFFu8, 0xD8u8] + body + seq![0xFFu8, 0xD9u8]);
    assert(data.len() == body.len() + 4);
    assert(data[0] == 0xFFu8 && data[1] == 0xD8u8);
    let init = seq![SegmentModel { marker: MarkerType::Soi, data: Seq::<u8>::empty(), offset: 0 }];
    assert(data.skip(2) =~= body + seq![0xFFu8, 0xD9u8] + Seq::<u8>::empty()) by {
        assert forall|t: int| 0 <= t < data.len() - 2 implies data.skip(2)[t] == (body + seq![
            0xFFu8,
            0xD9u8,
        ] + Seq::<u8>::empty())[t] by {
            assert(data.skip(2)[t] == data[2 + t]);
            if t < body.len() {
                assert(data[2 + t] == body[t]);
            } else {
                assert(data[2 + t] == seq![0xFFu8, 0xD9u8][t - body.len()]);
            }
        }
    }
    lemma_rt_segs(data, 2, init, Seq::<u8>::empty(), 0, segs, scan, Seq::<u8>::empty());
    let m = parse_segs(data, 2, init, Seq::<u8>::empty(), 0).unwrap();
    assert(spec_parse(data) == Some(m));

    // Re-serializing reads only markers, payloads and the scan.
    let mid = m.segments.subrange(1, m.segments.len() - 1);
    assert(mid.len() == segs.len());
    assert forall|i: int|
        0 <= i < mid.len() implies (#[trigger] mid[i]).marker == segs[i].marker && mid[i].data
        == segs[i].data by {
        assert(mid[i] == m.segments[1 + i]);
        assert((m.segments[init.len() as int + i]).marker == segs[i].marker && m.segments[init.len() as int + i].data == segs[i].data);
    }
    assert forall|i: int|
        0 <= i < mid.len() implies ((#[trigger] mid[i]).marker == MarkerType::Sos ==> m.scan
        == scan) by {
        if mid[i].marker == MarkerType::Sos {
            assert(segs[i].marker == MarkerType::Sos);
            assert(has_sos(segs));
        }
    }
    lemma_serialize_equiv(mid, segs, m.scan, scan);
    assert(m.segments =~= init + mid + seq![m.segments.last()]) by {
        assert(m.segments[0] == init[0]);
    }
    let eoi_seg = m.segments.last();
    assert(eoi_seg.marker == MarkerType::Eoi);
    crate::writer::lemma_serialize_segments_concat(init + mid, seq![eoi_seg], m.scan);
    crate::writer::lemma_serialize_segments_concat(init, mid, m.scan);
    assert((init + mid) + seq![eoi_seg] =~= m.segments);
    assert(serialize_segments(seq![eoi_seg], m.scan) =~= Seq::<u8>::empty()) by {
        assert(seq![eoi_seg][0] == eoi_seg);
        assert(seq![eoi_seg].drop_first() =~= Seq::<SegmentModel>::empty());
        assert(serialize_segments(Seq::<SegmentModel>::empty(), m.scan) == Seq::<u8>::empty());
        assert(seg_bytes(eoi_seg, m.scan) == Seq::<u8>::empty());
        assert(serialize_segments(seq![eoi_seg], m.scan) == seg_bytes(eoi_seg, m.scan)
            + serialize_segments(seq![eoi_seg].drop_first(), m.scan));
    }
    assert(serialize_segments(init, m.scan) =~= Seq::<u8>::empty()) by {
        assert(init[0].marker == MarkerType::Soi);
        assert(init.drop_first() =~= Seq::<SegmentModel>::empty());
        assert(serialize_segments(Seq::<SegmentModel>::empty(), m.scan) == Seq::<u8>::empty());
        assert(seg_bytes(init[0], m.scan) == Seq::<u8>::empty());
        assert(serialize_segments(init, m.scan) == seg_bytes(init[0], m.scan)
            + serialize_segments(init.drop_first(), m.scan));
    }
    assert(serialize_segments(m.segments, m.scan) =~= serialize_segments(segs, scan));
    assert(spec_serialize(m.segments, m.scan) =~= spec_serialize(segs, scan));
}

/// Round trip with trailing bytes: parsing stops at the primary EOI, so a
/// canonical serialization keeps its parse — and re-serializing it keeps
/// the bytes — whatever follows it (such as an appended gain-map JPEG).
pub proof fn lemma_parse_serialize_with_trailing(
    segs: Seq<SegmentModel>,
    scan: Seq<u8>,
    extra: Seq<u8>,
)
    requires
        wf_model(segs, scan),
    ensures
        spec_parse(spec_serialize(segs, scan) + extra) matches Some(m) && spec_serialize(
            m.segments,
            m.scan,
        ) == spec_serialize(segs, scan),
{
    let base = spec_serialize(segs, scan);
    let data = base + extra;
    let body = serialize_segments(segs, scan);
    assert(base == seq![0xFFu8, 0xD8u8] + body + seq![0xFFu8, 0xD9u8]);
    assert(base.len() == body.len() + 4);
    assert(base[0] == 0xFFu8 && base[1] == 0xD8u8);
    assert(data[0] == base[0] && data[1] == base[1]);
    assert(data.len() >= 2);
    let init = seq![SegmentModel { marker: MarkerType::Soi, data: Seq::<u8>::empty(), offset: 0 }];
    assert(data.skip(2) =~= body + seq![0xFFu8, 0xD9u8] + extra) by {
        assert forall|t: int| 0 <= t < data.len() - 2 implies data.skip(2)[t] == (body + seq![
            0xFFu8,
            0xD9u8,
        ] + extra)[t] by {
            assert(data.skip(2)[t] == data[2 + t]);
            if t < body.len() + 2 {
                assert(data[2 + t] == base[2 + t]);
                if t < body.len() {
                    assert(base[2 + t] == body[t]);
                } else {
                    assert(base[2 + t] == seq![0xFFu8, 0xD9u8][t - body.len()]);
                }
            } else {
                assert(data[2 + t] == extra[t - body.len() - 2]);
            }
        }
    }
    lemma_rt_segs(data, 2, init, Seq::<u8>::empty(), 0, segs, scan, extra);
    let m = parse_segs(data, 2, init, Seq::<u8>::empty(), 0).unwrap();
    assert(spec_parse(data) == Some(m));

    let mid = m.segments.subrange(1, m.segments.len() - 1);
    assert(mid.len() == segs.len());
    assert forall|i: int|
        0 <= i < mid.len() implies (#[trigger] mid[i]).marker == segs[i].marker && mid[i].data
        == segs[i].data by {
        assert(mid[i] == m.segments[1 + i]);
        assert((m.segments[init.len() as int + i]).marker == segs[i].marker && m.segments[
            init.len() as int + i].data == segs[i].data);
    }
    assert forall|i: int|
        0 <= i < mid.len() implies ((#[trigger] mid[i]).marker == MarkerType::Sos ==> m.scan
        == scan) by {
        if mid[i].marker == MarkerType::Sos {
            assert(segs[i].marker == MarkerType::Sos);
            assert(has_sos(segs));
        }
    }
    lemma_serialize_equiv(mid, segs, m.scan, scan);
    assert(m.segments =~= init + mid + seq![m.segments.last()]) by {
        assert(m.segments[0] == init[0]);
    }
    let eoi_seg = m.segments.last();
    assert(eoi_seg.marker == MarkerType::Eoi);
    crate::writer::lemma_serialize_segments_concat(init + mid, seq![eoi_seg], m.scan);
    crate::writer::lemma_serialize_segments_concat(init, mid, m.scan);
    assert((init + mid) + seq![eoi_seg] =~= m.segments);
    assert(serialize_segments(seq![eoi_seg], m.scan) =~= Seq::<u8>::empty()) by {
        assert(seq![eoi_seg][0] == eoi_seg);
        assert(seq![eoi_seg].drop_first() =~= Seq::<SegmentModel>::empty());
        assert(serialize_segments(Seq::<SegmentModel>::empty(), m.scan) == Seq::<u8>::empty());
        assert(seg_bytes(eoi_seg, m.scan) == Seq::<u8>::empty());
        assert(serialize_segments(seq![eoi_seg], m.scan) == seg_bytes(eoi_seg, m.scan)
            + serialize_segments(seq![eoi_seg].drop_first(), m.scan));
    }
    assert(serialize_segments(init, m.scan) =~= Seq::<u8>::empty()) by {
        assert(init[0].marker == MarkerType::Soi);
        assert(init.drop_first() =~= Seq::<SegmentModel>::empty());
        assert(serialize_segments(Seq::<SegmentModel>::empty(), m.scan) == Seq::<u8>::empty());
        assert(seg_bytes(init[0], m.scan) == Seq::<u8>::empty());
        assert(serialize_segments(init, m.scan) == seg_bytes(init[0], m.scan)
            + serialize_segments(init.drop_first(), m.scan));
    }
    assert(serialize_segments(m.segments, m.scan) =~= serialize_segments(segs, scan));
    assert(spec_serialize(m.segments, m.scan) =~= spec_serialize(segs, scan));
}

} // verus!
