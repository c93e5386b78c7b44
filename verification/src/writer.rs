//! JPEG segment writer: serializes a segment list plus entropy-coded scan
//! back into a JPEG byte stream, and edits the list for UltraHDR composition.

use vstd::prelude::*;
use vstd::string::StringSliceAdditionalSpecFns;

use crate::error::UltraHdrError;
use crate::marker::MarkerType;
use crate::segment::{ext_xmp_ns_prefix, seg_models, xmp_ns_prefix, JpegSegment, SegmentModel};

verus! {

/// The two bytes of a 16-bit big-endian value.
pub open spec fn be16(x: u16) -> Seq<u8> {
    seq![(x / 256) as u8, (x % 256) as u8]
}

/// The four bytes of a 32-bit big-endian value.
pub open spec fn be32(x: u32) -> Seq<u8> {
    seq![
        (x / 0x1000000 % 256) as u8,
        (x / 0x10000 % 256) as u8,
        (x / 0x100 % 256) as u8,
        (x % 256) as u8,
    ]
}

/// The length field emitted for a payload of `n` bytes: `n + 2`, truncated to
/// 16 bits as the serializer does.
pub open spec fn len_field(n: nat) -> u16 {
    (((n + 2) % 0x10000) as u16)
}

/// The bytes that the serializer emits for one segment: nothing for SOI/EOI
/// (they are written separately), marker plus length plus payload for
/// length-bearing markers, the scan bytes directly after an SOS payload, and
/// a bare marker otherwise.
pub open spec fn seg_bytes(seg: SegmentModel, scan: Seq<u8>) -> Seq<u8> {
    if seg.marker == MarkerType::Soi || seg.marker == MarkerType::Eoi {
        Seq::empty()
    } else if seg.marker == MarkerType::Sos {
        seq![0xFFu8, 0xDAu8] + be16(len_field(seg.data.len())) + seg.data + scan
    } else if seg.marker.spec_has_length() {
        seq![0xFFu8, seg.marker.spec_to_byte()] + be16(len_field(seg.data.len())) + seg.data
    } else {
        seq![0xFFu8, seg.marker.spec_to_byte()]
    }
}

/// Concatenation of `seg_bytes` over a segment list.
pub open spec fn serialize_segments(segs: Seq<SegmentModel>, scan: Seq<u8>) -> Seq<u8>
    decreases segs.len(),
{
    if segs.len() == 0 {
        Seq::empty()
    } else {
        seg_bytes(segs[0], scan) + serialize_segments(segs.drop_first(), scan)
    }
}

/// The full serialized JPEG: SOI, every emitted segment, EOI.
pub open spec fn spec_serialize(segs: Seq<SegmentModel>, scan: Seq<u8>) -> Seq<u8> {
    seq![0xFFu8, 0xD8u8] + serialize_segments(segs, scan) + seq![0xFFu8, 0xD9u8]
}

/// Serializing one more segment appends its bytes.
pub proof fn lemma_serialize_segments_push(
    segs: Seq<SegmentModel>,
    seg: SegmentModel,
    scan: Seq<u8>,
)
    ensures
        serialize_segments(segs.push(seg), scan) == serialize_segments(segs, scan) + seg_bytes(
            seg,
            scan,
        ),
    decreases segs.len(),
{
    if segs.len() == 0 {
        assert(segs.push(seg)[0] == seg);
        assert(segs.push(seg).drop_first() =~= Seq::<SegmentModel>::empty());
        assert(serialize_segments(Seq::<SegmentModel>::empty(), scan) == Seq::<u8>::empty());
        assert(serialize_segments(segs.push(seg), scan) == seg_bytes(seg, scan)
            + serialize_segments(segs.push(seg).drop_first(), scan));
        assert(serialize_segments(segs.push(seg), scan) =~= seg_bytes(seg, scan));
        assert(serialize_segments(segs, scan) + seg_bytes(seg, scan) =~= seg_bytes(seg, scan));
    } else {
        assert(segs.push(seg)[0] == segs[0]);
        assert(segs.push(seg).drop_first() =~= segs.drop_first().push(seg));
        lemma_serialize_segments_push(segs.drop_first(), seg, scan);
        assert(serialize_segments(segs.push(seg), scan) =~= serialize_segments(segs, scan)
            + seg_bytes(seg, scan));
    }
}

/// The segments of `segs` that are neither XMP nor extended XMP, in order.
pub open spec fn drop_xmp_segments(segs: Seq<SegmentModel>) -> Seq<SegmentModel>
    decreases segs.len(),
{
    if segs.len() == 0 {
        Seq::empty()
    } else if !segs[0].is_xmp() && !segs[0].is_extended_xmp() {
        seq![segs[0]] + drop_xmp_segments(segs.drop_first())
    } else {
        drop_xmp_segments(segs.drop_first())
    }
}

/// The segments of `segs` that are not MPF segments, in order.
pub open spec fn drop_mpf_segments(segs: Seq<SegmentModel>) -> Seq<SegmentModel>
    decreases segs.len(),
{
    if segs.len() == 0 {
        Seq::empty()
    } else if !segs[0].is_mpf() {
        seq![segs[0]] + drop_mpf_segments(segs.drop_first())
    } else {
        drop_mpf_segments(segs.drop_first())
    }
}

/// Appends the two big-endian bytes of `x` to `out`.
pub(crate) fn push_be16(out: &mut Vec<u8>, x: u16)
    ensures
        final(out)@ == old(out)@ + be16(x),
{
    out.push((x / 256) as u8);
    out.push((x % 256) as u8);
    assert(out@ =~= old(out)@ + be16(x));
}

/// Appends the four big-endian bytes of `x` to `out`.
pub(crate) fn push_be32(out: &mut Vec<u8>, x: u32)
    ensures
        final(out)@ == old(out)@ + be32(x),
{
    out.push((x / 0x1000000 % 256) as u8);
    out.push((x / 0x10000 % 256) as u8);
    out.push((x / 0x100 % 256) as u8);
    out.push((x % 256) as u8);
    assert(out@ =~= old(out)@ + be32(x));
}

/// Copies a byte vector.
pub(crate) fn clone_bytes(v: &Vec<u8>) -> (r: Vec<u8>)
    ensures
        r@ == v@,
{
    let mut out: Vec<u8> = Vec::new();
    out.extend_from_slice(v.as_slice());
    assert(out@ =~= v@);
    out
}

/// Copies one segment; the copy has the same model.
pub(crate) fn clone_segment(seg: &JpegSegment) -> (r: JpegSegment)
    ensures
        r@ == seg@,
{
    JpegSegment { marker: seg.marker, data: clone_bytes(&seg.data), offset: seg.offset }
}

/// Computes the emitted length field for a payload of `n` bytes.
fn emit_len_field(n: usize) -> (r: u16)
    ensures
        r == len_field(n as nat),
{
    let low: u16 = (n % 65536) as u16;
    let r = low.wrapping_add(2);
    proof {
        assert((((n as nat) % 0x10000) + 2) % 0x10000 == ((n as nat) + 2) % 0x10000)
            by (nonlinear_arith);
    }
    r
}

/// JPEG file writer for creating UltraHDR images.
pub struct JpegWriter {
    segments: Vec<JpegSegment>,
    scan_data: Vec<u8>,
}

impl JpegWriter {
    /// The models of the segment list held by the writer.
    pub closed spec fn spec_segments(self) -> Seq<SegmentModel> {
        seg_models(self.segments@)
    }

    /// The scan bytes held by the writer.
    pub closed spec fn spec_scan(self) -> Seq<u8> {
        self.scan_data@
    }

    /// Creates a new JPEG writer with segments from a parsed JPEG.
    pub fn new(segments: Vec<JpegSegment>, scan_data: Vec<u8>) -> (r: JpegWriter)
        ensures
            r.spec_segments() == seg_models(segments@),
            r.spec_scan() == scan_data@,
    {
        JpegWriter { segments, scan_data }
    }

    /// Creates an empty JPEG writer.
    pub fn empty() -> (r: JpegWriter)
        ensures
            r.spec_segments() == Seq::<SegmentModel>::empty(),
            r.spec_scan() == Seq::<u8>::empty(),
    {
        let w = JpegWriter { segments: Vec::new(), scan_data: Vec::new() };
        assert(w.spec_segments() =~= Seq::<SegmentModel>::empty());
        w
    }

    /// Adds a segment to the end of the list.
    pub fn add_segment(&mut self, segment: JpegSegment)
        ensures
            final(self).spec_segments() == old(self).spec_segments().push(segment@),
            final(self).spec_scan() == old(self).spec_scan(),
    {
        self.segments.push(segment);
        assert(self.spec_segments() =~= old(self).spec_segments().push(segment@));
    }

    /// Inserts a segment at a specific index.
    pub fn insert_segment(&mut self, index: usize, segment: JpegSegment)
        requires
            index <= old(self).spec_segments().len(),
        ensures
            final(self).spec_segments() == old(self).spec_segments().insert(
                index as int,
                segment@,
            ),
            final(self).spec_scan() == old(self).spec_scan(),
    {
        self.segments.insert(index, segment);
        assert(self.spec_segments() =~= old(self).spec_segments().insert(index as int, segment@));
    }

    /// Sets the scan data.
    pub fn set_scan_data(&mut self, data: Vec<u8>)
        ensures
            final(self).spec_segments() == old(self).spec_segments(),
            final(self).spec_scan() == data@,
    {
        self.scan_data = data;
        assert(self.spec_segments() =~= old(self).spec_segments());
    }

    /// Whether a segment stands before the XMP insertion point: SOI, JFIF
    /// APP0 and Exif APP1 segments are kept ahead of the XMP.
    pub open spec fn spec_before_xmp(seg: SegmentModel) -> bool {
        seg.marker == MarkerType::Soi || seg.marker == MarkerType::App0 || (seg.marker
            == MarkerType::App1 && seg.is_exif())
    }

    /// The index where an XMP segment is inserted: after the leading run of
    /// SOI, APP0 and Exif segments.
    pub open spec fn spec_xmp_insert_pos(segs: Seq<SegmentModel>) -> int
        decreases segs.len(),
    {
        if segs.len() == 0 {
            0
        } else if Self::spec_before_xmp(segs[0]) {
            1 + Self::spec_xmp_insert_pos(segs.drop_first())
        } else {
            0
        }
    }

    /// The XMP insertion point is a valid index just past the leading run.
    pub proof fn lemma_xmp_insert_pos_bounds(segs: Seq<SegmentModel>)
        ensures
            0 <= Self::spec_xmp_insert_pos(segs) <= segs.len(),
            forall|j: int|
                0 <= j < Self::spec_xmp_insert_pos(segs) ==> Self::spec_before_xmp(
                    #[trigger] segs[j],
                ),
            Self::spec_xmp_insert_pos(segs) < segs.len() ==> !Self::spec_before_xmp(
                segs[Self::spec_xmp_insert_pos(segs)],
            ),
        decreases segs.len(),
    {
        if segs.len() > 0 && Self::spec_before_xmp(segs[0]) {
            Self::lemma_xmp_insert_pos_bounds(segs.drop_first());
            let pos = Self::spec_xmp_insert_pos(segs);
            assert forall|j: int| 0 <= j < pos implies Self::spec_before_xmp(
                #[trigger] segs[j],
            ) by {
                if j > 0 {
                    assert(segs[j] == segs.drop_first()[j - 1]);
                }
            }
            if pos < segs.len() {
                assert(segs[pos] == segs.drop_first()[pos - 1]);
            }
        }
    }

    fn find_xmp_insert_position(&self) -> (r: usize)
        ensures
            r == Self::spec_xmp_insert_pos(self.spec_segments()),
    {
        let ghost models = self.spec_segments();
        let n = self.segments.len();
        let mut i: usize = 0;
        assert(models.skip(0) =~= models);
        while i < n
            invariant
                n == self.segments@.len(),
                models == self.spec_segments(),
                models.len() == n,
                0 <= i <= n,
                Self::spec_xmp_insert_pos(models.skip(i as int)) + i == Self::spec_xmp_insert_pos(
                    models,
                ),
            decreases n - i,
        {
            let seg = &self.segments[i];
            let before = match seg.marker {
                MarkerType::Soi => true,
                MarkerType::App0 => true,
                MarkerType::App1 => seg.is_exif(),
                _ => false,
            };
            proof {
                assert(models.skip(i as int)[0] == models[i as int]);
                assert(models[i as int] == self.segments@[i as int]@);
                assert(before == Self::spec_before_xmp(models[i as int]));
            }
            if !before {
                return i;
            }
            proof {
                assert(models.skip(i as int).drop_first() =~= models.skip(i as int + 1));
            }
            i += 1;
        }
        proof {
            assert(models.skip(n as int) =~= Seq::<SegmentModel>::empty());
        }
        n
    }

    /// The index where an extended-XMP segment is inserted: directly after
    /// the first XMP segment, or at the XMP insertion point if there is none.
    pub open spec fn spec_ext_xmp_insert_pos(segs: Seq<SegmentModel>) -> int {
        if exists|j: int| 0 <= j < segs.len() && (#[trigger] segs[j]).is_xmp() {
            (choose|j: int|
                0 <= j < segs.len() && (#[trigger] segs[j]).is_xmp() && forall|k: int|
                    0 <= k < j ==> !(#[trigger] segs[k]).is_xmp()) + 1
        } else {
            Self::spec_xmp_insert_pos(segs)
        }
    }

    fn find_extended_xmp_insert_position(&self) -> (r: usize)
        ensures
            r == Self::spec_ext_xmp_insert_pos(self.spec_segments()),
            r <= self.spec_segments().len(),
    {
        let ghost models = self.spec_segments();
        let n = self.segments.len();
        let mut i: usize = 0;
        while i < n
            invariant
                n == self.segments@.len(),
                models == self.spec_segments(),
                models.len() == n,
                0 <= i <= n,
                forall|k: int| 0 <= k < i ==> !(#[trigger] models[k]).is_xmp(),
            decreases n - i,
        {
            proof {
                assert(models[i as int] == self.segments@[i as int]@);
            }
            if self.segments[i].is_xmp() {
                proof {
                    assert(models[i as int].is_xmp());
                    let w = choose|j: int|
                        0 <= j < models.len() && (#[trigger] models[j]).is_xmp() && forall|k: int|
                            0 <= k < j ==> !(#[trigger] models[k]).is_xmp();
                    assert(w == i as int);
                }
                return i + 1;
            }
            i += 1;
        }
        proof {
            Self::lemma_xmp_insert_pos_bounds(models);
        }
        self.find_xmp_insert_position()
    }

    /// The index where an MPF segment is inserted: after the last APP1
    /// segment, else after the first APP0 segment, else 1 (after SOI).
    pub open spec fn spec_mpf_insert_pos(segs: Seq<SegmentModel>) -> int {
        if exists|j: int| 0 <= j < segs.len() && (#[trigger] segs[j]).marker == MarkerType::App1 {
            (choose|j: int|
                0 <= j < segs.len() && (#[trigger] segs[j]).marker == MarkerType::App1 && forall|
                    k: int,
                |
                    j < k < segs.len() ==> (#[trigger] segs[k]).marker != MarkerType::App1) + 1
        } else if exists|j: int|
            0 <= j < segs.len() && (#[trigger] segs[j]).marker == MarkerType::App0 {
            (choose|j: int|
                0 <= j < segs.len() && (#[trigger] segs[j]).marker == MarkerType::App0 && forall|
                    k: int,
                |
                    0 <= k < j ==> (#[trigger] segs[k]).marker != MarkerType::App0) + 1
        } else {
            1
        }
    }

    pub(crate) fn find_mpf_insert_position(&self) -> (r: usize)
        ensures
            r == Self::spec_mpf_insert_pos(self.spec_segments()),
            r <= self.spec_segments().len() || r == 1,
    {
        let ghost models = self.spec_segments();
        let n = self.segments.len();
        let mut i: usize = n;
        while i > 0
            invariant
                n == self.segments@.len(),
                models == self.spec_segments(),
                models.len() == n,
                0 <= i <= n,
                forall|k: int| i <= k < n ==> (#[trigger] models[k]).marker != MarkerType::App1,
            decreases i,
        {
            i -= 1;
            proof {
                assert(models[i as int] == self.segments@[i as int]@);
            }
            if matches!(self.segments[i].marker, MarkerType::App1) {
                proof {
                    assert(models[i as int].marker == MarkerType::App1);
                    let w = choose|j: int|
                        0 <= j < models.len() && (#[trigger] models[j]).marker == MarkerType::App1
                            && forall|k: int|
                            j < k < models.len() ==> (#[trigger] models[k]).marker
                                != MarkerType::App1;
                    assert(w == i as int);
                }
                return i + 1;
            }
        }
        let mut i: usize = 0;
        while i < n
            invariant
                n == self.segments@.len(),
                models == self.spec_segments(),
                models.len() == n,
                0 <= i <= n,
                forall|k: int| 0 <= k < n ==> (#[trigger] models[k]).marker != MarkerType::App1,
                forall|k: int| 0 <= k < i ==> (#[trigger] models[k]).marker != MarkerType::App0,
            decreases n - i,
        {
            proof {
                assert(models[i as int] == self.segments@[i as int]@);
            }
            if matches!(self.segments[i].marker, MarkerType::App0) {
                proof {
                    assert(models[i as int].marker == MarkerType::App0);
                    let w = choose|j: int|
                        0 <= j < models.len() && (#[trigger] models[j]).marker == MarkerType::App0
                            && forall|k: int|
                            0 <= k < j ==> (#[trigger] models[k]).marker != MarkerType::App0;
                    assert(w == i as int);
                }
                return i + 1;
            }
            i += 1;
        }
        1
    }

    /// Adds an XMP APP1 segment carrying `xmp_data` behind the XMP namespace
    /// prefix, at the XMP insertion point. Rejects payloads that would not
    /// fit the 16-bit segment length.
    pub fn add_xmp_segment(&mut self, xmp_data: &[u8]) -> (r: Result<(), UltraHdrError>)
        ensures
            match r {
                Ok(_) => {
                    let pos = Self::spec_xmp_insert_pos(old(self).spec_segments());
                    &&& xmp_ns_prefix().len() + xmp_data@.len() <= 65533
                    &&& 0 <= pos <= old(self).spec_segments().len()
                    &&& final(self).spec_segments() == old(self).spec_segments().insert(
                        pos,
                        (SegmentModel {
                            marker: MarkerType::App1,
                            data: xmp_ns_prefix() + xmp_data@,
                            offset: 0,
                        }),
                    )
                    &&& final(self).spec_scan() == old(self).spec_scan()
                },
                Err(e) => {
                    &&& e matches UltraHdrError::XmpError(_)
                    &&& xmp_ns_prefix().len() + xmp_data@.len() > 65533
                    &&& *final(self) == *old(self)
                },
            },
    {
        let ns = "http://ns.adobe.com/xap/1.0/\u{0}".as_bytes();
        if xmp_data.len() > 65533 || ns.len() > 65533 - xmp_data.len() {
            return Err(
                UltraHdrError::XmpError(String::from_str("XMP data too large for single segment")),
            );
        }
        let mut data: Vec<u8> = Vec::new();
        data.extend_from_slice(ns);
        data.extend_from_slice(xmp_data);
        assert(data@ =~= xmp_ns_prefix() + xmp_data@);
        proof {
            Self::lemma_xmp_insert_pos_bounds(self.spec_segments());
        }
        let insert_pos = self.find_xmp_insert_position();
        let segment = JpegSegment::new(MarkerType::App1, data, 0);
        self.insert_segment(insert_pos, segment);
        Ok(())
    }

    /// Adds an Extended XMP APP1 segment: namespace prefix, the 32-byte
    /// MD5 digest text, big-endian total length and chunk offset, then the
    /// chunk itself.
    pub fn add_extended_xmp_segment(
        &mut self,
        xmp_data: &[u8],
        md5_digest: &str,
        offset: u32,
        total_length: u32,
    ) -> (r: Result<(), UltraHdrError>)
        ensures
            r is Ok,
            ({
                let pos = Self::spec_ext_xmp_insert_pos(old(self).spec_segments());
                &&& 0 <= pos <= old(self).spec_segments().len()
                &&& final(self).spec_segments() == old(self).spec_segments().insert(
                    pos,
                    (SegmentModel {
                        marker: MarkerType::App1,
                        data: ext_xmp_ns_prefix() + md5_digest.spec_bytes() + be32(total_length)
                            + be32(offset) + xmp_data@,
                        offset: 0,
                    }),
                )
                &&& final(self).spec_scan() == old(self).spec_scan()
            }),
    {
        let ns = "http://ns.adobe.com/xmp/extension/\u{0}".as_bytes();
        let mut data: Vec<u8> = Vec::new();
        data.extend_from_slice(ns);
        data.extend_from_slice(md5_digest.as_bytes());
        push_be32(&mut data, total_length);
        push_be32(&mut data, offset);
        data.extend_from_slice(xmp_data);
        assert(data@ =~= ext_xmp_ns_prefix() + md5_digest.spec_bytes() + be32(total_length) + be32(
            offset,
        ) + xmp_data@);
        let insert_pos = self.find_extended_xmp_insert_position();
        let segment = JpegSegment::new(MarkerType::App1, data, 0);
        self.insert_segment(insert_pos, segment);
        Ok(())
    }

    /// Adds an MPF APP2 segment whose payload declares a gain map of
    /// `gain_map_size` bytes at byte `gain_map_offset` of the final file,
    /// inserted at the MPF insertion point.
    pub fn add_mpf_segment(&mut self, gain_map_offset: u32, gain_map_size: u32) -> (r: Result<
        (),
        UltraHdrError,
    >)
        requires
            old(self).spec_segments().len() >= 1,
        ensures
            r is Ok,
            0 <= Self::spec_mpf_insert_pos(old(self).spec_segments()) <= old(
                self,
            ).spec_segments().len(),
            final(self).spec_segments() == old(self).spec_segments().insert(
                Self::spec_mpf_insert_pos(old(self).spec_segments()),
                (SegmentModel {
                    marker: MarkerType::App2,
                    data: crate::mpf::mpf_payload(gain_map_offset, gain_map_size),
                    offset: 0,
                }),
            ),
            final(self).spec_scan() == old(self).spec_scan(),
    {
        let mpf_data = crate::mpf::create_mpf_data(gain_map_offset, gain_map_size);
        let insert_pos = self.find_mpf_insert_position();
        let segment = JpegSegment::new(MarkerType::App2, mpf_data, 0);
        self.insert_segment(insert_pos, segment);
        Ok(())
    }

    /// Removes all XMP and extended-XMP segments.
    pub fn remove_xmp_segments(&mut self)
        ensures
            final(self).spec_segments() == drop_xmp_segments(old(self).spec_segments()),
            final(self).spec_scan() == old(self).spec_scan(),
    {
        let ghost models = self.spec_segments();
        let n = self.segments.len();
        let mut kept: Vec<JpegSegment> = Vec::new();
        let mut i: usize = 0;
        assert(models.skip(0) =~= models);
        assert(seg_models(kept@) =~= Seq::<SegmentModel>::empty());
        while i < n
            invariant
                n == self.segments@.len(),
                models == self.spec_segments(),
                models.len() == n,
                0 <= i <= n,
                seg_models(kept@) + drop_xmp_segments(models.skip(i as int)) == drop_xmp_segments(
                    models,
                ),
            decreases n - i,
        {
            let seg = &self.segments[i];
            proof {
                assert(models.skip(i as int)[0] == models[i as int]);
                assert(models[i as int] == self.segments@[i as int]@);
                assert(models.skip(i as int).drop_first() =~= models.skip(i as int + 1));
            }
            let ghost pre = seg_models(kept@);
            if !(seg.is_xmp() || seg.is_extended_xmp()) {
                let copy = clone_segment(seg);
                kept.push(copy);
                assert(seg_models(kept@) =~= pre + seq![models[i as int]]);
                assert(seg_models(kept@) + drop_xmp_segments(models.skip(i as int + 1))
                    =~= drop_xmp_segments(models));
            }
            i += 1;
        }
        proof {
            assert(models.skip(n as int) =~= Seq::<SegmentModel>::empty());
            assert(seg_models(kept@) =~= drop_xmp_segments(models));
        }
        self.segments = kept;
    }

    /// Removes all MPF segments.
    pub fn remove_mpf_segments(&mut self)
        ensures
            final(self).spec_segments() == drop_mpf_segments(old(self).spec_segments()),
            final(self).spec_scan() == old(self).spec_scan(),
    {
        let ghost models = self.spec_segments();
        let n = self.segments.len();
        let mut kept: Vec<JpegSegment> = Vec::new();
        let mut i: usize = 0;
        assert(models.skip(0) =~= models);
        assert(seg_models(kept@) =~= Seq::<SegmentModel>::empty());
        while i < n
            invariant
                n == self.segments@.len(),
                models == self.spec_segments(),
                models.len() == n,
                0 <= i <= n,
                seg_models(kept@) + drop_mpf_segments(models.skip(i as int)) == drop_mpf_segments(
                    models,
                ),
            decreases n - i,
        {
            let seg = &self.segments[i];
            proof {
                assert(models.skip(i as int)[0] == models[i as int]);
                assert(models[i as int] == self.segments@[i as int]@);
                assert(models.skip(i as int).drop_first() =~= models.skip(i as int + 1));
            }
            let ghost pre = seg_models(kept@);
            if !seg.is_mpf() {
                let copy = clone_segment(seg);
                kept.push(copy);
                assert(seg_models(kept@) =~= pre + seq![models[i as int]]);
                assert(seg_models(kept@) + drop_mpf_segments(models.skip(i as int + 1))
                    =~= drop_mpf_segments(models));
            }
            i += 1;
        }
        proof {
            assert(models.skip(n as int) =~= Seq::<SegmentModel>::empty());
            assert(seg_models(kept@) =~= drop_mpf_segments(models));
        }
        self.segments = kept;
    }

    /// Writes the JPEG to a byte vector: SOI, each emitted segment, the scan
    /// bytes directly after the SOS payload, then EOI.
    pub fn write(&self) -> (r: Result<Vec<u8>, UltraHdrError>)
        ensures
            r matches Ok(v) && v@ == spec_serialize(self.spec_segments(), self.spec_scan()),
    {
        let ghost models = self.spec_segments();
        let mut out: Vec<u8> = Vec::new();
        out.push(0xFF);
        out.push(0xD8);
        assert(out@ =~= seq![0xFFu8, 0xD8u8]);
        assert(out@ =~= seq![0xFFu8, 0xD8u8] + serialize_segments(models.take(0), self.scan_data@));

        let n = self.segments.len();
        let mut i: usize = 0;
        while i < n
            invariant
                n == self.segments@.len(),
                models == self.spec_segments(),
                models.len() == n,
                0 <= i <= n,
                out@ == seq![0xFFu8, 0xD8u8] + serialize_segments(
                    models.take(i as int),
                    self.scan_data@,
                ),
            decreases n - i,
        {
            let seg = &self.segments[i];
            let ghost pre = out@;
            proof {
                assert(models[i as int] == self.segments@[i as int]@);
                assert(models.take(i as int + 1) =~= models.take(i as int).push(models[i as int]));
                lemma_serialize_segments_push(
                    models.take(i as int),
                    models[i as int],
                    self.scan_data@,
                );
            }
            match seg.marker {
                MarkerType::Soi | MarkerType::Eoi => {
                    assert(out@ =~= pre + seg_bytes(models[i as int], self.scan_data@));
                },
                MarkerType::Sos => {
                    out.push(0xFF);
                    out.push(seg.marker.to_byte());
                    let len16 = emit_len_field(seg.data.len());
                    push_be16(&mut out, len16);
                    out.extend_from_slice(seg.data.as_slice());
                    out.extend_from_slice(self.scan_data.as_slice());
                    assert(out@ =~= pre + seg_bytes(models[i as int], self.scan_data@));
                },
                _ => {
                    if seg.marker.has_length() {
                        out.push(0xFF);
                        out.push(seg.marker.to_byte());
                        let len16 = emit_len_field(seg.data.len());
                        push_be16(&mut out, len16);
                        out.extend_from_slice(seg.data.as_slice());
                        assert(out@ =~= pre + seg_bytes(models[i as int], self.scan_data@));
                    } else {
                        out.push(0xFF);
                        out.push(seg.marker.to_byte());
                        assert(out@ =~= pre + seg_bytes(models[i as int], self.scan_data@));
                    }
                },
            }
            proof {
                assert(out@ =~= seq![0xFFu8, 0xD8u8] + serialize_segments(
                    models.take(i as int + 1),
                    self.scan_data@,
                ));
            }
            i += 1;
        }
        proof {
            assert(models.take(n as int) =~= models);
        }
        out.push(0xFF);
        out.push(0xD9);
        assert(out@ =~= spec_serialize(models, self.scan_data@));
        Ok(out)
    }

    /// Writes the JPEG with the gain-map JPEG appended verbatim.
    pub fn write_with_gain_map(&self, gain_map_jpeg: &[u8]) -> (r: Result<Vec<u8>, UltraHdrError>)
        ensures
            r matches Ok(v) && v@ == spec_serialize(self.spec_segments(), self.spec_scan())
                + gain_map_jpeg@,
    {
        let base = match self.write() {
            Ok(b) => b,
            Err(e) => {
                return Err(e);
            },
        };
        let mut out = base;
        out.extend_from_slice(gain_map_jpeg);
        Ok(out)
    }
}

/// Dropping XMP segments keeps a non-XMP head segment in front.
pub proof fn lemma_drop_xmp_keeps_head(segs: Seq<SegmentModel>)
    requires
        segs.len() > 0,
        !segs[0].is_xmp(),
        !segs[0].is_extended_xmp(),
    ensures
        drop_xmp_segments(segs).len() >= 1,
        drop_xmp_segments(segs)[0] == segs[0],
{
    assert(drop_xmp_segments(segs) == seq![segs[0]] + drop_xmp_segments(segs.drop_first()));
}

/// Dropping MPF segments keeps a non-MPF head segment in front.
pub proof fn lemma_drop_mpf_keeps_head(segs: Seq<SegmentModel>)
    requires
        segs.len() > 0,
        !segs[0].is_mpf(),
    ensures
        drop_mpf_segments(segs).len() >= 1,
        drop_mpf_segments(segs)[0] == segs[0],
{
    assert(drop_mpf_segments(segs) == seq![segs[0]] + drop_mpf_segments(segs.drop_first()));
}

/// Serialization distributes over concatenation of segment lists.
pub proof fn lemma_serialize_segments_concat(a: Seq<SegmentModel>, b: Seq<SegmentModel>, scan: Seq<u8>)
    ensures
        serialize_segments(a + b, scan) == serialize_segments(a, scan) + serialize_segments(
            b,
            scan,
        ),
    decreases a.len(),
{
    if a.len() == 0 {
        assert(a + b =~= b);
        assert(serialize_segments(a, scan) + serialize_segments(b, scan) =~= serialize_segments(
            b,
            scan,
        ));
    } else {
        assert((a + b)[0] == a[0]);
        assert((a + b).len() > 0);
        assert((a + b).drop_first() =~= a.drop_first() + b);
        lemma_serialize_segments_concat(a.drop_first(), b, scan);
        assert(serialize_segments(a + b, scan) =~= serialize_segments(a, scan)
            + serialize_segments(b, scan));
    }
}

/// Inserting one segment adds exactly its bytes at the position where the
/// serializations of the two halves meet.
pub proof fn lemma_serialize_insert(
    segs: Seq<SegmentModel>,
    pos: int,
    seg: SegmentModel,
    scan: Seq<u8>,
)
    requires
        0 <= pos <= segs.len(),
    ensures
        serialize_segments(segs.insert(pos, seg), scan) == serialize_segments(
            segs.take(pos),
            scan,
        ) + seg_bytes(seg, scan) + serialize_segments(segs.skip(pos), scan),
        serialize_segments(segs, scan) == serialize_segments(segs.take(pos), scan)
            + serialize_segments(segs.skip(pos), scan),
{
    assert(segs.insert(pos, seg) =~= segs.take(pos) + (seq![seg] + segs.skip(pos)));
    lemma_serialize_segments_concat(segs.take(pos), seq![seg] + segs.skip(pos), scan);
    assert(seq![seg][0] == seg);
    assert(seq![seg].drop_first() =~= Seq::<SegmentModel>::empty());
    assert(serialize_segments(Seq::<SegmentModel>::empty(), scan) == Seq::<u8>::empty());
    lemma_serialize_segments_concat(seq![seg], segs.skip(pos), scan);
    assert(serialize_segments(seq![seg], scan) =~= seg_bytes(seg, scan));
    assert(segs =~= segs.take(pos) + segs.skip(pos));
    lemma_serialize_segments_concat(segs.take(pos), segs.skip(pos), scan);
    assert(serialize_segments(segs.insert(pos, seg), scan) =~= serialize_segments(
        segs.take(pos),
        scan,
    ) + seg_bytes(seg, scan) + serialize_segments(segs.skip(pos), scan));
}

} // verus!
