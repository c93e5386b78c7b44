//! JPEG marker segments, their ghost model, and the byte-prefix queries
//! used on them.

use vstd::prelude::*;

use crate::marker::MarkerType;

verus! {

/// Namespace prefix of an XMP APP1 payload, including the terminating NUL.
pub open spec fn xmp_ns_prefix() -> Seq<u8> {
    vstd::utf8::encode_utf8("http://ns.adobe.com/xap/1.0/\u{0}"@)
}

/// Namespace prefix of an extended-XMP APP1 payload.
pub open spec fn ext_xmp_ns_prefix() -> Seq<u8> {
    vstd::utf8::encode_utf8("http://ns.adobe.com/xmp/extension/\u{0}"@)
}

/// Prefix of an Exif APP1 payload.
pub open spec fn exif_prefix() -> Seq<u8> {
    vstd::utf8::encode_utf8("Exif\u{0}\u{0}"@)
}

/// Prefix of an ICC profile APP2 payload.
pub open spec fn icc_prefix() -> Seq<u8> {
    vstd::utf8::encode_utf8("ICC_PROFILE\u{0}"@)
}

/// Prefix of an MPF APP2 payload.
pub open spec fn mpf_prefix() -> Seq<u8> {
    vstd::utf8::encode_utf8("MPF\u{0}"@)
}

/// Whether `prefix` is a prefix of `s`.
pub open spec fn seq_starts_with(s: Seq<u8>, prefix: Seq<u8>) -> bool {
    s.len() >= prefix.len() && s.subrange(0, prefix.len() as int) == prefix
}

/// Checks whether `data` begins with the bytes of `prefix`.
pub fn bytes_start_with(data: &[u8], prefix: &[u8]) -> (r: bool)
    ensures
        r == seq_starts_with(data@, prefix@),
{
    if data.len() < prefix.len() {
        assert(!seq_starts_with(data@, prefix@));
        return false;
    }
    let n = prefix.len();
    let mut i: usize = 0;
    while i < n
        invariant
            n == prefix@.len() <= data@.len(),
            i <= n,
            forall|j: int| 0 <= j < i ==> data@[j] == prefix@[j],
        decreases n - i,
    {
        if data[i] != prefix[i] {
            assert(data@.subrange(0, n as int)[i as int] != prefix@[i as int]);
            return false;
        }
        i += 1;
    }
    assert(data@.subrange(0, n as int) =~= prefix@);
    true
}

/// The ghost model of a JPEG segment: its marker, payload bytes and source
/// offset as mathematical values.
pub ghost struct SegmentModel {
    /// The marker type
    pub marker: MarkerType,
    /// The payload bytes
    pub data: Seq<u8>,
    /// Offset in the parsed input, 0 when synthesized
    pub offset: nat,
}

impl SegmentModel {
    /// Payload begins with the XMP namespace and the marker is APP1.
    pub open spec fn is_xmp(self) -> bool {
        self.marker == MarkerType::App1 && seq_starts_with(self.data, xmp_ns_prefix())
    }

    /// Payload begins with the extended-XMP namespace and the marker is APP1.
    pub open spec fn is_extended_xmp(self) -> bool {
        self.marker == MarkerType::App1 && seq_starts_with(self.data, ext_xmp_ns_prefix())
    }

    /// Payload begins with the Exif prefix and the marker is APP1.
    pub open spec fn is_exif(self) -> bool {
        self.marker == MarkerType::App1 && seq_starts_with(self.data, exif_prefix())
    }

    /// Payload begins with the ICC profile prefix and the marker is APP2.
    pub open spec fn is_icc_profile(self) -> bool {
        self.marker == MarkerType::App2 && seq_starts_with(self.data, icc_prefix())
    }

    /// Payload begins with the MPF prefix and the marker is APP2.
    pub open spec fn is_mpf(self) -> bool {
        self.marker == MarkerType::App2 && seq_starts_with(self.data, mpf_prefix())
    }

    /// The XMP payload after the namespace prefix.
    pub open spec fn xmp_data(self) -> Seq<u8> {
        self.data.subrange(xmp_ns_prefix().len() as int, self.data.len() as int)
    }
}

/// A JPEG segment: a marker, its payload (excluding the 2-byte marker and the
/// 2-byte length field), and the byte offset it was parsed from (0 when
/// synthesized).
#[derive(Debug, Clone)]
pub struct JpegSegment {
    /// The marker type
    pub marker: MarkerType,
    /// The segment data (excluding marker and length bytes)
    pub data: Vec<u8>,
    /// Original offset in the file
    pub offset: usize,
}

impl View for JpegSegment {
    type V = SegmentModel;

    open spec fn view(&self) -> SegmentModel {
        SegmentModel { marker: self.marker, data: self.data@, offset: self.offset as nat }
    }
}

/// The models of a sequence of segments, elementwise.
pub open spec fn seg_models(segs: Seq<JpegSegment>) -> Seq<SegmentModel> {
    Seq::new(segs.len(), |i: int| segs[i]@)
}

impl JpegSegment {
    /// Creates a new JPEG segment.
    pub fn new(marker: MarkerType, data: Vec<u8>, offset: usize) -> (r: JpegSegment)
        ensures
            r@ == (SegmentModel { marker, data: data@, offset: offset as nat }),
    {
        JpegSegment { marker, data, offset }
    }

    /// Checks if this segment contains XMP data.
    pub fn is_xmp(&self) -> (r: bool)
        ensures
            r == self@.is_xmp(),
    {
        if !matches!(self.marker, MarkerType::App1) {
            return false;
        }
        bytes_start_with(self.data.as_slice(), "http://ns.adobe.com/xap/1.0/\u{0}".as_bytes())
    }

    /// Checks if this segment contains Extended XMP data.
    pub fn is_extended_xmp(&self) -> (r: bool)
        ensures
            r == self@.is_extended_xmp(),
    {
        if !matches!(self.marker, MarkerType::App1) {
            return false;
        }
        bytes_start_with(
            self.data.as_slice(),
            "http://ns.adobe.com/xmp/extension/\u{0}".as_bytes(),
        )
    }

    /// Checks if this segment contains Exif data.
    pub fn is_exif(&self) -> (r: bool)
        ensures
            r == self@.is_exif(),
    {
        if !matches!(self.marker, MarkerType::App1) {
            return false;
        }
        bytes_start_with(self.data.as_slice(), "Exif\u{0}\u{0}".as_bytes())
    }

    /// Checks if this segment contains an ICC profile.
    pub fn is_icc_profile(&self) -> (r: bool)
        ensures
            r == self@.is_icc_profile(),
    {
        if !matches!(self.marker, MarkerType::App2) {
            return false;
        }
        bytes_start_with(self.data.as_slice(), "ICC_PROFILE\u{0}".as_bytes())
    }

    /// Checks if this segment is an MPF (Multi-Picture Format) segment.
    pub fn is_mpf(&self) -> (r: bool)
        ensures
            r == self@.is_mpf(),
    {
        if !matches!(self.marker, MarkerType::App2) {
            return false;
        }
        bytes_start_with(self.data.as_slice(), "MPF\u{0}".as_bytes())
    }

    /// Gets the XMP data if this is an XMP segment.
    pub fn get_xmp_data(&self) -> (r: Option<&[u8]>)
        ensures
            match r {
                Some(d) => self@.is_xmp() && d@ == self@.xmp_data(),
                None => !self@.is_xmp(),
            },
    {
        if !self.is_xmp() {
            return None;
        }
        let ns = "http://ns.adobe.com/xap/1.0/\u{0}".as_bytes();
        Some(&self.data.as_slice()[ns.len()..self.data.len()])
    }
}

} // verus!
