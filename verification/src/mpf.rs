//! MPF (Multi-Picture Format) APP2 payloads: a mini-TIFF container that
//! indexes the primary image and the appended gain-map JPEG.
//!
//! The writer emits a fixed little-endian layout: TIFF header, one IFD with
//! the MPFVersion, NumberOfImages and MPEntry tags, and a two-record MP-entry
//! table whose second record carries the gain map's size and byte offset
//! from the start of the file.

use vstd::prelude::*;

verus! {

/// Byte length of the MPF payload the writer emits.
pub const MPF_PAYLOAD_LEN: usize = 86;

/// Serialized size of the whole MPF segment: two marker bytes, two length
/// bytes, and the payload.
pub const MPF_SEGMENT_SIZE: usize = 90;

/// The exact MPF payload bytes for a gain map of `size` bytes standing at
/// byte `offset` of the final file (little-endian TIFF, IFD offset 8, three
/// IFD entries, MP-entry table at TIFF offset 50).
pub open spec fn mpf_payload(gain_map_offset: u32, gain_map_size: u32) -> Seq<u8> {
    seq![
        // "MPF\0"
        0x4Du8, 0x50u8, 0x46u8, 0x00u8,
        // TIFF header: "II", 0x002A, offset 8 to the first IFD
        0x49u8, 0x49u8, 0x2Au8, 0x00u8, 0x08u8, 0x00u8, 0x00u8, 0x00u8,
        // IFD entry count: 3
        0x03u8, 0x00u8,
        // Entry 1: MPFVersion (0xB000), UNDEFINED(7), count 4, value "0100"
        0x00u8, 0xB0u8, 0x07u8, 0x00u8, 0x04u8, 0x00u8, 0x00u8, 0x00u8,
        0x30u8, 0x31u8, 0x30u8, 0x30u8,
        // Entry 2: NumberOfImages (0xB001), LONG(4), count 1, value 2
        0x01u8, 0xB0u8, 0x04u8, 0x00u8, 0x01u8, 0x00u8, 0x00u8, 0x00u8,
        0x02u8, 0x00u8, 0x00u8, 0x00u8,
        // Entry 3: MPEntry (0xB002), UNDEFINED(7), count 32, offset 50
        0x02u8, 0xB0u8, 0x07u8, 0x00u8, 0x20u8, 0x00u8, 0x00u8, 0x00u8,
        0x32u8, 0x00u8, 0x00u8, 0x00u8,
        // Next-IFD pointer: none
        0x00u8, 0x00u8, 0x00u8, 0x00u8,
        // MP entry, primary image: flags 0x20030000, size 0, offset 0
        0x00u8, 0x00u8, 0x03u8, 0x20u8, 0x00u8, 0x00u8, 0x00u8, 0x00u8,
        0x00u8, 0x00u8, 0x00u8, 0x00u8, 0x00u8, 0x00u8, 0x00u8, 0x00u8,
        // MP entry, gain map: flags 0x00030000, then size and offset
        0x00u8, 0x00u8, 0x03u8, 0x00u8,
        (gain_map_size % 256) as u8,
        (gain_map_size / 0x100 % 256) as u8,
        (gain_map_size / 0x10000 % 256) as u8,
        (gain_map_size / 0x1000000 % 256) as u8,
        (gain_map_offset % 256) as u8,
        (gain_map_offset / 0x100 % 256) as u8,
        (gain_map_offset / 0x10000 % 256) as u8,
        (gain_map_offset / 0x1000000 % 256) as u8,
        0x00u8, 0x00u8, 0x00u8, 0x00u8,
    ]
}

/// Appends the four little-endian bytes of `x` to `out`.
fn push_le32(out: &mut Vec<u8>, x: u32)
    ensures
        final(out)@ == old(out)@ + seq![
            (x % 256) as u8,
            (x / 0x100 % 256) as u8,
            (x / 0x10000 % 256) as u8,
            (x / 0x1000000 % 256) as u8,
        ],
{
    out.push((x % 256) as u8);
    out.push((x / 0x100 % 256) as u8);
    out.push((x / 0x10000 % 256) as u8);
    out.push((x / 0x1000000 % 256) as u8);
    assert(out@ =~= old(out)@ + seq![
        (x % 256) as u8,
        (x / 0x100 % 256) as u8,
        (x / 0x10000 % 256) as u8,
        (x / 0x1000000 % 256) as u8,
    ]);
}

/// Creates MPF (Multi-Picture Format) payload bytes referencing a gain map
/// of `gain_map_size` bytes at byte `gain_map_offset` of the file.
pub fn create_mpf_data(gain_map_offset: u32, gain_map_size: u32) -> (r: Vec<u8>)
    ensures
        r@ == mpf_payload(gain_map_offset, gain_map_size),
        r@.len() == MPF_PAYLOAD_LEN,
{
    let mut data: Vec<u8> = Vec::new();
    // "MPF\0"
    data.push(0x4D);
    data.push(0x50);
    data.push(0x46);
    data.push(0x00);
    // TIFF header, little-endian
    data.push(0x49);
    data.push(0x49);
    data.push(0x2A);
    data.push(0x00);
    push_le32(&mut data, 8);
    // IFD entry count
    data.push(0x03);
    data.push(0x00);
    // Entry 1: MPFVersion
    data.push(0x00);
    data.push(0xB0);
    data.push(0x07);
    data.push(0x00);
    push_le32(&mut data, 4);
    data.push(0x30);
    data.push(0x31);
    data.push(0x30);
    data.push(0x30);
    // Entry 2: NumberOfImages
    data.push(0x01);
    data.push(0xB0);
    data.push(0x04);
    data.push(0x00);
    push_le32(&mut data, 1);
    push_le32(&mut data, 2);
    // Entry 3: MPEntry table offset
    data.push(0x02);
    data.push(0xB0);
    data.push(0x07);
    data.push(0x00);
    push_le32(&mut data, 32);
    push_le32(&mut data, 50);
    // Next-IFD pointer
    push_le32(&mut data, 0);
    // MP entry: primary image
    push_le32(&mut data, 0x20030000);
    push_le32(&mut data, 0);
    push_le32(&mut data, 0);
    data.push(0x00);
    data.push(0x00);
    data.push(0x00);
    data.push(0x00);
    // MP entry: gain map
    push_le32(&mut data, 0x00030000);
    push_le32(&mut data, gain_map_size);
    push_le32(&mut data, gain_map_offset);
    data.push(0x00);
    data.push(0x00);
    data.push(0x00);
    data.push(0x00);
    assert(data@ =~= mpf_payload(gain_map_offset, gain_map_size));
    data
}

/// A 16-bit read from `d` at `off` in the given byte order, when in bounds.
pub open spec fn spec_rd16(d: Seq<u8>, le: bool, off: int) -> Option<u16> {
    if off < 0 || off + 2 > d.len() {
        None
    } else if le {
        Some((d[off] + d[off + 1] * 0x100) as u16)
    } else {
        Some((d[off] * 0x100 + d[off + 1]) as u16)
    }
}

/// A 32-bit read from `d` at `off` in the given byte order, when in bounds.
pub open spec fn spec_rd32(d: Seq<u8>, le: bool, off: int) -> Option<u32> {
    if off < 0 || off + 4 > d.len() {
        None
    } else if le {
        Some((d[off] + d[off + 1] * 0x100 + d[off + 2] * 0x10000 + d[off + 3] * 0x1000000) as u32)
    } else {
        Some((d[off] * 0x1000000 + d[off + 1] * 0x10000 + d[off + 2] * 0x100 + d[off + 3]) as u32)
    }
}

fn rd16(d: &[u8], le: bool, off: usize) -> (r: Option<u16>)
    ensures
        r == spec_rd16(d@, le, off as int),
{
    if off >= d.len() || d.len() - off < 2 {
        return None;
    }
    if le {
        Some(d[off] as u16 + d[off + 1] as u16 * 0x100)
    } else {
        Some(d[off] as u16 * 0x100 + d[off + 1] as u16)
    }
}

fn rd32(d: &[u8], le: bool, off: usize) -> (r: Option<u32>)
    ensures
        r == spec_rd32(d@, le, off as int),
{
    if off >= d.len() || d.len() - off < 4 {
        return None;
    }
    if le {
        Some(
            d[off] as u32 + d[off + 1] as u32 * 0x100 + d[off + 2] as u32 * 0x10000 + d[off
                + 3] as u32 * 0x1000000,
        )
    } else {
        Some(
            d[off] as u32 * 0x1000000 + d[off + 1] as u32 * 0x10000 + d[off + 2] as u32 * 0x100
                + d[off + 3] as u32,
        )
    }
}

/// Searches IFD entries `i..count` for the MPEntry tag (0xB002) and returns
/// that entry's count and value-offset fields.
pub open spec fn spec_find_mpentry(d: Seq<u8>, le: bool, ifd: int, count: int, i: int) -> Option<
    (u32, u32),
>
    decreases count - i,
{
    if i >= count {
        None
    } else {
        let es = ifd + 2 + i * 12;
        if es + 12 > d.len() {
            None
        } else if spec_rd16(d, le, es) == Some(0xB002u16) {
            match (spec_rd32(d, le, es + 4), spec_rd32(d, le, es + 8)) {
                (Some(c), Some(o)) => Some((c, o)),
                _ => None,
            }
        } else {
            spec_find_mpentry(d, le, ifd, count, i + 1)
        }
    }
}

/// The gain-map (offset, size) that an MPF payload declares: the size and
/// offset fields of the second 16-byte MP-entry record, reached through the
/// MPEntry IFD tag. `None` when the payload does not carry them.
pub open spec fn spec_parse_mpf(m: Seq<u8>) -> Option<(u32, u32)> {
    if !(m.len() >= 4 && m[0] == 0x4Du8 && m[1] == 0x50u8 && m[2] == 0x46u8 && m[3] == 0x00u8) {
        None
    } else {
        let d = m.skip(4);
        if d.len() < 8 {
            None
        } else {
            let le = d[0] == 0x49u8 && d[1] == 0x49u8;
            match spec_rd32(d, le, 4) {
                None => None,
                Some(ifd32) => {
                    let ifd = ifd32 as int;
                    if ifd >= d.len() {
                        None
                    } else {
                        match spec_rd16(d, le, ifd) {
                            None => None,
                            Some(count) => match spec_find_mpentry(d, le, ifd, count as int, 0) {
                                None => None,
                                Some((c, o)) => {
                                    if c / 16 >= 2 {
                                        let second = o as int + 16;
                                        if second + 16 <= d.len() {
                                            match (
                                                spec_rd32(d, le, second + 4),
                                                spec_rd32(d, le, second + 8),
                                            ) {
                                                (Some(size), Some(offset)) => Some(
                                                    (offset, size),
                                                ),
                                                _ => None,
                                            }
                                        } else {
                                            None
                                        }
                                    } else {
                                        None
                                    }
                                },
                            },
                        }
                    }
                },
            }
        }
    }
}

/// Walks the IFD entries looking for the MPEntry tag.
fn find_mpentry(d: &[u8], le: bool, ifd: usize, count: u16) -> (r: Option<(u32, u32)>)
    requires
        ifd < d@.len(),
        ifd < 0x100000000,
    ensures
        r == spec_find_mpentry(d@, le, ifd as int, count as int, 0),
{
    let mut i: usize = 0;
    while i < count as usize
        invariant
            ifd < d@.len(),
            ifd < 0x100000000,
            0 <= i <= count,
            spec_find_mpentry(d@, le, ifd as int, count as int, i as int) == spec_find_mpentry(
                d@,
                le,
                ifd as int,
                count as int,
                0,
            ),
        decreases count - i,
    {
        let es64: u64 = ifd as u64 + 2 + (i as u64) * 12;
        if es64 + 12 > d.len() as u64 {
            return None;
        }
        let es = es64 as usize;
        let tag = match rd16(d, le, es) {
            None => {
                return None;
            },
            Some(t) => t,
        };
        if tag == 0xB002 {
            let c = match rd32(d, le, es + 4) {
                None => {
                    return None;
                },
                Some(v) => v,
            };
            let o = match rd32(d, le, es + 8) {
                None => {
                    return None;
                },
                Some(v) => v,
            };
            return Some((c, o));
        }
        i += 1;
    }
    None
}

/// Parses MPF payload bytes to find the gain map's (offset, size).
pub fn parse_mpf_for_gainmap(mpf_data: &[u8]) -> (r: Option<(u32, u32)>)
    ensures
        r == spec_parse_mpf(mpf_data@),
{
    if mpf_data.len() < 4 || mpf_data[0] != 0x4D || mpf_data[1] != 0x50 || mpf_data[2] != 0x46
        || mpf_data[3] != 0x00 {
        return None;
    }
    let d: &[u8] = &mpf_data[4..mpf_data.len()];
    assert(d@ =~= mpf_data@.skip(4));
    if d.len() < 8 {
        return None;
    }
    let le = d[0] == 0x49 && d[1] == 0x49;
    let ifd32 = match rd32(d, le, 4) {
        None => {
            return None;
        },
        Some(v) => v,
    };
    if ifd32 as u64 >= d.len() as u64 {
        return None;
    }
    let ifd = ifd32 as usize;
    let count = match rd16(d, le, ifd) {
        None => {
            return None;
        },
        Some(v) => v,
    };

    let found = find_mpentry(d, le, ifd, count);

    let (c, o) = match found {
        None => {
            return None;
        },
        Some(p) => p,
    };
    if c / 16 < 2 {
        return None;
    }
    let second: u64 = o as u64 + 16;
    if second + 16 > d.len() as u64 {
        return None;
    }
    let second = second as usize;
    let size = match rd32(d, le, second + 4) {
        None => {
            return None;
        },
        Some(v) => v,
    };
    let offset = match rd32(d, le, second + 8) {
        None => {
            return None;
        },
        Some(v) => v,
    };
    Some((offset, size))
}

/// Round trip: the MPF payload the writer emits declares exactly the
/// (offset, size) pair it was built from.
pub proof fn lemma_mpf_round_trip(gain_map_offset: u32, gain_map_size: u32)
    ensures
        spec_parse_mpf(mpf_payload(gain_map_offset, gain_map_size)) == Some(
            (gain_map_offset, gain_map_size),
        ),
{
    let m = mpf_payload(gain_map_offset, gain_map_size);
    let d = m.skip(4);
    assert(m.len() == 86);
    assert(d.len() == 82);
    assert(d[0] == 0x49u8 && d[1] == 0x49u8);
    let le = true;
    assert(spec_rd32(d, le, 4) == Some(8u32)) by {
        assert(d[4] == 0x08u8 && d[5] == 0x00u8 && d[6] == 0x00u8 && d[7] == 0x00u8);
    }
    assert(spec_rd16(d, le, 8) == Some(3u16)) by {
        assert(d[8] == 0x03u8 && d[9] == 0x00u8);
    }
    // Entry 0 at 10: tag 0xB000; entry 1 at 22: tag 0xB001; entry 2 at 34:
    // tag 0xB002 with count 32 and value-offset 50.
    assert(spec_rd16(d, le, 10) == Some(0xB000u16)) by {
        assert(d[10] == 0x00u8 && d[11] == 0xB0u8);
    }
    assert(spec_rd16(d, le, 22) == Some(0xB001u16)) by {
        assert(d[22] == 0x01u8 && d[23] == 0xB0u8);
    }
    assert(spec_rd16(d, le, 34) == Some(0xB002u16)) by {
        assert(d[34] == 0x02u8 && d[35] == 0xB0u8);
    }
    assert(spec_rd32(d, le, 38) == Some(32u32)) by {
        assert(d[38] == 0x20u8 && d[39] == 0x00u8 && d[40] == 0x00u8 && d[41] == 0x00u8);
    }
    assert(spec_rd32(d, le, 42) == Some(50u32)) by {
        assert(d[42] == 0x32u8 && d[43] == 0x00u8 && d[44] == 0x00u8 && d[45] == 0x00u8);
    }
    assert(spec_find_mpentry(d, le, 8, 3, 2) == Some((32u32, 50u32)));
    assert(spec_find_mpentry(d, le, 8, 3, 1) == Some((32u32, 50u32)));
    assert(spec_find_mpentry(d, le, 8, 3, 0) == Some((32u32, 50u32)));
    // The second MP-entry record stands at TIFF offset 66; its size field at
    // 70 and offset field at 74.
    assert(spec_rd32(d, le, 70) == Some(gain_map_size)) by {
        assert(d[70] == (gain_map_size % 256) as u8);
        assert(d[71] == (gain_map_size / 0x100 % 256) as u8);
        assert(d[72] == (gain_map_size / 0x10000 % 256) as u8);
        assert(d[73] == (gain_map_size / 0x1000000 % 256) as u8);
        assert((gain_map_size % 256) + (gain_map_size / 0x100 % 256) * 0x100 + (gain_map_size
            / 0x10000 % 256) * 0x10000 + (gain_map_size / 0x1000000 % 256) * 0x1000000
            == gain_map_size) by (bit_vector);
    }
    assert(spec_rd32(d, le, 74) == Some(gain_map_offset)) by {
        assert(d[74] == (gain_map_offset % 256) as u8);
        assert(d[75] == (gain_map_offset / 0x100 % 256) as u8);
        assert(d[76] == (gain_map_offset / 0x10000 % 256) as u8);
        assert(d[77] == (gain_map_offset / 0x1000000 % 256) as u8);
        assert((gain_map_offset % 256) + (gain_map_offset / 0x100 % 256) * 0x100 + (gain_map_offset
            / 0x10000 % 256) * 0x10000 + (gain_map_offset / 0x1000000 % 256) * 0x1000000
            == gain_map_offset) by (bit_vector);
    }
    assert(spec_parse_mpf(m) == Some((gain_map_offset, gain_map_size)));
}

} // verus!
