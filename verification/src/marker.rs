//! JPEG marker types.

use vstd::prelude::*;

verus! {

/// A JPEG marker, identified by the byte that follows `0xFF` in the stream.
#[derive(Debug, Clone, Copy, PartialEq, Eq, Structural)]
pub enum MarkerType {
    /// Start of Image (0xD8)
    Soi,
    /// End of Image (0xD9)
    Eoi,
    /// APP0, JFIF (0xE0)
    App0,
    /// APP1, Exif or XMP (0xE1)
    App1,
    /// APP2, ICC profile or MPF (0xE2)
    App2,
    /// APP3..APP15, stored as the offset from 0xE0
    AppN(u8),
    /// Start of Frame, baseline DCT (0xC0)
    Sof0,
    /// Start of Frame, progressive DCT (0xC2)
    Sof2,
    /// Define Huffman Table (0xC4)
    Dht,
    /// Define Quantization Table (0xDB)
    Dqt,
    /// Define Restart Interval (0xDD)
    Dri,
    /// Start of Scan (0xDA)
    Sos,
    /// Comment (0xFE)
    Com,
    /// Any other marker byte
    Other(u8),
}

impl MarkerType {
    /// The marker that a given byte denotes.
    pub open spec fn spec_from_byte(byte: u8) -> MarkerType {
        if byte == 0xD8 {
            MarkerType::Soi
        } else if byte == 0xD9 {
            MarkerType::Eoi
        } else if byte == 0xE0 {
            MarkerType::App0
        } else if byte == 0xE1 {
            MarkerType::App1
        } else if byte == 0xE2 {
            MarkerType::App2
        } else if 0xE3 <= byte && byte <= 0xEF {
            MarkerType::AppN((byte - 0xE0) as u8)
        } else if byte == 0xC0 {
            MarkerType::Sof0
        } else if byte == 0xC2 {
            MarkerType::Sof2
        } else if byte == 0xC4 {
            MarkerType::Dht
        } else if byte == 0xDB {
            MarkerType::Dqt
        } else if byte == 0xDD {
            MarkerType::Dri
        } else if byte == 0xDA {
            MarkerType::Sos
        } else if byte == 0xFE {
            MarkerType::Com
        } else {
            MarkerType::Other(byte)
        }
    }

    /// The byte value of a marker.
    pub open spec fn spec_to_byte(self) -> u8 {
        match self {
            MarkerType::Soi => 0xD8,
            MarkerType::Eoi => 0xD9,
            MarkerType::App0 => 0xE0,
            MarkerType::App1 => 0xE1,
            MarkerType::App2 => 0xE2,
            MarkerType::AppN(n) => (0xE0 + n as int) as u8,
            MarkerType::Sof0 => 0xC0,
            MarkerType::Sof2 => 0xC2,
            MarkerType::Dht => 0xC4,
            MarkerType::Dqt => 0xDB,
            MarkerType::Dri => 0xDD,
            MarkerType::Sos => 0xDA,
            MarkerType::Com => 0xFE,
            MarkerType::Other(b) => b,
        }
    }

    /// Whether a marker carries a 16-bit length field: all but SOI, EOI and
    /// the raw stuffed (0x00) and padding (0xFF) bytes.
    pub open spec fn spec_has_length(self) -> bool {
        !(self == MarkerType::Soi || self == MarkerType::Eoi || self == MarkerType::Other(0x00u8)
            || self == MarkerType::Other(0xFFu8))
    }

    /// Creates a MarkerType from a byte value.
    pub fn from_byte(byte: u8) -> (r: MarkerType)
        ensures
            r == MarkerType::spec_from_byte(byte),
    {
        match byte {
            0xD8 => MarkerType::Soi,
            0xD9 => MarkerType::Eoi,
            0xE0 => MarkerType::App0,
            0xE1 => MarkerType::App1,
            0xE2 => MarkerType::App2,
            0xE3..=0xEF => MarkerType::AppN(byte - 0xE0),
            0xC0 => MarkerType::Sof0,
            0xC2 => MarkerType::Sof2,
            0xC4 => MarkerType::Dht,
            0xDB => MarkerType::Dqt,
            0xDD => MarkerType::Dri,
            0xDA => MarkerType::Sos,
            0xFE => MarkerType::Com,
            _ => MarkerType::Other(byte),
        }
    }

    /// Converts the marker type to its byte value.
    pub fn to_byte(&self) -> (r: u8)
        ensures
            r == self.spec_to_byte(),
    {
        match self {
            MarkerType::Soi => 0xD8,
            MarkerType::Eoi => 0xD9,
            MarkerType::App0 => 0xE0,
            MarkerType::App1 => 0xE1,
            MarkerType::App2 => 0xE2,
            MarkerType::AppN(n) => {
                let b = 0xE0u8.wrapping_add(*n);
                assert(b == (0xE0 + *n as int) as u8) by (bit_vector)
                    requires
                        b == (0xE0 + *n as int) % 256,
                ;
                b
            },
            MarkerType::Sof0 => 0xC0,
            MarkerType::Sof2 => 0xC2,
            MarkerType::Dht => 0xC4,
            MarkerType::Dqt => 0xDB,
            MarkerType::Dri => 0xDD,
            MarkerType::Sos => 0xDA,
            MarkerType::Com => 0xFE,
            MarkerType::Other(b) => *b,
        }
    }

    /// Returns true if this marker has an associated length field.
    pub fn has_length(&self) -> (r: bool)
        ensures
            r == self.spec_has_length(),
    {
        !(matches!(self, MarkerType::Soi) || matches!(self, MarkerType::Eoi) || matches!(
            self,
            MarkerType::Other(0x00),
        ) || matches!(self, MarkerType::Other(0xFF)))
    }
}

/// Round trip: every marker byte maps to a marker that maps back to it.
pub proof fn lemma_marker_byte_round_trip(byte: u8)
    ensures
        MarkerType::spec_from_byte(byte).spec_to_byte() == byte,
{
}

} // verus!
