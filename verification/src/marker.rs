//! Type markers: the high-bit patterns that identify a value's kind.

use vstd::prelude::*;

verus! {

/// The nine kinds of value the format can carry. Every header byte maps to
/// exactly one marker, derived from the byte's high bits.
#[derive(Copy, Clone, PartialEq, Eq, Debug, Structural)]
pub enum Marker {
    /// An integer number.
    Int,
    /// A UTF-8 string.
    String,
    /// A sequence of values.
    Sequence,
    /// A map of key-value pairs.
    Mapping,
    /// A floating-point number, carried bit-exactly.
    Float,
    /// A raw byte array.
    Bytes,
    /// A boolean.
    Bool,
    /// The unit value.
    Unit,
    /// The null value.
    Null,
}

/// A failed [`Marker::validate`]: the byte announced `unexpected` where
/// `expected` was required.
#[derive(Copy, Clone, PartialEq, Eq, Debug, Structural)]
pub struct MarkerMismatch {
    /// The marker the caller required.
    pub expected: Marker,
    /// The marker the byte actually carries.
    pub unexpected: Marker,
}

/// The marker announced by a header byte. Total over all 256 byte values.
///
/// The byte ranges mirror the wire format: `0x00..=0x7F` and `0x80..=0x9F`
/// are the compact and extended integer forms, then each remaining kind owns
/// a fixed prefix, with `0xE0..=0xFF` shared by the single-byte kinds
/// (bool, unit, null).
pub open spec fn spec_detect(byte: u8) -> Marker {
    if byte < 0xA0 {
        Marker::Int
    } else if byte < 0xB0 {
        Marker::String
    } else if byte < 0xC0 {
        Marker::Sequence
    } else if byte < 0xD0 {
        Marker::Mapping
    } else if byte < 0xD8 {
        Marker::Float
    } else if byte < 0xE0 {
        Marker::Bytes
    } else if byte == 0xE2 {
        Marker::Unit
    } else if byte == 0xE3 {
        Marker::Null
    } else {
        Marker::Bool
    }
}

impl Marker {
    /// Detects the marker of a header byte. Every byte maps to exactly one
    /// marker.
    pub fn detect(byte: u8) -> (r: Marker)
        ensures
            r == spec_detect(byte),
    {
        if byte < 0xA0 {
            Marker::Int
        } else if byte < 0xB0 {
            Marker::String
        } else if byte < 0xC0 {
            Marker::Sequence
        } else if byte < 0xD0 {
            Marker::Mapping
        } else if byte < 0xD8 {
            Marker::Float
        } else if byte < 0xE0 {
            Marker::Bytes
        } else if byte == 0xE2 {
            Marker::Unit
        } else if byte == 0xE3 {
            Marker::Null
        } else {
            Marker::Bool
        }
    }

    /// Checks that `byte`'s marker is `self`; on mismatch reports both
    /// markers.
    pub fn validate(self, byte: u8) -> (r: Result<(), MarkerMismatch>)
        ensures
            r is Ok <==> spec_detect(byte) == self,
            r matches Err(m) ==> m.expected == self && m.unexpected == spec_detect(byte),
    {
        let detected = Marker::detect(byte);
        if detected == self {
            Ok(())
        } else {
            Err(MarkerMismatch { expected: self, unexpected: detected })
        }
    }
}

} // verus!
