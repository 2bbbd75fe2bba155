//! Value headers: the per-kind bit layouts that precede every body.
//!
//! Variable-length kinds (int, string, sequence, map) have a *compact* form,
//! whose payload fits in the spare bits of the header byte, and an *extended*
//! form, whose header byte carries a length-width exponent `e` and is
//! followed by `2^e` big-endian length bytes. Byte arrays always use the
//! extended form. Bool, unit and null are single fixed bytes; floats encode
//! their precision in one bit.

use vstd::prelude::*;

use crate::marker::Marker;

verus! {

/// Header representing a boolean. The whole value lives in one payload bit
/// of the header byte; there is no body.
#[derive(Copy, Clone, Eq, PartialEq, Debug, Structural)]
pub struct BoolHeader {
    /// The boolean the header carries.
    pub value: bool,
}

impl BoolHeader {
    /// The bits of the header byte that carry the kind, not the value.
    pub const MASK: u8 = 0xfe;

    /// The kind prefix of a boolean header byte.
    pub const TYPE_BITS: u8 = 0xe0;

    /// The single payload bit carrying the boolean.
    pub const VALUE_BIT: u8 = 0x01;

    /// Creates a header from its `value`.
    pub fn new(value: bool) -> (r: Self)
        ensures
            r.value == value,
    {
        BoolHeader { value }
    }

    /// Returns the associated value.
    pub fn value(&self) -> (r: bool)
        ensures
            r == self.value,
    {
        self.value
    }

    /// The boolean the header carries.
    pub open spec fn spec_value(&self) -> bool {
        self.value
    }
}

/// Header representing an integer in compact form: the sign and a 6-bit
/// magnitude live in the header byte; there is no body.
#[derive(Copy, Clone, Eq, PartialEq, Debug, Structural)]
pub struct CompactIntHeader {
    /// True when the integer is negative.
    pub sign: bool,
    /// The magnitude, at most [`CompactIntHeader::MAX_MAGNITUDE`].
    pub magnitude: u8,
}

impl CompactIntHeader {
    /// The sign bit of a compact integer header byte.
    pub const SIGN_BIT: u8 = 0x40;

    /// The bits of a compact integer header byte that carry the magnitude.
    pub const MAGNITUDE_BITS: u8 = 0x3f;

    /// The largest magnitude the compact form can carry.
    pub const MAX_MAGNITUDE: u8 = 0x3f;

    /// True when the magnitude fits the compact field.
    pub open spec fn wf(&self) -> bool {
        self.magnitude <= CompactIntHeader::MAX_MAGNITUDE
    }
}

/// Header representing an integer in extended form: the header byte carries
/// the sign and a width exponent `w`; the body is `2^w` big-endian bytes of
/// magnitude.
#[derive(Copy, Clone, Eq, PartialEq, Debug, Structural)]
pub struct ExtendedIntHeader {
    /// True when the integer is negative.
    pub sign: bool,
    /// The width exponent: the magnitude takes `2^w` bytes, `w <= 3`.
    pub width_exponent: u8,
}

impl ExtendedIntHeader {
    /// The kind prefix of an extended integer header byte.
    pub const TYPE_BITS: u8 = 0x80;

    /// The sign bit of an extended integer header byte.
    pub const SIGN_BIT: u8 = 0x10;

    /// The bits carrying the width exponent.
    pub const WIDTH_EXPONENT_BITS: u8 = 0x0c;

    /// The reserved low bits; they must be zero.
    pub const RESERVED_BITS: u8 = 0x03;

    /// True when the width exponent selects one of the four widths.
    pub open spec fn wf(&self) -> bool {
        self.width_exponent <= 3
    }
}

/// Header representing an integer.
#[derive(Copy, Clone, Eq, PartialEq, Debug, Structural)]
pub enum IntHeader {
    /// Sign and magnitude fit in the header byte.
    Compact(CompactIntHeader),
    /// The magnitude follows the header byte.
    Extended(ExtendedIntHeader),
}

impl IntHeader {
    /// Compact form, from its sign and magnitude.
    pub fn compact(sign: bool, magnitude: u8) -> (r: Self)
        requires
            magnitude <= CompactIntHeader::MAX_MAGNITUDE,
        ensures
            r == IntHeader::Compact(CompactIntHeader { sign, magnitude }),
    {
        IntHeader::Compact(CompactIntHeader { sign, magnitude })
    }

    /// Extended form, from its sign and width exponent.
    pub fn extended(sign: bool, width_exponent: u8) -> (r: Self)
        requires
            width_exponent <= 3,
        ensures
            r == IntHeader::Extended(ExtendedIntHeader { sign, width_exponent }),
    {
        IntHeader::Extended(ExtendedIntHeader { sign, width_exponent })
    }

    /// True when the header's fields fit their bit fields.
    pub open spec fn wf(&self) -> bool {
        match self {
            IntHeader::Compact(h) => h.wf(),
            IntHeader::Extended(h) => h.wf(),
        }
    }
}

/// Header representing a string in compact form: the byte length lives in
/// the low bits of the header byte.
#[derive(Copy, Clone, Eq, PartialEq, Debug, Structural)]
pub struct CompactStringHeader {
    /// The string's byte length, at most [`StringHeader::MAX_COMPACT_LEN`].
    pub len: u8,
}

/// Header representing a string in extended form: the header byte carries a
/// length-width exponent `e`; `2^e` big-endian length bytes follow.
#[derive(Copy, Clone, Eq, PartialEq, Debug, Structural)]
pub struct ExtendedStringHeader {
    /// The string's byte length.
    pub len: usize,
}

/// Header representing a string. The body is the string's UTF-8 bytes.
#[derive(Copy, Clone, Eq, PartialEq, Debug, Structural)]
pub enum StringHeader {
    /// The length fits the header byte.
    Compact(CompactStringHeader),
    /// The length follows the header byte.
    Extended(ExtendedStringHeader),
}

impl StringHeader {
    /// The kind prefix of a string header byte.
    pub const TYPE_BITS: u8 = 0xa0;

    /// The largest length the compact form can carry.
    pub const MAX_COMPACT_LEN: u8 = 0x07;

    /// Compact form, from its length.
    pub fn compact(len: u8) -> (r: Self)
        requires
            len <= StringHeader::MAX_COMPACT_LEN,
        ensures
            r == StringHeader::Compact(CompactStringHeader { len }),
    {
        StringHeader::Compact(CompactStringHeader { len })
    }

    /// Extended form, from its length.
    pub fn extended(len: usize) -> (r: Self)
        ensures
            r == StringHeader::Extended(ExtendedStringHeader { len }),
    {
        StringHeader::Extended(ExtendedStringHeader { len })
    }

    /// The minimal header for a string of `len` bytes: compact iff the
    /// length fits the compact field.
    pub fn for_len(len: usize) -> (r: Self)
        ensures
            r.spec_len() == len,
            r.wf(),
            r is Compact <==> len <= StringHeader::MAX_COMPACT_LEN,
    {
        if len <= StringHeader::MAX_COMPACT_LEN as usize {
            StringHeader::Compact(CompactStringHeader { len: len as u8 })
        } else {
            StringHeader::Extended(ExtendedStringHeader { len })
        }
    }

    /// The string's byte length.
    pub fn len(&self) -> (r: usize)
        ensures
            r == self.spec_len(),
    {
        match self {
            StringHeader::Compact(h) => h.len as usize,
            StringHeader::Extended(h) => h.len,
        }
    }

    /// The string's byte length.
    pub open spec fn spec_len(&self) -> int {
        match self {
            StringHeader::Compact(h) => h.len as int,
            StringHeader::Extended(h) => h.len as int,
        }
    }

    /// True when a compact length fits its bit field.
    pub open spec fn wf(&self) -> bool {
        match self {
            StringHeader::Compact(h) => h.len <= StringHeader::MAX_COMPACT_LEN,
            StringHeader::Extended(_) => true,
        }
    }
}

/// Header representing a sequence in compact form: the element count lives
/// in the low bits of the header byte.
#[derive(Copy, Clone, Eq, PartialEq, Debug, Structural)]
pub struct CompactSeqHeader {
    /// The element count, at most [`SeqHeader::MAX_COMPACT_LEN`].
    pub len: u8,
}

/// Header representing a sequence in extended form.
#[derive(Copy, Clone, Eq, PartialEq, Debug, Structural)]
pub struct ExtendedSeqHeader {
    /// The element count.
    pub len: usize,
}

/// Header representing a sequence of values. The body is that many child
/// values, encoded one after another.
#[derive(Copy, Clone, Eq, PartialEq, Debug, Structural)]
pub enum SeqHeader {
    /// The element count fits the header byte.
    Compact(CompactSeqHeader),
    /// The element count follows the header byte.
    Extended(ExtendedSeqHeader),
}

impl SeqHeader {
    /// The kind prefix of a sequence header byte.
    pub const TYPE_BITS: u8 = 0xb0;

    /// The bit that distinguishes the extended from the compact form.
    pub const EXTENDED_VARIANT_BIT: u8 = 0x08;

    /// The bits of a compact header byte that carry the element count.
    pub const COMPACT_LEN_BITS: u8 = 0x07;

    /// The bits of an extended header byte that carry the length-width
    /// exponent.
    pub const EXTENDED_LEN_WIDTH_BITS: u8 = 0x03;

    /// The largest element count the compact form can carry.
    pub const MAX_COMPACT_LEN: u8 = 0x07;

    /// Compact form, from its element count.
    pub fn compact(len: u8) -> (r: Self)
        requires
            len <= SeqHeader::MAX_COMPACT_LEN,
        ensures
            r == SeqHeader::Compact(CompactSeqHeader { len }),
    {
        SeqHeader::Compact(CompactSeqHeader { len })
    }

    /// Extended form, from its element count.
    pub fn extended(len: usize) -> (r: Self)
        ensures
            r == SeqHeader::Extended(ExtendedSeqHeader { len }),
    {
        SeqHeader::Extended(ExtendedSeqHeader { len })
    }

    /// The minimal header for a sequence of `len` elements.
    pub fn for_len(len: usize) -> (r: Self)
        ensures
            r.spec_len() == len,
            r.wf(),
            r is Compact <==> len <= SeqHeader::MAX_COMPACT_LEN,
    {
        if len <= SeqHeader::MAX_COMPACT_LEN as usize {
            SeqHeader::Compact(CompactSeqHeader { len: len as u8 })
        } else {
            SeqHeader::Extended(ExtendedSeqHeader { len })
        }
    }

    /// The element count.
    pub fn len(&self) -> (r: usize)
        ensures
            r == self.spec_len(),
    {
        match self {
            SeqHeader::Compact(h) => h.len as usize,
            SeqHeader::Extended(h) => h.len,
        }
    }

    /// The element count.
    pub open spec fn spec_len(&self) -> int {
        match self {
            SeqHeader::Compact(h) => h.len as int,
            SeqHeader::Extended(h) => h.len as int,
        }
    }

    /// True when a compact length fits its bit field.
    pub open spec fn wf(&self) -> bool {
        match self {
            SeqHeader::Compact(h) => h.len <= SeqHeader::MAX_COMPACT_LEN,
            SeqHeader::Extended(_) => true,
        }
    }
}

/// Header representing a map in compact form: the entry count lives in the
/// low bits of the header byte.
#[derive(Copy, Clone, Eq, PartialEq, Debug, Structural)]
pub struct CompactMapHeader {
    /// The entry count, at most [`MapHeader::MAX_COMPACT_LEN`].
    pub len: u8,
}

/// Header representing a map in extended form.
#[derive(Copy, Clone, Eq, PartialEq, Debug, Structural)]
pub struct ExtendedMapHeader {
    /// The entry count.
    pub len: usize,
}

/// Header representing a map of key-value pairs. The body is that many
/// entries, each a key followed by its value.
#[derive(Copy, Clone, Eq, PartialEq, Debug, Structural)]
pub enum MapHeader {
    /// The entry count fits the header byte.
    Compact(CompactMapHeader),
    /// The entry count follows the header byte.
    Extended(ExtendedMapHeader),
}

impl MapHeader {
    /// The kind prefix of a map header byte.
    pub const TYPE_BITS: u8 = 0xc0;

    /// The largest entry count the compact form can carry.
    pub const MAX_COMPACT_LEN: u8 = 0x07;

    /// Compact form, from its entry count.
    pub fn compact(len: u8) -> (r: Self)
        requires
            len <= MapHeader::MAX_COMPACT_LEN,
        ensures
            r == MapHeader::Compact(CompactMapHeader { len }),
    {
        MapHeader::Compact(CompactMapHeader { len })
    }

    /// Extended form, from its entry count.
    pub fn extended(len: usize) -> (r: Self)
        ensures
            r == MapHeader::Extended(ExtendedMapHeader { len }),
    {
        MapHeader::Extended(ExtendedMapHeader { len })
    }

    /// The minimal header for a map of `len` entries.
    pub fn for_len(len: usize) -> (r: Self)
        ensures
            r.spec_len() == len,
            r.wf(),
            r is Compact <==> len <= MapHeader::MAX_COMPACT_LEN,
    {
        if len <= MapHeader::MAX_COMPACT_LEN as usize {
            MapHeader::Compact(CompactMapHeader { len: len as u8 })
        } else {
            MapHeader::Extended(ExtendedMapHeader { len })
        }
    }

    /// The entry count.
    pub fn len(&self) -> (r: usize)
        ensures
            r == self.spec_len(),
    {
        match self {
            MapHeader::Compact(h) => h.len as usize,
            MapHeader::Extended(h) => h.len,
        }
    }

    /// The entry count.
    pub open spec fn spec_len(&self) -> int {
        match self {
            MapHeader::Compact(h) => h.len as int,
            MapHeader::Extended(h) => h.len as int,
        }
    }

    /// True when a compact length fits its bit field.
    pub open spec fn wf(&self) -> bool {
        match self {
            MapHeader::Compact(h) => h.len <= MapHeader::MAX_COMPACT_LEN,
            MapHeader::Extended(_) => true,
        }
    }
}

/// Header representing a floating-point number: one bit selects the
/// precision; the body is the 4 or 8 big-endian bytes of the IEEE 754 bit
/// pattern.
#[derive(Copy, Clone, Eq, PartialEq, Debug, Structural)]
pub enum FloatHeader {
    /// A single-precision float: the body is 4 bytes.
    Single,
    /// A double-precision float: the body is 8 bytes.
    Double,
}

impl FloatHeader {
    /// The kind prefix of a float header byte.
    pub const TYPE_BITS: u8 = 0xd0;

    /// The payload bit that selects double precision.
    pub const DOUBLE_BIT: u8 = 0x01;

    /// The body's length in bytes: 4 for single, 8 for double precision.
    pub fn len(&self) -> (r: usize)
        ensures
            r == self.spec_len(),
    {
        match self {
            FloatHeader::Single => 4,
            FloatHeader::Double => 8,
        }
    }

    /// The body's length in bytes.
    pub open spec fn spec_len(&self) -> int {
        match self {
            FloatHeader::Single => 4,
            FloatHeader::Double => 8,
        }
    }
}

/// Header representing a byte array: the header byte carries a length-width
/// exponent `e`; `2^e` big-endian length bytes follow, then the raw bytes.
#[derive(Copy, Clone, Eq, PartialEq, Debug, Structural)]
pub struct BytesHeader {
    /// The array's byte length.
    pub len: usize,
}

impl BytesHeader {
    /// The kind prefix of a byte-array header byte.
    pub const TYPE_BITS: u8 = 0xd8;

    /// The bits of the header byte that carry the length-width exponent.
    pub const LEN_WIDTH_EXPONENT_BITS: u8 = 0x03;

    /// The header for an array of `len` bytes.
    pub fn for_len(len: usize) -> (r: Self)
        ensures
            r.len == len,
    {
        BytesHeader { len }
    }

    /// The array's byte length.
    pub fn len(&self) -> (r: usize)
        ensures
            r == self.len,
    {
        self.len
    }
}

/// Header representing the unit value: a single fixed byte, no body.
#[derive(Copy, Clone, Eq, PartialEq, Debug, Structural)]
pub struct UnitHeader;

impl UnitHeader {
    /// The unit header byte.
    pub const TYPE_BITS: u8 = 0xe2;
}

/// Header representing the null value: a single fixed byte, no body.
#[derive(Copy, Clone, Eq, PartialEq, Debug, Structural)]
pub struct NullHeader;

impl NullHeader {
    /// The null header byte.
    pub const TYPE_BITS: u8 = 0xe3;
}

/// A value's header.
#[derive(Copy, Clone, Eq, PartialEq, Debug, Structural)]
pub enum Header {
    /// Represents an integer number.
    Int(IntHeader),
    /// Represents a string.
    String(StringHeader),
    /// Represents a sequence of values.
    Sequence(SeqHeader),
    /// Represents a map of key-value pairs.
    Mapping(MapHeader),
    /// Represents a floating-point number.
    Float(FloatHeader),
    /// Represents a byte array.
    Bytes(BytesHeader),
    /// Represents a boolean.
    Bool(BoolHeader),
    /// Represents a unit value.
    Unit(UnitHeader),
    /// Represents a null value.
    Null(NullHeader),
}

impl Header {
    /// Returns the header's type marker.
    pub fn marker(&self) -> (r: Marker)
        ensures
            r == self.spec_marker(),
    {
        match self {
            Header::Int(_) => Marker::Int,
            Header::String(_) => Marker::String,
            Header::Sequence(_) => Marker::Sequence,
            Header::Mapping(_) => Marker::Mapping,
            Header::Float(_) => Marker::Float,
            Header::Bytes(_) => Marker::Bytes,
            Header::Bool(_) => Marker::Bool,
            Header::Unit(_) => Marker::Unit,
            Header::Null(_) => Marker::Null,
        }
    }

    /// The header's type marker.
    pub open spec fn spec_marker(&self) -> Marker {
        match self {
            Header::Int(_) => Marker::Int,
            Header::String(_) => Marker::String,
            Header::Sequence(_) => Marker::Sequence,
            Header::Mapping(_) => Marker::Mapping,
            Header::Float(_) => Marker::Float,
            Header::Bytes(_) => Marker::Bytes,
            Header::Bool(_) => Marker::Bool,
            Header::Unit(_) => Marker::Unit,
            Header::Null(_) => Marker::Null,
        }
    }

    /// True when every bit field of the header fits its width.
    pub open spec fn wf(&self) -> bool {
        match self {
            Header::Int(h) => h.wf(),
            Header::String(h) => h.wf(),
            Header::Sequence(h) => h.wf(),
            Header::Mapping(h) => h.wf(),
            Header::Float(_) => true,
            Header::Bytes(_) => true,
            Header::Bool(_) => true,
            Header::Unit(_) => true,
            Header::Null(_) => true,
        }
    }
}

impl Default for Header {
    /// The null header.
    fn default() -> (r: Self)
        ensures
            r == Header::Null(NullHeader),
    {
        Header::Null(NullHeader)
    }
}

} // verus!
