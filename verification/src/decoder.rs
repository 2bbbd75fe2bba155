//! The decoder: peeks a marker, parses a header, then the body — or skips
//! it — tracking the byte position for diagnostics.

use vstd::prelude::*;

use crate::error::Error;
use crate::error::ErrorCode;
use crate::header::BoolHeader;
use crate::header::FloatHeader;
use crate::header::Header;
use crate::header::IntHeader;
use crate::header::MapHeader;
use crate::header::NullHeader;
use crate::header::SeqHeader;
use crate::header::StringHeader;
use crate::header::UnitHeader;
use crate::io::Read;
use crate::marker::Marker;
use crate::value::BoolValue;
use crate::value::FloatValue;
use crate::value::IntValue;
use crate::value::MapValue;
use crate::value::NullValue;
use crate::value::SeqValue;
use crate::value::StringValue;
use crate::value::UnitValue;
use crate::value::Value;
use crate::value::ValueSpec;
use crate::wire;

verus! {

/// Relies on `core::str::from_utf8`: it accepts exactly the valid UTF-8
/// byte sequences, the ones `vstd`'s UTF-8 grammar admits.
#[verifier::external_body]
fn utf8_check(bytes: &Vec<u8>) -> (r: bool)
    ensures
        r == vstd::utf8::valid_utf8(bytes@),
{
    core::str::from_utf8(bytes.as_slice()).is_ok()
}

/// A decoder for decoding encoded values read from a reader.
pub struct Decoder<R> {
    /// The byte source.
    pub reader: R,
    /// Bytes consumed since construction.
    pub pos: usize,
    /// The reader's offset at construction.
    pub start: Ghost<int>,
}

impl<R: Read> Decoder<R> {
    /// The decoder's invariant: a usable reader, with `pos` tracking how
    /// far it has moved since construction.
    pub open spec fn wf(&self) -> bool {
        &&& self.reader.wf()
        &&& self.start@ >= 0
        &&& self.start@ + self.pos == self.reader.offset()
    }

    /// The whole input under the reader.
    pub open spec fn input(&self) -> Seq<u8> {
        self.reader.input()
    }

    /// How many input bytes were consumed in all.
    pub open spec fn offset(&self) -> int {
        self.reader.offset()
    }

    /// The bytes not yet consumed.
    pub open spec fn rem(&self) -> Seq<u8> {
        self.reader.input().skip(self.reader.offset())
    }

    /// Creates a decoder from a `reader`.
    pub fn from_reader(reader: R) -> (r: Self)
        requires
            reader.wf(),
        ensures
            r.wf(),
            r.reader == reader,
            r.pos == 0,
    {
        proof {
            reader.lemma_wf();
        }
        Decoder { reader, pos: 0, start: Ghost(reader.offset()) }
    }

    /// Returns the decoder's internal `reader`, consuming `self`.
    pub fn into_reader(self) -> (r: R)
        ensures
            r == self.reader,
    {
        self.reader
    }

    /// Returns the decoder's current read position: the bytes consumed
    /// since construction.
    pub fn pos(&self) -> (r: usize)
        ensures
            r == self.pos,
    {
        self.pos
    }

    /// Decodes a value's type `Marker`, without advancing.
    pub fn peek_marker(&self) -> (r: Result<Marker, Error>)
        requires
            self.wf(),
        ensures
            r matches Ok(m) ==> self.rem().len() > 0 && m == crate::marker::spec_detect(
                self.rem()[0],
            ),
            r matches Err(e) ==> self.rem().len() == 0 && e.code
                == ErrorCode::UnexpectedEndOfFile,
    {
        match self.peek_byte() {
            Ok(byte) => Ok(Marker::detect(byte)),
            Err(e) => Err(e),
        }
    }

    /// The next byte, without advancing.
    fn peek_byte(&self) -> (r: Result<u8, Error>)
        requires
            self.wf(),
        ensures
            r matches Ok(b) ==> self.rem().len() > 0 && b == self.rem()[0],
            r matches Err(e) ==> self.rem().len() == 0 && e.code
                == ErrorCode::UnexpectedEndOfFile,
    {
        proof {
            self.reader.lemma_wf();
        }
        self.reader.peek_one()
    }

    /// The next byte, advancing by 1.
    fn pull_byte(&mut self) -> (r: Result<u8, Error>)
        requires
            old(self).wf(),
        ensures
            final(self).wf(),
            final(self).input() == old(self).input(),
            r matches Ok(b) ==> old(self).rem().len() > 0 && b == old(self).rem()[0] && final(self).offset() == old(self).offset() + 1 && final(self).pos == old(self).pos + 1,
            r matches Err(e) ==> old(self).rem().len() == 0 && final(self).offset() == old(self).offset() && final(self).pos == old(self).pos && e.code
                == ErrorCode::UnexpectedEndOfFile,
    {
        proof {
            self.reader.lemma_wf();
        }
        match self.reader.read_one() {
            Ok(byte) => {
                self.pos = self.pos + 1;
                Ok(byte)
            },
            Err(e) => Err(e),
        }
    }

    /// The next byte, which must carry the expected `marker`; on mismatch
    /// the error reports both markers and the byte's position.
    fn pull_byte_expecting(&mut self, marker: Marker) -> (r: Result<u8, Error>)
        requires
            old(self).wf(),
        ensures
            final(self).wf(),
            final(self).input() == old(self).input(),
            r matches Ok(b) ==> old(self).rem().len() > 0 && b == old(self).rem()[0]
                && crate::marker::spec_detect(b) == marker && final(self).offset() == old(self).offset() + 1 && final(self).pos == old(self).pos + 1,
            r is Err ==> old(self).rem().len() == 0 || crate::marker::spec_detect(
                old(self).rem()[0],
            ) != marker,
            r is Err ==> old(self).offset() <= final(self).offset() <= old(self).offset() + 1,
    {
        let pos = self.pos;
        match self.pull_byte() {
            Ok(byte) => {
                match marker.validate(byte) {
                    Ok(()) => Ok(byte),
                    Err(mm) => Err(
                        Error::invalid_type(mm.expected, mm.unexpected, Some(pos)),
                    ),
                }
            },
            Err(e) => Err(e),
        }
    }

    /// The next `width` bytes as a big-endian unsigned 64-bit value.
    fn pull_be_u64(&mut self, width: usize) -> (r: Result<u64, Error>)
        requires
            old(self).wf(),
            1 <= width <= 8,
        ensures
            final(self).wf(),
            final(self).input() == old(self).input(),
            r is Ok <==> width <= old(self).rem().len(),
            r matches Ok(v) ==> v as int == wire::be_value(
                old(self).rem().subrange(0, width as int),
            ) && final(self).offset() == old(self).offset() + width && final(self).pos == old(self).pos + width,
            r matches Err(e) ==> final(self).offset() == old(self).offset() && final(self).pos
                == old(self).pos && e.code == ErrorCode::UnexpectedEndOfFile,
    {
        proof {
            self.reader.lemma_wf();
            wire::lemma_be_value_bound(old(self).rem().subrange(0, width as int));
        }
        if width > self.remaining_len() {
            return Err(Error::unexpected_end_of_file(Some(self.pos)));
        }
        let mut acc: u64 = 0;
        let mut i: usize = 0;
        while i < width
            invariant
                self.wf(),
                width <= 8,
                i <= width,
                self.input() == old(self).input(),
                self.offset() == old(self).offset() + i,
                self.pos == old(self).pos + i,
                old(self).offset() + width <= self.input().len(),
                acc as int == wire::be_value(old(self).rem().subrange(0, i as int)),
                (acc as int) < wire::bound_for(i as int),
            decreases width - i,
        {
            proof {
                self.reader.lemma_wf();
                reveal_with_fuel(wire::bound_for, 9);
                assert(wire::bound_for(i as int) * 256 == wire::bound_for(i + 1)) by (nonlinear_arith)
                    requires
                        wire::bound_for(i + 1) == 256 * wire::bound_for(i as int),
                ;
                assert(wire::bound_for(i + 1) <= wire::bound_for(8)) by {
                    assert(wire::bound_for(1) <= wire::bound_for(2) <= wire::bound_for(3)
                        <= wire::bound_for(4) <= wire::bound_for(5) <= wire::bound_for(6)
                        <= wire::bound_for(7) <= wire::bound_for(8));
                }
            }
            let b = match self.pull_byte() {
                Ok(b) => b,
                Err(_) => vstd::pervasive::unreached(),
            };
            proof {
                let s_old = old(self).rem().subrange(0, i as int);
                let s_new = old(self).rem().subrange(0, i + 1);
                assert(s_new.drop_last() =~= s_old);
                assert(s_new.last() == b);
                assert(wire::bound_for(i as int) * 256 <= wire::bound_for(8) < 0x1_0000_0000_0000_0000 + 1);
            }
            acc = acc * 256 + (b as u64);
            i = i + 1;
        }
        proof {
            assert(old(self).rem().subrange(0, width as int) =~= old(self).rem().subrange(
                0,
                width as int,
            ));
        }
        Ok(acc)
    }

    /// How many bytes remain.
    fn remaining_len(&self) -> (r: usize)
        requires
            self.wf(),
        ensures
            r == self.rem().len(),
    {
        proof {
            self.reader.lemma_wf();
        }
        self.reader.remaining()
    }
}

impl<R: Read> Decoder<R> {
    /// The next `len` bytes as an owned vector.
    fn pull_vec(&mut self, len: usize) -> (r: Result<Vec<u8>, Error>)
        requires
            old(self).wf(),
        ensures
            final(self).wf(),
            final(self).input() == old(self).input(),
            r is Ok <==> len <= old(self).rem().len(),
            r matches Ok(v) ==> v@ == old(self).rem().subrange(0, len as int) && final(self).offset() == old(self).offset() + len && final(self).pos == old(self).pos + len,
            r is Err ==> final(self).offset() == old(self).offset() && final(self).pos == old(self).pos,
    {
        proof {
            self.reader.lemma_wf();
        }
        if len > self.remaining_len() {
            return Err(Error::unexpected_end_of_file(Some(self.pos)));
        }
        let mut v: Vec<u8> = Vec::new();
        let mut i: usize = 0;
        while i < len
            invariant
                self.wf(),
                i <= len,
                self.input() == old(self).input(),
                self.offset() == old(self).offset() + i,
                self.pos == old(self).pos + i,
                old(self).offset() + len <= self.input().len(),
                v@.len() == i,
                v@ == old(self).rem().subrange(0, i as int),
            decreases len - i,
        {
            let b = match self.pull_byte() {
                Ok(b) => b,
                Err(_) => vstd::pervasive::unreached(),
            };
            v.push(b);
            proof {
                assert(v@ =~= old(self).rem().subrange(0, i + 1));
            }
            i = i + 1;
        }
        Ok(v)
    }

    /// Advances past the next `len` bytes.
    fn skip_bytes(&mut self, len: usize) -> (r: Result<(), Error>)
        requires
            old(self).wf(),
        ensures
            final(self).wf(),
            final(self).input() == old(self).input(),
            r is Ok <==> len <= old(self).rem().len(),
            r matches Ok(()) ==> final(self).offset() == old(self).offset() + len && final(self).pos == old(self).pos + len,
            r is Err ==> final(self).offset() == old(self).offset() && final(self).pos == old(self).pos,
    {
        proof {
            self.reader.lemma_wf();
        }
        match self.reader.skip(len) {
            Ok(()) => {
                self.pos = self.pos + len;
                Ok(())
            },
            Err(_) => Err(Error::unexpected_end_of_file(Some(self.pos))),
        }
    }

    /// The next `len` bytes, either borrowed from the reader's input or
    /// copied into `scratch`, as the reader decides.
    fn pull_bytes<'s>(&'s mut self, len: usize, scratch: &'s mut Vec<u8>) -> (r: Result<
        crate::io::Reference<'s>,
        Error,
    >)
        requires
            old(self).wf(),
        ensures
            final(self).wf(),
            final(self).input() == old(self).input(),
            r is Ok <==> len <= old(self).rem().len(),
            r matches Ok(rf) ==> rf.bytes() == old(self).rem().subrange(0, len as int) && final(self).offset() == old(self).offset() + len && final(self).pos == old(self).pos + len && (
            rf is Borrowed <==> R::borrows()),
            r is Err ==> final(self).offset() == old(self).offset() && final(self).pos == old(self).pos,
    {
        proof {
            self.reader.lemma_wf();
        }
        let pos = self.pos;
        match self.reader.read(len, scratch) {
            Ok(rf) => {
                self.pos = pos + len;
                Ok(rf)
            },
            Err(_) => Err(Error::unexpected_end_of_file(Some(pos))),
        }
    }

    /// Decodes an integer value's header.
    pub fn decode_int_header(&mut self) -> (r: Result<IntHeader, Error>)
        requires
            old(self).wf(),
        ensures
            final(self).wf(),
            final(self).input() == old(self).input(),
            r is Ok <==> (wire::dec_header(old(self).rem()) matches Some((h, k)) && h is Int),
            r matches Ok(h) ==> wire::dec_header(old(self).rem()) == Some(
                (Header::Int(h), final(self).offset() - old(self).offset()),
            ) && final(self).pos - old(self).pos == final(self).offset() - old(self).offset(),
            r is Err ==> old(self).offset() <= final(self).offset(),
    {
        proof {
            wire::lemma_dec_header_marker(old(self).rem());
        }
        let pos = self.pos;
        let byte = match self.pull_byte_expecting(Marker::Int) {
            Ok(b) => b,
            Err(e) => {
                return Err(e);
            },
        };
        if byte < 0x80 {
            let sign = byte >= 0x40;
            let magnitude = if sign {
                byte - 0x40
            } else {
                byte
            };
            Ok(IntHeader::compact(sign, magnitude))
        } else {
            let low = byte - 0x80;
            let sign = low >= 0x10;
            let rest = if sign {
                low - 0x10
            } else {
                low
            };
            if rest % 4 != 0 {
                return Err(Error::invalid_header(Some(pos)));
            }
            Ok(IntHeader::extended(sign, rest / 4))
        }
    }

    /// Decodes a string value's header.
    pub fn decode_string_header(&mut self) -> (r: Result<StringHeader, Error>)
        requires
            old(self).wf(),
        ensures
            final(self).wf(),
            final(self).input() == old(self).input(),
            r is Ok <==> (wire::dec_header(old(self).rem()) matches Some((h, k)) && h is String),
            r matches Ok(h) ==> wire::dec_header(old(self).rem()) == Some(
                (Header::String(h), final(self).offset() - old(self).offset()),
            ) && final(self).pos - old(self).pos == final(self).offset() - old(self).offset()
                && h.wf(),
            r is Err ==> old(self).offset() <= final(self).offset(),
    {
        proof {
            wire::lemma_dec_header_marker(old(self).rem());
        }
        let pos = self.pos;
        let byte = match self.pull_byte_expecting(Marker::String) {
            Ok(b) => b,
            Err(e) => {
                return Err(e);
            },
        };
        proof {
            old(self).reader.lemma_wf();
            self.reader.lemma_wf();
            assert(self.rem() =~= old(self).rem().skip(1));
        }
        let low = byte - 0xa0;
        if low < 8 {
            Ok(StringHeader::compact(low))
        } else {
            let e = low - 8;
            if e > 3 {
                return Err(Error::invalid_header(Some(pos)));
            }
            let w = wire::width_of_exponent_exec(e);
            let raw = match self.pull_be_u64(w) {
                Ok(v) => v,
                Err(e) => {
                    return Err(e);
                },
            };
            proof {
                assert(old(self).rem().skip(1).subrange(0, w as int) =~= old(self).rem().subrange(1, 1 + w));
            }
            if raw > (usize::MAX as u64) {
                return Err(Error::number_out_of_range(Some(pos)));
            }
            Ok(StringHeader::extended(raw as usize))
        }
    }

    /// Decodes a sequence value's header.
    pub fn decode_seq_header(&mut self) -> (r: Result<SeqHeader, Error>)
        requires
            old(self).wf(),
        ensures
            final(self).wf(),
            final(self).input() == old(self).input(),
            r is Ok <==> (wire::dec_header(old(self).rem()) matches Some((h, k))
                && h is Sequence),
            r matches Ok(h) ==> wire::dec_header(old(self).rem()) == Some(
                (Header::Sequence(h), final(self).offset() - old(self).offset()),
            ) && final(self).pos - old(self).pos == final(self).offset() - old(self).offset()
                && h.wf(),
            r is Err ==> old(self).offset() <= final(self).offset(),
    {
        proof {
            wire::lemma_dec_header_marker(old(self).rem());
        }
        let pos = self.pos;
        let byte = match self.pull_byte_expecting(Marker::Sequence) {
            Ok(b) => b,
            Err(e) => {
                return Err(e);
            },
        };
        proof {
            old(self).reader.lemma_wf();
            self.reader.lemma_wf();
            assert(self.rem() =~= old(self).rem().skip(1));
        }
        let low = byte - 0xb0;
        if low < 8 {
            Ok(SeqHeader::compact(low))
        } else {
            let e = low - 8;
            if e > 3 {
                return Err(Error::invalid_header(Some(pos)));
            }
            let w = wire::width_of_exponent_exec(e);
            let raw = match self.pull_be_u64(w) {
                Ok(v) => v,
                Err(e) => {
                    return Err(e);
                },
            };
            proof {
                assert(old(self).rem().skip(1).subrange(0, w as int) =~= old(self).rem().subrange(1, 1 + w));
            }
            if raw > (usize::MAX as u64) {
                return Err(Error::number_out_of_range(Some(pos)));
            }
            Ok(SeqHeader::extended(raw as usize))
        }
    }

    /// Decodes a map value's header.
    pub fn decode_map_header(&mut self) -> (r: Result<MapHeader, Error>)
        requires
            old(self).wf(),
        ensures
            final(self).wf(),
            final(self).input() == old(self).input(),
            r is Ok <==> (wire::dec_header(old(self).rem()) matches Some((h, k))
                && h is Mapping),
            r matches Ok(h) ==> wire::dec_header(old(self).rem()) == Some(
                (Header::Mapping(h), final(self).offset() - old(self).offset()),
            ) && final(self).pos - old(self).pos == final(self).offset() - old(self).offset()
                && h.wf(),
            r is Err ==> old(self).offset() <= final(self).offset(),
    {
        proof {
            wire::lemma_dec_header_marker(old(self).rem());
        }
        let pos = self.pos;
        let byte = match self.pull_byte_expecting(Marker::Mapping) {
            Ok(b) => b,
            Err(e) => {
                return Err(e);
            },
        };
        proof {
            old(self).reader.lemma_wf();
            self.reader.lemma_wf();
            assert(self.rem() =~= old(self).rem().skip(1));
        }
        let low = byte - 0xc0;
        if low < 8 {
            Ok(MapHeader::compact(low))
        } else {
            let e = low - 8;
            if e > 3 {
                return Err(Error::invalid_header(Some(pos)));
            }
            let w = wire::width_of_exponent_exec(e);
            let raw = match self.pull_be_u64(w) {
                Ok(v) => v,
                Err(e) => {
                    return Err(e);
                },
            };
            proof {
                assert(old(self).rem().skip(1).subrange(0, w as int) =~= old(self).rem().subrange(1, 1 + w));
            }
            if raw > (usize::MAX as u64) {
                return Err(Error::number_out_of_range(Some(pos)));
            }
            Ok(MapHeader::extended(raw as usize))
        }
    }

    /// Decodes a float value's header.
    pub fn decode_float_header(&mut self) -> (r: Result<FloatHeader, Error>)
        requires
            old(self).wf(),
        ensures
            final(self).wf(),
            final(self).input() == old(self).input(),
            r is Ok <==> (wire::dec_header(old(self).rem()) matches Some((h, k)) && h is Float),
            r matches Ok(h) ==> wire::dec_header(old(self).rem()) == Some(
                (Header::Float(h), final(self).offset() - old(self).offset()),
            ) && final(self).pos - old(self).pos == final(self).offset() - old(self).offset(),
            r is Err ==> old(self).offset() <= final(self).offset(),
    {
        proof {
            wire::lemma_dec_header_marker(old(self).rem());
        }
        let pos = self.pos;
        let byte = match self.pull_byte_expecting(Marker::Float) {
            Ok(b) => b,
            Err(e) => {
                return Err(e);
            },
        };
        if byte == 0xd0 {
            Ok(FloatHeader::Single)
        } else if byte == 0xd1 {
            Ok(FloatHeader::Double)
        } else {
            Err(Error::invalid_header(Some(pos)))
        }
    }

    /// Decodes a byte array value's header.
    pub fn decode_bytes_header(&mut self) -> (r: Result<crate::header::BytesHeader, Error>)
        requires
            old(self).wf(),
        ensures
            final(self).wf(),
            final(self).input() == old(self).input(),
            r is Ok <==> (wire::dec_header(old(self).rem()) matches Some((h, k)) && h is Bytes),
            r matches Ok(h) ==> wire::dec_header(old(self).rem()) == Some(
                (Header::Bytes(h), final(self).offset() - old(self).offset()),
            ) && final(self).pos - old(self).pos == final(self).offset() - old(self).offset(),
            r is Err ==> old(self).offset() <= final(self).offset(),
    {
        proof {
            wire::lemma_dec_header_marker(old(self).rem());
        }
        let pos = self.pos;
        let byte = match self.pull_byte_expecting(Marker::Bytes) {
            Ok(b) => b,
            Err(e) => {
                return Err(e);
            },
        };
        proof {
            old(self).reader.lemma_wf();
            self.reader.lemma_wf();
            assert(self.rem() =~= old(self).rem().skip(1));
        }
        let len_width_exponent = byte - 0xd8;
        if len_width_exponent > 3 {
            return Err(Error::invalid_header(Some(pos)));
        }
        let w = wire::width_of_exponent_exec(len_width_exponent);
        let raw = match self.pull_be_u64(w) {
            Ok(v) => v,
            Err(e) => {
                return Err(e);
            },
        };
        proof {
            assert(old(self).rem().skip(1).subrange(0, w as int) =~= old(self).rem().subrange(
                1,
                1 + w,
            ));
        }
        if raw > (usize::MAX as u64) {
            return Err(Error::number_out_of_range(Some(pos)));
        }
        Ok(crate::header::BytesHeader::for_len(raw as usize))
    }

    /// Decodes a boolean value's header.
    pub fn decode_bool_header(&mut self) -> (r: Result<BoolHeader, Error>)
        requires
            old(self).wf(),
        ensures
            final(self).wf(),
            final(self).input() == old(self).input(),
            r is Ok <==> (wire::dec_header(old(self).rem()) matches Some((h, k)) && h is Bool),
            r matches Ok(h) ==> wire::dec_header(old(self).rem()) == Some(
                (Header::Bool(h), final(self).offset() - old(self).offset()),
            ) && final(self).pos - old(self).pos == final(self).offset() - old(self).offset(),
            r is Err ==> old(self).offset() <= final(self).offset(),
    {
        proof {
            wire::lemma_dec_header_marker(old(self).rem());
        }
        let pos = self.pos;
        let byte = match self.pull_byte_expecting(Marker::Bool) {
            Ok(b) => b,
            Err(e) => {
                return Err(e);
            },
        };
        if byte == 0xe0 {
            Ok(BoolHeader::new(false))
        } else if byte == 0xe1 {
            Ok(BoolHeader::new(true))
        } else {
            Err(Error::invalid_header(Some(pos)))
        }
    }

    /// Decodes a unit value's header.
    pub fn decode_unit_header(&mut self) -> (r: Result<UnitHeader, Error>)
        requires
            old(self).wf(),
        ensures
            final(self).wf(),
            final(self).input() == old(self).input(),
            r is Ok <==> (wire::dec_header(old(self).rem()) matches Some((h, k)) && h is Unit),
            r matches Ok(h) ==> wire::dec_header(old(self).rem()) == Some(
                (Header::Unit(h), final(self).offset() - old(self).offset()),
            ) && final(self).pos - old(self).pos == final(self).offset() - old(self).offset(),
            r is Err ==> old(self).offset() <= final(self).offset(),
    {
        proof {
            wire::lemma_dec_header_marker(old(self).rem());
        }
        match self.pull_byte_expecting(Marker::Unit) {
            Ok(_) => Ok(UnitHeader),
            Err(e) => Err(e),
        }
    }

    /// Decodes a null value's header.
    pub fn decode_null_header(&mut self) -> (r: Result<NullHeader, Error>)
        requires
            old(self).wf(),
        ensures
            final(self).wf(),
            final(self).input() == old(self).input(),
            r is Ok <==> (wire::dec_header(old(self).rem()) matches Some((h, k)) && h is Null),
            r matches Ok(h) ==> wire::dec_header(old(self).rem()) == Some(
                (Header::Null(h), final(self).offset() - old(self).offset()),
            ) && final(self).pos - old(self).pos == final(self).offset() - old(self).offset(),
            r is Err ==> old(self).offset() <= final(self).offset(),
    {
        proof {
            wire::lemma_dec_header_marker(old(self).rem());
        }
        match self.pull_byte_expecting(Marker::Null) {
            Ok(_) => Ok(NullHeader),
            Err(e) => Err(e),
        }
    }

    /// Decodes a value's `Header`.
    pub fn decode_header(&mut self) -> (r: Result<Header, Error>)
        requires
            old(self).wf(),
        ensures
            final(self).wf(),
            final(self).input() == old(self).input(),
            r is Ok <==> wire::dec_header(old(self).rem()) is Some,
            r matches Ok(h) ==> wire::dec_header(old(self).rem()) == Some(
                (h, final(self).offset() - old(self).offset()),
            ) && final(self).pos - old(self).pos == final(self).offset() - old(self).offset(),
            r is Err ==> old(self).offset() <= final(self).offset(),
    {
        proof {
            wire::lemma_dec_header_marker(old(self).rem());
        }
        let marker = match self.peek_marker() {
            Ok(m) => m,
            Err(e) => {
                return Err(e);
            },
        };
        match marker {
            Marker::Int => match self.decode_int_header() {
                Ok(h) => Ok(Header::Int(h)),
                Err(e) => Err(e),
            },
            Marker::String => match self.decode_string_header() {
                Ok(h) => Ok(Header::String(h)),
                Err(e) => Err(e),
            },
            Marker::Sequence => match self.decode_seq_header() {
                Ok(h) => Ok(Header::Sequence(h)),
                Err(e) => Err(e),
            },
            Marker::Mapping => match self.decode_map_header() {
                Ok(h) => Ok(Header::Mapping(h)),
                Err(e) => Err(e),
            },
            Marker::Float => match self.decode_float_header() {
                Ok(h) => Ok(Header::Float(h)),
                Err(e) => Err(e),
            },
            Marker::Bytes => match self.decode_bytes_header() {
                Ok(h) => Ok(Header::Bytes(h)),
                Err(e) => Err(e),
            },
            Marker::Bool => match self.decode_bool_header() {
                Ok(h) => Ok(Header::Bool(h)),
                Err(e) => Err(e),
            },
            Marker::Unit => match self.decode_unit_header() {
                Ok(h) => Ok(Header::Unit(h)),
                Err(e) => Err(e),
            },
            Marker::Null => match self.decode_null_header() {
                Ok(h) => Ok(Header::Null(h)),
                Err(e) => Err(e),
            },
        }
    }
}

impl<R: Read> Decoder<R> {
    /// Decodes an integer value for a given `header`: a compact header
    /// carries the value itself; an extended one is followed by the
    /// magnitude, which must fit the value range its sign allows.
    pub fn decode_int_value_of(&mut self, header: IntHeader) -> (r: Result<IntValue, Error>)
        requires
            old(self).wf(),
        ensures
            final(self).wf(),
            final(self).input() == old(self).input(),
            r is Ok <==> wire::dec_body(Header::Int(header), old(self).rem()) is Some,
            r matches Ok(v) ==> wire::dec_body(Header::Int(header), old(self).rem()) == Some(
                (ValueSpec::Int(v.as_int()), final(self).offset() - old(self).offset()),
            ) && final(self).pos - old(self).pos == final(self).offset() - old(self).offset(),
            r is Err ==> old(self).offset() <= final(self).offset(),
    {
        let pos = self.pos;
        match header {
            IntHeader::Compact(c) => {
                if c.sign {
                    Ok(IntValue::Signed(-(c.magnitude as i64)))
                } else {
                    Ok(IntValue::Unsigned(c.magnitude as u64))
                }
            },
            IntHeader::Extended(x) => {
                let width = wire::width_of_exponent_exec(x.width_exponent);
                let mag = match self.pull_be_u64(width) {
                    Ok(v) => v,
                    Err(e) => {
                        return Err(e);
                    },
                };
                proof {
                    assert(old(self).rem().subrange(0, width as int) =~= old(self).rem().take(
                        width as int,
                    ));
                }
                if x.sign {
                    if mag > 0x8000_0000_0000_0000 {
                        Err(Error::number_out_of_range(Some(pos)))
                    } else if mag == 0x8000_0000_0000_0000 {
                        Ok(IntValue::Signed(i64::MIN))
                    } else {
                        Ok(IntValue::Signed(-(mag as i64)))
                    }
                } else {
                    Ok(IntValue::Unsigned(mag))
                }
            },
        }
    }

    /// Decodes a boolean value for a given `header`: the header byte
    /// already carried it.
    pub fn decode_bool_value_of(&mut self, header: BoolHeader) -> (r: Result<BoolValue, Error>)
        requires
            old(self).wf(),
        ensures
            final(self).wf(),
            *final(self) == *old(self),
            r is Ok,
            r matches Ok(v) ==> v.0 == header.value,
    {
        Ok(BoolValue(header.value()))
    }

    /// Decodes the unit value for a given `header`: nothing follows it.
    pub fn decode_unit_value_of(&mut self, header: UnitHeader) -> (r: Result<UnitValue, Error>)
        requires
            old(self).wf(),
        ensures
            final(self).wf(),
            *final(self) == *old(self),
            r is Ok,
    {
        Ok(UnitValue)
    }

    /// Decodes the null value for a given `header`: nothing follows it.
    pub fn decode_null_value_of(&mut self, header: NullHeader) -> (r: Result<NullValue, Error>)
        requires
            old(self).wf(),
        ensures
            final(self).wf(),
            *final(self) == *old(self),
            r is Ok,
    {
        Ok(NullValue)
    }

    /// Decodes a float value for a given `header`: the big-endian bytes of
    /// the bit pattern, preserved exactly.
    pub fn decode_float_value_of(&mut self, header: FloatHeader) -> (r: Result<FloatValue, Error>)
        requires
            old(self).wf(),
        ensures
            final(self).wf(),
            final(self).input() == old(self).input(),
            r is Ok <==> wire::dec_body(Header::Float(header), old(self).rem()) is Some,
            r matches Ok(v) ==> wire::dec_body(Header::Float(header), old(self).rem()) == Some(
                (ValueSpec::Float(v), final(self).offset() - old(self).offset()),
            ) && final(self).pos - old(self).pos == final(self).offset() - old(self).offset(),
            r is Err ==> old(self).offset() <= final(self).offset(),
    {
        proof {
            wire::lemma_be_value_bound(old(self).rem().take(4));
            wire::lemma_be_value_bound(old(self).rem().take(8));
            reveal_with_fuel(wire::bound_for, 9);
        }
        match header {
            FloatHeader::Single => {
                let raw = match self.pull_be_u64(4) {
                    Ok(v) => v,
                    Err(e) => {
                        return Err(e);
                    },
                };
                proof {
                    assert(old(self).rem().subrange(0, 4) =~= old(self).rem().take(4));
                }
                Ok(FloatValue::Single(raw as u32))
            },
            FloatHeader::Double => {
                let raw = match self.pull_be_u64(8) {
                    Ok(v) => v,
                    Err(e) => {
                        return Err(e);
                    },
                };
                proof {
                    assert(old(self).rem().subrange(0, 8) =~= old(self).rem().take(8));
                }
                Ok(FloatValue::Double(raw))
            },
        }
    }

    /// Decodes a string value for a given `header`: that many bytes,
    /// which must be valid UTF-8.
    pub fn decode_string_value_of(&mut self, header: StringHeader) -> (r: Result<
        StringValue,
        Error,
    >)
        requires
            old(self).wf(),
        ensures
            final(self).wf(),
            final(self).input() == old(self).input(),
            r is Ok <==> wire::dec_body(Header::String(header), old(self).rem()) is Some,
            r matches Ok(v) ==> wire::dec_body(Header::String(header), old(self).rem()) == Some(
                (ValueSpec::String(v.0@), final(self).offset() - old(self).offset()),
            ) && final(self).pos - old(self).pos == final(self).offset() - old(self).offset()
                && v.wf(),
            r is Err ==> old(self).offset() <= final(self).offset(),
    {
        let pos = self.pos;
        let len = header.len();
        let bytes = match self.pull_vec(len) {
            Ok(v) => v,
            Err(e) => {
                return Err(e);
            },
        };
        proof {
            assert(old(self).rem().subrange(0, len as int) =~= old(self).rem().take(len as int));
        }
        if utf8_check(&bytes) {
            Ok(StringValue(bytes))
        } else {
            Err(Error::invalid_utf8(Some(pos)))
        }
    }

    /// Decodes a byte array body for a given `header`, handing the bytes
    /// out as the reader produced them: borrowed when it can retain the
    /// borrow, copied into `scratch` otherwise.
    fn decode_bytes_of<'s>(
        &'s mut self,
        header: crate::header::BytesHeader,
        scratch: &'s mut Vec<u8>,
    ) -> (r: Result<crate::io::Reference<'s>, Error>)
        requires
            old(self).wf(),
        ensures
            final(self).wf(),
            final(self).input() == old(self).input(),
            r is Ok <==> wire::dec_body(Header::Bytes(header), old(self).rem()) is Some,
            r matches Ok(rf) ==> wire::dec_body(Header::Bytes(header), old(self).rem()) == Some(
                (ValueSpec::Bytes(rf.bytes()), final(self).offset() - old(self).offset()),
            ) && final(self).pos - old(self).pos == final(self).offset() - old(self).offset() && (
            rf is Borrowed <==> R::borrows()),
            r is Err ==> old(self).offset() <= final(self).offset(),
    {
        let len = header.len();
        let r = self.pull_bytes(len, scratch);
        proof {
            if r is Ok {
                assert(old(self).rem().subrange(0, len as int) =~= old(self).rem().take(
                    len as int,
                ));
            }
        }
        r
    }

    /// Decodes a byte array body for a given `header`, as an owned buffer.
    pub fn decode_bytes_buf_of(&mut self, header: crate::header::BytesHeader) -> (r: Result<
        Vec<u8>,
        Error,
    >)
        requires
            old(self).wf(),
        ensures
            final(self).wf(),
            final(self).input() == old(self).input(),
            r is Ok <==> wire::dec_body(Header::Bytes(header), old(self).rem()) is Some,
            r matches Ok(v) ==> wire::dec_body(Header::Bytes(header), old(self).rem()) == Some(
                (ValueSpec::Bytes(v@), final(self).offset() - old(self).offset()),
            ) && final(self).pos - old(self).pos == final(self).offset() - old(self).offset(),
            r is Err ==> old(self).offset() <= final(self).offset(),
    {
        let mut buf: Vec<u8> = Vec::new();
        match self.decode_bytes_of(header, &mut buf) {
            Ok(rf) => Ok(vstd::slice::slice_to_vec(rf.as_slice())),
            Err(e) => Err(e),
        }
    }

    /// Decodes a byte array value for a given `header`, as a `BytesValue`.
    pub fn decode_bytes_value_of(&mut self, header: crate::header::BytesHeader) -> (r: Result<
        crate::value::BytesValue,
        Error,
    >)
        requires
            old(self).wf(),
        ensures
            final(self).wf(),
            final(self).input() == old(self).input(),
            r is Ok <==> wire::dec_body(Header::Bytes(header), old(self).rem()) is Some,
            r matches Ok(v) ==> wire::dec_body(Header::Bytes(header), old(self).rem()) == Some(
                (ValueSpec::Bytes(v.0@), final(self).offset() - old(self).offset()),
            ) && final(self).pos - old(self).pos == final(self).offset() - old(self).offset(),
            r is Err ==> old(self).offset() <= final(self).offset(),
    {
        match self.decode_bytes_buf_of(header) {
            Ok(v) => Ok(crate::value::BytesValue(v)),
            Err(e) => Err(e),
        }
    }

    /// Skips the byte array body for a given `header`.
    pub fn skip_bytes_value_of(&mut self, header: crate::header::BytesHeader) -> (r: Result<
        (),
        Error,
    >)
        requires
            old(self).wf(),
        ensures
            final(self).wf(),
            final(self).input() == old(self).input(),
            r is Ok <==> wire::dec_skip_body(Header::Bytes(header), old(self).rem()) is Some,
            r matches Ok(()) ==> wire::dec_skip_body(Header::Bytes(header), old(self).rem())
                == Some(final(self).offset() - old(self).offset()) && final(self).pos - old(self).pos == final(self).offset() - old(self).offset(),
            r is Err ==> old(self).offset() <= final(self).offset(),
    {
        self.skip_bytes(header.len())
    }
}

impl<R: Read> Decoder<R> {
    /// Decodes a `Value`.
    #[verifier::rlimit(100)]
    #[verifier::spinoff_prover]
    pub fn decode_value(&mut self) -> (r: Result<Value, Error>)
        requires
            old(self).wf(),
        ensures
            final(self).wf(),
            final(self).input() == old(self).input(),
            r is Ok <==> wire::dec_value(old(self).rem()) is Some,
            r matches Ok(v) ==> wire::dec_value(old(self).rem()) == Some(
                (v.deep_view(), final(self).offset() - old(self).offset()),
            ) && final(self).pos - old(self).pos == final(self).offset() - old(self).offset()
                && v.wf(),
            r is Err ==> old(self).offset() <= final(self).offset(),
        decreases old(self).rem().len(), 0int,
    {
        let ghost rem0 = old(self).rem();
        proof {
            wire::lemma_dec_header_bounds(rem0);
            wire::lemma_dec_value_bounds(rem0);
            old(self).reader.lemma_wf();
        }
        let header = match self.decode_header() {
            Ok(h) => h,
            Err(e) => {
                return Err(e);
            },
        };
        proof {
            self.reader.lemma_wf();
            assert(self.rem() =~= rem0.skip(self.offset() - old(self).offset()));
        }
        match self.decode_value_of(header) {
            Ok(v) => Ok(v),
            Err(e) => Err(e),
        }
    }

    /// Decodes value for a given `header`.
    #[verifier::rlimit(100)]
    #[verifier::spinoff_prover]
    pub fn decode_value_of(&mut self, header: Header) -> (r: Result<Value, Error>)
        requires
            old(self).wf(),
        ensures
            final(self).wf(),
            final(self).input() == old(self).input(),
            r is Ok <==> wire::dec_body(header, old(self).rem()) is Some,
            r matches Ok(v) ==> wire::dec_body(header, old(self).rem()) == Some(
                (v.deep_view(), final(self).offset() - old(self).offset()),
            ) && final(self).pos - old(self).pos == final(self).offset() - old(self).offset()
                && v.wf(),
            r is Err ==> old(self).offset() <= final(self).offset(),
        decreases old(self).rem().len(), 3int,
    {
        proof {
            wire::lemma_dec_body_bounds(header, old(self).rem());
        }
        match header {
            Header::Int(h) => match self.decode_int_value_of(h) {
                Ok(v) => Ok(Value::Int(v)),
                Err(e) => Err(e),
            },
            Header::String(h) => match self.decode_string_value_of(h) {
                Ok(v) => Ok(Value::String(v)),
                Err(e) => Err(e),
            },
            Header::Sequence(h) => match self.decode_seq_value_of(h) {
                Ok(v) => Ok(Value::Sequence(v)),
                Err(e) => Err(e),
            },
            Header::Mapping(h) => match self.decode_map_value_of(h) {
                Ok(v) => Ok(Value::Mapping(v)),
                Err(e) => Err(e),
            },
            Header::Float(h) => match self.decode_float_value_of(h) {
                Ok(v) => Ok(Value::Float(v)),
                Err(e) => Err(e),
            },
            Header::Bytes(h) => match self.decode_bytes_value_of(h) {
                Ok(v) => Ok(Value::Bytes(v)),
                Err(e) => Err(e),
            },
            Header::Bool(h) => {
                proof {
                    assert(wire::dec_body(header, old(self).rem()) == Some(
                        (ValueSpec::Bool(h.value), 0int),
                    ));
                }
                match self.decode_bool_value_of(h) {
                    Ok(v) => Ok(Value::Bool(v)),
                    Err(e) => Err(e),
                }
            },
            Header::Unit(h) => {
                proof {
                    assert(wire::dec_body(header, old(self).rem()) == Some((ValueSpec::Unit, 0int)));
                }
                match self.decode_unit_value_of(h) {
                    Ok(v) => Ok(Value::Unit(v)),
                    Err(e) => Err(e),
                }
            },
            Header::Null(h) => {
                proof {
                    assert(wire::dec_body(header, old(self).rem()) == Some((ValueSpec::Null, 0int)));
                }
                match self.decode_null_value_of(h) {
                    Ok(v) => Ok(Value::Null(v)),
                    Err(e) => Err(e),
                }
            },
        }
    }

    /// Decodes sequence elements for a given `header`.
    #[verifier::rlimit(100)]
    #[verifier::spinoff_prover]
    fn decode_seq_of(&mut self, header: SeqHeader) -> (r: Result<Vec<Value>, Error>)
        requires
            old(self).wf(),
        ensures
            final(self).wf(),
            final(self).input() == old(self).input(),
            r is Ok <==> wire::dec_values(old(self).rem(), header.spec_len()) is Some,
            r matches Ok(v) ==> wire::dec_values(old(self).rem(), header.spec_len()) == Some(
                (Value::deep_view_seq(v@), final(self).offset() - old(self).offset()),
            ) && final(self).pos - old(self).pos == final(self).offset() - old(self).offset(),
            r is Err ==> old(self).offset() <= final(self).offset(),
        decreases old(self).rem().len(), 1int,
    {
        let n = header.len();
        let mut out: Vec<Value> = Vec::new();
        let mut i: usize = 0;
        proof {
            assert(Value::deep_view_seq(out@) =~= Seq::<ValueSpec>::empty());
        }
        while i < n
            invariant
                old(self).wf(),
                self.wf(),
                i <= n,
                n as int == header.spec_len(),
                self.input() == old(self).input(),
                old(self).offset() <= self.offset(),
                self.pos - old(self).pos == self.offset() - old(self).offset(),
                out@.len() == i,
                match wire::dec_values(self.rem(), n - i) {
                    None => wire::dec_values(old(self).rem(), n as int) is None,
                    Some((vs, m)) => wire::dec_values(old(self).rem(), n as int) == Some(
                        (
                            Value::deep_view_seq(out@) + vs,
                            (self.offset() - old(self).offset()) + m,
                        ),
                    ),
                },
            decreases n - i,
        {
            let ghost rem_here = self.rem();
            let ghost out_views = Value::deep_view_seq(out@);
            let ghost consumed = self.offset() - old(self).offset();
            proof {
                self.reader.lemma_wf();
                old(self).reader.lemma_wf();
                wire::lemma_dec_value_bounds(rem_here);
            }
            let v = match self.decode_value() {
                Ok(v) => v,
                Err(e) => {
                    return Err(e);
                },
            };
            proof {
                let k = self.offset() - (old(self).offset() + consumed);
                assert(self.rem() =~= rem_here.skip(k));
                crate::value::lemma_deep_view_seq(out@);
            }
            out.push(v);
            proof {
                crate::value::lemma_deep_view_seq(out@);
                assert(Value::deep_view_seq(out@) =~= out_views + seq![v.deep_view()]);
                if let Some((vs, m)) = wire::dec_values(self.rem(), n - i - 1) {
                    assert((out_views + seq![v.deep_view()]) + vs =~= out_views + (seq![
                        v.deep_view(),
                    ] + vs));
                }
            }
            i = i + 1;
        }
        proof {
            assert(Value::deep_view_seq(out@) + Seq::<ValueSpec>::empty() =~= Value::deep_view_seq(
                out@,
            ));
        }
        Ok(out)
    }

    /// Decodes a sequence value for a given `header`, as a `SeqValue`.
    pub fn decode_seq_value_of(&mut self, header: SeqHeader) -> (r: Result<SeqValue, Error>)
        requires
            old(self).wf(),
        ensures
            final(self).wf(),
            final(self).input() == old(self).input(),
            r is Ok <==> wire::dec_body(Header::Sequence(header), old(self).rem()) is Some,
            r matches Ok(v) ==> wire::dec_body(Header::Sequence(header), old(self).rem()) == Some(
                (
                    ValueSpec::Sequence(Value::deep_view_seq(v.0@)),
                    final(self).offset() - old(self).offset(),
                ),
            ) && final(self).pos - old(self).pos == final(self).offset() - old(self).offset(),
            r is Err ==> old(self).offset() <= final(self).offset(),
        decreases old(self).rem().len(), 2int,
    {
        match self.decode_seq_of(header) {
            Ok(v) => Ok(SeqValue(v)),
            Err(e) => Err(e),
        }
    }

    /// Decodes a sequence value.
    pub fn decode_seq(&mut self) -> (r: Result<Vec<Value>, Error>)
        requires
            old(self).wf(),
        ensures
            final(self).wf(),
            final(self).input() == old(self).input(),
            r is Ok <==> (wire::dec_value(old(self).rem()) matches Some((v, n)) && v is Sequence),
            r matches Ok(v) ==> wire::dec_value(old(self).rem()) == Some(
                (
                    ValueSpec::Sequence(Value::deep_view_seq(v@)),
                    final(self).offset() - old(self).offset(),
                ),
            ) && final(self).pos - old(self).pos == final(self).offset() - old(self).offset(),
            r is Err ==> old(self).offset() <= final(self).offset(),
    {
        let ghost rem0 = old(self).rem();
        proof {
            wire::lemma_dec_header_bounds(rem0);
            old(self).reader.lemma_wf();
        }
        let header = match self.decode_seq_header() {
            Ok(h) => h,
            Err(e) => {
                return Err(e);
            },
        };
        proof {
            self.reader.lemma_wf();
            assert(self.rem() =~= rem0.skip(self.offset() - old(self).offset()));
        }
        match self.decode_seq_of(header) {
            Ok(v) => Ok(v),
            Err(e) => Err(e),
        }
    }

    /// Decodes a sequence value, as a `SeqValue`.
    pub fn decode_seq_value(&mut self) -> (r: Result<SeqValue, Error>)
        requires
            old(self).wf(),
        ensures
            final(self).wf(),
            final(self).input() == old(self).input(),
            r is Ok <==> (wire::dec_value(old(self).rem()) matches Some((v, n)) && v is Sequence),
            r matches Ok(v) ==> wire::dec_value(old(self).rem()) == Some(
                (
                    ValueSpec::Sequence(Value::deep_view_seq(v.0@)),
                    final(self).offset() - old(self).offset(),
                ),
            ) && final(self).pos - old(self).pos == final(self).offset() - old(self).offset(),
            r is Err ==> old(self).offset() <= final(self).offset(),
    {
        match self.decode_seq() {
            Ok(v) => Ok(SeqValue(v)),
            Err(e) => Err(e),
        }
    }

    /// Decodes map entries for a given `header`.
    #[verifier::rlimit(100)]
    #[verifier::spinoff_prover]
    pub fn decode_map_value_of(&mut self, header: MapHeader) -> (r: Result<MapValue, Error>)
        requires
            old(self).wf(),
        ensures
            final(self).wf(),
            final(self).input() == old(self).input(),
            r is Ok <==> wire::dec_body(Header::Mapping(header), old(self).rem()) is Some,
            r matches Ok(v) ==> wire::dec_body(Header::Mapping(header), old(self).rem()) == Some(
                (
                    ValueSpec::Mapping(Value::deep_view_pairs(v.0@)),
                    final(self).offset() - old(self).offset(),
                ),
            ) && final(self).pos - old(self).pos == final(self).offset() - old(self).offset(),
            r is Err ==> old(self).offset() <= final(self).offset(),
        decreases old(self).rem().len(), 2int,
    {
        let n = header.len();
        let mut out: Vec<(Value, Value)> = Vec::new();
        let mut i: usize = 0;
        proof {
            assert(Value::deep_view_pairs(out@) =~= Seq::<(ValueSpec, ValueSpec)>::empty());
        }
        while i < n
            invariant
                old(self).wf(),
                self.wf(),
                i <= n,
                n as int == header.spec_len(),
                self.input() == old(self).input(),
                old(self).offset() <= self.offset(),
                self.pos - old(self).pos == self.offset() - old(self).offset(),
                out@.len() == i,
                match wire::dec_pairs(self.rem(), n - i) {
                    None => wire::dec_pairs(old(self).rem(), n as int) is None,
                    Some((ps, m)) => wire::dec_pairs(old(self).rem(), n as int) == Some(
                        (
                            Value::deep_view_pairs(out@) + ps,
                            (self.offset() - old(self).offset()) + m,
                        ),
                    ),
                },
            decreases n - i,
        {
            let ghost rem_here = self.rem();
            let ghost out_views = Value::deep_view_pairs(out@);
            let ghost consumed = self.offset() - old(self).offset();
            proof {
                self.reader.lemma_wf();
                old(self).reader.lemma_wf();
                wire::lemma_dec_value_bounds(rem_here);
            }
            let key = match self.decode_value() {
                Ok(v) => v,
                Err(e) => {
                    return Err(e);
                },
            };
            let ghost rem_mid = self.rem();
            let ghost k = self.offset() - (old(self).offset() + consumed);
            proof {
                assert(rem_mid =~= rem_here.skip(k));
                wire::lemma_dec_value_bounds(rem_mid);
            }
            let val = match self.decode_value() {
                Ok(v) => v,
                Err(e) => {
                    return Err(e);
                },
            };
            proof {
                let m = self.offset() - (old(self).offset() + consumed + k);
                assert(self.rem() =~= rem_here.skip(k + m)) by {
                    assert(self.rem() =~= rem_mid.skip(m));
                    assert(rem_mid.skip(m) =~= rem_here.skip(k + m));
                }
                crate::value::lemma_deep_view_pairs(out@);
            }
            out.push((key, val));
            proof {
                crate::value::lemma_deep_view_pairs(out@);
                assert(Value::deep_view_pairs(out@) =~= out_views + seq![
                    (key.deep_view(), val.deep_view()),
                ]);
                if let Some((ps, m2)) = wire::dec_pairs(self.rem(), n - i - 1) {
                    assert((out_views + seq![(key.deep_view(), val.deep_view())]) + ps
                        =~= out_views + (seq![(key.deep_view(), val.deep_view())] + ps));
                }
            }
            i = i + 1;
        }
        proof {
            assert(Value::deep_view_pairs(out@) + Seq::<(ValueSpec, ValueSpec)>::empty()
                =~= Value::deep_view_pairs(out@));
        }
        Ok(MapValue(out))
    }
}

impl<R: Read> Decoder<R> {
    /// Skips the next to-be-decoded value: advances past it without
    /// materializing it, validating UTF-8, or range-checking magnitudes.
    pub fn skip_value(&mut self) -> (r: Result<(), Error>)
        requires
            old(self).wf(),
        ensures
            final(self).wf(),
            final(self).input() == old(self).input(),
            r is Ok <==> wire::dec_skip(old(self).rem()) is Some,
            r matches Ok(()) ==> wire::dec_skip(old(self).rem()) == Some(
                final(self).offset() - old(self).offset(),
            ) && final(self).pos - old(self).pos == final(self).offset() - old(self).offset(),
            r is Err ==> old(self).offset() <= final(self).offset(),
        decreases old(self).rem().len(), 0int,
    {
        let ghost rem0 = old(self).rem();
        proof {
            wire::lemma_dec_header_bounds(rem0);
            old(self).reader.lemma_wf();
        }
        let header = match self.decode_header() {
            Ok(h) => h,
            Err(e) => {
                return Err(e);
            },
        };
        proof {
            self.reader.lemma_wf();
            assert(self.rem() =~= rem0.skip(self.offset() - old(self).offset()));
        }
        match self.skip_value_of(header) {
            Ok(()) => Ok(()),
            Err(e) => Err(e),
        }
    }

    /// Skips the value for a given `header`.
    #[verifier::rlimit(100)]
    #[verifier::spinoff_prover]
    pub fn skip_value_of(&mut self, header: Header) -> (r: Result<(), Error>)
        requires
            old(self).wf(),
        ensures
            final(self).wf(),
            final(self).input() == old(self).input(),
            r is Ok <==> wire::dec_skip_body(header, old(self).rem()) is Some,
            r matches Ok(()) ==> wire::dec_skip_body(header, old(self).rem()) == Some(
                final(self).offset() - old(self).offset(),
            ) && final(self).pos - old(self).pos == final(self).offset() - old(self).offset(),
            r is Err ==> old(self).offset() <= final(self).offset(),
        decreases old(self).rem().len(), 3int,
    {
        match header {
            Header::Int(IntHeader::Compact(_)) => Ok(()),
            Header::Int(IntHeader::Extended(x)) => {
                let width = wire::width_of_exponent_exec(x.width_exponent);
                self.skip_bytes(width)
            },
            Header::String(h) => self.skip_bytes(h.len()),
            Header::Sequence(h) => self.skip_seq_value_of(h),
            Header::Mapping(h) => self.skip_map_value_of(h),
            Header::Float(FloatHeader::Single) => self.skip_bytes(4),
            Header::Float(FloatHeader::Double) => self.skip_bytes(8),
            Header::Bytes(h) => self.skip_bytes_value_of(h),
            Header::Bool(_) => Ok(()),
            Header::Unit(_) => Ok(()),
            Header::Null(_) => Ok(()),
        }
    }

    /// Skips the sequence body for a given `header`: each child value in
    /// turn.
    #[verifier::rlimit(100)]
    #[verifier::spinoff_prover]
    pub fn skip_seq_value_of(&mut self, header: SeqHeader) -> (r: Result<(), Error>)
        requires
            old(self).wf(),
        ensures
            final(self).wf(),
            final(self).input() == old(self).input(),
            r is Ok <==> wire::dec_skip_values(old(self).rem(), header.spec_len()) is Some,
            r matches Ok(()) ==> wire::dec_skip_values(old(self).rem(), header.spec_len()) == Some(
                final(self).offset() - old(self).offset(),
            ) && final(self).pos - old(self).pos == final(self).offset() - old(self).offset(),
            r is Err ==> old(self).offset() <= final(self).offset(),
        decreases old(self).rem().len(), 1int,
    {
        let n = header.len();
        let mut i: usize = 0;
        while i < n
            invariant
                old(self).wf(),
                self.wf(),
                i <= n,
                n as int == header.spec_len(),
                self.input() == old(self).input(),
                old(self).offset() <= self.offset(),
                self.pos - old(self).pos == self.offset() - old(self).offset(),
                match wire::dec_skip_values(self.rem(), n - i) {
                    None => wire::dec_skip_values(old(self).rem(), n as int) is None,
                    Some(m) => wire::dec_skip_values(old(self).rem(), n as int) == Some(
                        (self.offset() - old(self).offset()) + m,
                    ),
                },
            decreases n - i,
        {
            let ghost rem_here = self.rem();
            let ghost consumed = self.offset() - old(self).offset();
            proof {
                self.reader.lemma_wf();
                old(self).reader.lemma_wf();
                wire::lemma_dec_skip_bounds(rem_here);
            }
            match self.skip_value() {
                Ok(()) => {
                },
                Err(e) => {
                    return Err(e);
                },
            }
            proof {
                let k = self.offset() - (old(self).offset() + consumed);
                assert(self.rem() =~= rem_here.skip(k));
            }
            i = i + 1;
        }
        Ok(())
    }

    /// Skips the map body for a given `header`: each entry's key and value
    /// in turn.
    #[verifier::rlimit(100)]
    #[verifier::spinoff_prover]
    pub fn skip_map_value_of(&mut self, header: MapHeader) -> (r: Result<(), Error>)
        requires
            old(self).wf(),
        ensures
            final(self).wf(),
            final(self).input() == old(self).input(),
            r is Ok <==> wire::dec_skip_pairs(old(self).rem(), header.spec_len()) is Some,
            r matches Ok(()) ==> wire::dec_skip_pairs(old(self).rem(), header.spec_len()) == Some(
                final(self).offset() - old(self).offset(),
            ) && final(self).pos - old(self).pos == final(self).offset() - old(self).offset(),
            r is Err ==> old(self).offset() <= final(self).offset(),
        decreases old(self).rem().len(), 1int,
    {
        let n = header.len();
        let mut i: usize = 0;
        while i < n
            invariant
                old(self).wf(),
                self.wf(),
                i <= n,
                n as int == header.spec_len(),
                self.input() == old(self).input(),
                old(self).offset() <= self.offset(),
                self.pos - old(self).pos == self.offset() - old(self).offset(),
                match wire::dec_skip_pairs(self.rem(), n - i) {
                    None => wire::dec_skip_pairs(old(self).rem(), n as int) is None,
                    Some(m) => wire::dec_skip_pairs(old(self).rem(), n as int) == Some(
                        (self.offset() - old(self).offset()) + m,
                    ),
                },
            decreases n - i,
        {
            let ghost rem_here = self.rem();
            let ghost consumed = self.offset() - old(self).offset();
            proof {
                self.reader.lemma_wf();
                old(self).reader.lemma_wf();
                wire::lemma_dec_skip_bounds(rem_here);
            }
            match self.skip_value() {
                Ok(()) => {
                },
                Err(e) => {
                    return Err(e);
                },
            }
            let ghost rem_mid = self.rem();
            let ghost k = self.offset() - (old(self).offset() + consumed);
            proof {
                assert(rem_mid =~= rem_here.skip(k));
                wire::lemma_dec_skip_bounds(rem_mid);
            }
            match self.skip_value() {
                Ok(()) => {
                },
                Err(e) => {
                    return Err(e);
                },
            }
            proof {
                let m = self.offset() - (old(self).offset() + consumed + k);
                assert(self.rem() =~= rem_here.skip(k + m)) by {
                    assert(self.rem() =~= rem_mid.skip(m));
                    assert(rem_mid.skip(m) =~= rem_here.skip(k + m));
                }
            }
            i = i + 1;
        }
        Ok(())
    }

    /// Decodes a byte array value, as a slice reference: borrowed from the
    /// input when the reader can retain the borrow, else copied into
    /// `scratch`.
    pub fn decode_bytes<'s>(&'s mut self, scratch: &'s mut Vec<u8>) -> (r: Result<
        crate::io::Reference<'s>,
        Error,
    >)
        requires
            old(self).wf(),
        ensures
            final(self).wf(),
            final(self).input() == old(self).input(),
            r is Ok <==> (wire::dec_value(old(self).rem()) matches Some((v, n)) && v is Bytes),
            r matches Ok(rf) ==> wire::dec_value(old(self).rem()) == Some(
                (ValueSpec::Bytes(rf.bytes()), final(self).offset() - old(self).offset()),
            ) && final(self).pos - old(self).pos == final(self).offset() - old(self).offset() && (
            rf is Borrowed <==> R::borrows()),
            r is Err ==> old(self).offset() <= final(self).offset(),
    {
        let ghost rem0 = old(self).rem();
        proof {
            wire::lemma_dec_header_bounds(rem0);
            old(self).reader.lemma_wf();
        }
        let header = match self.decode_bytes_header() {
            Ok(h) => h,
            Err(e) => {
                return Err(e);
            },
        };
        proof {
            self.reader.lemma_wf();
            assert(self.rem() =~= rem0.skip(self.offset() - old(self).offset()));
        }
        self.decode_bytes_of(header, scratch)
    }

    /// Decodes a byte array value, as an owned buffer.
    pub fn decode_bytes_buf(&mut self) -> (r: Result<Vec<u8>, Error>)
        requires
            old(self).wf(),
        ensures
            final(self).wf(),
            final(self).input() == old(self).input(),
            r is Ok <==> (wire::dec_value(old(self).rem()) matches Some((v, n)) && v is Bytes),
            r matches Ok(v) ==> wire::dec_value(old(self).rem()) == Some(
                (ValueSpec::Bytes(v@), final(self).offset() - old(self).offset()),
            ) && final(self).pos - old(self).pos == final(self).offset() - old(self).offset(),
            r is Err ==> old(self).offset() <= final(self).offset(),
    {
        let ghost rem0 = old(self).rem();
        proof {
            wire::lemma_dec_header_bounds(rem0);
            old(self).reader.lemma_wf();
        }
        let header = match self.decode_bytes_header() {
            Ok(h) => h,
            Err(e) => {
                return Err(e);
            },
        };
        proof {
            self.reader.lemma_wf();
            assert(self.rem() =~= rem0.skip(self.offset() - old(self).offset()));
        }
        self.decode_bytes_buf_of(header)
    }

    /// Decodes a byte array value, as a `BytesValue`.
    pub fn decode_bytes_value(&mut self) -> (r: Result<crate::value::BytesValue, Error>)
        requires
            old(self).wf(),
        ensures
            final(self).wf(),
            final(self).input() == old(self).input(),
            r is Ok <==> (wire::dec_value(old(self).rem()) matches Some((v, n)) && v is Bytes),
            r matches Ok(v) ==> wire::dec_value(old(self).rem()) == Some(
                (ValueSpec::Bytes(v.0@), final(self).offset() - old(self).offset()),
            ) && final(self).pos - old(self).pos == final(self).offset() - old(self).offset(),
            r is Err ==> old(self).offset() <= final(self).offset(),
    {
        match self.decode_bytes_buf() {
            Ok(v) => Ok(crate::value::BytesValue(v)),
            Err(e) => Err(e),
        }
    }
}

/// Decodes one value from an in-memory byte slice, returning it with the
/// number of bytes it took.
pub fn decode_from_slice(bytes: &[u8]) -> (r: Result<(Value, usize), Error>)
    ensures
        r is Ok <==> wire::dec_value(bytes@) is Some,
        r matches Ok((v, n)) ==> wire::dec_value(bytes@) == Some((v.deep_view(), n as int))
            && v.wf(),
{
    let reader = crate::io::SliceReader::new(bytes);
    let mut decoder = Decoder::from_reader(reader);
    proof {
        assert(decoder.rem() =~= bytes@);
    }
    match decoder.decode_value() {
        Ok(v) => {
            let n = decoder.pos();
            Ok((v, n))
        },
        Err(e) => Err(e),
    }
}

} // verus!
