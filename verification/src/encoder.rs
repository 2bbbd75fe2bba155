//! The encoder: writes a value's header, then its body, choosing the
//! compact forms unless configured otherwise.

use vstd::prelude::*;

use crate::error::Error;
use crate::error::ErrorCode;
use crate::header::BoolHeader;
use crate::header::FloatHeader;
use crate::header::Header;
use crate::header::IntHeader;
use crate::header::MapHeader;
use crate::header::SeqHeader;
use crate::header::StringHeader;
use crate::io::Write;
use crate::value::BoolValue;
use crate::value::BytesValue;
use crate::value::FloatValue;
use crate::value::IntValue;
use crate::value::MapValue;
use crate::value::SeqValue;
use crate::value::StringValue;
use crate::value::Value;
use crate::value::ValueSpec;
use crate::wire;

verus! {

/// The encoder's configuration.
#[derive(Copy, Clone, PartialEq, Eq, Debug, Structural)]
pub struct EncoderConfig {
    /// Suppress the compact length forms, emitting every length in the
    /// extended form (for format testing and reproducibility).
    pub force_extended_lengths: bool,
}

impl Default for EncoderConfig {
    /// Compact forms allowed.
    fn default() -> (r: Self)
        ensures
            r.force_extended_lengths == false,
    {
        EncoderConfig { force_extended_lengths: false }
    }
}

/// The big-endian `n`-byte encoding of `v`, as bytes.
fn be_bytes_exec(v: u64, n: usize) -> (r: Vec<u8>)
    ensures
        r@ == wire::be_bytes(v as int, n as int),
    decreases n,
{
    if n == 0 {
        Vec::new()
    } else {
        let mut r = be_bytes_exec(v / 256, n - 1);
        r.push((v % 256) as u8);
        r
    }
}

/// The smallest width exponent whose length bytes can carry `v`.
fn width_exponent_exec(v: u64) -> (r: u8)
    ensures
        r as int == wire::width_exponent_for(v as int),
        r <= 3,
{
    if v < 0x100 {
        0
    } else if v < 0x1_0000 {
        1
    } else if v < 0x1_0000_0000 {
        2
    } else {
        3
    }
}

/// The number of length bytes a width exponent selects.
fn width_of_exponent_exec(e: u8) -> (r: usize)
    requires
        e <= 3,
    ensures
        r as int == wire::width_of_exponent(e as int),
{
    if e == 0 {
        1
    } else if e == 1 {
        2
    } else if e == 2 {
        4
    } else {
        8
    }
}

/// An encoder for encoding values into a byte sink.
pub struct Encoder<W> {
    /// The sink the encoding goes to.
    pub writer: W,
    /// The encoder's configuration.
    pub config: EncoderConfig,
}

impl<W: Write> Encoder<W> {
    /// True when the underlying writer is usable.
    pub open spec fn wf(&self) -> bool {
        self.writer.wf()
    }

    /// Everything written so far.
    pub open spec fn out(&self) -> Seq<u8> {
        self.writer.out()
    }

    /// Whether compact length forms are suppressed.
    pub open spec fn ext(&self) -> bool {
        self.config.force_extended_lengths
    }

    /// Creates an encoder from a `writer` and a configuration.
    pub fn new(writer: W, config: EncoderConfig) -> (r: Self)
        ensures
            r.writer == writer,
            r.config == config,
    {
        Encoder { writer, config }
    }

    /// Returns the encoder's internal `writer`, consuming `self`.
    pub fn into_writer(self) -> (r: W)
        ensures
            r == self.writer,
    {
        self.writer
    }

    /// Writes one byte.
    fn push_byte(&mut self, byte: u8) -> (r: Result<(), Error>)
        requires
            old(self).wf(),
        ensures
            final(self).wf(),
            final(self).config == old(self).config,
            r matches Ok(()) ==> final(self).out() == old(self).out().push(byte),
            r matches Err(e) ==> e.code == ErrorCode::IoError,
            W::infallible() ==> r is Ok,
    {
        self.writer.write_one(byte)
    }

    /// Writes all of `bytes`.
    fn push_bytes(&mut self, bytes: &Vec<u8>) -> (r: Result<(), Error>)
        requires
            old(self).wf(),
        ensures
            final(self).wf(),
            final(self).config == old(self).config,
            r matches Ok(()) ==> final(self).out() == old(self).out() + bytes@,
            r matches Err(e) ==> e.code == ErrorCode::IoError,
            W::infallible() ==> r is Ok,
    {
        self.writer.write_all(bytes.as_slice())
    }

    /// Writes the header of a length-carrying kind: compact when allowed
    /// and the length fits, else extended with the minimal width.
    fn encode_len_header(&mut self, type_bits: u8, len: usize, compact_ok: bool) -> (r: Result<
        (),
        Error,
    >)
        requires
            old(self).wf(),
            type_bits == 0xa0 || type_bits == 0xb0 || type_bits == 0xc0,
        ensures
            final(self).wf(),
            final(self).config == old(self).config,
            r matches Ok(()) ==> final(self).out() == old(self).out() + wire::enc_len_header(
                type_bits,
                len as int,
                compact_ok,
            ),
            r matches Err(e) ==> e.code == ErrorCode::IoError,
            W::infallible() ==> r is Ok,
    {
        if compact_ok && len <= 7 {
            let byte = type_bits + (len as u8);
            self.push_byte(byte)
        } else {
            let e = width_exponent_exec(len as u64);
            let w = width_of_exponent_exec(e);
            let byte = type_bits + 8 + e;
            match self.push_byte(byte) {
                Ok(()) => {
                    let len_bytes = be_bytes_exec(len as u64, w);
                    let r = self.push_bytes(&len_bytes);
                    proof {
                        if r is Ok {
                            assert(final(self).out() =~= old(self).out() + wire::enc_len_header(
                                type_bits,
                                len as int,
                                compact_ok,
                            ));
                        }
                    }
                    r
                },
                Err(e) => Err(e),
            }
        }
    }

    /// Creates a header for `value`.
    pub fn header_for_bool(&self, value: bool) -> (r: BoolHeader)
        ensures
            r.value == value,
    {
        BoolHeader::new(value)
    }

    /// Encodes a boolean value's header: the whole value is one byte.
    pub fn encode_bool_header(&mut self, header: &BoolHeader) -> (r: Result<(), Error>)
        requires
            old(self).wf(),
        ensures
            final(self).wf(),
            final(self).config == old(self).config,
            r matches Ok(()) ==> final(self).out() == old(self).out() + wire::enc_header(
                Header::Bool(*header),
                old(self).ext(),
            ),
            r matches Err(e) ==> e.code == ErrorCode::IoError,
            W::infallible() ==> r is Ok,
    {
        let mut byte = BoolHeader::TYPE_BITS;
        if header.value() {
            byte = byte | BoolHeader::VALUE_BIT;
        }
        proof {
            assert(0xe0u8 | 0x01u8 == 0xe1u8) by (bit_vector);
        }
        self.push_byte(byte)
    }

    /// Encodes a boolean value.
    pub fn encode_bool(&mut self, value: bool) -> (r: Result<(), Error>)
        requires
            old(self).wf(),
        ensures
            final(self).wf(),
            final(self).config == old(self).config,
            r matches Ok(()) ==> final(self).out() == old(self).out() + wire::enc_value(
                ValueSpec::Bool(value),
                old(self).ext(),
            ),
            r matches Err(e) ==> e.code == ErrorCode::IoError,
            W::infallible() ==> r is Ok,
    {
        let header = self.header_for_bool(value);
        self.encode_bool_header(&header)
    }

    /// Encodes a boolean value, from a `BoolValue`.
    pub fn encode_bool_value(&mut self, value: &BoolValue) -> (r: Result<(), Error>)
        requires
            old(self).wf(),
        ensures
            final(self).wf(),
            final(self).config == old(self).config,
            r matches Ok(()) ==> final(self).out() == old(self).out() + wire::enc_value(
                ValueSpec::Bool(value.0),
                old(self).ext(),
            ),
            r matches Err(e) ==> e.code == ErrorCode::IoError,
            W::infallible() ==> r is Ok,
    {
        self.encode_bool(value.0)
    }

    /// Encodes the unit value.
    pub fn encode_unit(&mut self) -> (r: Result<(), Error>)
        requires
            old(self).wf(),
        ensures
            final(self).wf(),
            final(self).config == old(self).config,
            r matches Ok(()) ==> final(self).out() == old(self).out() + wire::enc_value(
                ValueSpec::Unit,
                old(self).ext(),
            ),
            r matches Err(e) ==> e.code == ErrorCode::IoError,
            W::infallible() ==> r is Ok,
    {
        self.push_byte(0xe2)
    }

    /// Encodes the null value.
    pub fn encode_null(&mut self) -> (r: Result<(), Error>)
        requires
            old(self).wf(),
        ensures
            final(self).wf(),
            final(self).config == old(self).config,
            r matches Ok(()) ==> final(self).out() == old(self).out() + wire::enc_value(
                ValueSpec::Null,
                old(self).ext(),
            ),
            r matches Err(e) ==> e.code == ErrorCode::IoError,
            W::infallible() ==> r is Ok,
    {
        self.push_byte(0xe3)
    }

    /// Encodes an integer value: canonicalized, then compact when the
    /// magnitude fits six bits, else extended with the minimal width.
    pub fn encode_int_value(&mut self, value: &IntValue) -> (r: Result<(), Error>)
        requires
            old(self).wf(),
        ensures
            final(self).wf(),
            final(self).config == old(self).config,
            r matches Ok(()) ==> final(self).out() == old(self).out() + wire::enc_value(
                ValueSpec::Int(value.as_int()),
                old(self).ext(),
            ),
            r matches Err(e) ==> e.code == ErrorCode::IoError,
            W::infallible() ==> r is Ok,
    {
        let (sign, mag): (bool, u64) = match value {
            IntValue::Signed(s) => {
                if *s < 0 {
                    (true, ((-(*s + 1)) as u64) + 1)
                } else {
                    (false, *s as u64)
                }
            },
            IntValue::Unsigned(u) => (false, *u),
        };
        proof {
            assert(sign == (value.as_int() < 0));
            assert(mag as int == if value.as_int() < 0 {
                -value.as_int()
            } else {
                value.as_int()
            });
        }
        if mag <= 0x3f {
            let byte = if sign {
                0x40u8 + (mag as u8)
            } else {
                mag as u8
            };
            self.push_byte(byte)
        } else {
            let e = width_exponent_exec(mag);
            let w = width_of_exponent_exec(e);
            let byte = 0x80u8 + (if sign {
                0x10u8
            } else {
                0u8
            }) + 4 * e;
            match self.push_byte(byte) {
                Ok(()) => {
                    let mag_bytes = be_bytes_exec(mag, w);
                    let r = self.push_bytes(&mag_bytes);
                    proof {
                        if r is Ok {
                            assert(final(self).out() =~= old(self).out() + wire::enc_value(
                                ValueSpec::Int(value.as_int()),
                                old(self).ext(),
                            ));
                        }
                    }
                    r
                },
                Err(e) => Err(e),
            }
        }
    }

    /// Encodes a float value: one header byte, then the big-endian bytes
    /// of the bit pattern, preserved exactly.
    pub fn encode_float_value(&mut self, value: &FloatValue) -> (r: Result<(), Error>)
        requires
            old(self).wf(),
        ensures
            final(self).wf(),
            final(self).config == old(self).config,
            r matches Ok(()) ==> final(self).out() == old(self).out() + wire::enc_value(
                ValueSpec::Float(*value),
                old(self).ext(),
            ),
            r matches Err(e) ==> e.code == ErrorCode::IoError,
            W::infallible() ==> r is Ok,
    {
        let (byte, bits, width): (u8, u64, usize) = match value {
            FloatValue::Single(x) => (0xd0, *x as u64, 4),
            FloatValue::Double(x) => (0xd1, *x, 8),
        };
        match self.push_byte(byte) {
            Ok(()) => {
                let body = be_bytes_exec(bits, width);
                let r = self.push_bytes(&body);
                proof {
                    if r is Ok {
                        assert(final(self).out() =~= old(self).out() + wire::enc_value(
                            ValueSpec::Float(*value),
                            old(self).ext(),
                        ));
                    }
                }
                r
            },
            Err(e) => Err(e),
        }
    }

    /// Encodes a byte array: its length header, then the raw bytes.
    pub fn encode_bytes(&mut self, bytes: &Vec<u8>) -> (r: Result<(), Error>)
        requires
            old(self).wf(),
        ensures
            final(self).wf(),
            final(self).config == old(self).config,
            r matches Ok(()) ==> final(self).out() == old(self).out() + wire::enc_value(
                ValueSpec::Bytes(bytes@),
                old(self).ext(),
            ),
            r matches Err(e) ==> e.code == ErrorCode::IoError,
            W::infallible() ==> r is Ok,
    {
        let len = bytes.len();
        let e = width_exponent_exec(len as u64);
        let w = width_of_exponent_exec(e);
        let byte = 0xd8u8 + e;
        match self.push_byte(byte) {
            Ok(()) => {
                let len_bytes = be_bytes_exec(len as u64, w);
                match self.push_bytes(&len_bytes) {
                    Ok(()) => {
                        let r = self.push_bytes(bytes);
                        proof {
                            if r is Ok {
                                assert(final(self).out() =~= old(self).out() + wire::enc_value(
                                    ValueSpec::Bytes(bytes@),
                                    old(self).ext(),
                                ));
                            }
                        }
                        r
                    },
                    Err(e) => Err(e),
                }
            },
            Err(e) => Err(e),
        }
    }

    /// Encodes a byte array, from a `BytesValue`.
    pub fn encode_bytes_value(&mut self, value: &BytesValue) -> (r: Result<(), Error>)
        requires
            old(self).wf(),
        ensures
            final(self).wf(),
            final(self).config == old(self).config,
            r matches Ok(()) ==> final(self).out() == old(self).out() + wire::enc_value(
                ValueSpec::Bytes(value.0@),
                old(self).ext(),
            ),
            r matches Err(e) ==> e.code == ErrorCode::IoError,
            W::infallible() ==> r is Ok,
    {
        self.encode_bytes(&value.0)
    }

    /// Encodes a string: its length header, then its UTF-8 bytes.
    pub fn encode_string_value(&mut self, value: &StringValue) -> (r: Result<(), Error>)
        requires
            old(self).wf(),
        ensures
            final(self).wf(),
            final(self).config == old(self).config,
            r matches Ok(()) ==> final(self).out() == old(self).out() + wire::enc_value(
                ValueSpec::String(value.0@),
                old(self).ext(),
            ),
            r matches Err(e) ==> e.code == ErrorCode::IoError,
            W::infallible() ==> r is Ok,
    {
        let compact_ok = !self.config.force_extended_lengths;
        match self.encode_len_header(0xa0, value.0.len(), compact_ok) {
            Ok(()) => {
                let r = self.push_bytes(&value.0);
                proof {
                    if r is Ok {
                        assert(final(self).out() =~= old(self).out() + wire::enc_value(
                            ValueSpec::String(value.0@),
                            old(self).ext(),
                        ));
                    }
                }
                r
            },
            Err(e) => Err(e),
        }
    }

    /// Encodes a value: its header, then its body; children recursively.
    pub fn encode_value(&mut self, value: &Value) -> (r: Result<(), Error>)
        requires
            old(self).wf(),
            value.wf(),
        ensures
            final(self).wf(),
            final(self).config == old(self).config,
            r matches Ok(()) ==> final(self).out() == old(self).out() + wire::enc_value(
                value.deep_view(),
                old(self).ext(),
            ),
            r matches Err(e) ==> e.code == ErrorCode::IoError,
            W::infallible() ==> r is Ok,
        decreases value,
    {
        match value {
            Value::Int(v) => self.encode_int_value(v),
            Value::String(v) => self.encode_string_value(v),
            Value::Sequence(v) => self.encode_seq_value(v),
            Value::Mapping(v) => self.encode_map_value(v),
            Value::Float(v) => self.encode_float_value(v),
            Value::Bytes(v) => self.encode_bytes_value(v),
            Value::Bool(v) => self.encode_bool_value(v),
            Value::Unit(_) => self.encode_unit(),
            Value::Null(_) => self.encode_null(),
        }
    }

    /// Encodes a sequence: its length header, then each element in order.
    pub fn encode_seq_value(&mut self, value: &SeqValue) -> (r: Result<(), Error>)
        requires
            old(self).wf(),
            ValueSpec::Sequence(Value::deep_view_seq(value.0@)).wf(),
        ensures
            final(self).wf(),
            final(self).config == old(self).config,
            r matches Ok(()) ==> final(self).out() == old(self).out() + wire::enc_value(
                ValueSpec::Sequence(Value::deep_view_seq(value.0@)),
                old(self).ext(),
            ),
            r matches Err(e) ==> e.code == ErrorCode::IoError,
            W::infallible() ==> r is Ok,
        decreases value,
    {
        let ghost children = Value::deep_view_seq(value.0@);
        proof {
            crate::value::lemma_deep_view_seq(value.0@);
            crate::value::lemma_wf_seq(children);
        }
        let compact_ok = !self.config.force_extended_lengths;
        let n = value.0.len();
        match self.encode_len_header(0xb0, n, compact_ok) {
            Ok(()) => {
                let ghost after_hdr = self.writer.out();
                let mut i: usize = 0;
                while i < n
                    invariant
                        self.wf(),
                        i <= n,
                        n == value.0@.len(),
                        self.config == old(self).config,
                        children == Value::deep_view_seq(value.0@),
                        children.len() == n,
                        forall|j: int| 0 <= j < n ==> children[j] == value.0@[j].deep_view(),
                        forall|j: int| 0 <= j < n ==> #[trigger] children[j].wf(),
                        self.out() == after_hdr + wire::enc_values(
                            children.take(i as int),
                            old(self).config.force_extended_lengths,
                        ),
                    decreases n - i,
                {
                    proof {
                        vstd::std_specs::vec::axiom_vec_index_decreases(value.0, i as int);
                    }
                    proof {
                        assert(children[i as int].wf());
                        assert(value.0@[i as int].deep_view() == children[i as int]);
                    }
                    let r = self.encode_value(&value.0[i]);
                    match r {
                        Ok(()) => {
                            proof {
                                let ext = old(self).config.force_extended_lengths;
                                assert(children.take(i + 1) =~= children.take(i as int) + seq![
                                    children[i as int],
                                ]);
                                wire::lemma_enc_values_concat(
                                    children.take(i as int),
                                    seq![children[i as int]],
                                    ext,
                                );
                                let single = seq![children[i as int]];
                                assert(single.drop_first() =~= Seq::<ValueSpec>::empty());
                                assert(wire::enc_values(Seq::<ValueSpec>::empty(), ext)
                                    =~= Seq::<u8>::empty());
                                assert(wire::enc_values(single, ext) =~= wire::enc_value(
                                    children[i as int],
                                    ext,
                                ));
                                assert(self.out() =~= after_hdr + wire::enc_values(
                                    children.take(i + 1),
                                    ext,
                                ));
                            }
                            i = i + 1;
                        },
                        Err(e) => {
                            return Err(e);
                        },
                    }
                }
                proof {
                    assert(children.take(n as int) =~= children);
                    assert(self.out() =~= old(self).out() + wire::enc_value(
                        ValueSpec::Sequence(children),
                        old(self).ext(),
                    ));
                }
                Ok(())
            },
            Err(e) => Err(e),
        }
    }

    /// Encodes a map: its length header, then each entry in order, the key
    /// before its value. The entry order is preserved verbatim.
    pub fn encode_map_value(&mut self, value: &MapValue) -> (r: Result<(), Error>)
        requires
            old(self).wf(),
            ValueSpec::Mapping(Value::deep_view_pairs(value.0@)).wf(),
        ensures
            final(self).wf(),
            final(self).config == old(self).config,
            r matches Ok(()) ==> final(self).out() == old(self).out() + wire::enc_value(
                ValueSpec::Mapping(Value::deep_view_pairs(value.0@)),
                old(self).ext(),
            ),
            r matches Err(e) ==> e.code == ErrorCode::IoError,
            W::infallible() ==> r is Ok,
        decreases value,
    {
        let ghost entries = Value::deep_view_pairs(value.0@);
        proof {
            crate::value::lemma_deep_view_pairs(value.0@);
            crate::value::lemma_wf_pairs(entries);
        }
        let compact_ok = !self.config.force_extended_lengths;
        let n = value.0.len();
        match self.encode_len_header(0xc0, n, compact_ok) {
            Ok(()) => {
                let ghost after_hdr = self.writer.out();
                let mut i: usize = 0;
                while i < n
                    invariant
                        self.wf(),
                        i <= n,
                        n == value.0@.len(),
                        self.config == old(self).config,
                        entries == Value::deep_view_pairs(value.0@),
                        entries.len() == n,
                        forall|j: int|
                            0 <= j < n ==> entries[j] == (
                            value.0@[j].0.deep_view(),
                            value.0@[j].1.deep_view(),
                            ),
                        forall|j: int|
                            0 <= j < n ==> #[trigger] entries[j].0.wf() && entries[j].1.wf(),
                        self.out() == after_hdr + wire::enc_pairs(
                            entries.take(i as int),
                            old(self).config.force_extended_lengths,
                        ),
                    decreases n - i,
                {
                    proof {
                        vstd::std_specs::vec::axiom_vec_index_decreases(value.0, i as int);
                    }
                    proof {
                        assert(entries[i as int].0.wf() && entries[i as int].1.wf());
                        assert(value.0@[i as int].0.deep_view() == entries[i as int].0);
                        assert(value.0@[i as int].1.deep_view() == entries[i as int].1);
                    }
                    let key_result = {
                        let key = &value.0[i].0;
                        self.encode_value(key)
                    };
                    match key_result {
                        Ok(()) => {
                        },
                        Err(e) => {
                            return Err(e);
                        },
                    }
                    let val_result = {
                        let val = &value.0[i].1;
                        self.encode_value(val)
                    };
                    match val_result {
                        Ok(()) => {
                            proof {
                                let ext = old(self).config.force_extended_lengths;
                                assert(entries.take(i + 1) =~= entries.take(i as int) + seq![
                                    entries[i as int],
                                ]);
                                wire::lemma_enc_pairs_concat(
                                    entries.take(i as int),
                                    seq![entries[i as int]],
                                    ext,
                                );
                                let single = seq![entries[i as int]];
                                assert(single.drop_first() =~= Seq::<(ValueSpec, ValueSpec)>::empty());
                                assert(wire::enc_pairs(Seq::<(ValueSpec, ValueSpec)>::empty(), ext)
                                    =~= Seq::<u8>::empty());
                                assert(wire::enc_pairs(single, ext) =~= wire::enc_value(
                                    entries[i as int].0,
                                    ext,
                                ) + wire::enc_value(entries[i as int].1, ext));
                                assert(self.out() =~= after_hdr + wire::enc_pairs(
                                    entries.take(i + 1),
                                    ext,
                                ));
                            }
                            i = i + 1;
                        },
                        Err(e) => {
                            return Err(e);
                        },
                    }
                }
                proof {
                    assert(entries.take(n as int) =~= entries);
                    assert(self.out() =~= old(self).out() + wire::enc_value(
                        ValueSpec::Mapping(entries),
                        old(self).ext(),
                    ));
                }
                Ok(())
            },
            Err(e) => Err(e),
        }
    }

    /// Encodes a header alone, without a body. An extended length header
    /// keeps its extended form; a compact one stays compact unless the
    /// configuration forces the extended forms.
    pub fn encode_header(&mut self, header: &Header) -> (r: Result<(), Error>)
        requires
            old(self).wf(),
            header.wf(),
        ensures
            final(self).wf(),
            final(self).config == old(self).config,
            r matches Ok(()) ==> final(self).out() == old(self).out() + wire::enc_header(
                *header,
                old(self).ext(),
            ),
            r matches Err(e) ==> e.code == ErrorCode::IoError,
            W::infallible() ==> r is Ok,
    {
        let compact_ok = !self.config.force_extended_lengths;
        match header {
            Header::Int(IntHeader::Compact(c)) => {
                let byte = if c.sign {
                    0x40u8 + c.magnitude
                } else {
                    c.magnitude
                };
                self.push_byte(byte)
            },
            Header::Int(IntHeader::Extended(x)) => {
                let byte = 0x80u8 + (if x.sign {
                    0x10u8
                } else {
                    0u8
                }) + 4 * x.width_exponent;
                self.push_byte(byte)
            },
            Header::String(StringHeader::Compact(c)) => self.encode_len_header(
                0xa0,
                c.len as usize,
                compact_ok,
            ),
            Header::String(StringHeader::Extended(x)) => self.encode_len_header(0xa0, x.len, false),
            Header::Sequence(SeqHeader::Compact(c)) => self.encode_len_header(
                0xb0,
                c.len as usize,
                compact_ok,
            ),
            Header::Sequence(SeqHeader::Extended(x)) => self.encode_len_header(
                0xb0,
                x.len,
                false,
            ),
            Header::Mapping(MapHeader::Compact(c)) => self.encode_len_header(
                0xc0,
                c.len as usize,
                compact_ok,
            ),
            Header::Mapping(MapHeader::Extended(x)) => self.encode_len_header(0xc0, x.len, false),
            Header::Float(FloatHeader::Single) => self.push_byte(0xd0),
            Header::Float(FloatHeader::Double) => self.push_byte(0xd1),
            Header::Bytes(bh) => {
                let e = width_exponent_exec(bh.len as u64);
                let w = width_of_exponent_exec(e);
                let byte = 0xd8u8 + e;
                match self.push_byte(byte) {
                    Ok(()) => {
                        let len_bytes = be_bytes_exec(bh.len as u64, w);
                        let r = self.push_bytes(&len_bytes);
                        proof {
                            if r is Ok {
                                assert(final(self).out() =~= old(self).out() + wire::enc_header(
                                    *header,
                                    old(self).ext(),
                                ));
                            }
                        }
                        r
                    },
                    Err(e) => Err(e),
                }
            },
            Header::Bool(b) => self.encode_bool_header(b),
            Header::Unit(_) => self.push_byte(0xe2),
            Header::Null(_) => self.push_byte(0xe3),
        }
    }
}

/// Encodes one value into a fresh byte vector; with an in-memory sink the
/// encoding cannot fail.
pub fn encode_to_vec(value: &Value, config: EncoderConfig) -> (r: Vec<u8>)
    requires
        value.wf(),
    ensures
        r@ == wire::enc_value(value.deep_view(), config.force_extended_lengths),
{
    let writer = crate::io::VecWriter::new();
    let mut encoder = Encoder::new(writer, config);
    match encoder.encode_value(value) {
        Ok(()) => encoder.into_writer().into_vec(),
        Err(_) => vstd::pervasive::unreached(),
    }
}

} // verus!
