//! The wire format, as mathematics: specification-level encoding and
//! decoding functions over byte sequences, and the lemmas that tie them
//! together. The executable encoder and decoder are verified against these
//! functions.

use vstd::prelude::*;

use crate::header::BoolHeader;
use crate::header::BytesHeader;
use crate::header::CompactIntHeader;
use crate::header::CompactMapHeader;
use crate::header::CompactSeqHeader;
use crate::header::CompactStringHeader;
use crate::header::ExtendedIntHeader;
use crate::header::ExtendedMapHeader;
use crate::header::ExtendedSeqHeader;
use crate::header::ExtendedStringHeader;
use crate::header::FloatHeader;
use crate::header::Header;
use crate::header::IntHeader;
use crate::header::MapHeader;
use crate::header::NullHeader;
use crate::header::SeqHeader;
use crate::header::StringHeader;
use crate::header::UnitHeader;
use crate::value::FloatValue;
use crate::value::ValueSpec;

verus! {

/// The number of values expressible in `n` bytes: `256^n`.
pub open spec fn bound_for(n: int) -> int
    decreases n,
{
    if n <= 0 {
        1
    } else {
        256 * bound_for(n - 1)
    }
}

/// The big-endian `n`-byte encoding of `v`.
pub open spec fn be_bytes(v: int, n: int) -> Seq<u8>
    decreases n,
{
    if n <= 0 {
        Seq::empty()
    } else {
        be_bytes(v / 256, n - 1).push((v % 256) as u8)
    }
}

/// The value carried by a big-endian byte sequence.
pub open spec fn be_value(s: Seq<u8>) -> int
    decreases s.len(),
{
    if s.len() == 0 {
        0
    } else {
        256 * be_value(s.drop_last()) + s.last()
    }
}

/// A big-endian encoding has exactly the asked-for length.
pub proof fn lemma_be_bytes_len(v: int, n: int)
    requires
        n >= 0,
    ensures
        be_bytes(v, n).len() == n,
    decreases n,
{
    if n > 0 {
        lemma_be_bytes_len(v / 256, n - 1);
    }
}

/// A big-endian value is non-negative and below the width's bound.
pub proof fn lemma_be_value_bound(s: Seq<u8>)
    ensures
        0 <= be_value(s) < bound_for(s.len() as int),
    decreases s.len(),
{
    if s.len() > 0 {
        lemma_be_value_bound(s.drop_last());
    }
}

/// Reading back the big-endian encoding of `v` yields `v`.
pub proof fn lemma_be_round_trip(v: int, n: int)
    requires
        n >= 0,
        0 <= v < bound_for(n),
    ensures
        be_value(be_bytes(v, n)) == v,
    decreases n,
{
    if n > 0 {
        assert(0 <= v / 256 < bound_for(n - 1)) by {
            assert(bound_for(n) == 256 * bound_for(n - 1));
            assert(v / 256 < bound_for(n - 1)) by (nonlinear_arith)
                requires
                    0 <= v,
                    v < 256 * bound_for(n - 1),
            ;
        }
        lemma_be_round_trip(v / 256, n - 1);
        lemma_be_bytes_len(v / 256, n - 1);
        let s = be_bytes(v, n);
        assert(s.drop_last() =~= be_bytes(v / 256, n - 1));
        assert(256 * (v / 256) + v % 256 == v) by (nonlinear_arith)
            requires
                v >= 0,
        ;
    }
}

/// The smallest width exponent whose length bytes can carry `len`:
/// `2^e` bytes, `e` in `{0, 1, 2, 3}`.
pub open spec fn width_exponent_for(len: int) -> int {
    if len < 0x100 {
        0
    } else if len < 0x1_0000 {
        1
    } else if len < 0x1_0000_0000 {
        2
    } else {
        3
    }
}

/// The number of length bytes a width exponent selects.
pub open spec fn width_of_exponent(e: int) -> int {
    if e == 0 {
        1
    } else if e == 1 {
        2
    } else if e == 2 {
        4
    } else {
        8
    }
}

/// Any value up to `u64::MAX` fits the width its exponent selects.
pub proof fn lemma_width_fits(len: int)
    requires
        0 <= len <= u64::MAX,
    ensures
        0 <= len < bound_for(width_of_exponent(width_exponent_for(len))),
{
    reveal_with_fuel(bound_for, 9);
    assert(bound_for(1) == 256);
    assert(bound_for(2) == 0x1_0000);
    assert(bound_for(4) == 0x1_0000_0000);
    assert(bound_for(8) == 0x1_0000_0000 * 0x1_0000_0000);
}

/// The header for a length-carrying kind: compact when allowed and the
/// length fits, else the extended form with the minimal width.
pub open spec fn enc_len_header(type_bits: u8, len: int, compact_ok: bool) -> Seq<u8> {
    if compact_ok && len <= 7 {
        seq![(type_bits + len) as u8]
    } else {
        seq![(type_bits + 8 + width_exponent_for(len)) as u8] + be_bytes(
            len,
            width_of_exponent(width_exponent_for(len)),
        )
    }
}

/// The header of a byte array: the kind prefix with the minimal width
/// exponent, then the length in that many big-endian bytes.
pub open spec fn enc_bytes_header(len: int) -> Seq<u8> {
    seq![(0xd8 + width_exponent_for(len)) as u8] + be_bytes(
        len,
        width_of_exponent(width_exponent_for(len)),
    )
}

/// The encoding of an integer: compact when the magnitude fits six bits,
/// else the extended header and a minimal-width big-endian magnitude.
pub open spec fn enc_int(i: int) -> Seq<u8> {
    let sign = i < 0;
    let mag = if i < 0 {
        -i
    } else {
        i
    };
    if mag <= 0x3f {
        seq![((if sign {
            0x40int
        } else {
            0int
        }) + mag) as u8]
    } else {
        seq![(0x80 + (if sign {
            0x10int
        } else {
            0int
        }) + 4 * width_exponent_for(mag)) as u8] + be_bytes(
            mag,
            width_of_exponent(width_exponent_for(mag)),
        )
    }
}

/// The encoding of one value: its header, then its body; children in
/// order. `ext` suppresses the compact length forms.
pub open spec fn enc_value(v: ValueSpec, ext: bool) -> Seq<u8>
    decreases v, 0int, 0int,
{
    match v {
        ValueSpec::Int(i) => enc_int(i),
        ValueSpec::String(s) => enc_len_header(0xa0, s.len() as int, !ext) + s,
        ValueSpec::Sequence(s) => enc_len_header(0xb0, s.len() as int, !ext) + enc_values(s, ext),
        ValueSpec::Mapping(m) => enc_len_header(0xc0, m.len() as int, !ext) + enc_pairs(m, ext),
        ValueSpec::Float(f) => match f {
            FloatValue::Single(x) => seq![0xd0u8] + be_bytes(x as int, 4),
            FloatValue::Double(x) => seq![0xd1u8] + be_bytes(x as int, 8),
        },
        ValueSpec::Bytes(s) => enc_bytes_header(s.len() as int) + s,
        ValueSpec::Bool(b) => seq![
            if b {
                0xe1u8
            } else {
                0xe0u8
            },
        ],
        ValueSpec::Unit => seq![0xe2u8],
        ValueSpec::Null => seq![0xe3u8],
    }
}

/// The encodings of a sequence's elements, one after another.
pub open spec fn enc_values(s: Seq<ValueSpec>, ext: bool) -> Seq<u8>
    decreases s, 1int, s.len(),
{
    if s.len() == 0 {
        Seq::empty()
    } else {
        enc_value(s[0], ext) + enc_values(s.drop_first(), ext)
    }
}

/// The encodings of a map's entries: each key, then its value.
pub open spec fn enc_pairs(s: Seq<(ValueSpec, ValueSpec)>, ext: bool) -> Seq<u8>
    decreases s, 1int, s.len(),
{
    if s.len() == 0 {
        Seq::empty()
    } else {
        enc_value(s[0].0, ext) + enc_value(s[0].1, ext) + enc_pairs(s.drop_first(), ext)
    }
}

/// The bytes a header encodes to. `ext` suppresses the compact length
/// forms; an extended header always takes the minimal width for its length.
pub open spec fn enc_header(h: Header, ext: bool) -> Seq<u8> {
    match h {
        Header::Int(IntHeader::Compact(c)) => seq![((if c.sign {
            0x40int
        } else {
            0int
        }) + c.magnitude) as u8],
        Header::Int(IntHeader::Extended(e)) => seq![(0x80 + (if e.sign {
            0x10int
        } else {
            0int
        }) + 4 * e.width_exponent) as u8],
        Header::String(StringHeader::Compact(c)) => enc_len_header(0xa0, c.len as int, !ext),
        Header::String(StringHeader::Extended(e)) => enc_len_header(0xa0, e.len as int, false),
        Header::Sequence(SeqHeader::Compact(c)) => enc_len_header(0xb0, c.len as int, !ext),
        Header::Sequence(SeqHeader::Extended(e)) => enc_len_header(0xb0, e.len as int, false),
        Header::Mapping(MapHeader::Compact(c)) => enc_len_header(0xc0, c.len as int, !ext),
        Header::Mapping(MapHeader::Extended(e)) => enc_len_header(0xc0, e.len as int, false),
        Header::Float(FloatHeader::Single) => seq![0xd0u8],
        Header::Float(FloatHeader::Double) => seq![0xd1u8],
        Header::Bytes(bh) => enc_bytes_header(bh.len as int),
        Header::Bool(b) => seq![
            if b.value {
                0xe1u8
            } else {
                0xe0u8
            },
        ],
        Header::Unit(_) => seq![0xe2u8],
        Header::Null(_) => seq![0xe3u8],
    }
}

/// What a header becomes after an encode-decode round trip: forcing the
/// extended forms turns a compact length header into the extended one of
/// the same length; everything else survives unchanged.
pub open spec fn normalize_header(h: Header, ext: bool) -> Header {
    if ext {
        match h {
            Header::String(StringHeader::Compact(c)) => Header::String(
                StringHeader::Extended(ExtendedStringHeader { len: c.len as usize }),
            ),
            Header::Sequence(SeqHeader::Compact(c)) => Header::Sequence(
                SeqHeader::Extended(ExtendedSeqHeader { len: c.len as usize }),
            ),
            Header::Mapping(MapHeader::Compact(c)) => Header::Mapping(
                MapHeader::Extended(ExtendedMapHeader { len: c.len as usize }),
            ),
            _ => h,
        }
    } else {
        h
    }
}

/// Parses the length information of a length-carrying kind out of a header:
/// whether the compact form was used, the length, and the bytes consumed.
pub open spec fn dec_len_info(b: Seq<u8>, type_bits: u8) -> Option<(bool, int, int)> {
    let low = b[0] - type_bits;
    if low < 8 {
        Some((true, low as int, 1int))
    } else if low - 8 > 3 {
        None
    } else {
        let w = width_of_exponent(low - 8);
        if b.len() < 1 + w {
            None
        } else {
            let len = be_value(b.subrange(1, 1 + w));
            if len > usize::MAX {
                None
            } else {
                Some((false, len, 1 + w))
            }
        }
    }
}

/// Parses a value's header off the front of `b`: the header and the bytes
/// it took. Fails on an empty input, reserved bits, or a length that does
/// not fit the platform's index type.
pub open spec fn dec_header(b: Seq<u8>) -> Option<(Header, int)> {
    if b.len() == 0 {
        None
    } else {
        let m = b[0];
        if m < 0x80 {
            let sign = m >= 0x40;
            let mag = if sign {
                m - 0x40
            } else {
                m as int
            };
            Some((Header::Int(IntHeader::Compact(CompactIntHeader { sign, magnitude: mag as u8 })), 1int))
        } else if m < 0xa0 {
            let low = m - 0x80;
            let sign = low >= 0x10;
            let rest = if sign {
                low - 0x10
            } else {
                low as int
            };
            if rest % 4 != 0 {
                None
            } else {
                Some((
                    Header::Int(
                        IntHeader::Extended(
                            ExtendedIntHeader { sign, width_exponent: (rest / 4) as u8 },
                        ),
                    ),
                    1int,
                ))
            }
        } else if m < 0xb0 {
            match dec_len_info(b, 0xa0) {
                None => None,
                Some((compact, len, k)) => Some((
                    Header::String(
                        if compact {
                            StringHeader::Compact(CompactStringHeader { len: len as u8 })
                        } else {
                            StringHeader::Extended(ExtendedStringHeader { len: len as usize })
                        },
                    ),
                    k,
                )),
            }
        } else if m < 0xc0 {
            match dec_len_info(b, 0xb0) {
                None => None,
                Some((compact, len, k)) => Some((
                    Header::Sequence(
                        if compact {
                            SeqHeader::Compact(CompactSeqHeader { len: len as u8 })
                        } else {
                            SeqHeader::Extended(ExtendedSeqHeader { len: len as usize })
                        },
                    ),
                    k,
                )),
            }
        } else if m < 0xd0 {
            match dec_len_info(b, 0xc0) {
                None => None,
                Some((compact, len, k)) => Some((
                    Header::Mapping(
                        if compact {
                            MapHeader::Compact(CompactMapHeader { len: len as u8 })
                        } else {
                            MapHeader::Extended(ExtendedMapHeader { len: len as usize })
                        },
                    ),
                    k,
                )),
            }
        } else if m < 0xd8 {
            if m == 0xd0 {
                Some((Header::Float(FloatHeader::Single), 1int))
            } else if m == 0xd1 {
                Some((Header::Float(FloatHeader::Double), 1int))
            } else {
                None
            }
        } else if m < 0xe0 {
            let e = m - 0xd8;
            if e > 3 {
                None
            } else {
                let w = width_of_exponent(e as int);
                if b.len() < 1 + w {
                    None
                } else {
                    let len = be_value(b.subrange(1, 1 + w));
                    if len > usize::MAX {
                        None
                    } else {
                        Some((Header::Bytes(BytesHeader { len: len as usize }), 1 + w))
                    }
                }
            }
        } else if m == 0xe0 {
            Some((Header::Bool(BoolHeader { value: false }), 1int))
        } else if m == 0xe1 {
            Some((Header::Bool(BoolHeader { value: true }), 1int))
        } else if m == 0xe2 {
            Some((Header::Unit(UnitHeader), 1int))
        } else if m == 0xe3 {
            Some((Header::Null(NullHeader), 1int))
        } else {
            None
        }
    }
}

/// Parses the body a header describes off the front of `b`: the value and
/// the bytes it took.
pub open spec fn dec_body(h: Header, b: Seq<u8>) -> Option<(ValueSpec, int)>
    decreases b.len(), 2int, 0int,
{
    match h {
        Header::Int(IntHeader::Compact(c)) => Some(
            (
                ValueSpec::Int(
                    if c.sign {
                        -(c.magnitude as int)
                    } else {
                        c.magnitude as int
                    },
                ),
                0int,
            ),
        ),
        Header::Int(IntHeader::Extended(e)) => {
            let n = width_of_exponent(e.width_exponent as int);
            if b.len() < n {
                None
            } else {
                let mag = be_value(b.take(n));
                if e.sign {
                    if mag > 0x8000_0000_0000_0000 {
                        None
                    } else {
                        Some((ValueSpec::Int(-mag), n))
                    }
                } else {
                    Some((ValueSpec::Int(mag), n))
                }
            }
        },
        Header::String(sh) => {
            let len = sh.spec_len();
            if b.len() < len {
                None
            } else {
                let bytes = b.take(len);
                if vstd::utf8::valid_utf8(bytes) {
                    Some((ValueSpec::String(bytes), len))
                } else {
                    None
                }
            }
        },
        Header::Sequence(sh) => match dec_values(b, sh.spec_len()) {
            None => None,
            Some((vs, n)) => Some((ValueSpec::Sequence(vs), n)),
        },
        Header::Mapping(mh) => match dec_pairs(b, mh.spec_len()) {
            None => None,
            Some((ps, n)) => Some((ValueSpec::Mapping(ps), n)),
        },
        Header::Float(FloatHeader::Single) => {
            if b.len() < 4 {
                None
            } else {
                Some((ValueSpec::Float(FloatValue::Single(be_value(b.take(4)) as u32)), 4int))
            }
        },
        Header::Float(FloatHeader::Double) => {
            if b.len() < 8 {
                None
            } else {
                Some((ValueSpec::Float(FloatValue::Double(be_value(b.take(8)) as u64)), 8int))
            }
        },
        Header::Bytes(bh) => {
            let len = bh.len as int;
            if b.len() < len {
                None
            } else {
                Some((ValueSpec::Bytes(b.take(len)), len))
            }
        },
        Header::Bool(h) => Some((ValueSpec::Bool(h.value), 0int)),
        Header::Unit(_) => Some((ValueSpec::Unit, 0int)),
        Header::Null(_) => Some((ValueSpec::Null, 0int)),
    }
}

/// Parses one value off the front of `b`: the value and the bytes it took.
pub open spec fn dec_value(b: Seq<u8>) -> Option<(ValueSpec, int)>
    decreases b.len(), 0int, 0int,
{
    match dec_header(b) {
        None => None,
        Some((h, k)) => if k < 1 {
            None
        } else {
            match dec_body(h, b.skip(k)) {
                None => None,
                Some((v, n)) => Some((v, k + n)),
            }
        },
    }
}

/// Parses `n` values off the front of `b`: the values and the bytes they
/// took.
pub open spec fn dec_values(b: Seq<u8>, n: int) -> Option<(Seq<ValueSpec>, int)>
    decreases b.len(), 1int, n,
{
    if n <= 0 {
        Some((Seq::empty(), 0int))
    } else {
        match dec_value(b) {
            None => None,
            Some((v, k)) => if k < 1 || k > b.len() {
                None
            } else {
                match dec_values(b.skip(k), n - 1) {
                    None => None,
                    Some((vs, m)) => Some((seq![v] + vs, k + m)),
                }
            },
        }
    }
}

/// Parses `n` key-value entries off the front of `b`.
pub open spec fn dec_pairs(b: Seq<u8>, n: int) -> Option<(Seq<(ValueSpec, ValueSpec)>, int)>
    decreases b.len(), 1int, n,
{
    if n <= 0 {
        Some((Seq::empty(), 0int))
    } else {
        match dec_value(b) {
            None => None,
            Some((key, k)) => if k < 1 || k > b.len() {
                None
            } else {
                match dec_value(b.skip(k)) {
                    None => None,
                    Some((val, m)) => if m < 1 || k + m > b.len() {
                        None
                    } else {
                        match dec_pairs(b.skip(k + m), n - 1) {
                            None => None,
                            Some((ps, q)) => Some((seq![(key, val)] + ps, k + m + q)),
                        }
                    },
                }
            },
        }
    }
}

/// Every value encoding starts with at least its header byte.
pub proof fn lemma_enc_value_min_len(v: ValueSpec, ext: bool)
    ensures
        enc_value(v, ext).len() >= 1,
{
    match v {
        ValueSpec::Int(i) => {
            let mag = if i < 0 {
                -i
            } else {
                i
            };
            if mag > 0x3f {
                lemma_be_bytes_len(mag, width_of_exponent(width_exponent_for(mag)));
            }
        },
        _ => {
        },
    }
}

/// Reading back an encoded length header yields its compactness and length
/// and leaves the tail.
pub proof fn lemma_dec_len_header(type_bits: u8, len: int, compact_ok: bool, tail: Seq<u8>)
    requires
        type_bits == 0xa0 || type_bits == 0xb0 || type_bits == 0xc0,
        0 <= len <= usize::MAX,
    ensures
        ({
            let e = enc_len_header(type_bits, len, compact_ok);
            let b = e + tail;
            &&& 1 <= e.len() <= 9
            &&& type_bits <= b[0] < type_bits + 16
            &&& dec_len_info(b, type_bits) == Some((compact_ok && len <= 7, len, e.len() as int))
            &&& b.skip(e.len() as int) =~= tail
        }),
{
    let e = enc_len_header(type_bits, len, compact_ok);
    let b = e + tail;
    if compact_ok && len <= 7 {
        assert(b.skip(1) =~= tail);
    } else {
        let w0 = width_exponent_for(len);
        let w = width_of_exponent(w0);
        lemma_be_bytes_len(len, w);
        lemma_width_fits(len);
        lemma_be_round_trip(len, w);
        assert(b.subrange(1, 1 + w) =~= be_bytes(len, w));
        assert(b.skip(e.len() as int) =~= tail);
    }
}

/// Reading back an encoded header yields the header, normalized for the
/// configured compactness, and consumes exactly the header's bytes.
#[verifier::rlimit(100)]
#[verifier::spinoff_prover]
pub proof fn lemma_enc_dec_header(h: Header, ext: bool, rest: Seq<u8>)
    requires
        h.wf(),
    ensures
        ({
            let e = enc_header(h, ext);
            &&& 1 <= e.len() <= 9
            &&& dec_header(e + rest) == Some((normalize_header(h, ext), e.len() as int))
            &&& (e + rest).skip(e.len() as int) =~= rest
        }),
{
    let e = enc_header(h, ext);
    let b = e + rest;
    match h {
        Header::Int(IntHeader::Compact(c)) => {
            assert(b.skip(1) =~= rest);
        },
        Header::Int(IntHeader::Extended(x)) => {
            assert(b.skip(1) =~= rest);
        },
        Header::String(StringHeader::Compact(c)) => {
            lemma_dec_len_header(0xa0, c.len as int, !ext, rest);
        },
        Header::String(StringHeader::Extended(x)) => {
            lemma_dec_len_header(0xa0, x.len as int, false, rest);
        },
        Header::Sequence(SeqHeader::Compact(c)) => {
            lemma_dec_len_header(0xb0, c.len as int, !ext, rest);
        },
        Header::Sequence(SeqHeader::Extended(x)) => {
            lemma_dec_len_header(0xb0, x.len as int, false, rest);
        },
        Header::Mapping(MapHeader::Compact(c)) => {
            lemma_dec_len_header(0xc0, c.len as int, !ext, rest);
        },
        Header::Mapping(MapHeader::Extended(x)) => {
            lemma_dec_len_header(0xc0, x.len as int, false, rest);
        },
        Header::Float(_) => {
            assert(b.skip(1) =~= rest);
        },
        Header::Bytes(bh) => {
            let len = bh.len as int;
            let w0 = width_exponent_for(len);
            let w = width_of_exponent(w0);
            lemma_be_bytes_len(len, w);
            lemma_width_fits(len);
            lemma_be_round_trip(len, w);
            assert(b.subrange(1, 1 + w) =~= be_bytes(len, w));
            assert(b.skip(e.len() as int) =~= rest);
        },
        Header::Bool(_) => {
            assert(b.skip(1) =~= rest);
        },
        Header::Unit(_) => {
            assert(b.skip(1) =~= rest);
        },
        Header::Null(_) => {
            assert(b.skip(1) =~= rest);
        },
    }
}

/// Round trip for an integer encoding.
#[verifier::rlimit(100)]
#[verifier::spinoff_prover]
pub proof fn lemma_rt_int(i: int, ext: bool, rest: Seq<u8>)
    requires
        -0x8000_0000_0000_0000 <= i <= 0xffff_ffff_ffff_ffff,
    ensures
        ({
            let e = enc_int(i);
            dec_value(e + rest) == Some((ValueSpec::Int(i), e.len() as int))
        }),
{
    let e = enc_int(i);
    let b = e + rest;
    let sign = i < 0;
    let mag = if i < 0 {
        -i
    } else {
        i
    };
    if mag <= 0x3f {
        assert(e.len() == 1);
        let h = Header::Int(IntHeader::Compact(CompactIntHeader { sign, magnitude: mag as u8 }));
        assert(dec_header(b) == Some((h, 1int)));
        assert(b.skip(1) =~= rest);
        assert(dec_body(h, b.skip(1)) == Some((ValueSpec::Int(i), 0int)));
    } else {
        let w0 = width_exponent_for(mag);
        let w = width_of_exponent(w0);
        lemma_be_bytes_len(mag, w);
        lemma_width_fits(mag);
        lemma_be_round_trip(mag, w);
        let h = Header::Int(
            IntHeader::Extended(ExtendedIntHeader { sign, width_exponent: w0 as u8 }),
        );
        assert(dec_header(b) == Some((h, 1int)));
        assert(b.skip(1) =~= be_bytes(mag, w) + rest);
        assert((be_bytes(mag, w) + rest).take(w) =~= be_bytes(mag, w));
        assert(dec_body(h, b.skip(1)) == Some((ValueSpec::Int(i), w)));
    }
}

/// Round trip for a string encoding.
#[verifier::rlimit(100)]
#[verifier::spinoff_prover]
pub proof fn lemma_rt_string(s: Seq<u8>, ext: bool, rest: Seq<u8>)
    requires
        vstd::utf8::valid_utf8(s),
        s.len() <= usize::MAX,
    ensures
        ({
            let e = enc_len_header(0xa0, s.len() as int, !ext) + s;
            dec_value(e + rest) == Some((ValueSpec::String(s), e.len() as int))
        }),
{
    let hdr = enc_len_header(0xa0, s.len() as int, !ext);
    let e = hdr + s;
    let b = e + rest;
    let body_rest = s + rest;
    lemma_dec_len_header(0xa0, s.len() as int, !ext, body_rest);
    assert(b =~= hdr + body_rest);
    assert(body_rest.take(s.len() as int) =~= s);
    let compact = !ext && s.len() <= 7;
    let h = if compact {
        Header::String(StringHeader::Compact(CompactStringHeader { len: s.len() as u8 }))
    } else {
        Header::String(StringHeader::Extended(ExtendedStringHeader { len: s.len() as usize }))
    };
    assert(dec_header(b) == Some((h, hdr.len() as int)));
    assert(dec_body(h, body_rest) == Some((ValueSpec::String(s), s.len() as int)));
}

/// Round trip for a byte-array encoding.
#[verifier::rlimit(100)]
#[verifier::spinoff_prover]
pub proof fn lemma_rt_bytes(s: Seq<u8>, ext: bool, rest: Seq<u8>)
    requires
        s.len() <= usize::MAX,
    ensures
        ({
            let e = enc_bytes_header(s.len() as int) + s;
            dec_value(e + rest) == Some((ValueSpec::Bytes(s), e.len() as int))
        }),
{
    let len = s.len() as int;
    let w0 = width_exponent_for(len);
    let w = width_of_exponent(w0);
    lemma_be_bytes_len(len, w);
    lemma_width_fits(len);
    lemma_be_round_trip(len, w);
    let hdr = enc_bytes_header(len);
    let e = hdr + s;
    let b = e + rest;
    let body_rest = s + rest;
    assert(b =~= hdr + body_rest);
    assert(b.subrange(1, 1 + w) =~= be_bytes(len, w));
    let h = Header::Bytes(BytesHeader { len: s.len() as usize });
    assert(dec_header(b) == Some((h, hdr.len() as int)));
    assert(b.skip(hdr.len() as int) =~= body_rest);
    assert(body_rest.take(len) =~= s);
    assert(dec_body(h, body_rest) == Some((ValueSpec::Bytes(s), len)));
}

/// Round trip for a float encoding.
#[verifier::rlimit(100)]
#[verifier::spinoff_prover]
pub proof fn lemma_rt_float(f: FloatValue, ext: bool, rest: Seq<u8>)
    ensures
        ({
            let e = enc_value(ValueSpec::Float(f), ext);
            dec_value(e + rest) == Some((ValueSpec::Float(f), e.len() as int))
        }),
{
    let e = enc_value(ValueSpec::Float(f), ext);
    let b = e + rest;
    match f {
        FloatValue::Single(x) => {
            lemma_be_bytes_len(x as int, 4);
            assert(bound_for(4) == 0x1_0000_0000) by {
                reveal_with_fuel(bound_for, 5);
            }
            lemma_be_round_trip(x as int, 4);
            let h = Header::Float(FloatHeader::Single);
            assert(dec_header(b) == Some((h, 1int)));
            assert(b.skip(1) =~= be_bytes(x as int, 4) + rest);
            assert((be_bytes(x as int, 4) + rest).take(4) =~= be_bytes(x as int, 4));
            assert(dec_body(h, b.skip(1)) == Some((ValueSpec::Float(f), 4int)));
        },
        FloatValue::Double(x) => {
            lemma_be_bytes_len(x as int, 8);
            assert(bound_for(8) == 0x1_0000_0000 * 0x1_0000_0000) by {
                reveal_with_fuel(bound_for, 9);
            }
            lemma_be_round_trip(x as int, 8);
            let h = Header::Float(FloatHeader::Double);
            assert(dec_header(b) == Some((h, 1int)));
            assert(b.skip(1) =~= be_bytes(x as int, 8) + rest);
            assert((be_bytes(x as int, 8) + rest).take(8) =~= be_bytes(x as int, 8));
            assert(dec_body(h, b.skip(1)) == Some((ValueSpec::Float(f), 8int)));
        },
    }
}

/// Round trip: reading back the encoding of a well-formed value yields that
/// value and consumes exactly its bytes, whatever follows them.
#[verifier::rlimit(100)]
#[verifier::spinoff_prover]
pub proof fn lemma_enc_dec_value(v: ValueSpec, ext: bool, rest: Seq<u8>)
    requires
        v.wf(),
    ensures
        ({
            let e = enc_value(v, ext);
            dec_value(e + rest) == Some((v, e.len() as int))
        }),
    decreases v, 0int, 0int,
{
    let e = enc_value(v, ext);
    let b = e + rest;
    match v {
        ValueSpec::Int(i) => {
            lemma_rt_int(i, ext, rest);
        },
        ValueSpec::String(s) => {
            lemma_rt_string(s, ext, rest);
        },
        ValueSpec::Sequence(children) => {
            let hdr = enc_len_header(0xb0, children.len() as int, !ext);
            let body = enc_values(children, ext);
            let body_rest = body + rest;
            lemma_dec_len_header(0xb0, children.len() as int, !ext, body_rest);
            assert(b =~= hdr + body_rest);
            let compact = !ext && children.len() <= 7;
            let h = if compact {
                Header::Sequence(SeqHeader::Compact(CompactSeqHeader { len: children.len() as u8 }))
            } else {
                Header::Sequence(
                    SeqHeader::Extended(ExtendedSeqHeader { len: children.len() as usize }),
                )
            };
            assert(dec_header(b) == Some((h, hdr.len() as int)));
            lemma_enc_dec_values(children, ext, rest);
            assert(dec_body(h, body_rest) == Some(
                (ValueSpec::Sequence(children), body.len() as int),
            ));
        },
        ValueSpec::Mapping(entries) => {
            let hdr = enc_len_header(0xc0, entries.len() as int, !ext);
            let body = enc_pairs(entries, ext);
            let body_rest = body + rest;
            lemma_dec_len_header(0xc0, entries.len() as int, !ext, body_rest);
            assert(b =~= hdr + body_rest);
            let compact = !ext && entries.len() <= 7;
            let h = if compact {
                Header::Mapping(MapHeader::Compact(CompactMapHeader { len: entries.len() as u8 }))
            } else {
                Header::Mapping(
                    MapHeader::Extended(ExtendedMapHeader { len: entries.len() as usize }),
                )
            };
            assert(dec_header(b) == Some((h, hdr.len() as int)));
            lemma_enc_dec_pairs(entries, ext, rest);
            assert(dec_body(h, body_rest) == Some(
                (ValueSpec::Mapping(entries), body.len() as int),
            ));
        },
        ValueSpec::Float(f) => {
            lemma_rt_float(f, ext, rest);
        },
        ValueSpec::Bytes(s) => {
            lemma_rt_bytes(s, ext, rest);
        },
        ValueSpec::Bool(v) => {
            assert(b.skip(1) =~= rest);
        },
        ValueSpec::Unit => {
            assert(b.skip(1) =~= rest);
        },
        ValueSpec::Null => {
            assert(b.skip(1) =~= rest);
        },
    }
}

/// Round trip for a sequence body: reading back the concatenated encodings
/// of `s`'s elements yields exactly those elements.
#[verifier::rlimit(100)]
#[verifier::spinoff_prover]
pub proof fn lemma_enc_dec_values(s: Seq<ValueSpec>, ext: bool, rest: Seq<u8>)
    requires
        ValueSpec::wf_seq(s),
    ensures
        ({
            let e = enc_values(s, ext);
            dec_values(e + rest, s.len() as int) == Some((s, e.len() as int))
        }),
    decreases s, 1int, s.len(),
{
    let e = enc_values(s, ext);
    let b = e + rest;
    if s.len() == 0 {
        assert(e =~= Seq::<u8>::empty());
        assert(dec_values(b, 0) == Some((Seq::<ValueSpec>::empty(), 0int)));
        assert(Seq::<ValueSpec>::empty() =~= s);
    } else {
        let e0 = enc_value(s[0], ext);
        let etail = enc_values(s.drop_first(), ext);
        assert(e =~= e0 + etail);
        assert(b =~= e0 + (etail + rest));
        lemma_enc_dec_value(s[0], ext, etail + rest);
        lemma_enc_value_min_len(s[0], ext);
        assert(b.skip(e0.len() as int) =~= etail + rest);
        lemma_enc_dec_values(s.drop_first(), ext, rest);
        assert(seq![s[0]] + s.drop_first() =~= s);
    }
}

/// Round trip for a map body: reading back the concatenated encodings of
/// `s`'s entries yields exactly those entries.
#[verifier::rlimit(100)]
#[verifier::spinoff_prover]
pub proof fn lemma_enc_dec_pairs(s: Seq<(ValueSpec, ValueSpec)>, ext: bool, rest: Seq<u8>)
    requires
        ValueSpec::wf_pairs(s),
    ensures
        ({
            let e = enc_pairs(s, ext);
            dec_pairs(e + rest, s.len() as int) == Some((s, e.len() as int))
        }),
    decreases s, 1int, s.len(),
{
    let e = enc_pairs(s, ext);
    let b = e + rest;
    if s.len() == 0 {
        assert(e =~= Seq::<u8>::empty());
        assert(dec_pairs(b, 0) == Some((Seq::<(ValueSpec, ValueSpec)>::empty(), 0int)));
        assert(Seq::<(ValueSpec, ValueSpec)>::empty() =~= s);
    } else {
        let ekey = enc_value(s[0].0, ext);
        let eval = enc_value(s[0].1, ext);
        let etail = enc_pairs(s.drop_first(), ext);
        assert(e =~= (ekey + eval) + etail);
        assert(b =~= ekey + (eval + (etail + rest)));
        lemma_enc_dec_value(s[0].0, ext, eval + (etail + rest));
        lemma_enc_value_min_len(s[0].0, ext);
        assert(b.skip(ekey.len() as int) =~= eval + (etail + rest));
        lemma_enc_dec_value(s[0].1, ext, etail + rest);
        lemma_enc_value_min_len(s[0].1, ext);
        assert(b.skip(ekey.len() as int + eval.len() as int) =~= etail + rest);
        lemma_enc_dec_pairs(s.drop_first(), ext, rest);
        assert(seq![(s[0].0, s[0].1)] + s.drop_first() =~= s);
        assert((s[0].0, s[0].1) == s[0]);
    }
}

/// The bytes skipping one value consumes: like [`dec_value`], but without
/// materializing bodies, validating UTF-8, or range-checking magnitudes.
pub open spec fn dec_skip(b: Seq<u8>) -> Option<int>
    decreases b.len(), 0int, 0int,
{
    match dec_header(b) {
        None => None,
        Some((h, k)) => if k < 1 || k > b.len() {
            None
        } else {
            match dec_skip_body(h, b.skip(k)) {
                None => None,
                Some(n) => Some(k + n),
            }
        },
    }
}

/// The bytes skipping the body a header describes consumes.
pub open spec fn dec_skip_body(h: Header, b: Seq<u8>) -> Option<int>
    decreases b.len(), 2int, 0int,
{
    match h {
        Header::Int(IntHeader::Compact(_)) => Some(0int),
        Header::Int(IntHeader::Extended(e)) => {
            let n = width_of_exponent(e.width_exponent as int);
            if b.len() < n {
                None
            } else {
                Some(n)
            }
        },
        Header::String(sh) => {
            if b.len() < sh.spec_len() {
                None
            } else {
                Some(sh.spec_len())
            }
        },
        Header::Sequence(sh) => dec_skip_values(b, sh.spec_len()),
        Header::Mapping(mh) => dec_skip_pairs(b, mh.spec_len()),
        Header::Float(FloatHeader::Single) => if b.len() < 4 {
            None
        } else {
            Some(4int)
        },
        Header::Float(FloatHeader::Double) => if b.len() < 8 {
            None
        } else {
            Some(8int)
        },
        Header::Bytes(bh) => {
            if b.len() < bh.len {
                None
            } else {
                Some(bh.len as int)
            }
        },
        Header::Bool(_) => Some(0int),
        Header::Unit(_) => Some(0int),
        Header::Null(_) => Some(0int),
    }
}

/// The bytes skipping `n` values consumes.
pub open spec fn dec_skip_values(b: Seq<u8>, n: int) -> Option<int>
    decreases b.len(), 1int, n,
{
    if n <= 0 {
        Some(0int)
    } else {
        match dec_skip(b) {
            None => None,
            Some(k) => if k < 1 || k > b.len() {
                None
            } else {
                match dec_skip_values(b.skip(k), n - 1) {
                    None => None,
                    Some(m) => Some(k + m),
                }
            },
        }
    }
}

/// The bytes skipping `n` key-value entries consumes.
pub open spec fn dec_skip_pairs(b: Seq<u8>, n: int) -> Option<int>
    decreases b.len(), 1int, n,
{
    if n <= 0 {
        Some(0int)
    } else {
        match dec_skip(b) {
            None => None,
            Some(k) => if k < 1 || k > b.len() {
                None
            } else {
                match dec_skip(b.skip(k)) {
                    None => None,
                    Some(m) => if m < 1 || k + m > b.len() {
                        None
                    } else {
                        match dec_skip_pairs(b.skip(k + m), n - 1) {
                            None => None,
                            Some(q) => Some(k + m + q),
                        }
                    },
                }
            },
        }
    }
}

/// A parsed header takes between one and nine bytes of the input, and its
/// bit fields fit their widths.
pub proof fn lemma_dec_header_bounds(b: Seq<u8>)
    ensures
        dec_header(b) matches Some((h, k)) ==> 1 <= k <= b.len() && k <= 9 && h.wf(),
{
}

/// A decoded value takes between one byte and all of the input, and is
/// well-formed.
pub proof fn lemma_dec_value_bounds(b: Seq<u8>)
    ensures
        dec_value(b) matches Some((v, n)) ==> 1 <= n <= b.len() && v.wf(),
    decreases b.len(), 0int, 0int,
{
    if let Some((h, k)) = dec_header(b) {
        lemma_dec_header_bounds(b);
        if 1 <= k <= b.len() {
            lemma_dec_body_bounds(h, b.skip(k));
        }
    }
}

/// A decoded body takes at most all of the input, and is well-formed.
pub proof fn lemma_dec_body_bounds(h: Header, b: Seq<u8>)
    ensures
        dec_body(h, b) matches Some((v, n)) ==> 0 <= n <= b.len() && v.wf(),
    decreases b.len(), 2int, 0int,
{
    match h {
        Header::Int(IntHeader::Extended(e)) => {
            let n = width_of_exponent(e.width_exponent as int);
            if b.len() >= n {
                lemma_be_value_bound(b.take(n));
                reveal_with_fuel(bound_for, 9);
                assert(b.take(n).len() == n);
                assert(bound_for(1) == 256);
                assert(bound_for(2) == 0x1_0000);
                assert(bound_for(4) == 0x1_0000_0000);
                assert(bound_for(8) == 0x1_0000_0000 * 0x1_0000_0000);
            }
        },
        Header::Sequence(sh) => {
            lemma_dec_values_bounds(b, sh.spec_len());
            if let Some((vs, n)) = dec_values(b, sh.spec_len()) {
                crate::value::lemma_wf_seq(vs);
            }
        },
        Header::Mapping(mh) => {
            lemma_dec_pairs_bounds(b, mh.spec_len());
            if let Some((ps, n)) = dec_pairs(b, mh.spec_len()) {
                crate::value::lemma_wf_pairs(ps);
            }
        },
        _ => {
        },
    }
}

/// `n` decoded values take at most all of the input, come out `n` strong,
/// and are each well-formed.
pub proof fn lemma_dec_values_bounds(b: Seq<u8>, n: int)
    ensures
        dec_values(b, n) matches Some((vs, m)) ==> 0 <= m <= b.len() && vs.len() == (if n >= 0 {
            n
        } else {
            0
        }) && (forall|i: int| 0 <= i < vs.len() ==> #[trigger] vs[i].wf()),
    decreases b.len(), 1int, n,
{
    if n > 0 {
        lemma_dec_value_bounds(b);
        if let Some((v, k)) = dec_value(b) {
            if 1 <= k <= b.len() {
                lemma_dec_values_bounds(b.skip(k), n - 1);
            }
        }
    }
}

/// `n` decoded entries take at most all of the input, come out `n` strong,
/// and are each well-formed.
pub proof fn lemma_dec_pairs_bounds(b: Seq<u8>, n: int)
    ensures
        dec_pairs(b, n) matches Some((ps, m)) ==> 0 <= m <= b.len() && ps.len() == (if n >= 0 {
            n
        } else {
            0
        }) && (forall|i: int|
            0 <= i < ps.len() ==> #[trigger] ps[i].0.wf() && ps[i].1.wf()),
    decreases b.len(), 1int, n,
{
    if n > 0 {
        lemma_dec_value_bounds(b);
        if let Some((key, k)) = dec_value(b) {
            if 1 <= k <= b.len() {
                lemma_dec_value_bounds(b.skip(k));
                if let Some((val, m)) = dec_value(b.skip(k)) {
                    if 1 <= m && k + m <= b.len() {
                        lemma_dec_pairs_bounds(b.skip(k + m), n - 1);
                    }
                }
            }
        }
    }
}

/// Skipping consumes at least one byte and at most the whole input.
pub proof fn lemma_dec_skip_bounds(b: Seq<u8>)
    ensures
        dec_skip(b) matches Some(n) ==> 1 <= n <= b.len(),
    decreases b.len(), 0int, 0int,
{
    if let Some((h, k)) = dec_header(b) {
        lemma_dec_header_bounds(b);
        if 1 <= k <= b.len() {
            lemma_dec_skip_body_bounds(h, b.skip(k));
        }
    }
}

/// Skipping a body consumes at most the whole input.
pub proof fn lemma_dec_skip_body_bounds(h: Header, b: Seq<u8>)
    ensures
        dec_skip_body(h, b) matches Some(n) ==> 0 <= n <= b.len(),
    decreases b.len(), 2int, 0int,
{
    match h {
        Header::Sequence(sh) => {
            lemma_dec_skip_values_bounds(b, sh.spec_len());
        },
        Header::Mapping(mh) => {
            lemma_dec_skip_pairs_bounds(b, mh.spec_len());
        },
        _ => {
        },
    }
}

/// Skipping `n` values consumes at most the whole input.
pub proof fn lemma_dec_skip_values_bounds(b: Seq<u8>, n: int)
    ensures
        dec_skip_values(b, n) matches Some(m) ==> 0 <= m <= b.len(),
    decreases b.len(), 1int, n,
{
    if n > 0 {
        lemma_dec_skip_bounds(b);
        if let Some(k) = dec_skip(b) {
            if 1 <= k <= b.len() {
                lemma_dec_skip_values_bounds(b.skip(k), n - 1);
            }
        }
    }
}

/// Skipping `n` entries consumes at most the whole input.
pub proof fn lemma_dec_skip_pairs_bounds(b: Seq<u8>, n: int)
    ensures
        dec_skip_pairs(b, n) matches Some(m) ==> 0 <= m <= b.len(),
    decreases b.len(), 1int, n,
{
    if n > 0 {
        lemma_dec_skip_bounds(b);
        if let Some(k) = dec_skip(b) {
            if 1 <= k <= b.len() {
                lemma_dec_skip_bounds(b.skip(k));
                if let Some(m) = dec_skip(b.skip(k)) {
                    if 1 <= m && k + m <= b.len() {
                        lemma_dec_skip_pairs_bounds(b.skip(k + m), n - 1);
                    }
                }
            }
        }
    }
}

/// Skip equivalence: on any input where decoding succeeds, skipping
/// succeeds and consumes exactly the decoded value's bytes, leaving the
/// same remainder.
pub proof fn lemma_skip_equivalence(b: Seq<u8>)
    ensures
        dec_value(b) matches Some((v, n)) ==> dec_skip(b) == Some(n),
    decreases b.len(), 0int, 0int,
{
    if let Some((h, k)) = dec_header(b) {
        if 1 <= k <= b.len() {
            lemma_skip_body_equivalence(h, b.skip(k));
        }
        lemma_dec_header_bounds(b);
    }
}

/// Skip equivalence for one body.
pub proof fn lemma_skip_body_equivalence(h: Header, b: Seq<u8>)
    ensures
        dec_body(h, b) matches Some((v, n)) ==> dec_skip_body(h, b) == Some(n),
    decreases b.len(), 2int, 0int,
{
    match h {
        Header::Sequence(sh) => {
            lemma_skip_values_equivalence(b, sh.spec_len());
        },
        Header::Mapping(mh) => {
            lemma_skip_pairs_equivalence(b, mh.spec_len());
        },
        _ => {
        },
    }
}

/// Skip equivalence for `n` values.
pub proof fn lemma_skip_values_equivalence(b: Seq<u8>, n: int)
    ensures
        dec_values(b, n) matches Some((vs, m)) ==> dec_skip_values(b, n) == Some(m),
    decreases b.len(), 1int, n,
{
    if n > 0 {
        lemma_skip_equivalence(b);
        if let Some((v, k)) = dec_value(b) {
            if 1 <= k <= b.len() {
                lemma_skip_values_equivalence(b.skip(k), n - 1);
            }
        }
    }
}

/// Skip equivalence for `n` entries.
pub proof fn lemma_skip_pairs_equivalence(b: Seq<u8>, n: int)
    ensures
        dec_pairs(b, n) matches Some((ps, m)) ==> dec_skip_pairs(b, n) == Some(m),
    decreases b.len(), 1int, n,
{
    if n > 0 {
        lemma_skip_equivalence(b);
        if let Some((key, k)) = dec_value(b) {
            if 1 <= k <= b.len() {
                lemma_skip_equivalence(b.skip(k));
                if let Some((val, m)) = dec_value(b.skip(k)) {
                    if 1 <= m && k + m <= b.len() {
                        lemma_skip_pairs_equivalence(b.skip(k + m), n - 1);
                    }
                }
            }
        }
    }
}

/// Element encodings concatenate.
pub proof fn lemma_enc_values_concat(a: Seq<ValueSpec>, b: Seq<ValueSpec>, ext: bool)
    ensures
        enc_values(a + b, ext) == enc_values(a, ext) + enc_values(b, ext),
    decreases a.len(),
{
    if a.len() == 0 {
        assert(a + b =~= b);
        assert(enc_values(a, ext) =~= Seq::<u8>::empty());
        assert(enc_values(a, ext) + enc_values(b, ext) =~= enc_values(b, ext));
    } else {
        assert((a + b).drop_first() =~= a.drop_first() + b);
        lemma_enc_values_concat(a.drop_first(), b, ext);
        assert((a + b)[0] == a[0]);
        assert(enc_value(a[0], ext) + (enc_values(a.drop_first(), ext) + enc_values(b, ext))
            =~= (enc_value(a[0], ext) + enc_values(a.drop_first(), ext)) + enc_values(b, ext));
    }
}

/// Entry encodings concatenate.
pub proof fn lemma_enc_pairs_concat(
    a: Seq<(ValueSpec, ValueSpec)>,
    b: Seq<(ValueSpec, ValueSpec)>,
    ext: bool,
)
    ensures
        enc_pairs(a + b, ext) == enc_pairs(a, ext) + enc_pairs(b, ext),
    decreases a.len(),
{
    if a.len() == 0 {
        assert(a + b =~= b);
        assert(enc_pairs(a, ext) =~= Seq::<u8>::empty());
        assert(enc_pairs(a, ext) + enc_pairs(b, ext) =~= enc_pairs(b, ext));
    } else {
        assert((a + b).drop_first() =~= a.drop_first() + b);
        lemma_enc_pairs_concat(a.drop_first(), b, ext);
        assert((a + b)[0] == a[0]);
        assert((enc_value(a[0].0, ext) + enc_value(a[0].1, ext)) + (enc_pairs(
            a.drop_first(),
            ext,
        ) + enc_pairs(b, ext)) =~= ((enc_value(a[0].0, ext) + enc_value(a[0].1, ext)) + enc_pairs(
            a.drop_first(),
            ext,
        )) + enc_pairs(b, ext));
    }
}

/// Length bound: an integer encodes in at most 9 bytes, a float in at most
/// 9, and a boolean, unit or null in exactly 1.
pub proof fn lemma_length_bounds(v: ValueSpec, ext: bool)
    ensures
        v is Int ==> 1 <= enc_value(v, ext).len() <= 9,
        v is Float ==> enc_value(v, ext).len() == 5 || enc_value(v, ext).len() == 9,
        v is Bool || v is Unit || v is Null ==> enc_value(v, ext).len() == 1,
{
    match v {
        ValueSpec::Int(i) => {
            let mag = if i < 0 {
                -i
            } else {
                i
            };
            if mag > 0x3f {
                lemma_be_bytes_len(mag, width_of_exponent(width_exponent_for(mag)));
            }
        },
        ValueSpec::Float(f) => {
            match f {
                FloatValue::Single(x) => {
                    lemma_be_bytes_len(x as int, 4);
                },
                FloatValue::Double(x) => {
                    lemma_be_bytes_len(x as int, 8);
                },
            }
        },
        _ => {
        },
    }
}

/// A parsed header's marker is the one its first byte announces.
pub proof fn lemma_dec_header_marker(b: Seq<u8>)
    ensures
        dec_header(b) matches Some((h, k)) ==> b.len() > 0 && h.spec_marker()
            == crate::marker::spec_detect(b[0]),
{
}

/// The executable form of [`width_of_exponent`].
pub(crate) fn width_of_exponent_exec(e: u8) -> (r: usize)
    ensures
        r as int == width_of_exponent(e as int),
{
    if e == 0 {
        1
    } else if e == 1 {
        2
    } else if e == 2 {
        4
    } else {
        8
    }
}

/// Skipping a valid value encoding advances by exactly its length,
/// whatever follows it: the remainder is the one decoding would leave.
pub proof fn lemma_skip_of_encoding(v: ValueSpec, ext: bool, rest: Seq<u8>)
    requires
        v.wf(),
    ensures
        dec_skip(enc_value(v, ext) + rest) == Some(enc_value(v, ext).len() as int),
{
    lemma_enc_dec_value(v, ext, rest);
    lemma_skip_equivalence(enc_value(v, ext) + rest);
}

} // verus!
