use lilliput_core::decode_from_slice;
use lilliput_core::encode_to_vec;
use lilliput_core::BoolValue;
use lilliput_core::BytesValue;
use lilliput_core::Decoder;
use lilliput_core::Encoder;
use lilliput_core::EncoderConfig;
use lilliput_core::ErrorCode;
use lilliput_core::FloatValue;
use lilliput_core::Header;
use lilliput_core::IntValue;
use lilliput_core::MapValue;
use lilliput_core::Marker;
use lilliput_core::NullValue;
use lilliput_core::Read;
use lilliput_core::Reference;
use lilliput_core::SeqHeader;
use lilliput_core::SeqValue;
use lilliput_core::SliceReader;
use lilliput_core::StringValue;
use lilliput_core::UnitValue;
use lilliput_core::Value;
use lilliput_core::VecReader;
use lilliput_core::VecWriter;

fn compact() -> EncoderConfig {
    EncoderConfig {
        force_extended_lengths: false,
    }
}

fn extended() -> EncoderConfig {
    EncoderConfig {
        force_extended_lengths: true,
    }
}

fn sample_values() -> Vec<Value> {
    vec![
        Value::Bool(BoolValue(true)),
        Value::Bool(BoolValue(false)),
        Value::Unit(UnitValue),
        Value::Null(NullValue),
        Value::Int(IntValue::from(0u8)),
        Value::Int(IntValue::from(42u8)),
        Value::Int(IntValue::from(63u8)),
        Value::Int(IntValue::from(64u16)),
        Value::Int(IntValue::from(-1i8)),
        Value::Int(IntValue::from(-64i8)),
        Value::Int(IntValue::from(i64::MIN)),
        Value::Int(IntValue::from(u64::MAX)),
        Value::Int(IntValue::from(300u16)),
        Value::Int(IntValue::from(70000u32)),
        Value::Int(IntValue::from(-70000i64)),
        Value::Float(FloatValue::Single(1.5f32.to_bits())),
        Value::Float(FloatValue::Double(f64::NAN.to_bits())),
        Value::String(StringValue(b"".to_vec())),
        Value::String(StringValue("hello".as_bytes().to_vec())),
        Value::String(StringValue("h\u{e9}llo w\u{f6}rld".as_bytes().to_vec())),
        Value::Bytes(BytesValue(vec![])),
        Value::Bytes(BytesValue(vec![0x2a, 0x0d, 0x25])),
        Value::Sequence(SeqValue(vec![])),
        Value::Sequence(SeqValue(vec![
            Value::Bool(BoolValue(true)),
            Value::Int(IntValue::from(7u8)),
            Value::Sequence(SeqValue(vec![Value::Null(NullValue)])),
        ])),
        Value::Mapping(MapValue(vec![
            (
                Value::Int(IntValue::from(1u8)),
                Value::Sequence(SeqValue(vec![
                    Value::Bool(BoolValue(true)),
                    Value::Bool(BoolValue(false)),
                ])),
            ),
            (
                Value::String(StringValue(b"k".to_vec())),
                Value::Bytes(BytesValue(vec![9, 8, 7])),
            ),
        ])),
    ]
}

#[test]
fn new() {
    let bytes = SliceReader::new(&[1, 2, 3]);
    let decoder = Decoder::from_reader(bytes);
    assert_eq!(decoder.pos(), 0);
}

#[test]
fn round_trip_values() {
    for config in [compact(), extended()] {
        for value in sample_values() {
            let encoded = encode_to_vec(&value, config);
            let (decoded, used) = decode_from_slice(&encoded).unwrap();
            assert_eq!(decoded, value);
            assert_eq!(used, encoded.len());
        }
    }
}

#[test]
fn round_trip_values_from_streaming_reader() {
    for config in [compact(), extended()] {
        for value in sample_values() {
            let encoded = encode_to_vec(&value, config);
            let reader = VecReader::new(encoded.clone());
            let mut decoder = Decoder::from_reader(reader);
            let decoded = decoder.decode_value().unwrap();
            assert_eq!(decoded, value);
            assert_eq!(decoder.pos(), encoded.len());
        }
    }
}

#[test]
fn skip_advances_like_decode() {
    for config in [compact(), extended()] {
        for value in sample_values() {
            let encoded = encode_to_vec(&value, config);

            let reader = SliceReader::new(&encoded);
            let mut decoder = Decoder::from_reader(reader);
            decoder.decode_value().unwrap();
            let decoded_pos = decoder.pos();

            let reader = SliceReader::new(&encoded);
            let mut skipper = Decoder::from_reader(reader);
            skipper.skip_value().unwrap();
            assert_eq!(skipper.pos(), decoded_pos);
            assert_eq!(skipper.pos(), encoded.len());
        }
    }
}

#[test]
fn header_round_trip() {
    let header = Header::Sequence(SeqHeader::compact(3));

    let mut encoder = Encoder::new(VecWriter::new(), compact());
    encoder.encode_header(&header).unwrap();
    let encoded = encoder.into_writer().into_vec();
    assert_eq!(encoded, vec![0xb3]);

    let reader = SliceReader::new(&encoded);
    let mut decoder = Decoder::from_reader(reader);
    assert_eq!(decoder.decode_header().unwrap(), header);

    // Forcing the extended forms normalizes a compact header to the
    // extended one of the same length.
    let mut encoder = Encoder::new(VecWriter::new(), extended());
    encoder.encode_header(&header).unwrap();
    let encoded = encoder.into_writer().into_vec();
    assert_eq!(encoded, vec![0xb8, 0x03]);

    let reader = SliceReader::new(&encoded);
    let mut decoder = Decoder::from_reader(reader);
    assert_eq!(
        decoder.decode_header().unwrap(),
        Header::Sequence(SeqHeader::extended(3))
    );
}

#[test]
fn bool_true_is_one_marked_byte() {
    let value = Value::Bool(BoolValue(true));
    let encoded = encode_to_vec(&value, compact());
    assert_eq!(encoded, vec![0xe1]);

    let (decoded, _) = decode_from_slice(&encoded).unwrap();
    assert_eq!(decoded, Value::Bool(BoolValue(true)));
}

#[test]
fn small_unsigned_is_compact() {
    let value = Value::Int(IntValue::from(42u8));
    let encoded = encode_to_vec(&value, compact());
    assert_eq!(encoded, vec![0x2a]);

    let (decoded, _) = decode_from_slice(&encoded).unwrap();
    assert_eq!(decoded, Value::Int(IntValue::from(42u64)));
}

#[test]
fn negative_int_is_compact_with_sign() {
    let value = Value::Int(IntValue::from(-1i8));
    let encoded = encode_to_vec(&value, compact());
    assert_eq!(encoded, vec![0x41]);

    let (decoded, _) = decode_from_slice(&encoded).unwrap();
    let Value::Int(int) = decoded else {
        panic!("expected int value");
    };
    assert_eq!(int.cmp(&IntValue::from(0u8)), std::cmp::Ordering::Less);
    assert_eq!(int.cmp(&IntValue::from(u64::MAX)), std::cmp::Ordering::Less);
}

#[test]
fn bytes_of_length_three() {
    let value = Value::Bytes(BytesValue(vec![0x2a, 0x0d, 0x25]));
    let encoded = encode_to_vec(&value, compact());
    assert_eq!(encoded, vec![0xd8, 0x03, 0x2a, 0x0d, 0x25]);

    let reader = SliceReader::new(&encoded);
    let mut decoder = Decoder::from_reader(reader);
    let mut scratch = Vec::new();
    let reference = decoder.decode_bytes(&mut scratch).unwrap();
    assert!(matches!(reference, Reference::Borrowed(_)));
    assert_eq!(reference.as_slice(), &[0x2a, 0x0d, 0x25][..]);
}

#[test]
fn empty_sequence_is_one_byte() {
    let value = Value::Sequence(SeqValue::default());
    let encoded = encode_to_vec(&value, compact());
    assert_eq!(encoded, vec![0xb0]);

    let (decoded, _) = decode_from_slice(&encoded).unwrap();
    let Value::Sequence(seq) = decoded else {
        panic!("expected sequence value");
    };
    assert_eq!(seq.len(), 0);
}

#[test]
fn nested_map_skips_to_its_end() {
    let value = Value::Mapping(MapValue(vec![(
        Value::Int(IntValue::from(1u8)),
        Value::Sequence(SeqValue(vec![
            Value::Bool(BoolValue(true)),
            Value::Bool(BoolValue(false)),
        ])),
    )]));
    let encoded = encode_to_vec(&value, compact());

    let reader = SliceReader::new(&encoded);
    let mut decoder = Decoder::from_reader(reader);
    decoder.skip_value().unwrap();
    assert_eq!(decoder.pos(), encoded.len());
}

#[test]
fn scalar_encodings_are_bounded() {
    for value in [
        Value::Int(IntValue::from(u64::MAX)),
        Value::Int(IntValue::from(i64::MIN)),
        Value::Float(FloatValue::Double(f64::MAX.to_bits())),
    ] {
        assert!(encode_to_vec(&value, compact()).len() <= 9);
        assert!(encode_to_vec(&value, extended()).len() <= 9);
    }
    for value in [
        Value::Bool(BoolValue(true)),
        Value::Bool(BoolValue(false)),
        Value::Unit(UnitValue),
        Value::Null(NullValue),
    ] {
        assert_eq!(encode_to_vec(&value, compact()).len(), 1);
        assert_eq!(encode_to_vec(&value, extended()).len(), 1);
    }
}

#[test]
fn slice_reader_borrows_and_vec_reader_copies() {
    let value = Value::Bytes(BytesValue(vec![1, 2, 3, 4]));
    let encoded = encode_to_vec(&value, compact());

    let reader = SliceReader::new(&encoded);
    let mut decoder = Decoder::from_reader(reader);
    let mut scratch = Vec::new();
    let reference = decoder.decode_bytes(&mut scratch).unwrap();
    assert!(reference.is_borrowed());
    assert_eq!(reference.as_slice(), &[1, 2, 3, 4][..]);

    let reader = VecReader::new(encoded);
    let mut decoder = Decoder::from_reader(reader);
    let mut scratch = Vec::new();
    let reference = decoder.decode_bytes(&mut scratch).unwrap();
    assert!(!reference.is_borrowed());
    assert_eq!(reference.as_slice(), &[1, 2, 3, 4][..]);
}

#[test]
fn map_entries_keep_their_order() {
    let entries = vec![
        (Value::Int(IntValue::from(3u8)), Value::Bool(BoolValue(true))),
        (Value::Int(IntValue::from(1u8)), Value::Bool(BoolValue(false))),
        (Value::Int(IntValue::from(2u8)), Value::Unit(UnitValue)),
    ];
    let value = Value::Mapping(MapValue(entries));
    let encoded = encode_to_vec(&value, compact());

    let (decoded, _) = decode_from_slice(&encoded).unwrap();
    let Value::Mapping(map) = decoded else {
        panic!("expected map value");
    };
    let keys: Vec<u64> = map
        .0
        .iter()
        .map(|(key, _)| {
            let Value::Int(int) = key else {
                panic!("expected int key");
            };
            int.to_unsigned().unwrap()
        })
        .collect();
    assert_eq!(keys, vec![3, 1, 2]);
}

#[test]
fn peek_marker_does_not_advance() {
    let encoded = encode_to_vec(&Value::Bool(BoolValue(true)), compact());
    let reader = SliceReader::new(&encoded);
    let mut decoder = Decoder::from_reader(reader);
    assert_eq!(decoder.peek_marker().unwrap(), Marker::Bool);
    assert_eq!(decoder.pos(), 0);
    decoder.decode_value().unwrap();
    assert_eq!(decoder.pos(), 1);
}

#[test]
fn decode_of_empty_input_is_end_of_file() {
    let error = decode_from_slice(&[]).unwrap_err();
    assert_eq!(error.code(), ErrorCode::UnexpectedEndOfFile);
}

#[test]
fn decode_reports_type_mismatches() {
    let reader = SliceReader::new(&[0xe1]);
    let mut decoder = Decoder::from_reader(reader);
    let error = decoder.decode_bytes_buf().unwrap_err();
    assert_eq!(
        error.code(),
        ErrorCode::InvalidType {
            expected: Marker::Bytes,
            unexpected: Marker::Bool,
        }
    );
    assert_eq!(error.pos(), Some(0));
}

#[test]
fn decode_rejects_invalid_utf8() {
    // String header for two bytes, then an invalid UTF-8 sequence.
    let error = decode_from_slice(&[0xa2, 0xff, 0xff]).unwrap_err();
    assert_eq!(error.code(), ErrorCode::InvalidUtf8);
}

#[test]
fn decode_rejects_overlarge_magnitudes() {
    // Extended negative integer, eight magnitude bytes above the signed
    // range.
    let error = decode_from_slice(&[0x9c, 0xff, 0xff, 0xff, 0xff, 0xff, 0xff, 0xff, 0xff])
        .unwrap_err();
    assert_eq!(error.code(), ErrorCode::NumberOutOfRange);
}

#[test]
fn decode_rejects_reserved_header_bits() {
    let error = decode_from_slice(&[0xe5]).unwrap_err();
    assert_eq!(error.code(), ErrorCode::InvalidHeader);

    // Extended integer header with non-zero reserved bits.
    let error = decode_from_slice(&[0x81, 0x01]).unwrap_err();
    assert_eq!(error.code(), ErrorCode::InvalidHeader);
}

#[test]
fn decode_fails_fast_on_short_bodies() {
    // Bytes header announcing three bytes, but only two follow.
    let error = decode_from_slice(&[0xd8, 0x03, 0x01, 0x02]).unwrap_err();
    assert_eq!(error.code(), ErrorCode::UnexpectedEndOfFile);
}

#[test]
fn split_decoding_matches_whole_decoding() {
    let value = Value::Sequence(SeqValue(vec![
        Value::Int(IntValue::from(300u16)),
        Value::String(StringValue(b"ab".to_vec())),
    ]));
    let encoded = encode_to_vec(&value, compact());

    let reader = SliceReader::new(&encoded);
    let mut decoder = Decoder::from_reader(reader);
    let header = decoder.decode_header().unwrap();
    let decoded = decoder.decode_value_of(header).unwrap();
    assert_eq!(decoded, value);
    assert_eq!(decoder.pos(), encoded.len());
}

#[test]
fn extended_lengths_decode_like_compact_ones() {
    let value = Value::String(StringValue(b"hi".to_vec()));
    let compact_bytes = encode_to_vec(&value, compact());
    let extended_bytes = encode_to_vec(&value, extended());
    assert_eq!(compact_bytes, vec![0xa2, b'h', b'i']);
    assert_eq!(extended_bytes, vec![0xa8, 0x02, b'h', b'i']);

    let (from_compact, _) = decode_from_slice(&compact_bytes).unwrap();
    let (from_extended, _) = decode_from_slice(&extended_bytes).unwrap();
    assert_eq!(from_compact, from_extended);
}

#[test]
fn into_reader_returns_the_reader() {
    let encoded = encode_to_vec(&Value::Unit(UnitValue), compact());
    let reader = VecReader::new(encoded);
    let mut decoder = Decoder::from_reader(reader);
    decoder.decode_value().unwrap();
    let _ = decoder.into_reader();
}

#[test]
fn markers_cover_every_byte() {
    assert_eq!(Marker::detect(0x00), Marker::Int);
    assert_eq!(Marker::detect(0x7f), Marker::Int);
    assert_eq!(Marker::detect(0x9c), Marker::Int);
    assert_eq!(Marker::detect(0xa2), Marker::String);
    assert_eq!(Marker::detect(0xb3), Marker::Sequence);
    assert_eq!(Marker::detect(0xc8), Marker::Mapping);
    assert_eq!(Marker::detect(0xd1), Marker::Float);
    assert_eq!(Marker::detect(0xd8), Marker::Bytes);
    assert_eq!(Marker::detect(0xe0), Marker::Bool);
    assert_eq!(Marker::detect(0xe2), Marker::Unit);
    assert_eq!(Marker::detect(0xe3), Marker::Null);
    assert_eq!(Marker::detect(0xff), Marker::Bool);

    assert!(Marker::Int.validate(0x2a).is_ok());
    let mismatch = Marker::Bytes.validate(0xe1).unwrap_err();
    assert_eq!(mismatch.expected, Marker::Bytes);
    assert_eq!(mismatch.unexpected, Marker::Bool);
}

#[test]
fn bool_headers_carry_their_value() {
    let writer = VecWriter::new();
    let mut encoder = Encoder::new(writer, compact());
    let header = encoder.header_for_bool(true);
    assert!(header.value());
    encoder.encode_bool_header(&header).unwrap();
    encoder.encode_bool(false).unwrap();
    encoder.encode_bool_value(&BoolValue(true)).unwrap();
    let encoded = encoder.into_writer().into_vec();
    assert_eq!(encoded, vec![0xe1, 0xe0, 0xe1]);
}

#[test]
fn extended_integers_use_minimal_widths() {
    let one_byte = encode_to_vec(&Value::Int(IntValue::from(200u8)), compact());
    assert_eq!(one_byte, vec![0x80, 0xc8]);

    let two_bytes = encode_to_vec(&Value::Int(IntValue::from(300u16)), compact());
    assert_eq!(two_bytes, vec![0x84, 0x01, 0x2c]);

    let negative = encode_to_vec(&Value::Int(IntValue::from(-300i16)), compact());
    assert_eq!(negative, vec![0x94, 0x01, 0x2c]);

    let four_bytes = encode_to_vec(&Value::Int(IntValue::from(70000u32)), compact());
    assert_eq!(four_bytes, vec![0x88, 0x00, 0x01, 0x11, 0x70]);
}

#[test]
fn seq_headers_round_trip_their_length() {
    let mut elements = Vec::new();
    for _ in 0..9 {
        elements.push(Value::Unit(UnitValue));
    }
    let value = Value::Sequence(SeqValue(elements));
    let encoded = encode_to_vec(&value, compact());
    assert_eq!(encoded[0], 0xb8);
    assert_eq!(encoded[1], 0x09);

    let reader = SliceReader::new(&encoded);
    let mut decoder = Decoder::from_reader(reader);
    let header = decoder.decode_seq_header().unwrap();
    assert_eq!(header.len(), 9);
    let seq = decoder.decode_seq_value_of(header).unwrap();
    assert_eq!(seq.len(), 9);
}

#[test]
fn skip_bytes_value_skips_the_body() {
    let encoded = encode_to_vec(&Value::Bytes(BytesValue(vec![5; 10])), compact());
    let reader = SliceReader::new(&encoded);
    let mut decoder = Decoder::from_reader(reader);
    let header = decoder.decode_bytes_header().unwrap();
    assert_eq!(header.len(), 10);
    decoder.skip_bytes_value_of(header).unwrap();
    assert_eq!(decoder.pos(), encoded.len());
}

#[test]
fn decode_seq_returns_plain_values() {
    let value = Value::Sequence(SeqValue(vec![
        Value::Int(IntValue::from(1u8)),
        Value::Int(IntValue::from(2u8)),
    ]));
    let encoded = encode_to_vec(&value, compact());
    let reader = SliceReader::new(&encoded);
    let mut decoder = Decoder::from_reader(reader);
    let values = decoder.decode_seq().unwrap();
    assert_eq!(values.len(), 2);
    assert_eq!(values[0], Value::Int(IntValue::from(1u8)));
    assert_eq!(values[1], Value::Int(IntValue::from(2u8)));
}

#[test]
fn unit_and_null_are_single_bytes() {
    assert_eq!(encode_to_vec(&Value::Unit(UnitValue), compact()), vec![0xe2]);
    assert_eq!(encode_to_vec(&Value::Null(NullValue), compact()), vec![0xe3]);

    let (unit, _) = decode_from_slice(&[0xe2]).unwrap();
    assert_eq!(unit, Value::Unit(UnitValue));
    let (null, _) = decode_from_slice(&[0xe3]).unwrap();
    assert_eq!(null, Value::Null(NullValue));
}

#[test]
fn float_bits_survive_exactly() {
    let nan = f64::from_bits(0x7ff8_0000_0000_1234);
    let value = Value::Float(FloatValue::Double(nan.to_bits()));
    let encoded = encode_to_vec(&value, compact());
    assert_eq!(encoded[0], 0xd1);

    let (decoded, _) = decode_from_slice(&encoded).unwrap();
    let Value::Float(FloatValue::Double(bits)) = decoded else {
        panic!("expected double float");
    };
    assert_eq!(bits, 0x7ff8_0000_0000_1234);
}

#[test]
fn readers_fill_buffers_exactly() {
    let input = [1u8, 2, 3, 4, 5];
    let mut reader = SliceReader::new(&input);
    let mut buf = vec![0u8; 3];
    reader.read_into(&mut buf).unwrap();
    assert_eq!(buf, vec![1, 2, 3]);

    let mut long = vec![0u8; 3];
    let error = reader.read_into(&mut long).unwrap_err();
    assert_eq!(error.code(), ErrorCode::UnexpectedEndOfFile);

    let mut reader = VecReader::new(vec![7, 8]);
    let mut buf = vec![0u8; 2];
    reader.read_into(&mut buf).unwrap();
    assert_eq!(buf, vec![7, 8]);
}
