use bytes::Bytes;
use rowbinary::error::Error;
use rowbinary::error::ErrorKind;
use rowbinary::metadata::data_type::DataType;
use rowbinary::metadata::Metadata;
use rowbinary::serde::buf::PartBuf;
use rowbinary::serde::de::decode_header;
use rowbinary::serde::de::decode_row;
use rowbinary::serde::de::decode_value;
use rowbinary::serde::de::decode_value_at;
use rowbinary::values::bigint::i256;
use rowbinary::values::bigint::u256;
use rowbinary::values::decimal::Decimal;
use rowbinary::values::ip::IpV4;
use rowbinary::values::ip::IpV6;
use rowbinary::values::uuid::Uuid;
use rowbinary::values::value::Value;

fn buffer(chunks: &[&[u8]]) -> PartBuf {
    let mut buf = PartBuf::new();
    for chunk in chunks {
        buf.push_back(Bytes::copy_from_slice(chunk));
    }
    buf
}

fn varint(value: u64) -> Vec<u8> {
    let mut out = Vec::new();
    leb128::write::unsigned(&mut out, value).unwrap();
    out
}

fn string(text: &str) -> Vec<u8> {
    let mut out = varint(text.len() as u64);
    out.extend_from_slice(text.as_bytes());
    out
}

#[test]
fn buf_test() {
    let mut buf = PartBuf::new();

    buf.push_back(Bytes::from_static(&[1]));
    buf.push_back(Bytes::from_static(&[]));
    buf.push_back(Bytes::from_static(&[2, 3]));
    buf.push_back(Bytes::from_static(&[4, 5]));

    assert_eq!(u16::from_le_bytes([1, 2]), buf.get_u16_le());
    assert_eq!(u8::from_le_bytes([3]), buf.get_u8());
    assert_eq!(i16::from_le_bytes([4, 5]), buf.get_i16_le());

    assert_eq!(0, buf.remaining());
}

#[test]
fn empty_chunk_is_ignored() {
    let mut buf = PartBuf::new();
    buf.push_back(Bytes::from_static(&[1]));
    buf.push_back(Bytes::from_static(&[]));
    buf.push_back(Bytes::from_static(&[2, 3]));
    assert_eq!(buf.remaining(), 3);
    assert_eq!(buf.chunk(), &[1]);
    assert_eq!(buf.read_vec(3).unwrap(), vec![1, 2, 3]);
    assert_eq!(buf.remaining(), 0);
    assert_eq!(buf.chunk(), &[] as &[u8]);
    assert!(buf.pop_front().is_none());
}

#[test]
fn reading_across_chunks_drops_exhausted_chunks() {
    let mut buf = buffer(&[&[1], &[2, 3], &[4, 5, 6]]);
    assert_eq!(buf.get_u8(), 1);
    assert_eq!(buf.chunk(), &[2, 3]);
    buf.advance(1);
    assert_eq!(buf.chunk(), &[3]);
    assert_eq!(buf.remaining(), 4);
    buf.advance(2);
    assert_eq!(buf.chunk(), &[5, 6]);
    assert_eq!(buf.remaining(), 2);
    buf.advance(0);
    assert_eq!(buf.remaining(), 2);
    buf.advance(2);
    assert_eq!(buf.remaining(), 0);
}

#[test]
fn pop_front_hands_back_the_unread_rest() {
    let mut buf = buffer(&[&[1, 2, 3], &[4]]);
    buf.advance(1);
    let front = buf.pop_front().unwrap();
    assert_eq!(&front[..], &[2, 3]);
    assert_eq!(buf.remaining(), 1);
    assert_eq!(&buf.pop_front().unwrap()[..], &[4]);
    assert_eq!(buf.remaining(), 0);
    assert!(buf.pop_front().is_none());
}

#[test]
fn try_push_back_queues_what_fits() {
    let mut buf = PartBuf::default();
    assert!(buf.try_push_back(Bytes::from_static(&[1, 2])).is_none());
    assert!(buf.try_push_back(Bytes::from_static(&[])).is_none());
    assert!(buf.try_push_back(Bytes::from_static(&[3])).is_none());
    assert_eq!(buf.remaining(), 3);
    assert_eq!(buf.read_vec(3), Ok(vec![1, 2, 3]));
}

#[test]
fn ensure_size_compares_with_remaining() {
    let buf = buffer(&[&[1, 2], &[3]]);
    assert_eq!(buf.ensure_size(0), Ok(()));
    assert_eq!(buf.ensure_size(3), Ok(()));
    assert_eq!(buf.ensure_size(4), Err(Error::NotEnoughData));
    assert_eq!(PartBuf::new().ensure_size(1), Err(Error::NotEnoughData));
}

#[test]
fn peeking_leaves_the_buffer() {
    let buf = buffer(&[&[10, 11], &[12], &[13, 14]]);
    assert_eq!(buf.byte_at(0), 10);
    assert_eq!(buf.byte_at(2), 12);
    assert_eq!(buf.byte_at(4), 14);
    assert_eq!(buf.copy_at(1, 3), vec![11, 12, 13]);
    assert_eq!(buf.copy_at(5, 0), Vec::<u8>::new());
    assert_eq!(buf.uint_at(1, 2), 11 + 256 * 12);
    assert_eq!(buf.int_at(3, 1), 13);
    assert_eq!(buf.remaining(), 5);
}

#[test]
fn varint_round_trip() {
    for value in [0u64, 1, 127, 128, 300, 16383, 16384, u32::MAX as u64, 1 << 62, 1 << 63, u64::MAX] {
        let encoded = varint(value);
        let mut buf = buffer(&[&encoded, &[0xff]]);
        assert_eq!(buf.read_u64_leb128(), Ok(value));
        assert_eq!(buf.remaining(), 1);
        let mut split = PartBuf::new();
        for byte in &encoded {
            split.push_back(Bytes::copy_from_slice(&[*byte]));
        }
        assert_eq!(split.read_u64_leb128(), Ok(value));
        assert_eq!(split.remaining(), 0);
    }
}

#[test]
fn varint_of_ten_bytes() {
    let max = [0xff, 0xff, 0xff, 0xff, 0xff, 0xff, 0xff, 0xff, 0xff, 0x01];
    assert_eq!(buffer(&[&max]).read_u64_leb128(), Ok(u64::MAX));
    let padded = [0x80, 0x80, 0x80, 0x80, 0x80, 0x80, 0x80, 0x80, 0x80, 0x00];
    assert_eq!(buffer(&[&padded]).read_u64_leb128(), Ok(0));
}

#[test]
fn varint_overflow() {
    let too_big = [0xff, 0xff, 0xff, 0xff, 0xff, 0xff, 0xff, 0xff, 0xff, 0x02];
    let mut buf = buffer(&[&too_big]);
    assert_eq!(buf.read_u64_leb128(), Err(Error::LEB128Error));
    assert_eq!(buf.remaining(), 10);
    let too_long = [0x80u8; 11];
    let mut buf = buffer(&[&too_long]);
    assert_eq!(buf.read_u64_leb128(), Err(Error::LEB128Error));
    assert_eq!(buf.remaining(), 11);
    assert_eq!(Error::LEB128Error.kind(), ErrorKind::Numeric);
}

#[test]
fn varint_needs_its_last_byte() {
    let mut buf = PartBuf::new();
    assert_eq!(buf.read_u64_leb128(), Err(Error::NotEnoughData));
    buf.push_back(Bytes::from_static(&[0xac]));
    assert_eq!(buf.read_u64_leb128(), Err(Error::NotEnoughData));
    assert_eq!(buf.remaining(), 1);
    buf.push_back(Bytes::from_static(&[0x02]));
    assert_eq!(buf.read_u64_leb128(), Ok(300));
    assert_eq!(buf.remaining(), 0);
    assert!(Error::NotEnoughData.is_retryable());
    assert!(!Error::LEB128Error.is_retryable());
}

#[test]
fn read_size_narrows() {
    let mut buf = buffer(&[&varint(70000)]);
    assert_eq!(buf.read_size(), Ok(70000));
    let mut buf = buffer(&[&varint(u64::MAX)]);
    if usize::BITS < 64 {
        assert_eq!(buf.read_size(), Err(Error::TryFromIntError));
        assert_eq!(buf.remaining(), 10);
    } else {
        assert_eq!(buf.read_size(), Ok(usize::MAX));
    }
}

#[test]
fn read_vec_takes_exactly() {
    let mut buf = buffer(&[&[1, 2], &[3, 4]]);
    assert_eq!(buf.read_vec(5), Err(Error::NotEnoughData));
    assert_eq!(buf.remaining(), 4);
    assert_eq!(buf.read_vec(0), Ok(vec![]));
    assert_eq!(buf.read_vec(3), Ok(vec![1, 2, 3]));
    assert_eq!(buf.read_vec(1), Ok(vec![4]));
    assert_eq!(buf.read_vec(1), Err(Error::NotEnoughData));
}

#[test]
fn utf8_strings() {
    let mut bytes = string("Hello, \u{1F30E}");
    bytes.extend_from_slice(&string(""));
    let mut buf = buffer(&[&bytes[..5], &bytes[5..]]);
    assert_eq!(buf.read_utf8_string(), Ok("Hello, \u{1F30E}".to_owned()));
    assert_eq!(buf.read_utf8_string(), Ok(String::new()));
    assert_eq!(buf.remaining(), 0);
}

#[test]
fn invalid_utf8_is_an_encoding_error() {
    let mut buf = buffer(&[&[2, 0xc3, 0x28]]);
    assert_eq!(buf.read_utf8_string(), Err(Error::Utf8Error));
    assert_eq!(buf.remaining(), 3);
    assert_eq!(Error::Utf8Error.kind(), ErrorKind::Encoding);
    let overlong = [2, 0xc0, 0x80];
    assert_eq!(buffer(&[&overlong]).read_utf8_string(), Err(Error::Utf8Error));
    let surrogate = [3, 0xed, 0xa0, 0x80];
    assert_eq!(buffer(&[&surrogate]).read_utf8_string(), Err(Error::Utf8Error));
}

#[test]
fn string_longer_than_the_buffer() {
    let mut buf = buffer(&[&[5, b'a', b'b']]);
    assert_eq!(buf.read_utf8_string(), Err(Error::NotEnoughData));
    assert_eq!(buf.remaining(), 3);
    assert_eq!(decode_value(&DataType::String, &mut buf), Err(Error::NotEnoughData));
    assert_eq!(buf.remaining(), 3);
    assert_eq!(Error::NotEnoughData.kind(), ErrorKind::InsufficientData);
    buf.push_back(Bytes::from_static(b"cde"));
    assert_eq!(buf.read_utf8_string(), Ok("abcde".to_owned()));
}

#[test]
fn fixed_width_getters() {
    let mut buf = buffer(&[&[0xff], &[0xfe, 0xff], &[0xfd, 0xff, 0xff, 0xff]]);
    assert_eq!(buf.get_i8(), -1);
    assert_eq!(buf.get_i16_le(), -2);
    assert_eq!(buf.get_i32_le(), -3);
    let mut buf = buffer(&[&0x0102_0304_0506_0708u64.to_le_bytes(), &i64::MIN.to_le_bytes()]);
    assert_eq!(buf.get_u64_le(), 0x0102_0304_0506_0708);
    assert_eq!(buf.get_i64_le(), i64::MIN);
    let mut buf = buffer(&[&u128::MAX.to_le_bytes(), &i128::MIN.to_le_bytes(), &(-5i128).to_le_bytes()]);
    assert_eq!(buf.get_u128_le(), u128::MAX);
    assert_eq!(buf.get_i128_le(), i128::MIN);
    assert_eq!(buf.get_i128_le(), -5);
    let mut buf = buffer(&[&0xdead_beefu32.to_le_bytes()]);
    assert_eq!(buf.get_u32_le(), 0xdead_beef);
}

#[test]
fn decode_integers() {
    let cases: Vec<(DataType, Vec<u8>, Value)> = vec![
        (DataType::Int8, vec![0x80], Value::Int8(-128)),
        (DataType::UInt8, vec![0x80], Value::UInt8(128)),
        (DataType::Int16, vec![0x34, 0x12], Value::Int16(0x1234)),
        (DataType::UInt16, vec![0xff, 0xff], Value::UInt16(65535)),
        (DataType::Int32, (-7i32).to_le_bytes().to_vec(), Value::Int32(-7)),
        (DataType::UInt32, 7u32.to_le_bytes().to_vec(), Value::UInt32(7)),
        (DataType::Int64, i64::MAX.to_le_bytes().to_vec(), Value::Int64(i64::MAX)),
        (DataType::UInt64, u64::MAX.to_le_bytes().to_vec(), Value::UInt64(u64::MAX)),
        (DataType::Int128, (-1i128).to_le_bytes().to_vec(), Value::Int128(-1)),
        (DataType::UInt128, 1u128.to_le_bytes().to_vec(), Value::UInt128(1)),
        (DataType::Date, 19000u16.to_le_bytes().to_vec(), Value::Date(19000)),
        (DataType::Date32, (-1i32).to_le_bytes().to_vec(), Value::Date32(-1)),
        (DataType::DateTime(None), 1_700_000_000u32.to_le_bytes().to_vec(), Value::DateTime(1_700_000_000)),
        (DataType::DateTime64(3, None), 1_700_000_000_123u64.to_le_bytes().to_vec(), Value::DateTime64(1_700_000_000_123)),
    ];
    for (ty, bytes, expected) in cases {
        let mut buf = buffer(&[&bytes, &[9]]);
        assert_eq!(decode_value(&ty, &mut buf), Ok(expected), "{:?}", ty);
        assert_eq!(buf.remaining(), 1);
        let mut short = buffer(&[&bytes[..bytes.len() - 1]]);
        assert_eq!(decode_value(&ty, &mut short), Err(Error::NotEnoughData), "{:?}", ty);
        assert_eq!(short.remaining(), bytes.len() - 1);
    }
}

#[test]
fn decode_floats_as_bits() {
    let mut buf = buffer(&[&1.5f32.to_le_bytes(), &(-2.25f64).to_le_bytes()]);
    match decode_value(&DataType::Float32, &mut buf).unwrap() {
        Value::Float32(bits) => assert_eq!(f32::from_bits(bits), 1.5),
        other => panic!("{:?}", other),
    }
    match decode_value(&DataType::Float64, &mut buf).unwrap() {
        Value::Float64(bits) => assert_eq!(f64::from_bits(bits), -2.25),
        other => panic!("{:?}", other),
    }
}

#[test]
fn decode_raw_bytes() {
    let mut wide = [0u8; 32];
    for (i, byte) in wide.iter_mut().enumerate() {
        *byte = i as u8;
    }
    let mut narrow = [0u8; 16];
    narrow.copy_from_slice(&wide[..16]);
    let mut buf = buffer(&[&wide, &wide, &narrow, &narrow, &[1, 0, 0, 127]]);
    assert_eq!(decode_value(&DataType::Int256, &mut buf), Ok(Value::Int256(i256::new(wide))));
    assert_eq!(decode_value(&DataType::UInt256, &mut buf), Ok(Value::UInt256(u256::new(wide))));
    assert_eq!(decode_value(&DataType::Ipv6, &mut buf), Ok(Value::Ipv6(IpV6::new(narrow))));
    assert_eq!(decode_value(&DataType::Uuid, &mut buf), Ok(Value::Uuid(Uuid::new(narrow))));
    assert_eq!(decode_value(&DataType::Ipv4, &mut buf), Ok(Value::Ipv4(IpV4::new([1, 0, 0, 127]))));
    assert_eq!(buf.remaining(), 0);
}

#[test]
fn decode_decimals() {
    let mut wide = [0u8; 32];
    wide[0] = 7;
    let mut buf = buffer(&[&5i32.to_le_bytes(), &6i64.to_le_bytes(), &7i128.to_le_bytes(), &wide]);
    assert_eq!(
        decode_value(&DataType::Decimal32(2), &mut buf),
        Ok(Value::Decimal(Decimal::I32(5i32.to_le_bytes())))
    );
    assert_eq!(
        decode_value(&DataType::Decimal64(2), &mut buf),
        Ok(Value::Decimal(Decimal::I64(6i64.to_le_bytes())))
    );
    assert_eq!(
        decode_value(&DataType::Decimal128(2), &mut buf),
        Ok(Value::Decimal(Decimal::I128(7i128.to_le_bytes())))
    );
    assert_eq!(decode_value(&DataType::Decimal256(2), &mut buf), Ok(Value::Decimal(Decimal::I256(wide))));
    for (precision, width) in [(1u8, 4usize), (9, 4), (10, 8), (18, 8), (19, 16), (38, 16), (39, 32), (76, 32)] {
        let bytes = vec![1u8; width + 1];
        let mut buf = buffer(&[&bytes]);
        assert!(matches!(decode_value(&DataType::Decimal(precision, 0), &mut buf), Ok(Value::Decimal(_))));
        assert_eq!(buf.remaining(), 1, "{}", precision);
    }
    for precision in [0u8, 77, 255] {
        let mut buf = buffer(&[&[0u8; 40]]);
        assert_eq!(
            decode_value(&DataType::Decimal(precision, 0), &mut buf),
            Err(Error::NotSupported("Decimal".to_owned()))
        );
    }
}

#[test]
fn decode_bool() {
    let mut buf = buffer(&[&[0, 1, 2]]);
    assert_eq!(decode_value(&DataType::Bool, &mut buf), Ok(Value::Bool(false)));
    assert_eq!(decode_value(&DataType::Bool, &mut buf), Ok(Value::Bool(true)));
    assert_eq!(
        decode_value(&DataType::Bool, &mut buf),
        Err(Error::EncodingError("can't convert 2 to bool value".to_owned()))
    );
    assert_eq!(buf.remaining(), 1);
    buf.advance(1);
    assert_eq!(decode_value(&DataType::Bool, &mut buf), Err(Error::NotEnoughData));
    assert_eq!(Error::EncodingError(String::new()).kind(), ErrorKind::Encoding);
}

#[test]
fn decode_string() {
    let mut buf = buffer(&[&string("caf\u{e9}"), &[2, 0xff, 0xfe]]);
    assert_eq!(decode_value(&DataType::String, &mut buf), Ok(Value::String("caf\u{e9}".as_bytes().to_vec())));
    assert_eq!(decode_value(&DataType::String, &mut buf), Err(Error::Utf8Error));
    assert_eq!(buf.remaining(), 3);
}

#[test]
fn decode_nullable() {
    let ty = DataType::Nullable(Box::new(DataType::UInt16));
    let mut buf = buffer(&[&[1, 0, 0x10, 0x00, 255, 0]]);
    assert_eq!(decode_value(&ty, &mut buf), Ok(Value::Null));
    assert_eq!(decode_value(&ty, &mut buf), Ok(Value::UInt16(16)));
    assert_eq!(
        decode_value(&ty, &mut buf),
        Err(Error::EncodingError("invalid option symbol: 255".to_owned()))
    );
    assert_eq!(buf.remaining(), 2);
    buf.advance(1);
    assert_eq!(decode_value(&ty, &mut buf), Err(Error::NotEnoughData));
    assert_eq!(buf.remaining(), 1);
    let nested = DataType::Nullable(Box::new(DataType::Nullable(Box::new(DataType::Bool))));
    let mut buf = buffer(&[&[0, 0, 1]]);
    assert_eq!(decode_value(&nested, &mut buf), Ok(Value::Bool(true)));
}

#[test]
fn composite_values_are_not_supported() {
    let cases = vec![
        ("Array(Int8)", "Array"),
        ("Map(String, Int8)", "Map"),
        ("Tuple(Int8)", "Tuple"),
        ("Enum8('a' = 1)", "Enum8"),
        ("Enum16('a' = 1)", "Enum16"),
        ("LowCardinality(String)", "LowCardinality"),
        ("AggregateFunction(sum, Int8)", "AggregateFunction"),
        ("SimpleAggregateFunction(sum, Int8)", "SimpleAggregateFunction"),
        ("FixedString(3)", "FixedString"),
        ("Json", "Json"),
        ("Nullable(Array(Int8))", "Array"),
    ];
    for (text, keyword) in cases {
        let ty = DataType::parse(text).unwrap();
        let mut buf = buffer(&[&[0, 0, 0, 0]]);
        let failed = decode_value(&ty, &mut buf).unwrap_err();
        assert_eq!(failed, Error::NotSupported(keyword.to_owned()));
        assert_eq!(failed.kind(), ErrorKind::Unsupported);
        assert_eq!(buf.remaining(), 4);
    }
    assert_eq!(Error::SerdeAnyNotSupported.kind(), ErrorKind::Unsupported);
}

#[test]
fn decode_value_at_reports_the_next_position() {
    let buf = buffer(&[&[9, 9], &string("ab"), &[7]]);
    let (value, next) = decode_value_at(&DataType::String, &buf, 2).unwrap();
    assert_eq!(value, Value::String(b"ab".to_vec()));
    assert_eq!(next, 5);
    assert_eq!(decode_value_at(&DataType::UInt8, &buf, next), Ok((Value::UInt8(7), 6)));
    assert_eq!(decode_value_at(&DataType::UInt8, &buf, 6), Err(Error::NotEnoughData));
    assert_eq!(buf.remaining(), 6);
}

fn sample_header() -> Vec<u8> {
    let mut bytes = varint(3);
    bytes.extend_from_slice(&string("id"));
    bytes.extend_from_slice(&string("name"));
    bytes.extend_from_slice(&string("score"));
    bytes.extend_from_slice(&string("UInt32"));
    bytes.extend_from_slice(&string("String"));
    bytes.extend_from_slice(&string("Nullable(Int16)"));
    bytes
}

fn sample_metadata() -> Metadata {
    vec![
        ("id".to_owned(), DataType::UInt32),
        ("name".to_owned(), DataType::String),
        ("score".to_owned(), DataType::Nullable(Box::new(DataType::Int16))),
    ]
}

#[test]
fn header_and_rows() {
    let mut bytes = sample_header();
    bytes.extend_from_slice(&1u32.to_le_bytes());
    bytes.extend_from_slice(&string("ann"));
    bytes.extend_from_slice(&[0]);
    bytes.extend_from_slice(&(-4i16).to_le_bytes());
    bytes.extend_from_slice(&2u32.to_le_bytes());
    bytes.extend_from_slice(&string(""));
    bytes.extend_from_slice(&[1]);
    let mut buf = PartBuf::new();
    for piece in bytes.chunks(3) {
        buf.push_back(Bytes::copy_from_slice(piece));
    }
    let metadata = decode_header(&mut buf).unwrap();
    assert_eq!(metadata, sample_metadata());
    assert_eq!(
        decode_row(&metadata, &mut buf),
        Ok(vec![Value::UInt32(1), Value::String(b"ann".to_vec()), Value::Int16(-4)])
    );
    assert_eq!(
        decode_row(&metadata, &mut buf),
        Ok(vec![Value::UInt32(2), Value::String(vec![]), Value::Null])
    );
    assert_eq!(buf.remaining(), 0);
    assert_eq!(decode_row(&metadata, &mut buf), Err(Error::NotEnoughData));
    assert_eq!(decode_row(&Vec::new(), &mut buf), Ok(vec![]));
}

#[test]
fn a_row_is_read_whole_or_not_at_all() {
    let metadata = sample_metadata();
    let mut row = 5u32.to_le_bytes().to_vec();
    row.extend_from_slice(&string("bob"));
    row.extend_from_slice(&[0, 3, 0]);
    let mut buf = PartBuf::new();
    for cut in 0..row.len() {
        assert_eq!(decode_row(&metadata, &mut buf), Err(Error::NotEnoughData));
        assert_eq!(buf.remaining(), cut);
        buf.push_back(Bytes::copy_from_slice(&row[cut..cut + 1]));
    }
    assert_eq!(
        decode_row(&metadata, &mut buf),
        Ok(vec![Value::UInt32(5), Value::String(b"bob".to_vec()), Value::Int16(3)])
    );
    assert_eq!(buf.remaining(), 0);
}

#[test]
fn a_row_reports_its_first_failure() {
    let metadata: Metadata = vec![
        ("a".to_owned(), DataType::Bool),
        ("b".to_owned(), DataType::Array(Box::new(DataType::Int8))),
        ("c".to_owned(), DataType::Bool),
    ];
    let mut buf = buffer(&[&[7, 0, 9]]);
    assert_eq!(
        decode_row(&metadata, &mut buf),
        Err(Error::EncodingError("can't convert 7 to bool value".to_owned()))
    );
    let mut buf = buffer(&[&[1, 0, 9]]);
    assert_eq!(decode_row(&metadata, &mut buf), Err(Error::NotSupported("Array".to_owned())));
    assert_eq!(buf.remaining(), 3);
}

#[test]
fn a_header_is_read_whole_or_not_at_all() {
    let bytes = sample_header();
    let mut buf = PartBuf::new();
    for cut in 0..bytes.len() {
        assert_eq!(decode_header(&mut buf), Err(Error::NotEnoughData));
        assert_eq!(buf.remaining(), cut);
        buf.push_back(Bytes::copy_from_slice(&bytes[cut..cut + 1]));
    }
    assert_eq!(decode_header(&mut buf), Ok(sample_metadata()));
    assert_eq!(buf.remaining(), 0);
}

#[test]
fn header_failures() {
    let mut bytes = varint(1);
    bytes.extend_from_slice(&string("x"));
    bytes.extend_from_slice(&string("Int7"));
    let mut buf = buffer(&[&bytes]);
    assert_eq!(decode_header(&mut buf), Err(Error::ParseTypeError("unsupported type: Int7".to_owned())));
    assert_eq!(buf.remaining(), bytes.len());
    let mut bytes = varint(1);
    bytes.extend_from_slice(&[1, 0xff]);
    bytes.extend_from_slice(&string("Int8"));
    assert_eq!(decode_header(&mut buffer(&[&bytes])), Err(Error::Utf8Error));
    assert_eq!(decode_header(&mut buffer(&[&[0]])), Ok(vec![]));
    assert_eq!(decode_header(&mut buffer(&[&[0x80u8; 10]])), Err(Error::LEB128Error));
}
