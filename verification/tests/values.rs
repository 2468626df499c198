use num_bigint::BigInt;
use num_bigint::BigUint;
use rowbinary::error::DecimalFault;
use rowbinary::error::Error;
use rowbinary::values::bigint::i256;
use rowbinary::values::bigint::u256;
use rowbinary::values::decimal::Decimal;
use rowbinary::values::decimal::FixedPoint;
use rowbinary::values::ip::IpV4;
use rowbinary::values::ip::IpV6;
use rowbinary::values::json::Json;
use rowbinary::values::uuid::Uuid;
use rowbinary::values::value::Value;
use rust_decimal::prelude::FromPrimitive;
use rust_decimal::Decimal as RustDecimal;

fn fixed(decimal: RustDecimal) -> FixedPoint {
    FixedPoint { mantissa: decimal.mantissa(), scale: decimal.scale() }
}

#[test]
fn test_bigint() {
    let mut arr = [0u8; 32];
    arr[..16].copy_from_slice(u128::MAX.to_le_bytes().as_slice());
    let big_int: BigInt = i256::new(arr).into();
    assert_eq!(BigInt::from_u128(u128::MAX), Some(big_int))
}

#[test]
fn unsigned_bigint() {
    let arr = [0xffu8; 32];
    let big: BigUint = u256::new(arr).into();
    assert_eq!(big, (BigUint::from(1u8) << 256usize) - BigUint::from(1u8));
    assert_eq!(BigInt::from(i256::new(arr)), BigInt::from(-1));
    let mut low = [0u8; 32];
    low[0] = 0x34;
    low[1] = 0x12;
    assert_eq!(BigUint::from(u256::new(low)), BigUint::from(0x1234u32));
    assert_eq!(BigInt::from(i256::new(low)), BigInt::from(0x1234));
    let mut least = [0u8; 32];
    least[31] = 0x80;
    assert_eq!(BigInt::from(i256::new(least)), -(BigInt::from(1) << 255usize));
    assert_eq!(BigUint::from(u256::new(least)), BigUint::from(1u8) << 255usize);
    assert_eq!(BigUint::from(u256::new([0u8; 32])), BigUint::from(0u8));
    assert_eq!(BigInt::from(i256::new([0u8; 32])), BigInt::from(0));
}

#[test]
fn test_decimal() {
    let decimal32 = Decimal::I32(i32::MAX.to_le_bytes());
    assert_eq!(RustDecimal::try_new(i32::MAX as i64, 2).ok().map(fixed), decimal32.try_to_rust_decimal(2).ok());

    let mut arr = [0u8; 32];
    arr[..16].copy_from_slice(i128::MAX.to_le_bytes().as_slice());
    let mut decimal256 = Decimal::I256(arr);
    assert_eq!(None, decimal256.try_to_rust_decimal(2).ok());

    arr[12..16].iter_mut().for_each(|num| *num = 0);
    decimal256 = Decimal::I256(arr);
    let mut expect: RustDecimal = RustDecimal::MAX;
    let _ = expect.set_scale(2);
    assert_eq!(Some(fixed(expect)), decimal256.try_to_rust_decimal(2).ok());
}

#[test]
fn decimal_at_scale() {
    let decimal32 = Decimal::I32(i32::MAX.to_le_bytes());
    assert_eq!(
        decimal32.try_to_rust_decimal(2),
        Ok(FixedPoint { mantissa: i32::MAX as i128, scale: 2 })
    );
    assert_eq!(
        Decimal::I32((-12345i32).to_le_bytes()).try_to_rust_decimal(0),
        Ok(FixedPoint { mantissa: -12345, scale: 0 })
    );
    assert_eq!(
        Decimal::I64(i64::MIN.to_le_bytes()).try_to_rust_decimal(28),
        Ok(FixedPoint { mantissa: i64::MIN as i128, scale: 28 })
    );
    assert_eq!(
        Decimal::I128((-(1i128 << 96) + 1).to_le_bytes()).try_to_rust_decimal(5),
        Ok(FixedPoint { mantissa: -(1i128 << 96) + 1, scale: 5 })
    );
}

#[test]
fn decimal_range_errors() {
    assert_eq!(
        Decimal::I32([1, 0, 0, 0]).try_to_rust_decimal(29),
        Err(Error::ParseDecimalError(DecimalFault::ScaleExceedsMaximumPrecision(29)))
    );
    assert_eq!(
        Decimal::I64([1, 0, 0, 0, 0, 0, 0, 0]).try_to_rust_decimal(u32::MAX),
        Err(Error::ParseDecimalError(DecimalFault::ScaleExceedsMaximumPrecision(u32::MAX)))
    );
    assert_eq!(
        Decimal::I128((1i128 << 96).to_le_bytes()).try_to_rust_decimal(0),
        Err(Error::ParseDecimalError(DecimalFault::ExceedsMaximumPossibleValue))
    );
    assert_eq!(
        Decimal::I128((-(1i128 << 96)).to_le_bytes()).try_to_rust_decimal(0),
        Err(Error::ParseDecimalError(DecimalFault::LessThanMinimumPossibleValue))
    );
    assert_eq!(
        Decimal::I128(i128::MAX.to_le_bytes()).try_to_rust_decimal(30),
        Err(Error::ParseDecimalError(DecimalFault::ScaleExceedsMaximumPrecision(30)))
    );
    let mut high = [0u8; 32];
    high[16] = 1;
    assert_eq!(
        Decimal::I256(high).try_to_rust_decimal(2),
        Err(Error::ParseDecimalError(DecimalFault::ExceedsRange))
    );
    high = [0u8; 32];
    high[31] = 0x80;
    assert_eq!(
        Decimal::I256(high).try_to_rust_decimal(40),
        Err(Error::ParseDecimalError(DecimalFault::ExceedsRange))
    );
    let mut top_bit = [0u8; 32];
    top_bit[15] = 0x80;
    assert_eq!(
        Decimal::I256(top_bit).try_to_rust_decimal(2),
        Err(Error::ParseDecimalError(DecimalFault::ExceedsMaximumPossibleValue))
    );
    assert_eq!(
        Decimal::I256([0xff; 32]).try_to_rust_decimal(2),
        Err(Error::ParseDecimalError(DecimalFault::ExceedsRange))
    );
}

#[test]
fn test_ipv4() {
    let ipv4 = IpV4::new([1, 0, 0, 127]);
    let ip: String = ipv4.into();
    assert_eq!("127.0.0.1", &ip);
}

#[test]
fn test_ipv6() {
    let mut arr = [0u8; 16];
    arr[0] = 1;
    let ipv6 = IpV6::new(arr);
    let ip: String = ipv6.into();
    assert_eq!("::1", &ip);
}

fn v4(a: u8, b: u8, c: u8, d: u8) -> String {
    IpV4::new([d, c, b, a]).to_text()
}

fn v6(groups: [u16; 8]) -> String {
    let mut arr = [0u8; 16];
    for (i, group) in groups.iter().enumerate() {
        arr[15 - 2 * i] = (group >> 8) as u8;
        arr[14 - 2 * i] = (group & 0xff) as u8;
    }
    IpV6::new(arr).to_text()
}

#[test]
fn addresses_of_version_4_in_text() {
    assert_eq!(v4(0, 0, 0, 0), "0.0.0.0");
    assert_eq!(v4(255, 255, 255, 255), "255.255.255.255");
    assert_eq!(v4(192, 168, 1, 10), "192.168.1.10");
    assert_eq!(v4(10, 0, 100, 9), "10.0.100.9");
    assert_eq!(v4(1, 2, 3, 4), "1.2.3.4");
}

#[test]
fn addresses_of_version_6_in_text() {
    assert_eq!(v6([0, 0, 0, 0, 0, 0, 0, 0]), "::");
    assert_eq!(v6([0, 0, 0, 0, 0, 0, 0, 1]), "::1");
    assert_eq!(v6([1, 0, 0, 0, 0, 0, 0, 0]), "1::");
    assert_eq!(v6([0x2001, 0xdb8, 0, 0, 0, 0, 0, 1]), "2001:db8::1");
    assert_eq!(v6([0x2001, 0xdb8, 0, 0, 1, 0, 0, 1]), "2001:db8::1:0:0:1");
    assert_eq!(v6([1, 0, 0, 2, 0, 0, 0, 3]), "1:0:0:2::3");
    assert_eq!(v6([1, 0, 2, 3, 4, 5, 6, 7]), "1:0:2:3:4:5:6:7");
    assert_eq!(v6([1, 2, 3, 4, 5, 6, 0, 0]), "1:2:3:4:5:6::");
    assert_eq!(v6([0, 0, 1, 2, 3, 4, 5, 6]), "::1:2:3:4:5:6");
    assert_eq!(v6([0, 1, 2, 3, 4, 5, 6, 0]), "0:1:2:3:4:5:6:0");
    assert_eq!(v6([1, 2, 3, 4, 5, 6, 7, 8]), "1:2:3:4:5:6:7:8");
    assert_eq!(v6([0xffff; 8]), "ffff:ffff:ffff:ffff:ffff:ffff:ffff:ffff");
    assert_eq!(v6([0xfe80, 0, 0, 0, 0xa, 0xbc, 0xdef, 0x1000]), "fe80::a:bc:def:1000");
    assert_eq!(v6([0, 0, 0, 0, 0, 0xffff, 0x0102, 0x0304]), "::ffff:1.2.3.4");
    assert_eq!(v6([0, 0, 0, 0, 0, 0xffff, 0xc0a8, 0x010a]), "::ffff:192.168.1.10");
    assert_eq!(v6([0, 0, 0, 0, 0, 0, 0x0102, 0x0304]), "::102:304");
    assert_eq!(v6([0, 0, 0, 0, 1, 0xffff, 0x0102, 0x0304]), "::1:ffff:102:304");
}

#[test]
fn octets_are_the_bytes_reversed() {
    assert_eq!(IpV4::new([1, 2, 3, 4]).octets(), [4, 3, 2, 1]);
    let mut arr = [0u8; 16];
    for (i, byte) in arr.iter_mut().enumerate() {
        *byte = i as u8;
    }
    let mut reversed = arr;
    reversed.reverse();
    assert_eq!(IpV6::new(arr).octets(), reversed);
}

#[test]
fn decimals_from_bytes() {
    assert_eq!(Decimal::from([1u8; 4]), Decimal::I32([1; 4]));
    assert_eq!(Decimal::from([2u8; 8]), Decimal::I64([2; 8]));
    assert_eq!(Decimal::from([3u8; 16]), Decimal::I128([3; 16]));
    let wide: Decimal = [4u8; 32].into();
    assert_eq!(wide, Decimal::I256([4; 32]));
}

#[test]
fn constructors_keep_the_bytes() {
    assert_eq!(Uuid::new([7; 16]).0, [7; 16]);
    assert_eq!(Json::new(vec![b'{', b'}']).0, b"{}".to_vec());
    assert_eq!(i256::new([3; 32]).0, [3; 32]);
    assert_eq!(IpV4::new([1, 2, 3, 4]).0, [1, 2, 3, 4]);
}

#[test]
fn uuid_text_turns_the_first_fields_round() {
    let bytes = [
        0xa1, 0xa2, 0xa3, 0xa4, 0xb1, 0xb2, 0xc1, 0xc2, 0xd1, 0xd2, 0xd3, 0xd4, 0xd5, 0xd6, 0xd7, 0xd8,
    ];
    assert_eq!(Uuid::new(bytes).to_text(), "a4a3a2a1-b2b1-c2c1-d1d2-d3d4d5d6d7d8");
    let text: String = Uuid::new(bytes).into();
    assert_eq!(text, "a4a3a2a1-b2b1-c2c1-d1d2-d3d4d5d6d7d8");
    assert_eq!(Uuid::new([0; 16]).to_text(), "00000000-0000-0000-0000-000000000000");
    assert_eq!(Uuid::new([0xff; 16]).to_text(), "ffffffff-ffff-ffff-ffff-ffffffffffff");
    assert_eq!(
        Uuid::new([0x0f, 0xf0, 0x09, 0x90, 0x1a, 0xa1, 0x00, 0x0a, 0xa0, 0xfe, 0xef, 1, 2, 3, 4, 5]).to_text(),
        "9009f00f-a11a-0a00-a0fe-ef0102030405"
    );
}

#[test]
fn uuid_text_is_hexadecimal_with_hyphens() {
    let mut state = 11u64;
    for _ in 0..2000 {
        let mut bytes = [0u8; 16];
        for byte in bytes.iter_mut() {
            state = state.wrapping_mul(6364136223846793005).wrapping_add(1442695040888963407);
            *byte = (state >> 56) as u8;
        }
        let order = [3usize, 2, 1, 0, 5, 4, 7, 6, 8, 9, 10, 11, 12, 13, 14, 15];
        let mut expected = String::new();
        for (at, from) in order.iter().enumerate() {
            if at == 4 || at == 6 || at == 8 || at == 10 {
                expected.push('-');
            }
            expected.push_str(&format!("{:02x}", bytes[*from]));
        }
        assert_eq!(Uuid::new(bytes).to_text(), expected);
        let text: String = Uuid::new(bytes).into();
        assert_eq!(text, expected);
    }
}

#[test]
fn values_hold_lists_and_pairs() {
    let list = || vec![Value::Int8(1), Value::Null, Value::String(b"a".to_vec())];
    assert_eq!(Value::Array(list()), Value::Array(list()));
    assert_ne!(Value::Array(list()), Value::Tuple(list()));
    assert_ne!(Value::Enum8(vec![Value::Int8(1)]), Value::Enum16(vec![Value::Int8(1)]));
    assert_eq!(Value::Json(Json::new(b"{}".to_vec())), Value::Json(Json::new(b"{}".to_vec())));
    let pairs = || vec![(Value::UInt8(1), Value::Array(list())), (Value::UInt8(2), Value::Array(vec![]))];
    assert_eq!(Value::Mapping(pairs()), Value::Mapping(pairs()));
    let mut turned = pairs();
    turned.reverse();
    assert_ne!(Value::Mapping(pairs()), Value::Mapping(turned));
}
