//! Decoding the header and the rows of the row-oriented binary format.
//!
//! A header is the count of the columns, their names and the descriptions of
//! their types.  A row is the values of the columns one after the other, in
//! the order of the header.  Every number is little-endian, every size a
//! variable-length integer.
//!
//! A decoder reads whole values or nothing: when it fails, whether for want
//! of data or for another reason, the buffer is left as it was, and the same
//! call can be made again once more bytes have come.
use vstd::prelude::*;
use vstd::utf8::valid_utf8;

use crate::error::Error;
use crate::error::Failure;
use crate::error::Result;
use crate::metadata::data_type::decimal_precision_scale;
use crate::metadata::data_type::fields_view;
use crate::metadata::data_type::lemma_types_view_push;
use crate::metadata::data_type::types_view;
use crate::metadata::data_type::DataType;
use crate::metadata::data_type::DataTypeView;
use crate::metadata::format::type_keyword;
use crate::metadata::grammar::parse_type;
use crate::metadata::Metadata;
use crate::serde::buf::drop_front;
use crate::serde::buf::int_of;
use crate::serde::buf::le_signed_value;
use crate::serde::buf::le_value;
use crate::serde::buf::lemma_pow256_values;
use crate::serde::buf::read_bytes;
use crate::serde::buf::read_size_at;
use crate::serde::buf::read_string;
use crate::serde::buf::read_varint;
use crate::serde::buf::uint_of;
use crate::serde::buf::PartBuf;
use crate::text::nat_text;
use crate::text::render_nat;
use crate::values::bigint::i256;
use crate::values::bigint::u256;
use crate::values::decimal::Decimal;
use crate::values::decimal::DecimalView;
use crate::values::ip::IpV4;
use crate::values::ip::IpV6;
use crate::values::uuid::Uuid;
use crate::values::value::values_view;
use crate::values::value::Value;
use crate::values::value::ValueView;

verus! {

/// How many bytes hold the unscaled number of a decimal of this precision:
/// up to 9 digits take 32 bits, up to 18 take 64, up to 38 take 128, and up
/// to 76 take 256.  No decimal has more digits, or none.
pub open spec fn decimal_width(precision: u8) -> Option<nat> {
    if precision == 0 {
        None
    } else if precision <= 9 {
        Some(4)
    } else if precision <= 18 {
        Some(8)
    } else if precision <= 38 {
        Some(16)
    } else if precision <= 76 {
        Some(32)
    } else {
        None
    }
}

/// How many bytes a value of the type takes on the wire, where all values of
/// the type take as many.
pub open spec fn fixed_width(ty: DataTypeView) -> Option<nat> {
    match ty {
        DataTypeView::Int8 | DataTypeView::UInt8 => Some(1),
        DataTypeView::Int16 | DataTypeView::UInt16 | DataTypeView::Date => Some(2),
        DataTypeView::Int32
        | DataTypeView::UInt32
        | DataTypeView::Float32
        | DataTypeView::Date32
        | DataTypeView::DateTime(_)
        | DataTypeView::Ipv4
        | DataTypeView::Decimal32(_) => Some(4),
        DataTypeView::Int64
        | DataTypeView::UInt64
        | DataTypeView::Float64
        | DataTypeView::DateTime64(_, _)
        | DataTypeView::Decimal64(_) => Some(8),
        DataTypeView::Int128
        | DataTypeView::UInt128
        | DataTypeView::Ipv6
        | DataTypeView::Uuid
        | DataTypeView::Decimal128(_) => Some(16),
        DataTypeView::Int256 | DataTypeView::UInt256 | DataTypeView::Decimal256(_) => Some(32),
        DataTypeView::Decimal(precision, _) => decimal_width(precision),
        _ => None,
    }
}

/// A decimal that is described by its width takes the bytes that a decimal
/// of its precision takes.
pub proof fn lemma_decimal_width_by_precision(ty: DataTypeView)
    requires
        ty is Decimal32 || ty is Decimal64 || ty is Decimal128 || ty is Decimal256,
    ensures
        decimal_precision_scale(ty) matches Some(ps) && fixed_width(ty) == decimal_width(ps.0),
{
}

/// The unscaled number of a decimal, by the count of its bytes.
pub open spec fn decimal_of(bytes: Seq<u8>) -> DecimalView {
    if bytes.len() == 4 {
        DecimalView::I32(bytes)
    } else if bytes.len() == 8 {
        DecimalView::I64(bytes)
    } else if bytes.len() == 16 {
        DecimalView::I128(bytes)
    } else {
        DecimalView::I256(bytes)
    }
}

/// The value of a type of fixed width that the bytes hold, which are as many
/// as the type takes.  An integer is read with the least significant byte
/// first, a signed one in two's complement; a floating-point number is the
/// bits of its bytes read so; an address, an identifier, an integer of 256
/// bits and the unscaled number of a decimal are the bytes themselves.
pub open spec fn fixed_value(ty: DataTypeView, bytes: Seq<u8>) -> ValueView {
    match ty {
        DataTypeView::Int8 => ValueView::Int8(le_signed_value(bytes) as i8),
        DataTypeView::Int16 => ValueView::Int16(le_signed_value(bytes) as i16),
        DataTypeView::Int32 => ValueView::Int32(le_signed_value(bytes) as i32),
        DataTypeView::Int64 => ValueView::Int64(le_signed_value(bytes) as i64),
        DataTypeView::Int128 => ValueView::Int128(le_signed_value(bytes) as i128),
        DataTypeView::Int256 => ValueView::Int256(bytes),
        DataTypeView::UInt8 => ValueView::UInt8(le_value(bytes) as u8),
        DataTypeView::UInt16 => ValueView::UInt16(le_value(bytes) as u16),
        DataTypeView::UInt32 => ValueView::UInt32(le_value(bytes) as u32),
        DataTypeView::UInt64 => ValueView::UInt64(le_value(bytes) as u64),
        DataTypeView::UInt128 => ValueView::UInt128(le_value(bytes) as u128),
        DataTypeView::UInt256 => ValueView::UInt256(bytes),
        DataTypeView::Float32 => ValueView::Float32(le_value(bytes) as u32),
        DataTypeView::Float64 => ValueView::Float64(le_value(bytes) as u64),
        DataTypeView::Ipv4 => ValueView::Ipv4(bytes),
        DataTypeView::Ipv6 => ValueView::Ipv6(bytes),
        DataTypeView::Uuid => ValueView::Uuid(bytes),
        DataTypeView::Date => ValueView::Date(le_value(bytes) as u16),
        DataTypeView::Date32 => ValueView::Date32(le_signed_value(bytes) as i32),
        DataTypeView::DateTime(_) => ValueView::DateTime(le_value(bytes) as u32),
        DataTypeView::DateTime64(_, _) => ValueView::DateTime64(le_value(bytes) as u64),
        _ => ValueView::Decimal(decimal_of(bytes)),
    }
}

/// The failure for a byte that is no boolean.
pub open spec fn invalid_bool(byte: u8) -> Failure {
    Failure::EncodingError("can't convert "@ + nat_text(byte as nat) + " to bool value"@)
}

/// The failure for a byte that does not say whether a value is null.
pub open spec fn invalid_discriminant(byte: u8) -> Failure {
    Failure::EncodingError("invalid option symbol: "@ + nat_text(byte as nat))
}

/// The failure for a type whose values cannot be decoded.
pub open spec fn not_supported(ty: DataTypeView) -> Failure {
    Failure::NotSupported(type_keyword(ty))
}

/// The boolean at the start of `s`: one byte, 0 for false and 1 for true.
pub open spec fn bool_at(s: Seq<u8>) -> core::result::Result<(bool, nat), Failure> {
    if s.len() == 0 {
        Err(Failure::NotEnoughData)
    } else if s[0] == 0 {
        Ok((false, 1))
    } else if s[0] == 1 {
        Ok((true, 1))
    } else {
        Err(invalid_bool(s[0]))
    }
}

/// Whether the nullable value at the start of `s` is null: one byte, 1 for
/// null and 0 where a value follows.
pub open spec fn null_flag_at(s: Seq<u8>) -> core::result::Result<(bool, nat), Failure> {
    if s.len() == 0 {
        Err(Failure::NotEnoughData)
    } else if s[0] == 1 {
        Ok((true, 1))
    } else if s[0] == 0 {
        Ok((false, 1))
    } else {
        Err(invalid_discriminant(s[0]))
    }
}

/// The value of the type at the start of `s`, and how many bytes it takes.
///
/// - A type of fixed width takes its bytes.
/// - A boolean is one byte, 0 for false and 1 for true.
/// - A string is its size and then as many bytes, which are UTF-8.
/// - A nullable value starts with one byte: 1 for null, 0 before a value.
/// - Other types are not supported.
pub open spec fn value_at(ty: DataTypeView, s: Seq<u8>) -> core::result::Result<
    (ValueView, nat),
    Failure,
>
    decreases ty,
{
    match fixed_width(ty) {
        Some(width) => if s.len() >= width {
            Ok((fixed_value(ty, s.take(width as int)), width))
        } else {
            Err(Failure::NotEnoughData)
        },
        None => match ty {
            DataTypeView::Bool => match bool_at(s) {
                Ok((b, n)) => Ok((ValueView::Bool(b), n)),
                Err(e) => Err(e),
            },
            DataTypeView::String => match read_size_at(s) {
                Ok((size, n)) => match read_bytes(s.skip(n as int), size as nat) {
                    Ok((bytes, m)) => if valid_utf8(bytes) {
                        Ok((ValueView::String(bytes), n + m))
                    } else {
                        Err(Failure::Utf8Error)
                    },
                    Err(e) => Err(e),
                },
                Err(e) => Err(e),
            },
            DataTypeView::Nullable(inner) => match null_flag_at(s) {
                Err(e) => Err(e),
                Ok((is_null, n)) => if is_null {
                    Ok((ValueView::Null, n))
                } else {
                    match value_at(*inner, s.skip(n as int)) {
                        Ok((value, m)) => Ok((value, n + m)),
                        Err(e) => Err(e),
                    }
                },
            },
            _ => Err(not_supported(ty)),
        },
    }
}

/// The values of the types at the start of `s`, one after the other, and how
/// many bytes they take together; the failure of the first value that
/// fails.
pub open spec fn row_at(types: Seq<DataTypeView>, s: Seq<u8>) -> core::result::Result<
    (Seq<ValueView>, nat),
    Failure,
>
    decreases types.len(),
{
    if types.len() == 0 {
        Ok((Seq::empty(), 0))
    } else {
        match row_at(types.drop_last(), s) {
            Err(e) => Err(e),
            Ok((values, n)) => match value_at(types.last(), s.skip(n as int)) {
                Err(e) => Err(e),
                Ok((value, m)) => Ok((values.push(value), n + m)),
            },
        }
    }
}

/// The types of the columns of a header.
pub open spec fn column_types(columns: Seq<(Seq<char>, DataTypeView)>) -> Seq<DataTypeView> {
    Seq::new(columns.len(), |i: int| columns[i].1)
}

/// `count` strings at the start of `s`, one after the other, and how many
/// bytes they take together.
pub open spec fn strings_at(s: Seq<u8>, count: nat) -> core::result::Result<
    (Seq<Seq<char>>, nat),
    Failure,
>
    decreases count,
{
    if count == 0 {
        Ok((Seq::empty(), 0))
    } else {
        match strings_at(s, (count - 1) as nat) {
            Err(e) => Err(e),
            Ok((texts, n)) => match read_string(s.skip(n as int)) {
                Err(e) => Err(e),
                Ok((text, m)) => Ok((texts.push(text), n + m)),
            },
        }
    }
}

/// The type at the start of `s`, a string that describes it, and how many
/// bytes the string takes.
pub open spec fn type_at(s: Seq<u8>) -> core::result::Result<(DataTypeView, nat), Failure> {
    match read_string(s) {
        Err(e) => Err(e),
        Ok((text, n)) => match parse_type(text) {
            Err(e) => Err(e),
            Ok(ty) => Ok((ty, n)),
        },
    }
}

/// `count` types at the start of `s`, one after the other, and how many
/// bytes they take together.
pub open spec fn types_at(s: Seq<u8>, count: nat) -> core::result::Result<
    (Seq<DataTypeView>, nat),
    Failure,
>
    decreases count,
{
    if count == 0 {
        Ok((Seq::empty(), 0))
    } else {
        match types_at(s, (count - 1) as nat) {
            Err(e) => Err(e),
            Ok((types, n)) => match type_at(s.skip(n as int)) {
                Err(e) => Err(e),
                Ok((ty, m)) => Ok((types.push(ty), n + m)),
            },
        }
    }
}

/// The columns of the header at the start of `s`, and how many bytes the
/// header takes: the count of the columns, as many names, and as many
/// types.
pub open spec fn header_at(s: Seq<u8>) -> core::result::Result<
    (Seq<(Seq<char>, DataTypeView)>, nat),
    Failure,
> {
    match read_varint(s) {
        Err(e) => Err(e),
        Ok((count, n)) => match strings_at(s.skip(n as int), count as nat) {
            Err(e) => Err(e),
            Ok((names, m)) => match types_at(s.skip((n + m) as int), count as nat) {
                Err(e) => Err(e),
                Ok((types, k)) => Ok(
                    (Seq::new(count as nat, |i: int| (names[i], types[i])), n + m + k),
                ),
            },
        },
    }
}

/// How many bytes a value of the type takes on the wire, where all values of
/// the type take as many.
fn fixed_width_of(ty: &DataType) -> (w: Option<usize>)
    ensures
        match w {
            Some(n) => fixed_width(ty@) == Some(n as nat) && 1 <= n <= 32,
            None => fixed_width(ty@) is None,
        },
{
    match ty {
        DataType::Int8 | DataType::UInt8 => Some(1),
        DataType::Int16 | DataType::UInt16 | DataType::Date => Some(2),
        DataType::Int32
        | DataType::UInt32
        | DataType::Float32
        | DataType::Date32
        | DataType::DateTime(_)
        | DataType::Ipv4
        | DataType::Decimal32(_) => Some(4),
        DataType::Int64
        | DataType::UInt64
        | DataType::Float64
        | DataType::DateTime64(_, _)
        | DataType::Decimal64(_) => Some(8),
        DataType::Int128
        | DataType::UInt128
        | DataType::Ipv6
        | DataType::Uuid
        | DataType::Decimal128(_) => Some(16),
        DataType::Int256 | DataType::UInt256 | DataType::Decimal256(_) => Some(32),
        DataType::Decimal(precision, _) => {
            if *precision == 0 {
                None
            } else if *precision <= 9 {
                Some(4)
            } else if *precision <= 18 {
                Some(8)
            } else if *precision <= 38 {
                Some(16)
            } else if *precision <= 76 {
                Some(32)
            } else {
                None
            }
        },
        _ => None,
    }
}

/// The bytes as an array.
fn to_array<const N: usize>(bytes: &[u8]) -> (r: [u8; N])
    requires
        bytes@.len() == N,
    ensures
        r@ == bytes@,
{
    let mut r: [u8; N] = vstd::array::array_fill_for_copy_types(0u8);
    let mut i: usize = 0;
    while i < N
        invariant
            i <= N,
            bytes@.len() == N,
            forall|j: int| 0 <= j < i ==> r@[j] == bytes@[j],
        decreases N - i,
    {
        r[i] = bytes[i];
        i = i + 1;
    }
    assert(r@ =~= bytes@);
    r
}

/// The unscaled number of a decimal, by the count of its bytes.
fn decimal_from(bytes: &[u8]) -> (d: Decimal)
    requires
        bytes@.len() == 4 || bytes@.len() == 8 || bytes@.len() == 16 || bytes@.len() == 32,
    ensures
        d@ == decimal_of(bytes@),
{
    if bytes.len() == 4 {
        Decimal::I32(to_array::<4>(bytes))
    } else if bytes.len() == 8 {
        Decimal::I64(to_array::<8>(bytes))
    } else if bytes.len() == 16 {
        Decimal::I128(to_array::<16>(bytes))
    } else {
        Decimal::I256(to_array::<32>(bytes))
    }
}

/// The value of a type of fixed width that the bytes hold.
fn fixed_value_of(ty: &DataType, bytes: &[u8]) -> (v: Value)
    requires
        fixed_width(ty@) == Some(bytes@.len()),
    ensures
        v@ == fixed_value(ty@, bytes@),
{
    proof {
        lemma_pow256_values();
    }
    match ty {
        DataType::Int8 => Value::Int8(int_of(bytes) as i8),
        DataType::Int16 => Value::Int16(int_of(bytes) as i16),
        DataType::Int32 => Value::Int32(int_of(bytes) as i32),
        DataType::Int64 => Value::Int64(int_of(bytes) as i64),
        DataType::Int128 => Value::Int128(int_of(bytes)),
        DataType::Int256 => Value::Int256(i256::new(to_array::<32>(bytes))),
        DataType::UInt8 => Value::UInt8(uint_of(bytes) as u8),
        DataType::UInt16 => Value::UInt16(uint_of(bytes) as u16),
        DataType::UInt32 => Value::UInt32(uint_of(bytes) as u32),
        DataType::UInt64 => Value::UInt64(uint_of(bytes) as u64),
        DataType::UInt128 => Value::UInt128(uint_of(bytes)),
        DataType::UInt256 => Value::UInt256(u256::new(to_array::<32>(bytes))),
        DataType::Float32 => Value::Float32(uint_of(bytes) as u32),
        DataType::Float64 => Value::Float64(uint_of(bytes) as u64),
        DataType::Ipv4 => Value::Ipv4(IpV4::new(to_array::<4>(bytes))),
        DataType::Ipv6 => Value::Ipv6(IpV6::new(to_array::<16>(bytes))),
        DataType::Uuid => Value::Uuid(Uuid::new(to_array::<16>(bytes))),
        DataType::Date => Value::Date(uint_of(bytes) as u16),
        DataType::Date32 => Value::Date32(int_of(bytes) as i32),
        DataType::DateTime(_) => Value::DateTime(uint_of(bytes) as u32),
        DataType::DateTime64(_, _) => Value::DateTime64(uint_of(bytes) as u64),
        _ => Value::Decimal(decimal_from(bytes)),
    }
}

/// The text of an encoding failure: `prefix`, the byte as a decimal number,
/// and `suffix`.
fn byte_text(prefix: &str, byte: u8, suffix: &str) -> (text: String)
    ensures
        text@ == prefix@ + nat_text(byte as nat) + suffix@,
{
    let mut text: String = String::new();
    text.append(prefix);
    render_nat(&mut text, byte as u128);
    text.append(suffix);
    text
}

/// The boolean that stands `pos` bytes into the stream of `buf`, and the
/// position behind it.  The buffer stays as it is.
pub fn decode_bool_at(buf: &PartBuf, pos: usize) -> (r: Result<(bool, usize)>)
    requires
        buf.wf(),
        pos <= buf.stream().len(),
    ensures
        match r {
            Ok(found) => found.1 == pos + 1 && found.1 <= buf.stream().len() && bool_at(
                buf.stream().skip(pos as int),
            ) == Ok::<(bool, nat), Failure>((found.0, 1)),
            Err(e) => bool_at(buf.stream().skip(pos as int)) == Err::<(bool, nat), Failure>(e@),
        },
{
    if buf.remaining() - pos == 0 {
        return Err(Error::NotEnoughData);
    }
    let b: u8 = buf.byte_at(pos);
    if b == 0 {
        Ok((false, pos + 1))
    } else if b == 1 {
        Ok((true, pos + 1))
    } else {
        Err(Error::EncodingError(byte_text("can't convert ", b, " to bool value")))
    }
}

/// Whether the nullable value that stands `pos` bytes into the stream of
/// `buf` is null, and the position behind the byte that says so.  The buffer
/// stays as it is.
pub fn decode_null_flag_at(buf: &PartBuf, pos: usize) -> (r: Result<(bool, usize)>)
    requires
        buf.wf(),
        pos <= buf.stream().len(),
    ensures
        match r {
            Ok(found) => found.1 == pos + 1 && found.1 <= buf.stream().len() && null_flag_at(
                buf.stream().skip(pos as int),
            ) == Ok::<(bool, nat), Failure>((found.0, 1)),
            Err(e) => null_flag_at(buf.stream().skip(pos as int)) == Err::<(bool, nat), Failure>(
                e@,
            ),
        },
{
    if buf.remaining() - pos == 0 {
        return Err(Error::NotEnoughData);
    }
    let b: u8 = buf.byte_at(pos);
    if b == 1 {
        Ok((true, pos + 1))
    } else if b == 0 {
        Ok((false, pos + 1))
    } else {
        let text: String = byte_text("invalid option symbol: ", b, "");
        proof {
            reveal_strlit("");
            assert(text@ == "invalid option symbol: "@ + nat_text(b as nat));
        }
        Err(Error::EncodingError(text))
    }
}

/// Reads the byte that says whether a nullable value is null.  On a failure
/// the buffer stays as it is.
pub fn decode_null_flag(buf: &mut PartBuf) -> (r: Result<bool>)
    requires
        old(buf).wf(),
    ensures
        final(buf).wf(),
        match r {
            Ok(is_null) => {
                &&& null_flag_at(old(buf).stream()) == Ok::<(bool, nat), Failure>((is_null, 1))
                &&& final(buf)@ == drop_front(old(buf)@, 1)
                &&& final(buf).stream() == old(buf).stream().skip(1)
            },
            Err(e) => null_flag_at(old(buf).stream()) == Err::<(bool, nat), Failure>(e@)
                && *final(buf) == *old(buf),
        },
{
    assert(buf.stream().skip(0) == buf.stream());
    match decode_null_flag_at(buf, 0) {
        Ok((is_null, next)) => {
            buf.advance(next);
            Ok(is_null)
        },
        Err(e) => Err(e),
    }
}

/// The value of the type that stands `pos` bytes into the stream of `buf`,
/// and the position behind it.  The buffer stays as it is.
pub fn decode_value_at(ty: &DataType, buf: &PartBuf, pos: usize) -> (r: Result<(Value, usize)>)
    requires
        buf.wf(),
        pos <= buf.stream().len(),
    ensures
        match r {
            Ok(found) => pos <= found.1 <= buf.stream().len() && value_at(
                ty@,
                buf.stream().skip(pos as int),
            ) == Ok::<(ValueView, nat), Failure>((found.0@, (found.1 - pos) as nat)),
            Err(e) => value_at(ty@, buf.stream().skip(pos as int)) == Err::<
                (ValueView, nat),
                Failure,
            >(e@),
        },
    decreases ty,
{
    let ghost s = buf.stream().skip(pos as int);
    let avail: usize = buf.remaining() - pos;
    if let Some(width) = fixed_width_of(ty) {
        if avail < width {
            return Err(Error::NotEnoughData);
        }
        let bytes: Vec<u8> = buf.copy_at(pos, width);
        assert(bytes@ == s.take(width as int));
        return Ok((fixed_value_of(ty, bytes.as_slice()), pos + width));
    }
    match ty {
        DataType::Bool => match decode_bool_at(buf, pos) {
            Ok((b, next)) => Ok((Value::Bool(b), next)),
            Err(e) => Err(e),
        },
        DataType::String => {
            let (size, start) = match buf.size_at(pos) {
                Ok(found) => found,
                Err(e) => {
                    return Err(e);
                },
            };
            assert(s.skip(start - pos) == buf.stream().skip(start as int));
            let (bytes, next) = match buf.bytes_at(start, size) {
                Ok(found) => found,
                Err(e) => {
                    return Err(e);
                },
            };
            match core::str::from_utf8(bytes.as_slice()) {
                Ok(_) => Ok((Value::String(bytes), next)),
                Err(_) => Err(Error::Utf8Error),
            }
        },
        DataType::Nullable(inner) => match decode_null_flag_at(buf, pos) {
            Err(e) => Err(e),
            Ok((is_null, start)) => {
                if is_null {
                    Ok((Value::Null, start))
                } else {
                    assert(s.skip(1) == buf.stream().skip(pos + 1));
                    match decode_value_at(inner, buf, start) {
                        Ok((value, next)) => Ok((value, next)),
                        Err(e) => Err(e),
                    }
                }
            },
        },
        _ => Err(Error::NotSupported(ty.keyword().to_owned())),
    }
}

/// Reads one value of the type.  On a failure the buffer stays as it is.
pub fn decode_value(ty: &DataType, buf: &mut PartBuf) -> (r: Result<Value>)
    requires
        old(buf).wf(),
    ensures
        final(buf).wf(),
        match r {
            Ok(value) => exists|n: nat|
                {
                    &&& value_at(ty@, old(buf).stream()) == Ok::<(ValueView, nat), Failure>(
                        (value@, n),
                    )
                    &&& final(buf)@ == drop_front(old(buf)@, n)
                    &&& final(buf).stream() == old(buf).stream().skip(n as int)
                },
            Err(e) => value_at(ty@, old(buf).stream()) == Err::<(ValueView, nat), Failure>(e@)
                && *final(buf) == *old(buf),
        },
{
    assert(buf.stream().skip(0) == buf.stream());
    match decode_value_at(ty, buf, 0) {
        Ok((value, next)) => {
            buf.advance(next);
            Ok(value)
        },
        Err(e) => Err(e),
    }
}

/// A failure among the first values of a row is the failure of the row.
pub proof fn lemma_row_at_failure(types: Seq<DataTypeView>, s: Seq<u8>, k: int)
    requires
        0 <= k <= types.len(),
        row_at(types.take(k), s) is Err,
    ensures
        row_at(types, s) == row_at(types.take(k), s),
    decreases types.len() - k,
{
    if k == types.len() {
        assert(types.take(k) == types);
    } else {
        assert(types.take(k + 1).drop_last() == types.take(k));
        lemma_row_at_failure(types, s, k + 1);
    }
}

/// Reads one row: a value for each column of `metadata`, in the order of the
/// columns.  On a failure the buffer stays as it is.
pub fn decode_row(metadata: &Metadata, buf: &mut PartBuf) -> (r: Result<Vec<Value>>)
    requires
        old(buf).wf(),
    ensures
        final(buf).wf(),
        match r {
            Ok(values) => values@.len() == metadata@.len() && exists|n: nat|
                {
                    &&& row_at(column_types(fields_view(metadata@)), old(buf).stream()) == Ok::<
                        (Seq<ValueView>, nat),
                        Failure,
                    >((values_view(values@), n))
                    &&& final(buf)@ == drop_front(old(buf)@, n)
                    &&& final(buf).stream() == old(buf).stream().skip(n as int)
                },
            Err(e) => row_at(column_types(fields_view(metadata@)), old(buf).stream()) == Err::<
                (Seq<ValueView>, nat),
                Failure,
            >(e@) && *final(buf) == *old(buf),
        },
{
    let ghost types = column_types(fields_view(metadata@));
    let ghost s = buf.stream();
    let mut values: Vec<Value> = Vec::new();
    let mut pos: usize = 0;
    let mut i: usize = 0;
    proof {
        assert(types.take(0) == Seq::<DataTypeView>::empty());
        assert(values_view(values@) == Seq::<ValueView>::empty());
    }
    while i < metadata.len()
        invariant
            buf.wf(),
            *buf == *old(buf),
            s == buf.stream(),
            types == column_types(fields_view(metadata@)),
            i <= metadata@.len(),
            values@.len() == i,
            pos <= s.len(),
            row_at(types.take(i as int), s) == Ok::<(Seq<ValueView>, nat), Failure>(
                (values_view(values@), pos as nat),
            ),
        decreases metadata@.len() - i,
    {
        proof {
            assert(types.take(i + 1).drop_last() == types.take(i as int));
            assert(types.take(i + 1).last() == metadata@[i as int].1@);
        }
        match decode_value_at(&metadata[i].1, buf, pos) {
            Ok((value, next)) => {
                let ghost before = values_view(values@);
                let ghost view = value@;
                values.push(value);
                assert(values_view(values@) == before.push(view));
                pos = next;
            },
            Err(e) => {
                proof {
                    lemma_row_at_failure(types, s, i + 1);
                }
                return Err(e);
            },
        }
        i = i + 1;
    }
    assert(types.take(i as int) == types);
    buf.advance(pos);
    Ok(values)
}

/// A failure among the first strings is the failure of all of them.
pub proof fn lemma_strings_at_failure(s: Seq<u8>, k: nat, count: nat)
    requires
        k <= count,
        strings_at(s, k) is Err,
    ensures
        strings_at(s, count) == strings_at(s, k),
    decreases count - k,
{
    if k < count {
        lemma_strings_at_failure(s, k + 1, count);
    }
}

/// A failure among the first types is the failure of all of them.
pub proof fn lemma_types_at_failure(s: Seq<u8>, k: nat, count: nat)
    requires
        k <= count,
        types_at(s, k) is Err,
    ensures
        types_at(s, count) == types_at(s, k),
    decreases count - k,
{
    if k < count {
        lemma_types_at_failure(s, k + 1, count);
    }
}

/// The texts of a list of strings.
pub open spec fn strings_view(strings: Seq<String>) -> Seq<Seq<char>> {
    Seq::new(strings.len(), |i: int| strings[i]@)
}

/// The type that stands `pos` bytes into the stream of `buf`, and the
/// position behind it.  The buffer stays as it is.
fn decode_type_at(buf: &PartBuf, pos: usize) -> (r: Result<(DataType, usize)>)
    requires
        buf.wf(),
        pos <= buf.stream().len(),
    ensures
        match r {
            Ok(found) => pos < found.1 <= buf.stream().len() && type_at(
                buf.stream().skip(pos as int),
            ) == Ok::<(DataTypeView, nat), Failure>((found.0@, (found.1 - pos) as nat)),
            Err(e) => type_at(buf.stream().skip(pos as int)) == Err::<(DataTypeView, nat), Failure>(
                e@,
            ),
        },
{
    match buf.string_at(pos) {
        Ok((text, next)) => match DataType::parse(text.as_str()) {
            Ok(ty) => Ok((ty, next)),
            Err(e) => Err(e),
        },
        Err(e) => Err(e),
    }
}

/// The `count` strings that stand `start` bytes into the stream of `buf`,
/// and the position behind them.  The buffer stays as it is.
fn decode_strings_at(buf: &PartBuf, start: usize, count: u64) -> (r: Result<(Vec<String>, usize)>)
    requires
        buf.wf(),
        start <= buf.stream().len(),
    ensures
        match r {
            Ok(found) => found.0@.len() == count && start <= found.1 <= buf.stream().len()
                && strings_at(buf.stream().skip(start as int), count as nat) == Ok::<
                (Seq<Seq<char>>, nat),
                Failure,
            >((strings_view(found.0@), (found.1 - start) as nat)),
            Err(e) => strings_at(buf.stream().skip(start as int), count as nat) == Err::<
                (Seq<Seq<char>>, nat),
                Failure,
            >(e@),
        },
{
    let ghost from = buf.stream().skip(start as int);
    let mut names: Vec<String> = Vec::new();
    let mut pos: usize = start;
    let mut i: u64 = 0;
    assert(strings_view(names@) == Seq::<Seq<char>>::empty());
    while i < count
        invariant
            buf.wf(),
            from == buf.stream().skip(start as int),
            i <= count,
            names@.len() == i,
            start <= pos <= buf.stream().len(),
            strings_at(from, i as nat) == Ok::<(Seq<Seq<char>>, nat), Failure>(
                (strings_view(names@), (pos - start) as nat),
            ),
        decreases count - i,
    {
        assert(from.skip(pos - start) == buf.stream().skip(pos as int));
        match buf.string_at(pos) {
            Ok((name, next)) => {
                let ghost before = strings_view(names@);
                let ghost view = name@;
                names.push(name);
                assert(strings_view(names@) == before.push(view));
                pos = next;
            },
            Err(e) => {
                proof {
                    lemma_strings_at_failure(from, (i + 1) as nat, count as nat);
                }
                return Err(e);
            },
        }
        i = i + 1;
    }
    Ok((names, pos))
}

/// The `count` types that stand `start` bytes into the stream of `buf`, and
/// the position behind them.  The buffer stays as it is.
fn decode_types_at(buf: &PartBuf, start: usize, count: u64) -> (r: Result<(Vec<DataType>, usize)>)
    requires
        buf.wf(),
        start <= buf.stream().len(),
    ensures
        match r {
            Ok(found) => found.0@.len() == count && start <= found.1 <= buf.stream().len()
                && types_at(buf.stream().skip(start as int), count as nat) == Ok::<
                (Seq<DataTypeView>, nat),
                Failure,
            >((types_view(found.0@), (found.1 - start) as nat)),
            Err(e) => types_at(buf.stream().skip(start as int), count as nat) == Err::<
                (Seq<DataTypeView>, nat),
                Failure,
            >(e@),
        },
{
    let ghost from = buf.stream().skip(start as int);
    let mut types: Vec<DataType> = Vec::new();
    let mut pos: usize = start;
    let mut i: u64 = 0;
    assert(types_view(types@) == Seq::<DataTypeView>::empty());
    while i < count
        invariant
            buf.wf(),
            from == buf.stream().skip(start as int),
            i <= count,
            types@.len() == i,
            start <= pos <= buf.stream().len(),
            types_at(from, i as nat) == Ok::<(Seq<DataTypeView>, nat), Failure>(
                (types_view(types@), (pos - start) as nat),
            ),
        decreases count - i,
    {
        assert(from.skip(pos - start) == buf.stream().skip(pos as int));
        match decode_type_at(buf, pos) {
            Ok((ty, next)) => {
                proof {
                    lemma_types_view_push(types@, ty);
                }
                types.push(ty);
                pos = next;
            },
            Err(e) => {
                proof {
                    lemma_types_at_failure(from, (i + 1) as nat, count as nat);
                }
                return Err(e);
            },
        }
        i = i + 1;
    }
    Ok((types, pos))
}

/// The columns of these names and types, in their order.
fn zip_columns(names: Vec<String>, types: Vec<DataType>) -> (columns: Metadata)
    requires
        names@.len() == types@.len(),
    ensures
        fields_view(columns@) == Seq::new(
            names@.len(),
            |i: int| (strings_view(names@)[i], types_view(types@)[i]),
        ),
{
    let mut names = names;
    let mut types = types;
    let ghost all_names = strings_view(names@);
    let ghost all_types = types_view(types@);
    let ghost count = names@.len();
    let mut reversed: Vec<(String, DataType)> = Vec::new();
    while names.len() > 0
        invariant
            names@.len() == types@.len(),
            names@.len() + reversed@.len() == count,
            all_names.len() == count,
            all_types.len() == count,
            forall|k: int| 0 <= k < names@.len() ==> (#[trigger] names@[k])@ == all_names[k],
            forall|k: int| 0 <= k < types@.len() ==> (#[trigger] types@[k])@ == all_types[k],
            forall|k: int|
                0 <= k < reversed@.len() ==> (#[trigger] reversed@[k]).0@ == all_names[count - 1
                    - k] && reversed@[k].1@ == all_types[count - 1 - k],
        decreases names@.len(),
    {
        let name: String = names.pop().unwrap();
        let ty: DataType = types.pop().unwrap();
        reversed.push((name, ty));
    }
    let mut columns: Vec<(String, DataType)> = Vec::new();
    while reversed.len() > 0
        invariant
            reversed@.len() + columns@.len() == count,
            all_names.len() == count,
            all_types.len() == count,
            forall|k: int|
                0 <= k < reversed@.len() ==> (#[trigger] reversed@[k]).0@ == all_names[count - 1
                    - k] && reversed@[k].1@ == all_types[count - 1 - k],
            forall|k: int|
                0 <= k < columns@.len() ==> (#[trigger] columns@[k]).0@ == all_names[k]
                    && columns@[k].1@ == all_types[k],
        decreases reversed@.len(),
    {
        let column: (String, DataType) = reversed.pop().unwrap();
        columns.push(column);
    }
    assert(fields_view(columns@) =~= Seq::new(count, |i: int| (all_names[i], all_types[i])));
    columns
}

/// The header of a count, names and types that stand one behind the other.
proof fn lemma_header_at(
    s: Seq<u8>,
    count: u64,
    n: nat,
    names: Seq<Seq<char>>,
    m: nat,
    types: Seq<DataTypeView>,
    k: nat,
    columns: Seq<(Seq<char>, DataTypeView)>,
)
    requires
        read_varint(s) == Ok::<(u64, nat), Failure>((count, n)),
        strings_at(s.skip(n as int), count as nat) == Ok::<(Seq<Seq<char>>, nat), Failure>(
            (names, m),
        ),
        types_at(s.skip((n + m) as int), count as nat) == Ok::<(Seq<DataTypeView>, nat), Failure>(
            (types, k),
        ),
        columns == Seq::new(count as nat, |i: int| (names[i], types[i])),
    ensures
        header_at(s) == Ok::<(Seq<(Seq<char>, DataTypeView)>, nat), Failure>(
            (columns, n + m + k),
        ),
{
}

/// The header at the start of the stream of `buf`, and the position behind
/// it.  The buffer stays as it is.
fn decode_header_at(buf: &PartBuf) -> (r: Result<(Metadata, usize)>)
    requires
        buf.wf(),
    ensures
        match r {
            Ok(found) => found.1 <= buf.stream().len() && header_at(buf.stream()) == Ok::<
                (Seq<(Seq<char>, DataTypeView)>, nat),
                Failure,
            >((fields_view(found.0@), found.1 as nat)),
            Err(e) => header_at(buf.stream()) == Err::<
                (Seq<(Seq<char>, DataTypeView)>, nat),
                Failure,
            >(e@),
        },
{
    let ghost s = buf.stream();
    assert(s.skip(0) == s);
    let (count, start) = match buf.varint_at(0) {
        Ok(found) => found,
        Err(e) => {
            return Err(e);
        },
    };
    let (names, middle) = match decode_strings_at(buf, start, count) {
        Ok(found) => found,
        Err(e) => {
            return Err(e);
        },
    };
    let (types, end) = match decode_types_at(buf, middle, count) {
        Ok(found) => found,
        Err(e) => {
            return Err(e);
        },
    };
    let ghost names_view = strings_view(names@);
    let ghost types_view = types_view(types@);
    let columns: Metadata = zip_columns(names, types);
    proof {
        lemma_header_at(
            s,
            count,
            start as nat,
            names_view,
            (middle - start) as nat,
            types_view,
            (end - middle) as nat,
            fields_view(columns@),
        );
    }
    Ok((columns, end))
}

/// Reads a header: the columns of the rows that follow, by name and type.
/// On a failure the buffer stays as it is.
pub fn decode_header(buf: &mut PartBuf) -> (r: Result<Metadata>)
    requires
        old(buf).wf(),
    ensures
        final(buf).wf(),
        match r {
            Ok(columns) => exists|n: nat|
                {
                    &&& header_at(old(buf).stream()) == Ok::<
                        (Seq<(Seq<char>, DataTypeView)>, nat),
                        Failure,
                    >((fields_view(columns@), n))
                    &&& final(buf)@ == drop_front(old(buf)@, n)
                    &&& final(buf).stream() == old(buf).stream().skip(n as int)
                },
            Err(e) => header_at(old(buf).stream()) == Err::<
                (Seq<(Seq<char>, DataTypeView)>, nat),
                Failure,
            >(e@) && *final(buf) == *old(buf),
        },
{
    match decode_header_at(buf) {
        Ok((columns, end)) => {
            buf.advance(end);
            Ok(columns)
        },
        Err(e) => Err(e),
    }
}

} // verus!
