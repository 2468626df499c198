//! One decoded value.
use vstd::prelude::*;

use crate::values::bigint::i256;
use crate::values::bigint::u256;
use crate::values::decimal::Decimal;
use crate::values::decimal::DecimalView;
use crate::values::ip::IpV4;
use crate::values::ip::IpV6;
use crate::values::json::Json;
use crate::values::uuid::Uuid;

verus! {

/// A value of a column, as the wire holds it.
///
/// A floating-point number is held by the bits of its IEEE 754 encoding, a
/// string by its bytes, which are UTF-8, and a map by its pairs of key and
/// value in their order.
#[derive(Debug, PartialEq, Eq, Hash)]
pub enum Value {
    Null,
    Bool(bool),
    Int8(i8),
    Int16(i16),
    Int32(i32),
    Int64(i64),
    Int128(i128),
    Int256(i256),
    UInt8(u8),
    UInt16(u16),
    UInt32(u32),
    UInt64(u64),
    UInt128(u128),
    UInt256(u256),
    Float32(u32),
    Float64(u64),
    String(Vec<u8>),
    Ipv4(IpV4),
    Ipv6(IpV6),
    Uuid(Uuid),
    Date(u16),
    Date32(i32),
    DateTime(u32),
    DateTime64(u64),
    Decimal(Decimal),
    Enum8(Vec<Value>),
    Enum16(Vec<Value>),
    Json(Json),
    Tuple(Vec<Value>),
    Array(Vec<Value>),
    Mapping(Vec<(Value, Value)>),
}

/// A [`Value`], its bytes and lists as sequences.
pub ghost enum ValueView {
    Null,
    Bool(bool),
    Int8(i8),
    Int16(i16),
    Int32(i32),
    Int64(i64),
    Int128(i128),
    Int256(Seq<u8>),
    UInt8(u8),
    UInt16(u16),
    UInt32(u32),
    UInt64(u64),
    UInt128(u128),
    UInt256(Seq<u8>),
    Float32(u32),
    Float64(u64),
    String(Seq<u8>),
    Ipv4(Seq<u8>),
    Ipv6(Seq<u8>),
    Uuid(Seq<u8>),
    Date(u16),
    Date32(i32),
    DateTime(u32),
    DateTime64(u64),
    Decimal(DecimalView),
    Enum8(Seq<ValueView>),
    Enum16(Seq<ValueView>),
    Json(Seq<u8>),
    Tuple(Seq<ValueView>),
    Array(Seq<ValueView>),
    Mapping(Seq<(ValueView, ValueView)>),
}

/// The views of a list of values.
pub open spec fn values_view(values: Seq<Value>) -> Seq<ValueView>
    decreases values,
{
    Seq::new(
        values.len(),
        |i: int|
            if 0 <= i < values.len() {
                value_view(values[i])
            } else {
                ValueView::Null
            },
    )
}

/// The views of the pairs of a map.
pub open spec fn pairs_view(pairs: Seq<(Value, Value)>) -> Seq<(ValueView, ValueView)>
    decreases pairs,
{
    Seq::new(
        pairs.len(),
        |i: int|
            if 0 <= i < pairs.len() {
                (value_view(pairs[i].0), value_view(pairs[i].1))
            } else {
                (ValueView::Null, ValueView::Null)
            },
    )
}

/// The view of a value.
pub open spec fn value_view(value: Value) -> ValueView
    decreases value,
{
    match value {
        Value::Null => ValueView::Null,
        Value::Bool(v) => ValueView::Bool(v),
        Value::Int8(v) => ValueView::Int8(v),
        Value::Int16(v) => ValueView::Int16(v),
        Value::Int32(v) => ValueView::Int32(v),
        Value::Int64(v) => ValueView::Int64(v),
        Value::Int128(v) => ValueView::Int128(v),
        Value::Int256(v) => ValueView::Int256(v@),
        Value::UInt8(v) => ValueView::UInt8(v),
        Value::UInt16(v) => ValueView::UInt16(v),
        Value::UInt32(v) => ValueView::UInt32(v),
        Value::UInt64(v) => ValueView::UInt64(v),
        Value::UInt128(v) => ValueView::UInt128(v),
        Value::UInt256(v) => ValueView::UInt256(v@),
        Value::Float32(v) => ValueView::Float32(v),
        Value::Float64(v) => ValueView::Float64(v),
        Value::String(v) => ValueView::String(v@),
        Value::Ipv4(v) => ValueView::Ipv4(v@),
        Value::Ipv6(v) => ValueView::Ipv6(v@),
        Value::Uuid(v) => ValueView::Uuid(v@),
        Value::Date(v) => ValueView::Date(v),
        Value::Date32(v) => ValueView::Date32(v),
        Value::DateTime(v) => ValueView::DateTime(v),
        Value::DateTime64(v) => ValueView::DateTime64(v),
        Value::Decimal(v) => ValueView::Decimal(v@),
        Value::Enum8(v) => ValueView::Enum8(values_view(v@)),
        Value::Enum16(v) => ValueView::Enum16(values_view(v@)),
        Value::Json(v) => ValueView::Json(v@),
        Value::Tuple(v) => ValueView::Tuple(values_view(v@)),
        Value::Array(v) => ValueView::Array(values_view(v@)),
        Value::Mapping(v) => ValueView::Mapping(pairs_view(v@)),
    }
}

impl View for Value {
    type V = ValueView;

    open spec fn view(&self) -> ValueView {
        value_view(*self)
    }
}

} // verus!
