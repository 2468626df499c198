//! The grammar of type descriptions, as functions from texts to types.
//!
//! A description is a keyword (`UInt8`), or a keyword followed by an argument
//! list in brackets (`Map(String, Array(Decimal64(18)))`).  White space around
//! a description, around a field of an argument list and around a number is of
//! no account; inside a quoted name it counts.
use vstd::prelude::*;

use crate::error::Failure;
use crate::metadata::data_type::is_timezone_name;
use crate::metadata::data_type::AggFuncView;
use crate::metadata::data_type::DataTypeView;
use crate::metadata::type_util::first_name_end;
use crate::metadata::type_util::lemma_first_name_end;
use crate::metadata::type_util::lemma_split_weight;
use crate::metadata::type_util::lemma_total_weight_skip;
use crate::metadata::type_util::split_fields;
use crate::metadata::type_util::total_weight;
use crate::text::first_index_of;
use crate::text::lemma_first_index_of;
use crate::text::lemma_trim;
use crate::text::parse_int;
use crate::text::trim;
use crate::text::strip_quotes;

verus! {

/// The type that a keyword without arguments names.
pub open spec fn scalar_type(t: Seq<char>) -> Option<DataTypeView> {
    if t == "Bool"@ {
        Some(DataTypeView::Bool)
    } else if t == "Int8"@ {
        Some(DataTypeView::Int8)
    } else if t == "Int16"@ {
        Some(DataTypeView::Int16)
    } else if t == "Int32"@ {
        Some(DataTypeView::Int32)
    } else if t == "Int64"@ {
        Some(DataTypeView::Int64)
    } else if t == "Int128"@ {
        Some(DataTypeView::Int128)
    } else if t == "Int256"@ {
        Some(DataTypeView::Int256)
    } else if t == "UInt8"@ {
        Some(DataTypeView::UInt8)
    } else if t == "UInt16"@ {
        Some(DataTypeView::UInt16)
    } else if t == "UInt32"@ {
        Some(DataTypeView::UInt32)
    } else if t == "UInt64"@ {
        Some(DataTypeView::UInt64)
    } else if t == "UInt128"@ {
        Some(DataTypeView::UInt128)
    } else if t == "UInt256"@ {
        Some(DataTypeView::UInt256)
    } else if t == "Float32"@ {
        Some(DataTypeView::Float32)
    } else if t == "Float64"@ {
        Some(DataTypeView::Float64)
    } else if t == "String"@ {
        Some(DataTypeView::String)
    } else if t == "IPv4"@ {
        Some(DataTypeView::Ipv4)
    } else if t == "IPv6"@ {
        Some(DataTypeView::Ipv6)
    } else if t == "UUID"@ {
        Some(DataTypeView::Uuid)
    } else if t == "Date"@ {
        Some(DataTypeView::Date)
    } else if t == "Date32"@ {
        Some(DataTypeView::Date32)
    } else if t == "DateTime"@ {
        Some(DataTypeView::DateTime(None))
    } else if t == "Json"@ {
        Some(DataTypeView::Json)
    } else {
        None
    }
}

/// The aggregate function of a name: one of the known ones, or the name
/// itself.  Every text names one.
pub open spec fn agg_func(name: Seq<char>) -> AggFuncView {
    let t = trim(name);
    if t == "any"@ {
        AggFuncView::Any
    } else if t == "anyLast"@ {
        AggFuncView::AnyLast
    } else if t == "min"@ {
        AggFuncView::Min
    } else if t == "max"@ {
        AggFuncView::Max
    } else if t == "sum"@ {
        AggFuncView::Sum
    } else if t == "sumWithOverflow"@ {
        AggFuncView::SumWithOverflow
    } else if t == "groupBitAnd"@ {
        AggFuncView::GroupBitAnd
    } else if t == "groupBitOr"@ {
        AggFuncView::GroupBitOr
    } else if t == "groupBitXor"@ {
        AggFuncView::GroupBitXor
    } else if t == "groupArrayArray"@ {
        AggFuncView::GroupArrayArray
    } else if t == "groupUniqArrayArray"@ {
        AggFuncView::GroupUniqArrayArray
    } else if t == "sumMap"@ {
        AggFuncView::SumMap
    } else if t == "minMap"@ {
        AggFuncView::MinMap
    } else if t == "maxMap"@ {
        AggFuncView::MaxMap
    } else {
        AggFuncView::FuncName(t)
    }
}

/// The keyword and the argument list of `keyword(arguments)`: the text ends
/// with `)`, and the keyword is what stands before its first `(`.
pub open spec fn call_parts(t: Seq<char>) -> Option<(Seq<char>, Seq<char>)> {
    match first_index_of(t, '(') {
        Some(p) => if t.last() == ')' && 0 <= p < t.len() - 1 {
            Some((t.take(p), t.subrange(p + 1, t.len() - 1)))
        } else {
            None
        },
        None => None,
    }
}

/// The failure for a text that no production of the grammar matches.
pub open spec fn unsupported_type(t: Seq<char>) -> Failure {
    Failure::ParseTypeError("unsupported type: "@ + t)
}

/// The failure for a `Decimal` whose arguments no comma parts.
pub open spec fn malformed_decimal(t: Seq<char>) -> Failure {
    Failure::ParseTypeError("can't parse decimal type: "@ + t)
}

/// The failure for a `Map` that has not two arguments.
pub open spec fn malformed_map(inner: Seq<char>) -> Failure {
    Failure::ParseTypeError("Can't parse map type: Map("@ + inner + ")"@)
}

/// The failure for an aggregate function without a name.
pub open spec fn missing_function_name(inner: Seq<char>) -> Failure {
    Failure::ParseTypeError("No aggregate function name found, type: "@ + inner)
}

/// The failure for an enum element without `=`.
pub open spec fn malformed_enum_element(element: Seq<char>) -> Failure {
    Failure::ParseTypeError("invalid tuple element: "@ + element)
}

/// The failure for a name that is not in the time zone database.
pub open spec fn unknown_timezone(name: Seq<char>) -> Failure {
    Failure::ParseTypeError("'"@ + name + "' is not a valid timezone"@)
}

/// The number that an argument denotes, white space around it dropped.
pub open spec fn parse_number(s: Seq<char>, min: int, max: int) -> Result<int, Failure> {
    match parse_int(trim(s), min, max) {
        Ok(v) => Ok(v),
        Err(f) => Err(Failure::ParseIntError(f)),
    }
}

/// The time zone that a text names, white space around it dropped.
pub open spec fn parse_timezone(s: Seq<char>) -> Result<Seq<char>, Failure> {
    let name = trim(s);
    if is_timezone_name(name) {
        Ok(name)
    } else {
        Err(unknown_timezone(name))
    }
}

/// The time zone of an argument that may stand between quotes: the white
/// space around the argument and the quotes around what is left are dropped.
pub open spec fn parse_quoted_timezone(s: Seq<char>) -> Result<Seq<char>, Failure> {
    parse_timezone(strip_quotes(trim(s)))
}

/// `DateTime(..)`: no time zone where the argument is empty or white space.
pub open spec fn parse_datetime(inner: Seq<char>) -> Result<DataTypeView, Failure> {
    if trim(inner).len() == 0 {
        Ok(DataTypeView::DateTime(None))
    } else {
        match parse_quoted_timezone(inner) {
            Ok(tz) => Ok(DataTypeView::DateTime(Some(tz))),
            Err(e) => Err(e),
        }
    }
}

/// The most digits that the fraction of a second has.
pub const MAX_TIME_PRECISION: u8 = 9;

/// `DateTime64(precision)` or `DateTime64(precision, zone)`: the precision
/// is a count of digits from 0 to 9.
pub open spec fn parse_datetime64(inner: Seq<char>) -> Result<DataTypeView, Failure> {
    match first_index_of(inner, ',') {
        None => match parse_number(inner, 0, MAX_TIME_PRECISION as int) {
            Ok(p) => Ok(DataTypeView::DateTime64(p as u8, None)),
            Err(e) => Err(e),
        },
        Some(i) => match parse_number(inner.take(i), 0, MAX_TIME_PRECISION as int) {
            Ok(p) => match parse_quoted_timezone(inner.skip(i + 1)) {
                Ok(tz) => Ok(DataTypeView::DateTime64(p as u8, Some(tz))),
                Err(e) => Err(e),
            },
            Err(e) => Err(e),
        },
    }
}

/// `Decimal(precision, scale)`; `t` is the whole description.  Precision and
/// scale are numbers that fit in a byte: that there is a digit, and that the
/// scale is no more than the precision, is left to those who use the type.
pub open spec fn parse_decimal(t: Seq<char>, inner: Seq<char>) -> Result<DataTypeView, Failure> {
    match first_index_of(inner, ',') {
        None => Err(malformed_decimal(t)),
        Some(i) => match parse_number(inner.take(i), 0, u8::MAX as int) {
            Ok(p) => match parse_number(inner.skip(i + 1), 0, u8::MAX as int) {
                Ok(s) => Ok(DataTypeView::Decimal(p as u8, s as u8)),
                Err(e) => Err(e),
            },
            Err(e) => Err(e),
        },
    }
}

/// The pieces between the commas of `s`, brackets of no account.
pub open spec fn comma_pieces(s: Seq<char>) -> Seq<Seq<char>>
    decreases s.len(),
{
    match first_index_of(s, ',') {
        None => seq![s],
        Some(i) => {
            proof {
                lemma_first_index_of(s, ',');
            }
            seq![s.take(i)] + comma_pieces(s.skip(i + 1))
        },
    }
}

/// One piece of an enum's argument list: nothing where the piece is empty or
/// white space, else `name = code`.  The name is what stands before the first
/// `=`, without the white space around it and then without the quotes around
/// it, letter for letter: white space between the quotes belongs to the
/// name.
pub open spec fn enum_element(piece: Seq<char>, min: int, max: int) -> Result<
    Option<(Seq<char>, int)>,
    Failure,
> {
    let element = trim(piece);
    if element.len() == 0 {
        Ok(None)
    } else {
        match first_index_of(element, '=') {
            None => Err(malformed_enum_element(element)),
            Some(k) => match parse_number(element.skip(k + 1), min, max) {
                Ok(code) => Ok(Some((strip_quotes(trim(element.take(k))), code))),
                Err(e) => Err(e),
            },
        }
    }
}

/// The elements of the pieces, in their order, or the first failure.
pub open spec fn enum_elements(pieces: Seq<Seq<char>>, min: int, max: int) -> Result<
    Seq<(Seq<char>, int)>,
    Failure,
>
    decreases pieces.len(),
{
    if pieces.len() == 0 {
        Ok(Seq::empty())
    } else {
        match enum_elements(pieces.drop_last(), min, max) {
            Err(e) => Err(e),
            Ok(elements) => match enum_element(pieces.last(), min, max) {
                Err(e) => Err(e),
                Ok(None) => Ok(elements),
                Ok(Some(element)) => Ok(elements.push(element)),
            },
        }
    }
}

/// The names and codes of an enum's argument list, the codes between `min`
/// and `max`.
pub open spec fn parse_enum_list(inner: Seq<char>, min: int, max: int) -> Result<
    Seq<(Seq<char>, int)>,
    Failure,
> {
    enum_elements(comma_pieces(inner), min, max)
}

/// The type that a description denotes, or why it denotes none.
pub open spec fn parse_type(s: Seq<char>) -> Result<DataTypeView, Failure>
    decreases s.len(), 1nat,
{
    let t = trim(s);
    match call_parts(t) {
        None => match scalar_type(t) {
            Some(ty) => Ok(ty),
            None => Err(unsupported_type(t)),
        },
        Some((head, inner)) => {
            proof {
                lemma_trim(s);
                lemma_first_index_of(t, '(');
                lemma_split_weight(inner);
            }
            if head == "FixedString"@ {
                match parse_number(inner, 0, usize::MAX as int) {
                    Ok(n) => Ok(DataTypeView::FixedString(n as usize)),
                    Err(e) => Err(e),
                }
            } else if head == "Decimal"@ {
                parse_decimal(t, inner)
            } else if head == "Decimal32"@ {
                match parse_number(inner, 0, u8::MAX as int) {
                    Ok(n) => Ok(DataTypeView::Decimal32(n as u8)),
                    Err(e) => Err(e),
                }
            } else if head == "Decimal64"@ {
                match parse_number(inner, 0, u8::MAX as int) {
                    Ok(n) => Ok(DataTypeView::Decimal64(n as u8)),
                    Err(e) => Err(e),
                }
            } else if head == "Decimal128"@ {
                match parse_number(inner, 0, u8::MAX as int) {
                    Ok(n) => Ok(DataTypeView::Decimal128(n as u8)),
                    Err(e) => Err(e),
                }
            } else if head == "Decimal256"@ {
                match parse_number(inner, 0, u8::MAX as int) {
                    Ok(n) => Ok(DataTypeView::Decimal256(n as u8)),
                    Err(e) => Err(e),
                }
            } else if head == "DateTime"@ {
                parse_datetime(inner)
            } else if head == "DateTime64"@ {
                parse_datetime64(inner)
            } else if head == "Nullable"@ {
                match parse_type(inner) {
                    Ok(ty) => Ok(DataTypeView::Nullable(Box::new(ty))),
                    Err(e) => Err(e),
                }
            } else if head == "Array"@ {
                match parse_type(inner) {
                    Ok(ty) => Ok(DataTypeView::Array(Box::new(ty))),
                    Err(e) => Err(e),
                }
            } else if head == "LowCardinality"@ {
                match parse_type(inner) {
                    Ok(ty) => Ok(DataTypeView::LowCardinality(Box::new(ty))),
                    Err(e) => Err(e),
                }
            } else if head == "Map"@ {
                match parse_map_fields(inner, split_fields(inner)) {
                    Ok(pair) => Ok(DataTypeView::Mapping(Box::new(pair.0), Box::new(pair.1))),
                    Err(e) => Err(e),
                }
            } else if head == "Tuple"@ {
                match parse_tuple_fields(split_fields(inner)) {
                    Ok(fields) => Ok(DataTypeView::Tuple(fields)),
                    Err(e) => Err(e),
                }
            } else if head == "Enum8"@ {
                match parse_enum_list(inner, i8::MIN as int, i8::MAX as int) {
                    Ok(elements) => Ok(DataTypeView::Enum8(elements)),
                    Err(e) => Err(e),
                }
            } else if head == "Enum16"@ {
                match parse_enum_list(inner, i16::MIN as int, i16::MAX as int) {
                    Ok(elements) => Ok(DataTypeView::Enum16(elements)),
                    Err(e) => Err(e),
                }
            } else if head == "AggregateFunction"@ {
                match parse_agg_fields(inner, split_fields(inner)) {
                    Ok(pair) => Ok(DataTypeView::AggregateFunction(pair.0, pair.1)),
                    Err(e) => Err(e),
                }
            } else if head == "SimpleAggregateFunction"@ {
                match parse_agg_fields(inner, split_fields(inner)) {
                    Ok(pair) => Ok(DataTypeView::SimpleAggregateFunction(pair.0, pair.1)),
                    Err(e) => Err(e),
                }
            } else {
                Err(unsupported_type(t))
            }
        },
    }
}

/// The types that the fields denote, in their order, or the first failure.
pub open spec fn parse_types(fields: Seq<Seq<char>>) -> Result<Seq<DataTypeView>, Failure>
    decreases total_weight(fields), 0nat,
{
    if fields.len() == 0 {
        Ok(Seq::empty())
    } else {
        match parse_types(fields.drop_last()) {
            Err(e) => Err(e),
            Ok(types) => match parse_type(fields.last()) {
                Err(e) => Err(e),
                Ok(ty) => Ok(types.push(ty)),
            },
        }
    }
}

/// The key and value types of a `Map`, whose argument list has the two
/// fields `fields`.
pub open spec fn parse_map_fields(inner: Seq<char>, fields: Seq<Seq<char>>) -> Result<
    (DataTypeView, DataTypeView),
    Failure,
>
    decreases total_weight(fields), 1nat,
{
    if fields.len() != 2 {
        Err(malformed_map(inner))
    } else {
        match parse_types(fields) {
            Ok(types) => Ok((types[0], types[1])),
            Err(e) => Err(e),
        }
    }
}

/// The function and the argument types of an aggregate function, whose
/// argument list has the fields `fields`: the first names the function, the
/// others are types.
pub open spec fn parse_agg_fields(inner: Seq<char>, fields: Seq<Seq<char>>) -> Result<
    (AggFuncView, Seq<DataTypeView>),
    Failure,
>
    decreases total_weight(fields), 1nat,
{
    if fields.len() == 0 {
        Err(missing_function_name(inner))
    } else {
        proof {
            lemma_total_weight_skip(fields, 1);
        }
        match parse_types(fields.skip(1)) {
            Ok(types) => Ok((agg_func(fields[0]), types)),
            Err(e) => Err(e),
        }
    }
}

/// One field of a tuple: a type, or a name and a type with white space
/// between them.  The name is what stands before the first white space
/// outside every bracket of the field; a field without such white space is a
/// type without a name, whatever white space its own arguments hold.
pub open spec fn parse_tuple_field(field: Seq<char>) -> Result<(Seq<char>, DataTypeView), Failure>
    decreases field.len(), 2nat,
{
    let t = trim(field);
    proof {
        lemma_trim(field);
        lemma_first_name_end(t, 0);
    }
    match first_name_end(t, 0) {
        None => match parse_type(t) {
            Ok(ty) => Ok((Seq::empty(), ty)),
            Err(e) => Err(e),
        },
        Some(k) => match parse_type(t.skip(k + 1)) {
            Ok(ty) => Ok((t.take(k), ty)),
            Err(e) => Err(e),
        },
    }
}

/// The fields of a tuple, in their order, or the first failure.
pub open spec fn parse_tuple_fields(fields: Seq<Seq<char>>) -> Result<
    Seq<(Seq<char>, DataTypeView)>,
    Failure,
>
    decreases total_weight(fields), 0nat,
{
    if fields.len() == 0 {
        Ok(Seq::empty())
    } else {
        match parse_tuple_fields(fields.drop_last()) {
            Err(e) => Err(e),
            Ok(parsed) => match parse_tuple_field(fields.last()) {
                Err(e) => Err(e),
                Ok(field) => Ok(parsed.push(field)),
            },
        }
    }
}

} // verus!
