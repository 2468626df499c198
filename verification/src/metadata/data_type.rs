//! The model of a column's type.
use vstd::prelude::*;

use crate::error::outcome;
use crate::error::Error;
use crate::error::Failure;
use crate::error::Result;
use crate::metadata::grammar::agg_func;
use crate::metadata::grammar::call_parts;
use crate::metadata::grammar::parse_datetime;
use crate::metadata::grammar::parse_datetime64;
use crate::metadata::grammar::parse_decimal;
use crate::metadata::grammar::parse_number;
use crate::metadata::grammar::parse_quoted_timezone;
use crate::metadata::grammar::parse_timezone;
use crate::metadata::grammar::parse_type;
use crate::metadata::grammar::MAX_TIME_PRECISION;
use crate::metadata::grammar::scalar_type;
use crate::metadata::type_util::parse_agg_func;
use crate::metadata::type_util::parse_enum;
use crate::metadata::type_util::parse_map;
use crate::metadata::type_util::parse_tuple;
use crate::text::eq_lit;
use crate::text::find_char;
use crate::text::from_chars;
use crate::text::lemma_first_index_of;
use crate::text::lemma_trim;
use crate::text::parse_int_chars;
use crate::text::prefixed;
use crate::text::strip_quotes_chars;
use crate::text::slice_after;
use crate::text::slice_before;
use crate::text::slice_of;
use crate::text::to_chars;
use crate::text::trim_chars;

verus! {

/// `chrono_tz::Tz::from_str` finds the text among the names of the time zone
/// database, letter for letter.
pub uninterp spec fn is_timezone_name(name: Seq<char>) -> bool;

/// Whether the time zone database holds a zone of this name.  This asks
/// `<chrono_tz::Tz as FromStr>::from_str`, which looks the name up in a table
/// that is part of the program, and so answers alike for the same name.
#[verifier::external_body]
pub(crate) fn timezone_exists(name: &str) -> (known: bool)
    ensures
        known == is_timezone_name(name@),
{
    name.parse::<chrono_tz::Tz>().is_ok()
}

/// The time zone of a `DateTime`: the name of a zone of the time zone
/// database.
#[derive(Debug, Hash, PartialEq, Eq)]
pub struct Tz {
    name: String,
}

impl View for Tz {
    type V = Seq<char>;

    closed spec fn view(&self) -> Seq<char> {
        self.name@
    }
}

impl Clone for Tz {
    fn clone(&self) -> (r: Self)
        ensures
            r@ == self@,
    {
        proof {
            use_type_invariant(self);
        }
        Tz { name: self.name.clone() }
    }
}

impl Tz {
    /// The name is a name of the time zone database.
    #[verifier::type_invariant]
    closed spec fn known(&self) -> bool {
        is_timezone_name(self.name@)
    }

    /// The time zone that `s` names, the white space around the name
    /// dropped.  The failure names a text that the time zone database does
    /// not hold.
    pub fn from_chars(s: &[char]) -> (r: Result<Tz>)
        ensures
            outcome(r) == parse_timezone(s@),
    {
        let trimmed: &[char] = trim_chars(s);
        let name: String = from_chars(trimmed);
        if timezone_exists(name.as_str()) {
            Ok(Tz { name })
        } else {
            let mut text: String = prefixed("'", trimmed);
            text.append("' is not a valid timezone");
            Err(Error::ParseTypeError(text))
        }
    }

    /// The time zone that `s` names.
    pub fn parse(s: &str) -> (r: Result<Tz>)
        ensures
            outcome(r) == parse_timezone(s@),
    {
        let chars: Vec<char> = to_chars(s);
        Tz::from_chars(chars.as_slice())
    }

    /// The name of the zone.
    pub fn name(&self) -> (name: &str)
        ensures
            name@ == self@,
            is_timezone_name(self@),
    {
        proof {
            use_type_invariant(self);
        }
        self.name.as_str()
    }
}

/// The name of an aggregate function.
#[derive(Debug, Hash, PartialEq, Eq)]
pub enum AggFunc {
    Any,
    AnyLast,
    Min,
    Max,
    Sum,
    SumWithOverflow,
    GroupBitAnd,
    GroupBitOr,
    GroupBitXor,
    GroupArrayArray,
    GroupUniqArrayArray,
    SumMap,
    MinMap,
    MaxMap,
    /// A function that is none of the above, by its name.
    FuncName(String),
}

/// An [`AggFunc`], its name as a sequence of characters.
pub ghost enum AggFuncView {
    Any,
    AnyLast,
    Min,
    Max,
    Sum,
    SumWithOverflow,
    GroupBitAnd,
    GroupBitOr,
    GroupBitXor,
    GroupArrayArray,
    GroupUniqArrayArray,
    SumMap,
    MinMap,
    MaxMap,
    FuncName(Seq<char>),
}

impl View for AggFunc {
    type V = AggFuncView;

    open spec fn view(&self) -> AggFuncView {
        match self {
            AggFunc::Any => AggFuncView::Any,
            AggFunc::AnyLast => AggFuncView::AnyLast,
            AggFunc::Min => AggFuncView::Min,
            AggFunc::Max => AggFuncView::Max,
            AggFunc::Sum => AggFuncView::Sum,
            AggFunc::SumWithOverflow => AggFuncView::SumWithOverflow,
            AggFunc::GroupBitAnd => AggFuncView::GroupBitAnd,
            AggFunc::GroupBitOr => AggFuncView::GroupBitOr,
            AggFunc::GroupBitXor => AggFuncView::GroupBitXor,
            AggFunc::GroupArrayArray => AggFuncView::GroupArrayArray,
            AggFunc::GroupUniqArrayArray => AggFuncView::GroupUniqArrayArray,
            AggFunc::SumMap => AggFuncView::SumMap,
            AggFunc::MinMap => AggFuncView::MinMap,
            AggFunc::MaxMap => AggFuncView::MaxMap,
            AggFunc::FuncName(name) => AggFuncView::FuncName(name@),
        }
    }
}

impl AggFunc {
    /// The aggregate function that `name` names; every text names one.
    pub fn from_chars(name: &[char]) -> (f: AggFunc)
        ensures
            f@ == agg_func(name@),
    {
        let t: &[char] = trim_chars(name);
        if eq_lit(t, "any") {
            AggFunc::Any
        } else if eq_lit(t, "anyLast") {
            AggFunc::AnyLast
        } else if eq_lit(t, "min") {
            AggFunc::Min
        } else if eq_lit(t, "max") {
            AggFunc::Max
        } else if eq_lit(t, "sum") {
            AggFunc::Sum
        } else if eq_lit(t, "sumWithOverflow") {
            AggFunc::SumWithOverflow
        } else if eq_lit(t, "groupBitAnd") {
            AggFunc::GroupBitAnd
        } else if eq_lit(t, "groupBitOr") {
            AggFunc::GroupBitOr
        } else if eq_lit(t, "groupBitXor") {
            AggFunc::GroupBitXor
        } else if eq_lit(t, "groupArrayArray") {
            AggFunc::GroupArrayArray
        } else if eq_lit(t, "groupUniqArrayArray") {
            AggFunc::GroupUniqArrayArray
        } else if eq_lit(t, "sumMap") {
            AggFunc::SumMap
        } else if eq_lit(t, "minMap") {
            AggFunc::MinMap
        } else if eq_lit(t, "maxMap") {
            AggFunc::MaxMap
        } else {
            AggFunc::FuncName(from_chars(t))
        }
    }

    /// The aggregate function that `name` names.
    pub fn parse(name: &str) -> (f: AggFunc)
        ensures
            f@ == agg_func(name@),
    {
        let chars: Vec<char> = to_chars(name);
        AggFunc::from_chars(chars.as_slice())
    }
}

/// The type of a column.
#[derive(Debug, Hash, PartialEq, Eq)]
pub enum DataType {
    Bool,
    Int8,
    Int16,
    Int32,
    Int64,
    Int128,
    Int256,
    UInt8,
    UInt16,
    UInt32,
    UInt64,
    UInt128,
    UInt256,
    Float32,
    Float64,
    String,
    /// A string of this many bytes.
    FixedString(usize),
    Ipv4,
    Ipv6,
    Uuid,
    Date,
    Date32,
    DateTime(Option<Tz>),
    /// The digits of the fraction of a second, and the time zone.
    DateTime64(u8, Option<Tz>),
    /// Precision and scale.
    Decimal(u8, u8),
    /// The scale of a decimal of 32 bits.
    Decimal32(u8),
    /// The scale of a decimal of 64 bits.
    Decimal64(u8),
    /// The scale of a decimal of 128 bits.
    Decimal128(u8),
    /// The scale of a decimal of 256 bits.
    Decimal256(u8),
    /// The names with their codes, in the order of the description.
    Enum8(Vec<(String, i8)>),
    /// The names with their codes, in the order of the description.
    Enum16(Vec<(String, i16)>),
    LowCardinality(Box<DataType>),
    AggregateFunction(AggFunc, Vec<DataType>),
    SimpleAggregateFunction(AggFunc, Vec<DataType>),
    Json,
    /// The fields in their order; the name of an unnamed field is empty.
    Tuple(Vec<(String, DataType)>),
    Array(Box<DataType>),
    /// A map from keys of the first type to values of the second.
    Mapping(Box<DataType>, Box<DataType>),
    Nullable(Box<DataType>),
}

/// A [`DataType`], its texts as sequences of characters and its lists as
/// sequences.
pub ghost enum DataTypeView {
    Bool,
    Int8,
    Int16,
    Int32,
    Int64,
    Int128,
    Int256,
    UInt8,
    UInt16,
    UInt32,
    UInt64,
    UInt128,
    UInt256,
    Float32,
    Float64,
    String,
    FixedString(usize),
    Ipv4,
    Ipv6,
    Uuid,
    Date,
    Date32,
    DateTime(Option<Seq<char>>),
    DateTime64(u8, Option<Seq<char>>),
    Decimal(u8, u8),
    Decimal32(u8),
    Decimal64(u8),
    Decimal128(u8),
    Decimal256(u8),
    Enum8(Seq<(Seq<char>, int)>),
    Enum16(Seq<(Seq<char>, int)>),
    LowCardinality(Box<DataTypeView>),
    AggregateFunction(AggFuncView, Seq<DataTypeView>),
    SimpleAggregateFunction(AggFuncView, Seq<DataTypeView>),
    Json,
    Tuple(Seq<(Seq<char>, DataTypeView)>),
    Array(Box<DataTypeView>),
    Mapping(Box<DataTypeView>, Box<DataTypeView>),
    Nullable(Box<DataTypeView>),
}

/// The precision and the scale of a decimal.  A decimal that is described
/// by its width has the most digits that the width holds: 9 for 32 bits, 18
/// for 64, 38 for 128 and 76 for 256.
pub open spec fn decimal_precision_scale(ty: DataTypeView) -> Option<(u8, u8)> {
    match ty {
        DataTypeView::Decimal(precision, scale) => Some((precision, scale)),
        DataTypeView::Decimal32(scale) => Some((9u8, scale)),
        DataTypeView::Decimal64(scale) => Some((18u8, scale)),
        DataTypeView::Decimal128(scale) => Some((38u8, scale)),
        DataTypeView::Decimal256(scale) => Some((76u8, scale)),
        _ => None,
    }
}

/// The view of an optional time zone.
pub open spec fn zone_view(tz: Option<Tz>) -> Option<Seq<char>> {
    match tz {
        Some(tz) => Some(tz@),
        None => None,
    }
}

/// The views of a list of types.
pub open spec fn types_view(types: Seq<DataType>) -> Seq<DataTypeView>
    decreases types,
{
    Seq::new(
        types.len(),
        |i: int|
            if 0 <= i < types.len() {
                type_view(types[i])
            } else {
                DataTypeView::Bool
            },
    )
}

/// The views of the fields of a tuple.
pub open spec fn fields_view(fields: Seq<(String, DataType)>) -> Seq<(Seq<char>, DataTypeView)>
    decreases fields,
{
    Seq::new(
        fields.len(),
        |i: int|
            if 0 <= i < fields.len() {
                (fields[i].0@, type_view(fields[i].1))
            } else {
                (Seq::empty(), DataTypeView::Bool)
            },
    )
}

/// The views of a list with one more type are the views of the list with
/// the view of the type behind them.
pub proof fn lemma_types_view_push(types: Seq<DataType>, ty: DataType)
    ensures
        types_view(types.push(ty)) == types_view(types).push(ty@),
{
    let a = types_view(types.push(ty));
    let b = types_view(types).push(ty@);
    assert(a.len() == b.len());
    assert forall|i: int| 0 <= i < a.len() implies a[i] == b[i] by {
        if i < types.len() {
            assert(types.push(ty)[i] == types[i]);
        }
    }
    assert(a =~= b);
}

/// The views of a list with one more field are the views of the list with
/// the view of the field behind them.
pub proof fn lemma_fields_view_push(fields: Seq<(String, DataType)>, field: (String, DataType))
    ensures
        fields_view(fields.push(field)) == fields_view(fields).push((field.0@, field.1@)),
{
    let a = fields_view(fields.push(field));
    let b = fields_view(fields).push((field.0@, field.1@));
    assert(a.len() == b.len());
    assert forall|i: int| 0 <= i < a.len() implies a[i] == b[i] by {
        if i < fields.len() {
            assert(fields.push(field)[i] == fields[i]);
        }
    }
    assert(a =~= b);
}

/// An integer type that holds the codes of an enum.
pub trait EnumCode: Sized {
    /// The least code.
    spec fn least() -> int;

    /// The greatest code.
    spec fn greatest() -> int;

    /// The code as a number.
    spec fn code(&self) -> int;

    /// The least and the greatest code.
    fn bounds() -> (b: (i128, i128))
        ensures
            b.0 == Self::least(),
            b.1 == Self::greatest(),
            -0x8000_0000 <= b.0 <= 0 <= b.1 <= 0x7fff_ffff,
    ;

    /// The code of this type that is the number `v`.
    fn from_code(v: i128) -> (r: Self)
        requires
            Self::least() <= v <= Self::greatest(),
        ensures
            r.code() == v,
    ;

    /// The code as a number.
    fn to_code(&self) -> (v: i128)
        ensures
            v == self.code(),
            Self::least() <= v <= Self::greatest(),
    ;
}

impl EnumCode for i8 {
    open spec fn least() -> int {
        i8::MIN as int
    }

    open spec fn greatest() -> int {
        i8::MAX as int
    }

    open spec fn code(&self) -> int {
        *self as int
    }

    fn bounds() -> (b: (i128, i128)) {
        (-128, 127)
    }

    fn from_code(v: i128) -> (r: i8) {
        v as i8
    }

    fn to_code(&self) -> (v: i128) {
        *self as i128
    }
}

impl EnumCode for i16 {
    open spec fn least() -> int {
        i16::MIN as int
    }

    open spec fn greatest() -> int {
        i16::MAX as int
    }

    open spec fn code(&self) -> int {
        *self as int
    }

    fn bounds() -> (b: (i128, i128)) {
        (-32768, 32767)
    }

    fn from_code(v: i128) -> (r: i16) {
        v as i16
    }

    fn to_code(&self) -> (v: i128) {
        *self as i128
    }
}

/// The names and codes of the elements of an enum.
pub open spec fn elements_view<T: EnumCode>(elements: Seq<(String, T)>) -> Seq<(Seq<char>, int)> {
    Seq::new(elements.len(), |i: int| (elements[i].0@, elements[i].1.code()))
}

/// Reads a number between `min` and `max`, white space around it dropped.
pub fn parse_number_chars(s: &[char], min: i128, max: i128) -> (r: Result<i128>)
    requires
        -0x1_0000_0000_0000_0000 <= min <= 0 <= max <= 0x1_0000_0000_0000_0000,
    ensures
        match r {
            Ok(v) => parse_number(s@, min as int, max as int) == Ok::<int, Failure>(v as int),
            Err(e) => parse_number(s@, min as int, max as int) == Err::<int, Failure>(e@),
        },
{
    match parse_int_chars(trim_chars(s), min, max) {
        Ok(v) => Ok(v),
        Err(f) => Err(Error::ParseIntError(f)),
    }
}

/// Reads a number that fits in a byte.
fn parse_u8_chars(s: &[char]) -> (r: Result<u8>)
    ensures
        match r {
            Ok(v) => parse_number(s@, 0, u8::MAX as int) == Ok::<int, Failure>(v as int),
            Err(e) => parse_number(s@, 0, u8::MAX as int) == Err::<int, Failure>(e@),
        },
{
    match parse_number_chars(s, 0, 255) {
        Ok(v) => Ok(v as u8),
        Err(e) => Err(e),
    }
}

/// Reads the precision of a time.
fn parse_precision_chars(s: &[char]) -> (r: Result<u8>)
    ensures
        match r {
            Ok(v) => parse_number(s@, 0, MAX_TIME_PRECISION as int) == Ok::<int, Failure>(v as int),
            Err(e) => parse_number(s@, 0, MAX_TIME_PRECISION as int) == Err::<int, Failure>(e@),
        },
{
    match parse_number_chars(s, 0, MAX_TIME_PRECISION as i128) {
        Ok(v) => Ok(v as u8),
        Err(e) => Err(e),
    }
}

/// The time zone of an argument that may stand between quotes.
fn quoted_timezone(s: &[char]) -> (r: Result<Tz>)
    ensures
        outcome(r) == parse_quoted_timezone(s@),
{
    Tz::from_chars(strip_quotes_chars(trim_chars(s)))
}

/// The keyword and the argument list of `keyword(arguments)`.
fn split_call(t: &[char]) -> (r: Option<(&[char], &[char])>)
    ensures
        match r {
            Some(parts) => call_parts(t@) == Some((parts.0@, parts.1@)),
            None => call_parts(t@) is None,
        },
{
    match find_char(t, '(') {
        Some(p) => {
            proof {
                lemma_first_index_of(t@, '(');
            }
            if t[t.len() - 1] == ')' && p < t.len() - 1 {
                Some((slice_of(t, 0, p), slice_of(t, p + 1, t.len() - 1)))
            } else {
                None
            }
        },
        None => None,
    }
}

/// The type that a keyword without arguments names.
fn scalar_of(t: &[char]) -> (r: Option<DataType>)
    ensures
        match r {
            Some(ty) => scalar_type(t@) == Some(ty@),
            None => scalar_type(t@) is None,
        },
{
    if eq_lit(t, "Bool") {
        Some(DataType::Bool)
    } else if eq_lit(t, "Int8") {
        Some(DataType::Int8)
    } else if eq_lit(t, "Int16") {
        Some(DataType::Int16)
    } else if eq_lit(t, "Int32") {
        Some(DataType::Int32)
    } else if eq_lit(t, "Int64") {
        Some(DataType::Int64)
    } else if eq_lit(t, "Int128") {
        Some(DataType::Int128)
    } else if eq_lit(t, "Int256") {
        Some(DataType::Int256)
    } else if eq_lit(t, "UInt8") {
        Some(DataType::UInt8)
    } else if eq_lit(t, "UInt16") {
        Some(DataType::UInt16)
    } else if eq_lit(t, "UInt32") {
        Some(DataType::UInt32)
    } else if eq_lit(t, "UInt64") {
        Some(DataType::UInt64)
    } else if eq_lit(t, "UInt128") {
        Some(DataType::UInt128)
    } else if eq_lit(t, "UInt256") {
        Some(DataType::UInt256)
    } else if eq_lit(t, "Float32") {
        Some(DataType::Float32)
    } else if eq_lit(t, "Float64") {
        Some(DataType::Float64)
    } else if eq_lit(t, "String") {
        Some(DataType::String)
    } else if eq_lit(t, "IPv4") {
        Some(DataType::Ipv4)
    } else if eq_lit(t, "IPv6") {
        Some(DataType::Ipv6)
    } else if eq_lit(t, "UUID") {
        Some(DataType::Uuid)
    } else if eq_lit(t, "Date") {
        Some(DataType::Date)
    } else if eq_lit(t, "Date32") {
        Some(DataType::Date32)
    } else if eq_lit(t, "DateTime") {
        Some(DataType::DateTime(None))
    } else if eq_lit(t, "Json") {
        Some(DataType::Json)
    } else {
        None
    }
}

/// `DateTime(..)`.
fn datetime_of(inner: &[char]) -> (r: Result<DataType>)
    ensures
        outcome(r) == parse_datetime(inner@),
{
    if trim_chars(inner).len() == 0 {
        Ok(DataType::DateTime(None))
    } else {
        match quoted_timezone(inner) {
            Ok(tz) => Ok(DataType::DateTime(Some(tz))),
            Err(e) => Err(e),
        }
    }
}

/// `DateTime64(..)`.
fn datetime64_of(inner: &[char]) -> (r: Result<DataType>)
    ensures
        outcome(r) == parse_datetime64(inner@),
{
    match find_char(inner, ',') {
        None => match parse_precision_chars(inner) {
            Ok(p) => Ok(DataType::DateTime64(p, None)),
            Err(e) => Err(e),
        },
        Some(i) => {
            proof {
                lemma_first_index_of(inner@, ',');
            }
            match parse_precision_chars(slice_before(inner, i)) {
                Ok(p) => match quoted_timezone(slice_after(inner, i)) {
                    Ok(tz) => Ok(DataType::DateTime64(p, Some(tz))),
                    Err(e) => Err(e),
                },
                Err(e) => Err(e),
            }
        },
    }
}

/// `Decimal(..)`; `t` is the whole description.
fn decimal_of(t: &[char], inner: &[char]) -> (r: Result<DataType>)
    ensures
        outcome(r) == parse_decimal(t@, inner@),
{
    match find_char(inner, ',') {
        None => Err(Error::ParseTypeError(prefixed("can't parse decimal type: ", t))),
        Some(i) => {
            proof {
                lemma_first_index_of(inner@, ',');
            }
            match parse_u8_chars(slice_before(inner, i)) {
                Ok(p) => match parse_u8_chars(slice_after(inner, i)) {
                    Ok(s) => Ok(DataType::Decimal(p, s)),
                    Err(e) => Err(e),
                },
                Err(e) => Err(e),
            }
        },
    }
}

impl DataType {
    /// The type that the description `s` denotes.
    #[verifier::rlimit(40)]
    pub fn from_chars(s: &[char]) -> (r: Result<DataType>)
        ensures
            outcome(r) == parse_type(s@),
        decreases s@.len(), 1nat,
    {
        let t: &[char] = trim_chars(s);
        proof {
            lemma_trim(s@);
            lemma_first_index_of(t@, '(');
        }
        let (head, inner) = match split_call(t) {
            Some(parts) => parts,
            None => {
                return match scalar_of(t) {
                    Some(ty) => Ok(ty),
                    None => Err(Error::ParseTypeError(prefixed("unsupported type: ", t))),
                };
            },
        };
        if eq_lit(head, "FixedString") {
            match parse_number_chars(inner, 0, usize::MAX as i128) {
                Ok(n) => Ok(DataType::FixedString(n as usize)),
                Err(e) => Err(e),
            }
        } else if eq_lit(head, "Decimal") {
            decimal_of(t, inner)
        } else if eq_lit(head, "Decimal32") {
            match parse_u8_chars(inner) {
                Ok(n) => Ok(DataType::Decimal32(n)),
                Err(e) => Err(e),
            }
        } else if eq_lit(head, "Decimal64") {
            match parse_u8_chars(inner) {
                Ok(n) => Ok(DataType::Decimal64(n)),
                Err(e) => Err(e),
            }
        } else if eq_lit(head, "Decimal128") {
            match parse_u8_chars(inner) {
                Ok(n) => Ok(DataType::Decimal128(n)),
                Err(e) => Err(e),
            }
        } else if eq_lit(head, "Decimal256") {
            match parse_u8_chars(inner) {
                Ok(n) => Ok(DataType::Decimal256(n)),
                Err(e) => Err(e),
            }
        } else if eq_lit(head, "DateTime") {
            datetime_of(inner)
        } else if eq_lit(head, "DateTime64") {
            datetime64_of(inner)
        } else if eq_lit(head, "Nullable") {
            match DataType::from_chars(inner) {
                Ok(ty) => Ok(DataType::Nullable(Box::new(ty))),
                Err(e) => Err(e),
            }
        } else if eq_lit(head, "Array") {
            match DataType::from_chars(inner) {
                Ok(ty) => Ok(DataType::Array(Box::new(ty))),
                Err(e) => Err(e),
            }
        } else if eq_lit(head, "LowCardinality") {
            match DataType::from_chars(inner) {
                Ok(ty) => Ok(DataType::LowCardinality(Box::new(ty))),
                Err(e) => Err(e),
            }
        } else if eq_lit(head, "Map") {
            match parse_map(inner) {
                Ok(pair) => Ok(DataType::Mapping(Box::new(pair.0), Box::new(pair.1))),
                Err(e) => Err(e),
            }
        } else if eq_lit(head, "Tuple") {
            match parse_tuple(inner) {
                Ok(fields) => Ok(DataType::Tuple(fields)),
                Err(e) => Err(e),
            }
        } else if eq_lit(head, "Enum8") {
            match parse_enum::<i8>(inner) {
                Ok(elements) => Ok(DataType::Enum8(elements)),
                Err(e) => Err(e),
            }
        } else if eq_lit(head, "Enum16") {
            match parse_enum::<i16>(inner) {
                Ok(elements) => Ok(DataType::Enum16(elements)),
                Err(e) => Err(e),
            }
        } else if eq_lit(head, "AggregateFunction") {
            match parse_agg_func(inner) {
                Ok(pair) => Ok(DataType::AggregateFunction(pair.0, pair.1)),
                Err(e) => Err(e),
            }
        } else if eq_lit(head, "SimpleAggregateFunction") {
            match parse_agg_func(inner) {
                Ok(pair) => Ok(DataType::SimpleAggregateFunction(pair.0, pair.1)),
                Err(e) => Err(e),
            }
        } else {
            Err(Error::ParseTypeError(prefixed("unsupported type: ", t)))
        }
    }

    /// The type that the description `s` denotes.
    pub fn parse(s: &str) -> (r: Result<DataType>)
        ensures
            outcome(r) == parse_type(s@),
    {
        let chars: Vec<char> = to_chars(s);
        DataType::from_chars(chars.as_slice())
    }

    /// How many decimal digits a decimal of the type has, and how many of
    /// them stand behind the point; nothing for another type.
    pub fn decimal_precision_scale(&self) -> (r: Option<(u8, u8)>)
        ensures
            r == decimal_precision_scale(self@),
    {
        match self {
            DataType::Decimal(precision, scale) => Some((*precision, *scale)),
            DataType::Decimal32(scale) => Some((9, *scale)),
            DataType::Decimal64(scale) => Some((18, *scale)),
            DataType::Decimal128(scale) => Some((38, *scale)),
            DataType::Decimal256(scale) => Some((76, *scale)),
            _ => None,
        }
    }

    /// Whether values of the type may be null.
    pub fn is_nullable(&self) -> (b: bool)
        ensures
            b == (self@ is Nullable),
    {
        match self {
            DataType::Nullable(_) => true,
            _ => false,
        }
    }
}

/// The view of a type.
pub open spec fn type_view(ty: DataType) -> DataTypeView
    decreases ty,
{
    match ty {
        DataType::Bool => DataTypeView::Bool,
        DataType::Int8 => DataTypeView::Int8,
        DataType::Int16 => DataTypeView::Int16,
        DataType::Int32 => DataTypeView::Int32,
        DataType::Int64 => DataTypeView::Int64,
        DataType::Int128 => DataTypeView::Int128,
        DataType::Int256 => DataTypeView::Int256,
        DataType::UInt8 => DataTypeView::UInt8,
        DataType::UInt16 => DataTypeView::UInt16,
        DataType::UInt32 => DataTypeView::UInt32,
        DataType::UInt64 => DataTypeView::UInt64,
        DataType::UInt128 => DataTypeView::UInt128,
        DataType::UInt256 => DataTypeView::UInt256,
        DataType::Float32 => DataTypeView::Float32,
        DataType::Float64 => DataTypeView::Float64,
        DataType::String => DataTypeView::String,
        DataType::FixedString(n) => DataTypeView::FixedString(n),
        DataType::Ipv4 => DataTypeView::Ipv4,
        DataType::Ipv6 => DataTypeView::Ipv6,
        DataType::Uuid => DataTypeView::Uuid,
        DataType::Date => DataTypeView::Date,
        DataType::Date32 => DataTypeView::Date32,
        DataType::DateTime(tz) => DataTypeView::DateTime(zone_view(tz)),
        DataType::DateTime64(p, tz) => DataTypeView::DateTime64(p, zone_view(tz)),
        DataType::Decimal(p, s) => DataTypeView::Decimal(p, s),
        DataType::Decimal32(s) => DataTypeView::Decimal32(s),
        DataType::Decimal64(s) => DataTypeView::Decimal64(s),
        DataType::Decimal128(s) => DataTypeView::Decimal128(s),
        DataType::Decimal256(s) => DataTypeView::Decimal256(s),
        DataType::Enum8(v) => DataTypeView::Enum8(elements_view(v@)),
        DataType::Enum16(v) => DataTypeView::Enum16(elements_view(v@)),
        DataType::LowCardinality(t) => DataTypeView::LowCardinality(Box::new(type_view(*t))),
        DataType::AggregateFunction(f, args) => DataTypeView::AggregateFunction(
            f@,
            types_view(args@),
        ),
        DataType::SimpleAggregateFunction(f, args) => DataTypeView::SimpleAggregateFunction(
            f@,
            types_view(args@),
        ),
        DataType::Json => DataTypeView::Json,
        DataType::Tuple(fields) => DataTypeView::Tuple(
            fields_view(fields@),
        ),
        DataType::Array(t) => DataTypeView::Array(Box::new(type_view(*t))),
        DataType::Mapping(k, v) => DataTypeView::Mapping(Box::new(type_view(*k)), Box::new(type_view(*v))),
        DataType::Nullable(t) => DataTypeView::Nullable(Box::new(type_view(*t))),
    }
}

impl View for DataType {
    type V = DataTypeView;

    open spec fn view(&self) -> DataTypeView {
        type_view(*self)
    }
}

impl core::str::FromStr for DataType {
    type Err = Error;

    fn from_str(s: &str) -> (r: Result<DataType>)
        ensures
            outcome(r) == parse_type(s@),
    {
        DataType::parse(s)
    }
}

impl core::str::FromStr for AggFunc {
    type Err = Error;

    fn from_str(name: &str) -> (r: Result<AggFunc>)
        ensures
            r matches Ok(f) && f@ == agg_func(name@),
    {
        Ok(AggFunc::parse(name))
    }
}

impl core::str::FromStr for Tz {
    type Err = Error;

    fn from_str(s: &str) -> (r: Result<Tz>)
        ensures
            outcome(r) == parse_timezone(s@),
    {
        Tz::parse(s)
    }
}

impl Clone for AggFunc {
    fn clone(&self) -> (r: Self)
        ensures
            r@ == self@,
    {
        match self {
            AggFunc::Any => AggFunc::Any,
            AggFunc::AnyLast => AggFunc::AnyLast,
            AggFunc::Min => AggFunc::Min,
            AggFunc::Max => AggFunc::Max,
            AggFunc::Sum => AggFunc::Sum,
            AggFunc::SumWithOverflow => AggFunc::SumWithOverflow,
            AggFunc::GroupBitAnd => AggFunc::GroupBitAnd,
            AggFunc::GroupBitOr => AggFunc::GroupBitOr,
            AggFunc::GroupBitXor => AggFunc::GroupBitXor,
            AggFunc::GroupArrayArray => AggFunc::GroupArrayArray,
            AggFunc::GroupUniqArrayArray => AggFunc::GroupUniqArrayArray,
            AggFunc::SumMap => AggFunc::SumMap,
            AggFunc::MinMap => AggFunc::MinMap,
            AggFunc::MaxMap => AggFunc::MaxMap,
            AggFunc::FuncName(name) => AggFunc::FuncName(name.clone()),
        }
    }
}

/// A copy of an optional time zone.
fn clone_zone(tz: &Option<Tz>) -> (r: Option<Tz>)
    ensures
        zone_view(r) == zone_view(*tz),
{
    match tz {
        Some(tz) => Some(tz.clone()),
        None => None,
    }
}

/// A copy of the elements of an enum.
fn clone_elements<T: EnumCode + Copy>(elements: &Vec<(String, T)>) -> (r: Vec<(String, T)>)
    ensures
        elements_view(r@) == elements_view(elements@),
{
    let mut out: Vec<(String, T)> = Vec::new();
    let mut i: usize = 0;
    while i < elements.len()
        invariant
            i <= elements@.len(),
            out@.len() == i,
            forall|k: int|
                0 <= k < i ==> (#[trigger] out@[k]).0@ == elements@[k].0@ && out@[k].1
                    == elements@[k].1,
        decreases elements@.len() - i,
    {
        let name: String = elements[i].0.clone();
        let code: T = elements[i].1;
        out.push((name, code));
        i = i + 1;
    }
    assert(elements_view(out@) =~= elements_view(elements@));
    out
}

/// A copy of a list of types.
fn clone_types(types: &Vec<DataType>) -> (r: Vec<DataType>)
    ensures
        types_view(r@) == types_view(types@),
    decreases types,
{
    let mut out: Vec<DataType> = Vec::new();
    let mut i: usize = 0;
    while i < types.len()
        invariant
            i <= types@.len(),
            out@.len() == i,
            forall|k: int| 0 <= k < i ==> (#[trigger] out@[k])@ == types@[k]@,
        decreases types@.len() - i,
    {
        let ty: DataType = types[i].clone();
        out.push(ty);
        i = i + 1;
    }
    assert(types_view(out@) =~= types_view(types@));
    out
}

/// A copy of the fields of a tuple.
fn clone_fields(fields: &Vec<(String, DataType)>) -> (r: Vec<(String, DataType)>)
    ensures
        fields_view(r@) == fields_view(fields@),
    decreases fields,
{
    let mut out: Vec<(String, DataType)> = Vec::new();
    let mut i: usize = 0;
    while i < fields.len()
        invariant
            i <= fields@.len(),
            out@.len() == i,
            forall|k: int|
                0 <= k < i ==> (#[trigger] out@[k]).0@ == fields@[k].0@ && out@[k].1@
                    == fields@[k].1@,
        decreases fields@.len() - i,
    {
        let name: String = fields[i].0.clone();
        let ty: DataType = fields[i].1.clone();
        out.push((name, ty));
        i = i + 1;
    }
    assert(fields_view(out@) =~= fields_view(fields@));
    out
}

impl Clone for DataType {
    fn clone(&self) -> (r: Self)
        ensures
            r@ == self@,
        decreases self,
    {
        match self {
            DataType::Bool => DataType::Bool,
            DataType::Int8 => DataType::Int8,
            DataType::Int16 => DataType::Int16,
            DataType::Int32 => DataType::Int32,
            DataType::Int64 => DataType::Int64,
            DataType::Int128 => DataType::Int128,
            DataType::Int256 => DataType::Int256,
            DataType::UInt8 => DataType::UInt8,
            DataType::UInt16 => DataType::UInt16,
            DataType::UInt32 => DataType::UInt32,
            DataType::UInt64 => DataType::UInt64,
            DataType::UInt128 => DataType::UInt128,
            DataType::UInt256 => DataType::UInt256,
            DataType::Float32 => DataType::Float32,
            DataType::Float64 => DataType::Float64,
            DataType::String => DataType::String,
            DataType::FixedString(n) => DataType::FixedString(*n),
            DataType::Ipv4 => DataType::Ipv4,
            DataType::Ipv6 => DataType::Ipv6,
            DataType::Uuid => DataType::Uuid,
            DataType::Date => DataType::Date,
            DataType::Date32 => DataType::Date32,
            DataType::DateTime(tz) => DataType::DateTime(clone_zone(tz)),
            DataType::DateTime64(p, tz) => DataType::DateTime64(*p, clone_zone(tz)),
            DataType::Decimal(p, s) => DataType::Decimal(*p, *s),
            DataType::Decimal32(s) => DataType::Decimal32(*s),
            DataType::Decimal64(s) => DataType::Decimal64(*s),
            DataType::Decimal128(s) => DataType::Decimal128(*s),
            DataType::Decimal256(s) => DataType::Decimal256(*s),
            DataType::Enum8(elements) => DataType::Enum8(clone_elements::<i8>(elements)),
            DataType::Enum16(elements) => DataType::Enum16(clone_elements::<i16>(elements)),
            DataType::LowCardinality(inner) => {
                let copy: DataType = (**inner).clone();
                DataType::LowCardinality(Box::new(copy))
            },
            DataType::AggregateFunction(f, types) => DataType::AggregateFunction(
                f.clone(),
                clone_types(types),
            ),
            DataType::SimpleAggregateFunction(f, types) => DataType::SimpleAggregateFunction(
                f.clone(),
                clone_types(types),
            ),
            DataType::Json => DataType::Json,
            DataType::Tuple(fields) => DataType::Tuple(clone_fields(fields)),
            DataType::Array(inner) => {
                let copy: DataType = (**inner).clone();
                DataType::Array(Box::new(copy))
            },
            DataType::Mapping(key, value) => {
                let key_copy: DataType = (**key).clone();
                let value_copy: DataType = (**value).clone();
                DataType::Mapping(Box::new(key_copy), Box::new(value_copy))
            },
            DataType::Nullable(inner) => {
                let copy: DataType = (**inner).clone();
                DataType::Nullable(Box::new(copy))
            },
        }
    }
}

} // verus!
