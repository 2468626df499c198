//! The description of a type: the text that the type is written as, and that
//! reads as the type again.
use vstd::prelude::*;

use crate::metadata::data_type::elements_view;
use crate::metadata::data_type::fields_view;
use crate::metadata::data_type::types_view;
use crate::metadata::data_type::AggFunc;
use crate::metadata::data_type::AggFuncView;
use crate::metadata::data_type::DataType;
use crate::metadata::data_type::DataTypeView;
use crate::metadata::data_type::EnumCode;
use crate::metadata::data_type::Tz;
use crate::text::int_text;
use crate::text::nat_text;
use crate::text::render_int;
use crate::text::render_nat;

verus! {

/// The texts joined by commas.
pub open spec fn join_fields(texts: Seq<Seq<char>>) -> Seq<char>
    decreases texts.len(),
{
    if texts.len() == 0 {
        Seq::empty()
    } else if texts.len() == 1 {
        texts[0]
    } else {
        join_fields(texts.drop_last()) + seq![','] + texts.last()
    }
}

/// The keyword of a type.
pub open spec fn type_keyword(ty: DataTypeView) -> Seq<char> {
    match ty {
        DataTypeView::Bool => "Bool"@,
        DataTypeView::Int8 => "Int8"@,
        DataTypeView::Int16 => "Int16"@,
        DataTypeView::Int32 => "Int32"@,
        DataTypeView::Int64 => "Int64"@,
        DataTypeView::Int128 => "Int128"@,
        DataTypeView::Int256 => "Int256"@,
        DataTypeView::UInt8 => "UInt8"@,
        DataTypeView::UInt16 => "UInt16"@,
        DataTypeView::UInt32 => "UInt32"@,
        DataTypeView::UInt64 => "UInt64"@,
        DataTypeView::UInt128 => "UInt128"@,
        DataTypeView::UInt256 => "UInt256"@,
        DataTypeView::Float32 => "Float32"@,
        DataTypeView::Float64 => "Float64"@,
        DataTypeView::String => "String"@,
        DataTypeView::FixedString(_) => "FixedString"@,
        DataTypeView::Ipv4 => "IPv4"@,
        DataTypeView::Ipv6 => "IPv6"@,
        DataTypeView::Uuid => "UUID"@,
        DataTypeView::Date => "Date"@,
        DataTypeView::Date32 => "Date32"@,
        DataTypeView::DateTime(_) => "DateTime"@,
        DataTypeView::DateTime64(_, _) => "DateTime64"@,
        DataTypeView::Decimal(_, _) => "Decimal"@,
        DataTypeView::Decimal32(_) => "Decimal32"@,
        DataTypeView::Decimal64(_) => "Decimal64"@,
        DataTypeView::Decimal128(_) => "Decimal128"@,
        DataTypeView::Decimal256(_) => "Decimal256"@,
        DataTypeView::Enum8(_) => "Enum8"@,
        DataTypeView::Enum16(_) => "Enum16"@,
        DataTypeView::LowCardinality(_) => "LowCardinality"@,
        DataTypeView::AggregateFunction(_, _) => "AggregateFunction"@,
        DataTypeView::SimpleAggregateFunction(_, _) => "SimpleAggregateFunction"@,
        DataTypeView::Json => "Json"@,
        DataTypeView::Tuple(_) => "Tuple"@,
        DataTypeView::Array(_) => "Array"@,
        DataTypeView::Mapping(_, _) => "Map"@,
        DataTypeView::Nullable(_) => "Nullable"@,
    }
}

/// The name of an aggregate function.
pub open spec fn func_text(f: AggFuncView) -> Seq<char> {
    match f {
        AggFuncView::Any => "any"@,
        AggFuncView::AnyLast => "anyLast"@,
        AggFuncView::Min => "min"@,
        AggFuncView::Max => "max"@,
        AggFuncView::Sum => "sum"@,
        AggFuncView::SumWithOverflow => "sumWithOverflow"@,
        AggFuncView::GroupBitAnd => "groupBitAnd"@,
        AggFuncView::GroupBitOr => "groupBitOr"@,
        AggFuncView::GroupBitXor => "groupBitXor"@,
        AggFuncView::GroupArrayArray => "groupArrayArray"@,
        AggFuncView::GroupUniqArrayArray => "groupUniqArrayArray"@,
        AggFuncView::SumMap => "sumMap"@,
        AggFuncView::MinMap => "minMap"@,
        AggFuncView::MaxMap => "maxMap"@,
        AggFuncView::FuncName(name) => name,
    }
}

/// A time zone between quotes.
pub open spec fn quoted(name: Seq<char>) -> Seq<char> {
    seq!['\''] + name + seq!['\'']
}

/// One element of an enum: `'name'=code`.
pub open spec fn element_text(element: (Seq<char>, int)) -> Seq<char> {
    quoted(element.0) + seq!['='] + int_text(element.1)
}

/// The elements of an enum, each as its text.
pub open spec fn element_texts(elements: Seq<(Seq<char>, int)>) -> Seq<Seq<char>> {
    Seq::new(elements.len(), |i: int| element_text(elements[i]))
}

/// A keyword with its argument list in brackets.
pub open spec fn call_text(keyword: Seq<char>, arguments: Seq<char>) -> Seq<char> {
    keyword + seq!['('] + arguments + seq![')']
}

/// The argument list of an aggregate function: the name of the function and
/// the types.  A function without name and types is written as one comma,
/// so that the list has a field, the empty name.
pub open spec fn agg_arguments(name: Seq<char>, types: Seq<Seq<char>>) -> Seq<char> {
    if name.len() == 0 && types.len() == 0 {
        seq![',']
    } else {
        join_fields(seq![name] + types)
    }
}

/// The description of a type: its keyword, and in brackets its arguments,
/// with commas and no blank between them.  The one blank that a description
/// adds parts the name of a tuple's field from the field's type.
pub open spec fn type_text(ty: DataTypeView) -> Seq<char>
    decreases ty,
{
    match ty {
        DataTypeView::Bool => "Bool"@,
        DataTypeView::Int8 => "Int8"@,
        DataTypeView::Int16 => "Int16"@,
        DataTypeView::Int32 => "Int32"@,
        DataTypeView::Int64 => "Int64"@,
        DataTypeView::Int128 => "Int128"@,
        DataTypeView::Int256 => "Int256"@,
        DataTypeView::UInt8 => "UInt8"@,
        DataTypeView::UInt16 => "UInt16"@,
        DataTypeView::UInt32 => "UInt32"@,
        DataTypeView::UInt64 => "UInt64"@,
        DataTypeView::UInt128 => "UInt128"@,
        DataTypeView::UInt256 => "UInt256"@,
        DataTypeView::Float32 => "Float32"@,
        DataTypeView::Float64 => "Float64"@,
        DataTypeView::String => "String"@,
        DataTypeView::FixedString(n) => call_text("FixedString"@, nat_text(n as nat)),
        DataTypeView::Ipv4 => "IPv4"@,
        DataTypeView::Ipv6 => "IPv6"@,
        DataTypeView::Uuid => "UUID"@,
        DataTypeView::Date => "Date"@,
        DataTypeView::Date32 => "Date32"@,
        DataTypeView::DateTime(None) => "DateTime"@,
        DataTypeView::DateTime(Some(tz)) => call_text("DateTime"@, quoted(tz)),
        DataTypeView::DateTime64(p, None) => call_text("DateTime64"@, nat_text(p as nat)),
        DataTypeView::DateTime64(p, Some(tz)) => call_text(
            "DateTime64"@,
            nat_text(p as nat) + seq![','] + quoted(tz),
        ),
        DataTypeView::Decimal(p, s) => call_text(
            "Decimal"@,
            nat_text(p as nat) + seq![','] + nat_text(s as nat),
        ),
        DataTypeView::Decimal32(s) => call_text("Decimal32"@, nat_text(s as nat)),
        DataTypeView::Decimal64(s) => call_text("Decimal64"@, nat_text(s as nat)),
        DataTypeView::Decimal128(s) => call_text("Decimal128"@, nat_text(s as nat)),
        DataTypeView::Decimal256(s) => call_text("Decimal256"@, nat_text(s as nat)),
        DataTypeView::Enum8(elements) => call_text("Enum8"@, join_fields(element_texts(elements))),
        DataTypeView::Enum16(elements) => call_text(
            "Enum16"@,
            join_fields(element_texts(elements)),
        ),
        DataTypeView::LowCardinality(inner) => call_text("LowCardinality"@, type_text(*inner)),
        DataTypeView::AggregateFunction(f, types) => call_text(
            "AggregateFunction"@,
            agg_arguments(func_text(f), type_texts(types)),
        ),
        DataTypeView::SimpleAggregateFunction(f, types) => call_text(
            "SimpleAggregateFunction"@,
            agg_arguments(func_text(f), type_texts(types)),
        ),
        DataTypeView::Json => "Json"@,
        DataTypeView::Tuple(fields) => call_text("Tuple"@, join_fields(field_texts(fields))),
        DataTypeView::Array(inner) => call_text("Array"@, type_text(*inner)),
        DataTypeView::Mapping(key, value) => call_text(
            "Map"@,
            type_text(*key) + seq![','] + type_text(*value),
        ),
        DataTypeView::Nullable(inner) => call_text("Nullable"@, type_text(*inner)),
    }
}

/// The descriptions of the types.
pub open spec fn type_texts(types: Seq<DataTypeView>) -> Seq<Seq<char>>
    decreases types,
{
    Seq::new(
        types.len(),
        |i: int|
            if 0 <= i < types.len() {
                type_text(types[i])
            } else {
                Seq::empty()
            },
    )
}

/// One field of a tuple: its type, after its name and a blank where it has a
/// name.
pub open spec fn field_text(name: Seq<char>, ty: Seq<char>) -> Seq<char> {
    if name.len() == 0 {
        ty
    } else {
        name + seq![' '] + ty
    }
}

/// The fields of a tuple, each as its text.
pub open spec fn field_texts(fields: Seq<(Seq<char>, DataTypeView)>) -> Seq<Seq<char>>
    decreases fields,
{
    Seq::new(
        fields.len(),
        |i: int|
            if 0 <= i < fields.len() {
                field_text(fields[i].0, type_text(fields[i].1))
            } else {
                Seq::empty()
            },
    )
}

impl AggFunc {
    /// The name of the function.
    pub fn name(&self) -> (name: &str)
        ensures
            name@ == func_text(self@),
    {
        match self {
            AggFunc::Any => "any",
            AggFunc::AnyLast => "anyLast",
            AggFunc::Min => "min",
            AggFunc::Max => "max",
            AggFunc::Sum => "sum",
            AggFunc::SumWithOverflow => "sumWithOverflow",
            AggFunc::GroupBitAnd => "groupBitAnd",
            AggFunc::GroupBitOr => "groupBitOr",
            AggFunc::GroupBitXor => "groupBitXor",
            AggFunc::GroupArrayArray => "groupArrayArray",
            AggFunc::GroupUniqArrayArray => "groupUniqArrayArray",
            AggFunc::SumMap => "sumMap",
            AggFunc::MinMap => "minMap",
            AggFunc::MaxMap => "maxMap",
            AggFunc::FuncName(name) => name.as_str(),
        }
    }
}

/// Appends `keyword(` to `out`.
fn open_call(out: &mut String, keyword: &str)
    ensures
        final(out)@ == old(out)@ + keyword@ + seq!['('],
{
    out.append(keyword);
    out.push('(');
}

/// Appends a name between quotes to `out`.
fn render_quoted(out: &mut String, name: &str)
    ensures
        final(out)@ == old(out)@ + quoted(name@),
{
    out.push('\'');
    out.append(name);
    out.push('\'');
    assert(out@ =~= old(out)@ + quoted(name@));
}

/// Appends `keyword(number)` to `out`.
fn render_numbered(out: &mut String, keyword: &str, n: u128)
    ensures
        final(out)@ == old(out)@ + call_text(keyword@, nat_text(n as nat)),
{
    open_call(out, keyword);
    render_nat(out, n);
    out.push(')');
    assert(out@ =~= old(out)@ + call_text(keyword@, nat_text(n as nat)));
}

/// Appends the elements of an enum, joined by commas, to `out`.
fn render_elements<T: EnumCode>(out: &mut String, elements: &Vec<(String, T)>)
    ensures
        final(out)@ == old(out)@ + join_fields(element_texts(elements_view(elements@))),
{
    let ghost texts = element_texts(elements_view(elements@));
    let mut i: usize = 0;
    assert(texts.take(0) == Seq::<Seq<char>>::empty());
    assert(old(out)@ + Seq::<char>::empty() == old(out)@);
    while i < elements.len()
        invariant
            i <= elements@.len(),
            texts == element_texts(elements_view(elements@)),
            out@ == old(out)@ + join_fields(texts.take(i as int)),
        decreases elements@.len() - i,
    {
        let ghost before = out@;
        if i > 0 {
            out.push(',');
        }
        render_quoted(out, elements[i].0.as_str());
        out.push('=');
        let bounds: (i128, i128) = T::bounds();
        let code: i128 = elements[i].1.to_code();
        render_int(out, code);
        proof {
            assert(texts.take(i + 1).drop_last() == texts.take(i as int));
            assert(texts.take(i + 1).last() == texts[i as int]);
            let text = element_text((elements@[i as int].0@, elements@[i as int].1.code()));
            assert(texts[i as int] == text);
            if i > 0 {
                assert(out@ =~= before + seq![','] + text);
                assert(out@ =~= old(out)@ + (join_fields(texts.take(i as int)) + seq![','] + text));
            } else {
                assert(out@ =~= before + text);
                assert(join_fields(texts.take(0)) == Seq::<char>::empty());
                assert(out@ =~= old(out)@ + text);
            }
        }
        i = i + 1;
    }
    assert(texts.take(i as int) == texts);
}

/// Appends `keyword(inner)`, with the description of a type for `inner`, to
/// `out`.
fn render_wrapped(out: &mut String, keyword: &str, inner: &DataType)
    ensures
        final(out)@ == old(out)@ + call_text(keyword@, type_text(inner@)),
    decreases inner, 1nat,
{
    open_call(out, keyword);
    inner.render(out);
    out.push(')');
    assert(out@ =~= old(out)@ + call_text(keyword@, type_text(inner@)));
}

/// Appends `DateTime(zone)` to `out`.
fn render_datetime(out: &mut String, tz: &Tz)
    ensures
        final(out)@ == old(out)@ + call_text("DateTime"@, quoted(tz@)),
{
    open_call(out, "DateTime");
    render_quoted(out, tz.name());
    out.push(')');
    assert(out@ =~= old(out)@ + call_text("DateTime"@, quoted(tz@)));
}

/// Appends `DateTime64(precision,zone)` to `out`.
fn render_datetime64(out: &mut String, p: u8, tz: &Tz)
    ensures
        final(out)@ == old(out)@ + call_text(
            "DateTime64"@,
            nat_text(p as nat) + seq![','] + quoted(tz@),
        ),
{
    open_call(out, "DateTime64");
    render_nat(out, p as u128);
    out.push(',');
    render_quoted(out, tz.name());
    out.push(')');
    assert(out@ =~= old(out)@ + call_text(
        "DateTime64"@,
        nat_text(p as nat) + seq![','] + quoted(tz@),
    ));
}

/// Appends `Decimal(precision,scale)` to `out`.
fn render_decimal(out: &mut String, p: u8, s: u8)
    ensures
        final(out)@ == old(out)@ + call_text(
            "Decimal"@,
            nat_text(p as nat) + seq![','] + nat_text(s as nat),
        ),
{
    open_call(out, "Decimal");
    render_nat(out, p as u128);
    out.push(',');
    render_nat(out, s as u128);
    out.push(')');
    assert(out@ =~= old(out)@ + call_text(
        "Decimal"@,
        nat_text(p as nat) + seq![','] + nat_text(s as nat),
    ));
}

/// Appends the description of an enum to `out`.
fn render_enum<T: EnumCode>(out: &mut String, keyword: &str, elements: &Vec<(String, T)>)
    ensures
        final(out)@ == old(out)@ + call_text(
            keyword@,
            join_fields(element_texts(elements_view(elements@))),
        ),
{
    open_call(out, keyword);
    render_elements::<T>(out, elements);
    out.push(')');
    assert(out@ =~= old(out)@ + call_text(
        keyword@,
        join_fields(element_texts(elements_view(elements@))),
    ));
}

/// Appends the description of an aggregate function to `out`.
fn render_aggregate(out: &mut String, keyword: &str, f: &AggFunc, types: &Vec<DataType>)
    ensures
        final(out)@ == old(out)@ + call_text(
            keyword@,
            agg_arguments(func_text(f@), type_texts(types_view(types@))),
        ),
    decreases types, 1nat,
{
    open_call(out, keyword);
    render_agg_arguments(out, f, types);
    out.push(')');
    assert(out@ =~= old(out)@ + call_text(
        keyword@,
        agg_arguments(func_text(f@), type_texts(types_view(types@))),
    ));
}

/// Appends the description of a tuple to `out`.
fn render_tuple(out: &mut String, fields: &Vec<(String, DataType)>)
    ensures
        final(out)@ == old(out)@ + call_text(
            "Tuple"@,
            join_fields(field_texts(fields_view(fields@))),
        ),
    decreases fields, 1nat,
{
    open_call(out, "Tuple");
    render_fields(out, fields);
    out.push(')');
    assert(out@ =~= old(out)@ + call_text(
        "Tuple"@,
        join_fields(field_texts(fields_view(fields@))),
    ));
}

impl DataType {
    /// The keyword of the type.
    pub fn keyword(&self) -> (keyword: &'static str)
        ensures
            keyword@ == type_keyword(self@),
    {
        match self {
            DataType::Bool => "Bool",
            DataType::Int8 => "Int8",
            DataType::Int16 => "Int16",
            DataType::Int32 => "Int32",
            DataType::Int64 => "Int64",
            DataType::Int128 => "Int128",
            DataType::Int256 => "Int256",
            DataType::UInt8 => "UInt8",
            DataType::UInt16 => "UInt16",
            DataType::UInt32 => "UInt32",
            DataType::UInt64 => "UInt64",
            DataType::UInt128 => "UInt128",
            DataType::UInt256 => "UInt256",
            DataType::Float32 => "Float32",
            DataType::Float64 => "Float64",
            DataType::String => "String",
            DataType::FixedString(_) => "FixedString",
            DataType::Ipv4 => "IPv4",
            DataType::Ipv6 => "IPv6",
            DataType::Uuid => "UUID",
            DataType::Date => "Date",
            DataType::Date32 => "Date32",
            DataType::DateTime(_) => "DateTime",
            DataType::DateTime64(_, _) => "DateTime64",
            DataType::Decimal(_, _) => "Decimal",
            DataType::Decimal32(_) => "Decimal32",
            DataType::Decimal64(_) => "Decimal64",
            DataType::Decimal128(_) => "Decimal128",
            DataType::Decimal256(_) => "Decimal256",
            DataType::Enum8(_) => "Enum8",
            DataType::Enum16(_) => "Enum16",
            DataType::LowCardinality(_) => "LowCardinality",
            DataType::AggregateFunction(_, _) => "AggregateFunction",
            DataType::SimpleAggregateFunction(_, _) => "SimpleAggregateFunction",
            DataType::Json => "Json",
            DataType::Tuple(_) => "Tuple",
            DataType::Array(_) => "Array",
            DataType::Mapping(_, _) => "Map",
            DataType::Nullable(_) => "Nullable",
        }
    }

    /// Appends the description of the type to `out`.
    #[verifier::rlimit(40)]
    pub fn render(&self, out: &mut String)
        ensures
            final(out)@ == old(out)@ + type_text(self@),
        decreases self, 0nat,
    {
        match self {
            DataType::Bool => out.append("Bool"),
            DataType::Int8 => out.append("Int8"),
            DataType::Int16 => out.append("Int16"),
            DataType::Int32 => out.append("Int32"),
            DataType::Int64 => out.append("Int64"),
            DataType::Int128 => out.append("Int128"),
            DataType::Int256 => out.append("Int256"),
            DataType::UInt8 => out.append("UInt8"),
            DataType::UInt16 => out.append("UInt16"),
            DataType::UInt32 => out.append("UInt32"),
            DataType::UInt64 => out.append("UInt64"),
            DataType::UInt128 => out.append("UInt128"),
            DataType::UInt256 => out.append("UInt256"),
            DataType::Float32 => out.append("Float32"),
            DataType::Float64 => out.append("Float64"),
            DataType::String => out.append("String"),
            DataType::FixedString(n) => render_numbered(out, "FixedString", *n as u128),
            DataType::Ipv4 => out.append("IPv4"),
            DataType::Ipv6 => out.append("IPv6"),
            DataType::Uuid => out.append("UUID"),
            DataType::Date => out.append("Date"),
            DataType::Date32 => out.append("Date32"),
            DataType::DateTime(None) => out.append("DateTime"),
            DataType::DateTime(Some(tz)) => render_datetime(out, tz),
            DataType::DateTime64(p, None) => render_numbered(out, "DateTime64", *p as u128),
            DataType::DateTime64(p, Some(tz)) => render_datetime64(out, *p, tz),
            DataType::Decimal(p, s) => render_decimal(out, *p, *s),
            DataType::Decimal32(s) => render_numbered(out, "Decimal32", *s as u128),
            DataType::Decimal64(s) => render_numbered(out, "Decimal64", *s as u128),
            DataType::Decimal128(s) => render_numbered(out, "Decimal128", *s as u128),
            DataType::Decimal256(s) => render_numbered(out, "Decimal256", *s as u128),
            DataType::Enum8(elements) => render_enum::<i8>(out, "Enum8", elements),
            DataType::Enum16(elements) => render_enum::<i16>(out, "Enum16", elements),
            DataType::LowCardinality(inner) => render_wrapped(out, "LowCardinality", inner),
            DataType::AggregateFunction(f, types) => render_aggregate(
                out,
                "AggregateFunction",
                f,
                types,
            ),
            DataType::SimpleAggregateFunction(f, types) => render_aggregate(
                out,
                "SimpleAggregateFunction",
                f,
                types,
            ),
            DataType::Json => out.append("Json"),
            DataType::Tuple(fields) => render_tuple(out, fields),
            DataType::Array(inner) => render_wrapped(out, "Array", inner),
            DataType::Mapping(key, value) => {
                open_call(out, "Map");
                key.render(out);
                out.push(',');
                value.render(out);
                out.push(')');
                assert(out@ =~= old(out)@ + call_text(
                    "Map"@,
                    type_text(key@) + seq![','] + type_text(value@),
                ));
            },
            DataType::Nullable(inner) => render_wrapped(out, "Nullable", inner),
        }
    }

    /// The description of the type.
    pub fn format(&self) -> (text: String)
        ensures
            text@ == type_text(self@),
    {
        let mut text: String = String::new();
        self.render(&mut text);
        assert(Seq::<char>::empty() + type_text(self@) == type_text(self@));
        text
    }
}

/// Appends the fields of a tuple, joined by commas, to `out`.
fn render_fields(out: &mut String, fields: &Vec<(String, DataType)>)
    ensures
        final(out)@ == old(out)@ + join_fields(field_texts(fields_view(fields@))),
    decreases fields, 0nat,
{
    let ghost texts = field_texts(fields_view(fields@));
    let mut i: usize = 0;
    assert(texts.take(0) == Seq::<Seq<char>>::empty());
    assert(old(out)@ + Seq::<char>::empty() == old(out)@);
    while i < fields.len()
        invariant
            i <= fields@.len(),
            texts == field_texts(fields_view(fields@)),
            out@ == old(out)@ + join_fields(texts.take(i as int)),
        decreases fields@.len() - i,
    {
        let ghost before = out@;
        if i > 0 {
            out.push(',');
        }
        let name: &str = fields[i].0.as_str();
        if name.unicode_len() > 0 {
            out.append(name);
            out.push(' ');
        }
        fields[i].1.render(out);
        proof {
            assert(texts.take(i + 1).drop_last() == texts.take(i as int));
            assert(texts.take(i + 1).last() == texts[i as int]);
            let text = field_text(fields@[i as int].0@, type_text(fields@[i as int].1@));
            assert(texts[i as int] == text);
            if i > 0 {
                assert(out@ =~= before + seq![','] + text);
                assert(out@ =~= old(out)@ + (join_fields(texts.take(i as int)) + seq![','] + text));
            } else {
                assert(out@ =~= before + text);
                assert(join_fields(texts.take(0)) == Seq::<char>::empty());
                assert(out@ =~= old(out)@ + text);
            }
        }
        i = i + 1;
    }
    assert(texts.take(i as int) == texts);
}

/// Appends the argument list of an aggregate function to `out`.
fn render_agg_arguments(out: &mut String, f: &AggFunc, types: &Vec<DataType>)
    ensures
        final(out)@ == old(out)@ + agg_arguments(func_text(f@), type_texts(types_view(types@))),
    decreases types, 0nat,
{
    let name: &str = f.name();
    let ghost texts = seq![name@] + type_texts(types_view(types@));
    if name.unicode_len() == 0 && types.len() == 0 {
        out.push(',');
        assert(out@ =~= old(out)@ + seq![',']);
        return ;
    }
    out.append(name);
    let mut i: usize = 0;
    assert(texts.take(1) == seq![name@]);
    while i < types.len()
        invariant
            i <= types@.len(),
            texts == seq![name@] + type_texts(types_view(types@)),
            out@ == old(out)@ + join_fields(texts.take(i + 1)),
        decreases types@.len() - i,
    {
        let ghost before = out@;
        out.push(',');
        types[i].render(out);
        proof {
            assert(texts.take(i + 2).drop_last() == texts.take(i + 1));
            assert(texts.take(i + 2).last() == texts[i + 1]);
            let text = type_text(types@[i as int]@);
            assert(texts[i + 1] == text);
            assert(out@ =~= before + seq![','] + text);
            assert(out@ =~= old(out)@ + (join_fields(texts.take(i + 1)) + seq![','] + text));
        }
        i = i + 1;
    }
    assert(texts.take(i + 1) == texts);
}

} // verus!
