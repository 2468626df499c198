//! Keywords, letter by letter.
use vstd::prelude::*;

use crate::metadata::nesting::is_plain_char;
use crate::text::is_whitespace;

verus! {

/// A letter or a digit of the alphabet that the keywords are written in.
pub open spec fn is_word_char(c: char) -> bool {
    let n = c as u32;
    (0x30 <= n <= 0x39) || (0x41 <= n <= 0x5a) || (0x61 <= n <= 0x7a)
}

/// A text of letters and digits, and at least one.
pub open spec fn is_word(s: Seq<char>) -> bool {
    &&& s.len() > 0
    &&& forall|i: int| 0 <= i < s.len() ==> is_word_char(#[trigger] s[i])
}

/// A letter or digit is no white space, no bracket, no comma, no quote and
/// no sign.
pub proof fn lemma_word_char(c: char)
    requires
        is_word_char(c),
    ensures
        !is_whitespace(c),
        is_plain_char(c),
        c != '\'',
        c != '=',
        c != ' ',
{
}

/// A short text of letters and digits is a word.
proof fn lemma_word_of_letters(s: Seq<char>)
    requires
        0 < s.len() <= 23,
        forall|i: int| 0 <= i < 23 && i < s.len() ==> is_word_char(#[trigger] s[i]),
    ensures
        is_word(s),
{
}

/// The keywords of the types without arguments.
pub proof fn lemma_scalar_keywords()
    ensures
        is_word("Bool"@),
        "Bool"@.len() == 4,
        "Bool"@[0] == 'B',
        "Bool"@[1] == 'o',
        "Bool"@[2] == 'o',
        "Bool"@[3] == 'l',
        is_word("Int8"@),
        "Int8"@.len() == 4,
        "Int8"@[0] == 'I',
        "Int8"@[1] == 'n',
        "Int8"@[2] == 't',
        "Int8"@[3] == '8',
        is_word("Int16"@),
        "Int16"@.len() == 5,
        "Int16"@[0] == 'I',
        "Int16"@[1] == 'n',
        "Int16"@[2] == 't',
        "Int16"@[3] == '1',
        "Int16"@[4] == '6',
        is_word("Int32"@),
        "Int32"@.len() == 5,
        "Int32"@[0] == 'I',
        "Int32"@[1] == 'n',
        "Int32"@[2] == 't',
        "Int32"@[3] == '3',
        "Int32"@[4] == '2',
        is_word("Int64"@),
        "Int64"@.len() == 5,
        "Int64"@[0] == 'I',
        "Int64"@[1] == 'n',
        "Int64"@[2] == 't',
        "Int64"@[3] == '6',
        "Int64"@[4] == '4',
        is_word("Int128"@),
        "Int128"@.len() == 6,
        "Int128"@[0] == 'I',
        "Int128"@[1] == 'n',
        "Int128"@[2] == 't',
        "Int128"@[3] == '1',
        "Int128"@[4] == '2',
        "Int128"@[5] == '8',
        is_word("Int256"@),
        "Int256"@.len() == 6,
        "Int256"@[0] == 'I',
        "Int256"@[1] == 'n',
        "Int256"@[2] == 't',
        "Int256"@[3] == '2',
        "Int256"@[4] == '5',
        "Int256"@[5] == '6',
        is_word("UInt8"@),
        "UInt8"@.len() == 5,
        "UInt8"@[0] == 'U',
        "UInt8"@[1] == 'I',
        "UInt8"@[2] == 'n',
        "UInt8"@[3] == 't',
        "UInt8"@[4] == '8',
        is_word("UInt16"@),
        "UInt16"@.len() == 6,
        "UInt16"@[0] == 'U',
        "UInt16"@[1] == 'I',
        "UInt16"@[2] == 'n',
        "UInt16"@[3] == 't',
        "UInt16"@[4] == '1',
        "UInt16"@[5] == '6',
        is_word("UInt32"@),
        "UInt32"@.len() == 6,
        "UInt32"@[0] == 'U',
        "UInt32"@[1] == 'I',
        "UInt32"@[2] == 'n',
        "UInt32"@[3] == 't',
        "UInt32"@[4] == '3',
        "UInt32"@[5] == '2',
        is_word("UInt64"@),
        "UInt64"@.len() == 6,
        "UInt64"@[0] == 'U',
        "UInt64"@[1] == 'I',
        "UInt64"@[2] == 'n',
        "UInt64"@[3] == 't',
        "UInt64"@[4] == '6',
        "UInt64"@[5] == '4',
        is_word("UInt128"@),
        "UInt128"@.len() == 7,
        "UInt128"@[0] == 'U',
        "UInt128"@[1] == 'I',
        "UInt128"@[2] == 'n',
        "UInt128"@[3] == 't',
        "UInt128"@[4] == '1',
        "UInt128"@[5] == '2',
        "UInt128"@[6] == '8',
        is_word("UInt256"@),
        "UInt256"@.len() == 7,
        "UInt256"@[0] == 'U',
        "UInt256"@[1] == 'I',
        "UInt256"@[2] == 'n',
        "UInt256"@[3] == 't',
        "UInt256"@[4] == '2',
        "UInt256"@[5] == '5',
        "UInt256"@[6] == '6',
        is_word("Float32"@),
        "Float32"@.len() == 7,
        "Float32"@[0] == 'F',
        "Float32"@[1] == 'l',
        "Float32"@[2] == 'o',
        "Float32"@[3] == 'a',
        "Float32"@[4] == 't',
        "Float32"@[5] == '3',
        "Float32"@[6] == '2',
        is_word("Float64"@),
        "Float64"@.len() == 7,
        "Float64"@[0] == 'F',
        "Float64"@[1] == 'l',
        "Float64"@[2] == 'o',
        "Float64"@[3] == 'a',
        "Float64"@[4] == 't',
        "Float64"@[5] == '6',
        "Float64"@[6] == '4',
        is_word("String"@),
        "String"@.len() == 6,
        "String"@[0] == 'S',
        "String"@[1] == 't',
        "String"@[2] == 'r',
        "String"@[3] == 'i',
        "String"@[4] == 'n',
        "String"@[5] == 'g',
        is_word("IPv4"@),
        "IPv4"@.len() == 4,
        "IPv4"@[0] == 'I',
        "IPv4"@[1] == 'P',
        "IPv4"@[2] == 'v',
        "IPv4"@[3] == '4',
        is_word("IPv6"@),
        "IPv6"@.len() == 4,
        "IPv6"@[0] == 'I',
        "IPv6"@[1] == 'P',
        "IPv6"@[2] == 'v',
        "IPv6"@[3] == '6',
        is_word("UUID"@),
        "UUID"@.len() == 4,
        "UUID"@[0] == 'U',
        "UUID"@[1] == 'U',
        "UUID"@[2] == 'I',
        "UUID"@[3] == 'D',
        is_word("Date"@),
        "Date"@.len() == 4,
        "Date"@[0] == 'D',
        "Date"@[1] == 'a',
        "Date"@[2] == 't',
        "Date"@[3] == 'e',
        is_word("Date32"@),
        "Date32"@.len() == 6,
        "Date32"@[0] == 'D',
        "Date32"@[1] == 'a',
        "Date32"@[2] == 't',
        "Date32"@[3] == 'e',
        "Date32"@[4] == '3',
        "Date32"@[5] == '2',
        is_word("DateTime"@),
        "DateTime"@.len() == 8,
        "DateTime"@[0] == 'D',
        "DateTime"@[1] == 'a',
        "DateTime"@[2] == 't',
        "DateTime"@[3] == 'e',
        "DateTime"@[4] == 'T',
        "DateTime"@[5] == 'i',
        "DateTime"@[6] == 'm',
        "DateTime"@[7] == 'e',
        is_word("Json"@),
        "Json"@.len() == 4,
        "Json"@[0] == 'J',
        "Json"@[1] == 's',
        "Json"@[2] == 'o',
        "Json"@[3] == 'n',
{
    reveal_strlit("Bool");
    lemma_word_of_letters("Bool"@);
    reveal_strlit("Int8");
    lemma_word_of_letters("Int8"@);
    reveal_strlit("Int16");
    lemma_word_of_letters("Int16"@);
    reveal_strlit("Int32");
    lemma_word_of_letters("Int32"@);
    reveal_strlit("Int64");
    lemma_word_of_letters("Int64"@);
    reveal_strlit("Int128");
    lemma_word_of_letters("Int128"@);
    reveal_strlit("Int256");
    lemma_word_of_letters("Int256"@);
    reveal_strlit("UInt8");
    lemma_word_of_letters("UInt8"@);
    reveal_strlit("UInt16");
    lemma_word_of_letters("UInt16"@);
    reveal_strlit("UInt32");
    lemma_word_of_letters("UInt32"@);
    reveal_strlit("UInt64");
    lemma_word_of_letters("UInt64"@);
    reveal_strlit("UInt128");
    lemma_word_of_letters("UInt128"@);
    reveal_strlit("UInt256");
    lemma_word_of_letters("UInt256"@);
    reveal_strlit("Float32");
    lemma_word_of_letters("Float32"@);
    reveal_strlit("Float64");
    lemma_word_of_letters("Float64"@);
    reveal_strlit("String");
    lemma_word_of_letters("String"@);
    reveal_strlit("IPv4");
    lemma_word_of_letters("IPv4"@);
    reveal_strlit("IPv6");
    lemma_word_of_letters("IPv6"@);
    reveal_strlit("UUID");
    lemma_word_of_letters("UUID"@);
    reveal_strlit("Date");
    lemma_word_of_letters("Date"@);
    reveal_strlit("Date32");
    lemma_word_of_letters("Date32"@);
    reveal_strlit("DateTime");
    lemma_word_of_letters("DateTime"@);
    reveal_strlit("Json");
    lemma_word_of_letters("Json"@);
}

/// The keywords of the types with arguments.
pub proof fn lemma_call_keywords()
    ensures
        is_word("FixedString"@),
        "FixedString"@.len() == 11,
        "FixedString"@[0] == 'F',
        "FixedString"@[1] == 'i',
        "FixedString"@[2] == 'x',
        "FixedString"@[3] == 'e',
        "FixedString"@[4] == 'd',
        "FixedString"@[5] == 'S',
        "FixedString"@[6] == 't',
        "FixedString"@[7] == 'r',
        "FixedString"@[8] == 'i',
        "FixedString"@[9] == 'n',
        "FixedString"@[10] == 'g',
        is_word("Decimal"@),
        "Decimal"@.len() == 7,
        "Decimal"@[0] == 'D',
        "Decimal"@[1] == 'e',
        "Decimal"@[2] == 'c',
        "Decimal"@[3] == 'i',
        "Decimal"@[4] == 'm',
        "Decimal"@[5] == 'a',
        "Decimal"@[6] == 'l',
        is_word("Decimal32"@),
        "Decimal32"@.len() == 9,
        "Decimal32"@[0] == 'D',
        "Decimal32"@[1] == 'e',
        "Decimal32"@[2] == 'c',
        "Decimal32"@[3] == 'i',
        "Decimal32"@[4] == 'm',
        "Decimal32"@[5] == 'a',
        "Decimal32"@[6] == 'l',
        "Decimal32"@[7] == '3',
        "Decimal32"@[8] == '2',
        is_word("Decimal64"@),
        "Decimal64"@.len() == 9,
        "Decimal64"@[0] == 'D',
        "Decimal64"@[1] == 'e',
        "Decimal64"@[2] == 'c',
        "Decimal64"@[3] == 'i',
        "Decimal64"@[4] == 'm',
        "Decimal64"@[5] == 'a',
        "Decimal64"@[6] == 'l',
        "Decimal64"@[7] == '6',
        "Decimal64"@[8] == '4',
        is_word("Decimal128"@),
        "Decimal128"@.len() == 10,
        "Decimal128"@[0] == 'D',
        "Decimal128"@[1] == 'e',
        "Decimal128"@[2] == 'c',
        "Decimal128"@[3] == 'i',
        "Decimal128"@[4] == 'm',
        "Decimal128"@[5] == 'a',
        "Decimal128"@[6] == 'l',
        "Decimal128"@[7] == '1',
        "Decimal128"@[8] == '2',
        "Decimal128"@[9] == '8',
        is_word("Decimal256"@),
        "Decimal256"@.len() == 10,
        "Decimal256"@[0] == 'D',
        "Decimal256"@[1] == 'e',
        "Decimal256"@[2] == 'c',
        "Decimal256"@[3] == 'i',
        "Decimal256"@[4] == 'm',
        "Decimal256"@[5] == 'a',
        "Decimal256"@[6] == 'l',
        "Decimal256"@[7] == '2',
        "Decimal256"@[8] == '5',
        "Decimal256"@[9] == '6',
        is_word("DateTime"@),
        "DateTime"@.len() == 8,
        "DateTime"@[0] == 'D',
        "DateTime"@[1] == 'a',
        "DateTime"@[2] == 't',
        "DateTime"@[3] == 'e',
        "DateTime"@[4] == 'T',
        "DateTime"@[5] == 'i',
        "DateTime"@[6] == 'm',
        "DateTime"@[7] == 'e',
        is_word("DateTime64"@),
        "DateTime64"@.len() == 10,
        "DateTime64"@[0] == 'D',
        "DateTime64"@[1] == 'a',
        "DateTime64"@[2] == 't',
        "DateTime64"@[3] == 'e',
        "DateTime64"@[4] == 'T',
        "DateTime64"@[5] == 'i',
        "DateTime64"@[6] == 'm',
        "DateTime64"@[7] == 'e',
        "DateTime64"@[8] == '6',
        "DateTime64"@[9] == '4',
        is_word("Nullable"@),
        "Nullable"@.len() == 8,
        "Nullable"@[0] == 'N',
        "Nullable"@[1] == 'u',
        "Nullable"@[2] == 'l',
        "Nullable"@[3] == 'l',
        "Nullable"@[4] == 'a',
        "Nullable"@[5] == 'b',
        "Nullable"@[6] == 'l',
        "Nullable"@[7] == 'e',
        is_word("Array"@),
        "Array"@.len() == 5,
        "Array"@[0] == 'A',
        "Array"@[1] == 'r',
        "Array"@[2] == 'r',
        "Array"@[3] == 'a',
        "Array"@[4] == 'y',
        is_word("LowCardinality"@),
        "LowCardinality"@.len() == 14,
        "LowCardinality"@[0] == 'L',
        "LowCardinality"@[1] == 'o',
        "LowCardinality"@[2] == 'w',
        "LowCardinality"@[3] == 'C',
        "LowCardinality"@[4] == 'a',
        "LowCardinality"@[5] == 'r',
        "LowCardinality"@[6] == 'd',
        "LowCardinality"@[7] == 'i',
        "LowCardinality"@[8] == 'n',
        "LowCardinality"@[9] == 'a',
        "LowCardinality"@[10] == 'l',
        "LowCardinality"@[11] == 'i',
        "LowCardinality"@[12] == 't',
        "LowCardinality"@[13] == 'y',
        is_word("Map"@),
        "Map"@.len() == 3,
        "Map"@[0] == 'M',
        "Map"@[1] == 'a',
        "Map"@[2] == 'p',
        is_word("Tuple"@),
        "Tuple"@.len() == 5,
        "Tuple"@[0] == 'T',
        "Tuple"@[1] == 'u',
        "Tuple"@[2] == 'p',
        "Tuple"@[3] == 'l',
        "Tuple"@[4] == 'e',
        is_word("Enum8"@),
        "Enum8"@.len() == 5,
        "Enum8"@[0] == 'E',
        "Enum8"@[1] == 'n',
        "Enum8"@[2] == 'u',
        "Enum8"@[3] == 'm',
        "Enum8"@[4] == '8',
        is_word("Enum16"@),
        "Enum16"@.len() == 6,
        "Enum16"@[0] == 'E',
        "Enum16"@[1] == 'n',
        "Enum16"@[2] == 'u',
        "Enum16"@[3] == 'm',
        "Enum16"@[4] == '1',
        "Enum16"@[5] == '6',
        is_word("AggregateFunction"@),
        "AggregateFunction"@.len() == 17,
        "AggregateFunction"@[0] == 'A',
        "AggregateFunction"@[1] == 'g',
        "AggregateFunction"@[2] == 'g',
        "AggregateFunction"@[3] == 'r',
        "AggregateFunction"@[4] == 'e',
        "AggregateFunction"@[5] == 'g',
        "AggregateFunction"@[6] == 'a',
        "AggregateFunction"@[7] == 't',
        "AggregateFunction"@[8] == 'e',
        "AggregateFunction"@[9] == 'F',
        "AggregateFunction"@[10] == 'u',
        "AggregateFunction"@[11] == 'n',
        "AggregateFunction"@[12] == 'c',
        "AggregateFunction"@[13] == 't',
        "AggregateFunction"@[14] == 'i',
        "AggregateFunction"@[15] == 'o',
        "AggregateFunction"@[16] == 'n',
        is_word("SimpleAggregateFunction"@),
        "SimpleAggregateFunction"@.len() == 23,
        "SimpleAggregateFunction"@[0] == 'S',
        "SimpleAggregateFunction"@[1] == 'i',
        "SimpleAggregateFunction"@[2] == 'm',
        "SimpleAggregateFunction"@[3] == 'p',
        "SimpleAggregateFunction"@[4] == 'l',
        "SimpleAggregateFunction"@[5] == 'e',
        "SimpleAggregateFunction"@[6] == 'A',
        "SimpleAggregateFunction"@[7] == 'g',
        "SimpleAggregateFunction"@[8] == 'g',
        "SimpleAggregateFunction"@[9] == 'r',
        "SimpleAggregateFunction"@[10] == 'e',
        "SimpleAggregateFunction"@[11] == 'g',
        "SimpleAggregateFunction"@[12] == 'a',
        "SimpleAggregateFunction"@[13] == 't',
        "SimpleAggregateFunction"@[14] == 'e',
        "SimpleAggregateFunction"@[15] == 'F',
        "SimpleAggregateFunction"@[16] == 'u',
        "SimpleAggregateFunction"@[17] == 'n',
        "SimpleAggregateFunction"@[18] == 'c',
        "SimpleAggregateFunction"@[19] == 't',
        "SimpleAggregateFunction"@[20] == 'i',
        "SimpleAggregateFunction"@[21] == 'o',
        "SimpleAggregateFunction"@[22] == 'n',
{
    reveal_strlit("FixedString");
    lemma_word_of_letters("FixedString"@);
    reveal_strlit("Decimal");
    lemma_word_of_letters("Decimal"@);
    reveal_strlit("Decimal32");
    lemma_word_of_letters("Decimal32"@);
    reveal_strlit("Decimal64");
    lemma_word_of_letters("Decimal64"@);
    reveal_strlit("Decimal128");
    lemma_word_of_letters("Decimal128"@);
    reveal_strlit("Decimal256");
    lemma_word_of_letters("Decimal256"@);
    reveal_strlit("DateTime");
    lemma_word_of_letters("DateTime"@);
    reveal_strlit("DateTime64");
    lemma_word_of_letters("DateTime64"@);
    reveal_strlit("Nullable");
    lemma_word_of_letters("Nullable"@);
    reveal_strlit("Array");
    lemma_word_of_letters("Array"@);
    reveal_strlit("LowCardinality");
    lemma_word_of_letters("LowCardinality"@);
    reveal_strlit("Map");
    lemma_word_of_letters("Map"@);
    reveal_strlit("Tuple");
    lemma_word_of_letters("Tuple"@);
    reveal_strlit("Enum8");
    lemma_word_of_letters("Enum8"@);
    reveal_strlit("Enum16");
    lemma_word_of_letters("Enum16"@);
    reveal_strlit("AggregateFunction");
    lemma_word_of_letters("AggregateFunction"@);
    reveal_strlit("SimpleAggregateFunction");
    lemma_word_of_letters("SimpleAggregateFunction"@);
}

/// The names of the aggregate functions.
pub proof fn lemma_function_keywords()
    ensures
        is_word("any"@),
        "any"@.len() == 3,
        "any"@[0] == 'a',
        "any"@[1] == 'n',
        "any"@[2] == 'y',
        is_word("anyLast"@),
        "anyLast"@.len() == 7,
        "anyLast"@[0] == 'a',
        "anyLast"@[1] == 'n',
        "anyLast"@[2] == 'y',
        "anyLast"@[3] == 'L',
        "anyLast"@[4] == 'a',
        "anyLast"@[5] == 's',
        "anyLast"@[6] == 't',
        is_word("min"@),
        "min"@.len() == 3,
        "min"@[0] == 'm',
        "min"@[1] == 'i',
        "min"@[2] == 'n',
        is_word("max"@),
        "max"@.len() == 3,
        "max"@[0] == 'm',
        "max"@[1] == 'a',
        "max"@[2] == 'x',
        is_word("sum"@),
        "sum"@.len() == 3,
        "sum"@[0] == 's',
        "sum"@[1] == 'u',
        "sum"@[2] == 'm',
        is_word("sumWithOverflow"@),
        "sumWithOverflow"@.len() == 15,
        "sumWithOverflow"@[0] == 's',
        "sumWithOverflow"@[1] == 'u',
        "sumWithOverflow"@[2] == 'm',
        "sumWithOverflow"@[3] == 'W',
        "sumWithOverflow"@[4] == 'i',
        "sumWithOverflow"@[5] == 't',
        "sumWithOverflow"@[6] == 'h',
        "sumWithOverflow"@[7] == 'O',
        "sumWithOverflow"@[8] == 'v',
        "sumWithOverflow"@[9] == 'e',
        "sumWithOverflow"@[10] == 'r',
        "sumWithOverflow"@[11] == 'f',
        "sumWithOverflow"@[12] == 'l',
        "sumWithOverflow"@[13] == 'o',
        "sumWithOverflow"@[14] == 'w',
        is_word("groupBitAnd"@),
        "groupBitAnd"@.len() == 11,
        "groupBitAnd"@[0] == 'g',
        "groupBitAnd"@[1] == 'r',
        "groupBitAnd"@[2] == 'o',
        "groupBitAnd"@[3] == 'u',
        "groupBitAnd"@[4] == 'p',
        "groupBitAnd"@[5] == 'B',
        "groupBitAnd"@[6] == 'i',
        "groupBitAnd"@[7] == 't',
        "groupBitAnd"@[8] == 'A',
        "groupBitAnd"@[9] == 'n',
        "groupBitAnd"@[10] == 'd',
        is_word("groupBitOr"@),
        "groupBitOr"@.len() == 10,
        "groupBitOr"@[0] == 'g',
        "groupBitOr"@[1] == 'r',
        "groupBitOr"@[2] == 'o',
        "groupBitOr"@[3] == 'u',
        "groupBitOr"@[4] == 'p',
        "groupBitOr"@[5] == 'B',
        "groupBitOr"@[6] == 'i',
        "groupBitOr"@[7] == 't',
        "groupBitOr"@[8] == 'O',
        "groupBitOr"@[9] == 'r',
        is_word("groupBitXor"@),
        "groupBitXor"@.len() == 11,
        "groupBitXor"@[0] == 'g',
        "groupBitXor"@[1] == 'r',
        "groupBitXor"@[2] == 'o',
        "groupBitXor"@[3] == 'u',
        "groupBitXor"@[4] == 'p',
        "groupBitXor"@[5] == 'B',
        "groupBitXor"@[6] == 'i',
        "groupBitXor"@[7] == 't',
        "groupBitXor"@[8] == 'X',
        "groupBitXor"@[9] == 'o',
        "groupBitXor"@[10] == 'r',
        is_word("groupArrayArray"@),
        "groupArrayArray"@.len() == 15,
        "groupArrayArray"@[0] == 'g',
        "groupArrayArray"@[1] == 'r',
        "groupArrayArray"@[2] == 'o',
        "groupArrayArray"@[3] == 'u',
        "groupArrayArray"@[4] == 'p',
        "groupArrayArray"@[5] == 'A',
        "groupArrayArray"@[6] == 'r',
        "groupArrayArray"@[7] == 'r',
        "groupArrayArray"@[8] == 'a',
        "groupArrayArray"@[9] == 'y',
        "groupArrayArray"@[10] == 'A',
        "groupArrayArray"@[11] == 'r',
        "groupArrayArray"@[12] == 'r',
        "groupArrayArray"@[13] == 'a',
        "groupArrayArray"@[14] == 'y',
        is_word("groupUniqArrayArray"@),
        "groupUniqArrayArray"@.len() == 19,
        "groupUniqArrayArray"@[0] == 'g',
        "groupUniqArrayArray"@[1] == 'r',
        "groupUniqArrayArray"@[2] == 'o',
        "groupUniqArrayArray"@[3] == 'u',
        "groupUniqArrayArray"@[4] == 'p',
        "groupUniqArrayArray"@[5] == 'U',
        "groupUniqArrayArray"@[6] == 'n',
        "groupUniqArrayArray"@[7] == 'i',
        "groupUniqArrayArray"@[8] == 'q',
        "groupUniqArrayArray"@[9] == 'A',
        "groupUniqArrayArray"@[10] == 'r',
        "groupUniqArrayArray"@[11] == 'r',
        "groupUniqArrayArray"@[12] == 'a',
        "groupUniqArrayArray"@[13] == 'y',
        "groupUniqArrayArray"@[14] == 'A',
        "groupUniqArrayArray"@[15] == 'r',
        "groupUniqArrayArray"@[16] == 'r',
        "groupUniqArrayArray"@[17] == 'a',
        "groupUniqArrayArray"@[18] == 'y',
        is_word("sumMap"@),
        "sumMap"@.len() == 6,
        "sumMap"@[0] == 's',
        "sumMap"@[1] == 'u',
        "sumMap"@[2] == 'm',
        "sumMap"@[3] == 'M',
        "sumMap"@[4] == 'a',
        "sumMap"@[5] == 'p',
        is_word("minMap"@),
        "minMap"@.len() == 6,
        "minMap"@[0] == 'm',
        "minMap"@[1] == 'i',
        "minMap"@[2] == 'n',
        "minMap"@[3] == 'M',
        "minMap"@[4] == 'a',
        "minMap"@[5] == 'p',
        is_word("maxMap"@),
        "maxMap"@.len() == 6,
        "maxMap"@[0] == 'm',
        "maxMap"@[1] == 'a',
        "maxMap"@[2] == 'x',
        "maxMap"@[3] == 'M',
        "maxMap"@[4] == 'a',
        "maxMap"@[5] == 'p',
{
    reveal_strlit("any");
    lemma_word_of_letters("any"@);
    reveal_strlit("anyLast");
    lemma_word_of_letters("anyLast"@);
    reveal_strlit("min");
    lemma_word_of_letters("min"@);
    reveal_strlit("max");
    lemma_word_of_letters("max"@);
    reveal_strlit("sum");
    lemma_word_of_letters("sum"@);
    reveal_strlit("sumWithOverflow");
    lemma_word_of_letters("sumWithOverflow"@);
    reveal_strlit("groupBitAnd");
    lemma_word_of_letters("groupBitAnd"@);
    reveal_strlit("groupBitOr");
    lemma_word_of_letters("groupBitOr"@);
    reveal_strlit("groupBitXor");
    lemma_word_of_letters("groupBitXor"@);
    reveal_strlit("groupArrayArray");
    lemma_word_of_letters("groupArrayArray"@);
    reveal_strlit("groupUniqArrayArray");
    lemma_word_of_letters("groupUniqArrayArray"@);
    reveal_strlit("sumMap");
    lemma_word_of_letters("sumMap"@);
    reveal_strlit("minMap");
    lemma_word_of_letters("minMap"@);
    reveal_strlit("maxMap");
    lemma_word_of_letters("maxMap"@);
}

} // verus!
