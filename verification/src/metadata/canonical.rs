//! The types that descriptions denote, and the reading of a description that
//! was written for such a type.
use vstd::prelude::*;

use crate::error::Failure;
use crate::metadata::data_type::is_timezone_name;
use crate::metadata::data_type::AggFuncView;
use crate::metadata::data_type::DataTypeView;
use crate::metadata::format::agg_arguments;
use crate::metadata::format::call_text;
use crate::metadata::format::element_text;
use crate::metadata::format::element_texts;
use crate::metadata::format::field_text;
use crate::metadata::format::field_texts;
use crate::metadata::format::func_text;
use crate::metadata::format::join_fields;
use crate::metadata::format::quoted;
use crate::metadata::format::type_keyword;
use crate::metadata::format::type_text;
use crate::metadata::format::type_texts;
use crate::metadata::grammar::agg_func;
use crate::metadata::grammar::call_parts;
use crate::metadata::grammar::comma_pieces;
use crate::metadata::grammar::enum_element;
use crate::metadata::grammar::enum_elements;
use crate::metadata::grammar::parse_agg_fields;
use crate::metadata::grammar::parse_datetime;
use crate::metadata::grammar::parse_datetime64;
use crate::metadata::grammar::parse_decimal;
use crate::metadata::grammar::parse_enum_list;
use crate::metadata::grammar::parse_map_fields;
use crate::metadata::grammar::parse_number;
use crate::metadata::grammar::parse_quoted_timezone;
use crate::metadata::grammar::parse_tuple_field;
use crate::metadata::grammar::parse_tuple_fields;
use crate::metadata::grammar::parse_type;
use crate::metadata::grammar::parse_types;
use crate::metadata::grammar::scalar_type;
use crate::metadata::grammar::MAX_TIME_PRECISION;
use crate::metadata::keywords::is_word;
use crate::metadata::keywords::lemma_call_keywords;
use crate::metadata::keywords::lemma_function_keywords;
use crate::metadata::keywords::lemma_scalar_keywords;
use crate::metadata::keywords::lemma_word_char;
use crate::metadata::nesting::ends_no_field;
use crate::metadata::nesting::is_top_space;
use crate::metadata::nesting::lemma_name_end_is_top_space;
use crate::metadata::nesting::parts_no_name;
use crate::metadata::nesting::is_field;
use crate::metadata::nesting::is_top_comma;
use crate::metadata::nesting::lemma_field_end_is_top_comma;
use crate::metadata::nesting::lemma_join_front;
use crate::metadata::nesting::lemma_join_prepend;
use crate::metadata::type_util::first_field_end;
use crate::metadata::type_util::first_name_end;
use crate::metadata::type_util::is_balanced;
use crate::metadata::type_util::is_name_end;
use crate::metadata::type_util::lemma_first_name_end;
use crate::metadata::type_util::is_field_end;
use crate::metadata::type_util::lemma_first_field_end;
use crate::metadata::type_util::split_fields;
use crate::text::first_index_of;
use crate::text::int_text;
use crate::text::is_digit;
use crate::text::is_trimmed;
use crate::text::is_whitespace;
use crate::text::lemma_first_index_of;
use crate::text::lemma_nat_text;
use crate::text::lemma_parse_int_text;
use crate::text::lemma_trim_of_trimmed;
use crate::text::nat_text;
use crate::text::trim;
use crate::text::strip_quotes;

verus! {

/// The character `c` does not occur in `s`.
pub open spec fn has_no(s: Seq<char>, c: char) -> bool {
    forall|i: int| 0 <= i < s.len() ==> #[trigger] s[i] != c
}

/// A time zone as a description holds it: a name of the time zone database,
/// without white space around it.
pub open spec fn canonical_zone(tz: Seq<char>) -> bool {
    &&& is_timezone_name(tz)
    &&& is_trimmed(tz)
}

/// An element of an enum as a description holds it: a name without comma
/// and `=`, and a code of the enum's width.
pub open spec fn canonical_element(element: (Seq<char>, int), min: int, max: int) -> bool {
    &&& has_no(element.0, ',')
    &&& has_no(element.0, '=')
    &&& min <= element.1 <= max
}

/// The elements of an enum as a description holds them.
pub open spec fn canonical_elements(elements: Seq<(Seq<char>, int)>, min: int, max: int) -> bool {
    forall|i: int| 0 <= i < elements.len() ==> canonical_element(#[trigger] elements[i], min, max)
}

/// An aggregate function as a description holds it: one of the known ones,
/// or a name without white space around it that is none of theirs.
pub open spec fn canonical_func(f: AggFuncView) -> bool {
    f matches AggFuncView::FuncName(name) ==> is_trimmed(name) && agg_func(name) == f
}

/// Texts that are the fields of their join: each one but the last is a
/// field that a comma can follow, and no comma of the last ends a field.
pub open spec fn canonical_list(texts: Seq<Seq<char>>) -> bool {
    &&& forall|k: int| 0 <= k < texts.len() - 1 ==> is_field(#[trigger] texts[k])
    &&& texts.len() > 0 ==> ends_no_field(texts.last())
}

/// A type as a description denotes it: the description written for it reads
/// as the type again.
pub open spec fn canonical(ty: DataTypeView) -> bool
    decreases ty,
{
    match ty {
        DataTypeView::DateTime(Some(tz)) => canonical_zone(tz),
        DataTypeView::DateTime64(p, None) => p <= MAX_TIME_PRECISION,
        DataTypeView::DateTime64(p, Some(tz)) => p <= MAX_TIME_PRECISION && canonical_zone(tz),
        DataTypeView::Enum8(elements) => canonical_elements(
            elements,
            i8::MIN as int,
            i8::MAX as int,
        ),
        DataTypeView::Enum16(elements) => canonical_elements(
            elements,
            i16::MIN as int,
            i16::MAX as int,
        ),
        DataTypeView::LowCardinality(inner) => canonical(*inner),
        DataTypeView::Array(inner) => canonical(*inner),
        DataTypeView::Nullable(inner) => canonical(*inner),
        DataTypeView::Mapping(key, value) => {
            &&& canonical(*key)
            &&& canonical(*value)
            &&& is_field(type_text(*key))
            &&& ends_no_field(type_text(*value))
        },
        DataTypeView::Tuple(fields) => {
            &&& canonical_tuple(fields)
            &&& canonical_list(field_texts(fields))
        },
        DataTypeView::AggregateFunction(f, types) => {
            &&& canonical_func(f)
            &&& all_canonical(types)
            &&& canonical_arguments(func_text(f), type_texts(types))
        },
        DataTypeView::SimpleAggregateFunction(f, types) => {
            &&& canonical_func(f)
            &&& all_canonical(types)
            &&& canonical_arguments(func_text(f), type_texts(types))
        },
        _ => true,
    }
}

/// The arguments of an aggregate function are the fields of their join, or
/// there is nothing to join.
pub open spec fn canonical_arguments(name: Seq<char>, types: Seq<Seq<char>>) -> bool {
    (name.len() == 0 && types.len() == 0) || canonical_list(seq![name] + types)
}

/// Each type of the list is as a description denotes it.
pub open spec fn all_canonical(types: Seq<DataTypeView>) -> bool
    decreases types,
{
    forall|i: int| 0 <= i < types.len() ==> canonical(#[trigger] types[i])
}

/// The fields of a tuple as a description holds them: a name has balanced
/// brackets and no white space outside them, and the description of a field
/// without a name has no white space outside its brackets.
pub open spec fn canonical_tuple(fields: Seq<(Seq<char>, DataTypeView)>) -> bool
    decreases fields,
{
    forall|i: int|
        0 <= i < fields.len() ==> {
            &&& canonical((#[trigger] fields[i]).1)
            &&& fields[i].0.len() > 0 ==> is_balanced(fields[i].0) && parts_no_name(fields[i].0)
            &&& fields[i].0.len() == 0 ==> parts_no_name(type_text(fields[i].1))
        }
}

/// A text without `c` has no first `c`.
pub proof fn lemma_first_index_absent(s: Seq<char>, c: char)
    requires
        has_no(s, c),
    ensures
        first_index_of(s, c) is None,
{
    lemma_first_index_of(s, c);
}

/// The first `c` of a text that starts with a text without `c` and then `c`
/// is that `c`.
pub proof fn lemma_first_index_after(prefix: Seq<char>, c: char, rest: Seq<char>)
    requires
        has_no(prefix, c),
    ensures
        first_index_of(prefix + seq![c] + rest, c) == Some(prefix.len() as int),
        (prefix + seq![c] + rest).take(prefix.len() as int) == prefix,
        (prefix + seq![c] + rest).skip(prefix.len() as int + 1) == rest,
{
    let s = prefix + seq![c] + rest;
    lemma_first_index_of(s, c);
    assert(s[prefix.len() as int] == c);
    let i = first_index_of(s, c).unwrap();
    if i < prefix.len() {
        assert(s[i] == prefix[i]);
    }
}

/// The decimal text of a number: digits, and `-` before them where the
/// number is negative; no bracket, comma, quote or `=`, and no white space
/// at its ends.
pub proof fn lemma_int_text_chars(v: int)
    ensures
        int_text(v).len() > 0,
        forall|i: int|
            0 <= i < int_text(v).len() ==> is_digit(#[trigger] int_text(v)[i]) || int_text(v)[i]
                == '-',
        is_digit(int_text(v).last()),
        is_trimmed(int_text(v)),
        has_no(int_text(v), ','),
        has_no(int_text(v), '='),
        has_no(int_text(v), '\''),
        has_no(int_text(v), '('),
        has_no(int_text(v), ')'),
{
    let t = int_text(v);
    if v < 0 {
        lemma_nat_text((-v) as nat);
        let digits = nat_text((-v) as nat);
        assert forall|i: int| 0 <= i < t.len() implies is_digit(#[trigger] t[i]) || t[i]
            == '-' by {
            if i > 0 {
                assert(t[i] == digits[i - 1]);
                assert(is_digit(digits[i - 1]));
            }
        }
        assert(t.last() == digits.last());
        assert(is_digit(digits[digits.len() - 1]));
    } else {
        lemma_nat_text(v as nat);
        assert(is_digit(t[t.len() - 1]));
    }
    assert(is_digit(t[0]) || t[0] == '-');
    assert forall|i: int| 0 <= i < t.len() implies #[trigger] t[i] != ',' && t[i] != '=' && t[i]
        != '\'' && t[i] != '(' && t[i] != ')' by {
        assert(is_digit(t[i]) || t[i] == '-');
    }
}

/// Reading the text of a number, as an argument, gives the number back.
pub proof fn lemma_parse_number_text(v: int, min: int, max: int)
    requires
        min <= v <= max,
        min <= 0,
    ensures
        parse_number(int_text(v), min, max) == Ok::<int, Failure>(v),
{
    lemma_int_text_chars(v);
    lemma_trim_of_trimmed(int_text(v));
    lemma_parse_int_text(v, min, max);
}

/// A keyword before its bracketed arguments is read as the keyword and the
/// arguments.
pub proof fn lemma_call_parts_text(keyword: Seq<char>, arguments: Seq<char>)
    requires
        is_word(keyword),
    ensures
        trim(call_text(keyword, arguments)) == call_text(keyword, arguments),
        call_parts(call_text(keyword, arguments)) == Some((keyword, arguments)),
{
    let text = call_text(keyword, arguments);
    assert(text[0] == keyword[0]);
    lemma_word_char(keyword[0]);
    assert(text.last() == ')');
    lemma_trim_of_trimmed(text);
    assert forall|i: int| 0 <= i < keyword.len() implies #[trigger] keyword[i] != '(' by {
        lemma_word_char(keyword[i]);
    }
    let rest = arguments + seq![')'];
    assert(text == keyword + seq!['('] + rest);
    lemma_first_index_after(keyword, '(', rest);
    assert(text.subrange(keyword.len() as int + 1, text.len() - 1) == arguments);
}

/// A keyword alone is not read as a keyword with arguments.
pub proof fn lemma_word_is_no_call(word: Seq<char>)
    requires
        is_word(word),
    ensures
        trim(word) == word,
        call_parts(word) is None,
{
    lemma_word_char(word[0]);
    lemma_word_char(word[word.len() - 1]);
    lemma_trim_of_trimmed(word);
}

/// The join of texts is at least as long as the last of them.
pub proof fn lemma_join_len(texts: Seq<Seq<char>>)
    requires
        texts.len() > 0,
    ensures
        join_fields(texts).len() >= texts.last().len(),
{
}

/// Texts that nest as fields must, and are trimmed, are the fields of their
/// join, provided that the last of them is not empty.
pub proof fn lemma_split_join(texts: Seq<Seq<char>>)
    requires
        canonical_list(texts),
        forall|k: int| 0 <= k < texts.len() ==> is_trimmed(#[trigger] texts[k]),
        texts.len() > 0 ==> texts.last().len() > 0,
    ensures
        split_fields(join_fields(texts)) == texts,
    decreases texts.len(),
{
    let joined = join_fields(texts);
    if texts.len() == 0 {
    } else if texts.len() == 1 {
        let t = texts[0];
        lemma_first_field_end(t, 0);
        if first_field_end(t, 0) is Some {
            let i = first_field_end(t, 0).unwrap();
            lemma_field_end_is_top_comma(t, i);
            assert(is_top_comma(t, 0, i));
        }
        lemma_trim_of_trimmed(t);
        assert(split_fields(t) == seq![t]);
        assert(seq![t] == texts);
    } else {
        let first = texts[0];
        let others = texts.skip(1);
        let rest = join_fields(others);
        lemma_join_front(texts);
        assert(joined == first + seq![','] + rest);
        assert(is_field(first));
        assert(others.last() == texts.last());
        lemma_join_len(others);
        assert forall|k: int| 0 <= k < others.len() - 1 implies is_field(#[trigger] others[k]) by {
            assert(others[k] == texts[k + 1]);
        }
        assert forall|k: int| 0 <= k < others.len() implies is_trimmed(#[trigger] others[k]) by {
            assert(others[k] == texts[k + 1]);
        }
        lemma_split_join(others);
        let i = first.len() as int;
        assert(joined[i] == ',');
        assert(joined.take(i) == first);
        assert(joined.skip(i + 1) == rest);
        assert(is_field_end(joined, i));
        lemma_first_field_end(joined, 0);
        let found = first_field_end(joined, 0).unwrap();
        if found < i {
            assert(joined.take(found) == first.take(found));
            assert(joined[found] == first[found]);
            assert(is_field_end(first, found));
            lemma_field_end_is_top_comma(first, found);
            assert(is_top_comma(first, 0, found));
        }
        lemma_trim_of_trimmed(first);
        assert(split_fields(joined) == seq![first] + split_fields(rest));
        assert(seq![first] + others == texts);
    }
}

/// Texts without comma are the pieces between the commas of their join.
pub proof fn lemma_comma_pieces_join(texts: Seq<Seq<char>>)
    requires
        texts.len() > 0,
        forall|k: int| 0 <= k < texts.len() ==> has_no(#[trigger] texts[k], ','),
    ensures
        comma_pieces(join_fields(texts)) == texts,
    decreases texts.len(),
{
    if texts.len() == 1 {
        let t = texts[0];
        lemma_first_index_absent(t, ',');
        assert(comma_pieces(t) == seq![t]);
        assert(seq![t] == texts);
    } else {
        let first = texts[0];
        let others = texts.skip(1);
        let rest = join_fields(others);
        lemma_join_front(texts);
        assert forall|k: int| 0 <= k < others.len() implies has_no(#[trigger] others[k], ',') by {
            assert(others[k] == texts[k + 1]);
        }
        lemma_comma_pieces_join(others);
        lemma_first_index_after(first, ',', rest);
        assert(seq![first] + others == texts);
    }
}

/// A description is not empty and has no white space at its ends.
pub proof fn lemma_type_text_shape(ty: DataTypeView)
    ensures
        type_text(ty).len() > 0,
        is_trimmed(type_text(ty)),
{
    lemma_scalar_keywords();
    lemma_call_keywords();
    let text = type_text(ty);
    match ty {
        DataTypeView::FixedString(_)
        | DataTypeView::DateTime(Some(_))
        | DataTypeView::DateTime64(_, _)
        | DataTypeView::Decimal(_, _)
        | DataTypeView::Decimal32(_)
        | DataTypeView::Decimal64(_)
        | DataTypeView::Decimal128(_)
        | DataTypeView::Decimal256(_)
        | DataTypeView::Enum8(_)
        | DataTypeView::Enum16(_)
        | DataTypeView::LowCardinality(_)
        | DataTypeView::AggregateFunction(_, _)
        | DataTypeView::SimpleAggregateFunction(_, _)
        | DataTypeView::Tuple(_)
        | DataTypeView::Array(_)
        | DataTypeView::Mapping(_, _)
        | DataTypeView::Nullable(_) => {
            let keyword = type_keyword(ty);
            assert(is_word(keyword));
            assert(text[0] == keyword[0]);
            lemma_word_char(keyword[0]);
            assert(text.last() == ')');
        },
        _ => {
            assert(is_word(text));
            lemma_word_char(text[0]);
            lemma_word_char(text[text.len() - 1]);
        },
    }
}

/// The description of a type without arguments reads as the type.
#[verifier::rlimit(40)]
pub proof fn lemma_parse_scalar_text(ty: DataTypeView)
    requires
        is_scalar(ty),
    ensures
        parse_type(type_text(ty)) == Ok::<DataTypeView, Failure>(ty),
{
    lemma_scalar_keywords();
    let text = type_text(ty);
    assert(is_word(text));
    lemma_word_is_no_call(text);
    assert(scalar_type(text) == Some(ty));
}

/// What stands between quotes is what is left of the quoted text when the
/// quotes around it are dropped.
pub proof fn lemma_strip_quoted(name: Seq<char>)
    ensures
        trim(quoted(name)) == quoted(name),
        strip_quotes(quoted(name)) == name,
{
    let q = quoted(name);
    assert(q[0] == '\'');
    assert(q.last() == '\'');
    lemma_trim_of_trimmed(q);
    assert(q.subrange(1, q.len() - 1) == name);
}

/// The quoted name of a time zone is read as the time zone.
pub proof fn lemma_parse_quoted_zone(tz: Seq<char>)
    requires
        canonical_zone(tz),
    ensures
        parse_quoted_timezone(quoted(tz)) == Ok::<Seq<char>, Failure>(tz),
        trim(quoted(tz)).len() > 0,
{
    lemma_strip_quoted(tz);
    lemma_trim_of_trimmed(tz);
}

/// Two numbers with a comma between them are read as the two numbers.
pub proof fn lemma_parse_number_pair(first: nat, second: Seq<char>)
    ensures
        first_index_of(nat_text(first) + seq![','] + second, ',') == Some(
            nat_text(first).len() as int,
        ),
        (nat_text(first) + seq![','] + second).take(nat_text(first).len() as int) == nat_text(
            first,
        ),
        (nat_text(first) + seq![','] + second).skip(nat_text(first).len() as int + 1) == second,
{
    lemma_int_text_chars(first as int);
    lemma_first_index_after(nat_text(first), ',', second);
}

/// The text of an element of an enum is read as the element.
pub proof fn lemma_parse_element_text(element: (Seq<char>, int), min: int, max: int)
    requires
        canonical_element(element, min, max),
        min <= 0,
    ensures
        enum_element(element_text(element), min, max) == Ok::<Option<(Seq<char>, int)>, Failure>(
            Some(element),
        ),
        has_no(element_text(element), ','),
{
    let name = element.0;
    let code = int_text(element.1);
    let text = element_text(element);
    lemma_int_text_chars(element.1);
    assert(text[0] == '\'');
    assert(text.last() == code.last());
    lemma_trim_of_trimmed(text);
    assert forall|i: int| 0 <= i < quoted(name).len() implies #[trigger] quoted(name)[i]
        != '=' && quoted(name)[i] != ',' by {
        if 0 < i < quoted(name).len() - 1 {
            assert(quoted(name)[i] == name[i - 1]);
        }
    }
    lemma_first_index_after(quoted(name), '=', code);
    lemma_strip_quoted(name);
    lemma_parse_number_text(element.1, min, max);
    assert forall|i: int| 0 <= i < text.len() implies #[trigger] text[i] != ',' by {
        if i < quoted(name).len() {
            assert(text[i] == quoted(name)[i]);
        } else if i > quoted(name).len() {
            assert(text[i] == code[i - quoted(name).len() - 1]);
        }
    }
}

/// The texts of the elements of an enum are read as the elements.
pub proof fn lemma_parse_element_texts(elements: Seq<(Seq<char>, int)>, min: int, max: int)
    requires
        canonical_elements(elements, min, max),
        min <= 0,
    ensures
        enum_elements(element_texts(elements), min, max) == Ok::<Seq<(Seq<char>, int)>, Failure>(
            elements,
        ),
    decreases elements.len(),
{
    let texts = element_texts(elements);
    if elements.len() == 0 {
        assert(elements == Seq::<(Seq<char>, int)>::empty());
    } else {
        let init = elements.drop_last();
        assert forall|i: int| 0 <= i < init.len() implies canonical_element(
            #[trigger] init[i],
            min,
            max,
        ) by {
            assert(init[i] == elements[i]);
        }
        lemma_parse_element_texts(init, min, max);
        assert(texts.drop_last() == element_texts(init));
        assert(texts.last() == element_text(elements.last()));
        assert(canonical_element(elements[elements.len() - 1], min, max));
        lemma_parse_element_text(elements.last(), min, max);
        assert(init.push(elements.last()) == elements);
    }
}

/// The description of the elements of an enum is read as the elements.
pub proof fn lemma_parse_enum_text(elements: Seq<(Seq<char>, int)>, min: int, max: int)
    requires
        canonical_elements(elements, min, max),
        min <= 0,
    ensures
        parse_enum_list(join_fields(element_texts(elements)), min, max) == Ok::<
            Seq<(Seq<char>, int)>,
            Failure,
        >(elements),
{
    let texts = element_texts(elements);
    if elements.len() == 0 {
        let nothing = Seq::<char>::empty();
        assert(join_fields(texts) == nothing);
        assert(first_index_of(nothing, ',') is None);
        let pieces = seq![nothing];
        assert(comma_pieces(nothing) == pieces);
        assert(pieces.drop_last() == Seq::<Seq<char>>::empty());
        assert(pieces.last() == nothing);
        assert(trim(nothing) == nothing);
        assert(enum_element(nothing, min, max) == Ok::<Option<(Seq<char>, int)>, Failure>(None));
        assert(enum_elements(pieces.drop_last(), min, max) == Ok::<
            Seq<(Seq<char>, int)>,
            Failure,
        >(Seq::empty()));
        assert(elements == Seq::<(Seq<char>, int)>::empty());
    } else {
        assert forall|k: int| 0 <= k < texts.len() implies has_no(#[trigger] texts[k], ',') by {
            assert(canonical_element(elements[k], min, max));
            lemma_parse_element_text(elements[k], min, max);
        }
        lemma_comma_pieces_join(texts);
        lemma_parse_element_texts(elements, min, max);
    }
}

/// The text of a field of a tuple is read as the field.
pub proof fn lemma_parse_field_text(name: Seq<char>, ty: DataTypeView)
    requires
        parse_type(type_text(ty)) == Ok::<DataTypeView, Failure>(ty),
        name.len() > 0 ==> is_balanced(name) && parts_no_name(name),
        name.len() == 0 ==> parts_no_name(type_text(ty)),
    ensures
        parse_tuple_field(field_text(name, type_text(ty))) == Ok::<
            (Seq<char>, DataTypeView),
            Failure,
        >((name, ty)),
        is_trimmed(field_text(name, type_text(ty))),
        field_text(name, type_text(ty)).len() > 0,
{
    let text = type_text(ty);
    let field = field_text(name, text);
    lemma_type_text_shape(ty);
    lemma_first_name_end(field, 0);
    if name.len() == 0 {
        lemma_trim_of_trimmed(field);
        if first_name_end(field, 0) is Some {
            let k = first_name_end(field, 0).unwrap();
            lemma_name_end_is_top_space(field, k);
            assert(is_top_space(field, 0, k));
        }
        assert(name == Seq::<char>::empty());
    } else {
        assert(field[0] == name[0]);
        if is_whitespace(name[0]) {
            assert(name.take(0) == Seq::<char>::empty());
            lemma_name_end_is_top_space(name, 0);
            assert(is_top_space(name, 0, 0));
        }
        assert(field.last() == text.last());
        lemma_trim_of_trimmed(field);
        let k = name.len() as int;
        assert(field[k] == ' ');
        assert(is_whitespace(field[k]));
        assert(field.take(k) == name);
        assert(is_name_end(field, k));
        let found = first_name_end(field, 0).unwrap();
        if found < k {
            assert(field.take(found) == name.take(found));
            assert(field[found] == name[found]);
            assert(is_name_end(name, found));
            lemma_name_end_is_top_space(name, found);
            assert(is_top_space(name, 0, found));
        }
        assert(field.skip(k + 1) == text);
    }
}

/// The name of an aggregate function is read as the function.
pub proof fn lemma_agg_func_text(f: AggFuncView)
    requires
        canonical_func(f),
    ensures
        agg_func(func_text(f)) == f,
        is_trimmed(func_text(f)),
        !(f is FuncName) ==> func_text(f).len() > 0,
{
    match f {
        AggFuncView::FuncName(name) => {},
        _ => {
            lemma_function_keywords();
            let name = func_text(f);
            assert(is_word(name));
            lemma_word_is_no_call(name);
            lemma_word_char(name[0]);
            lemma_word_char(name[name.len() - 1]);
        },
    }
}

/// The descriptions of types read as the types.
pub proof fn lemma_parse_types_text(types: Seq<DataTypeView>)
    requires
        all_canonical(types),
    ensures
        parse_types(type_texts(types)) == Ok::<Seq<DataTypeView>, Failure>(types),
    decreases types,
{
    let texts = type_texts(types);
    if types.len() == 0 {
        assert(types == Seq::<DataTypeView>::empty());
    } else {
        let init = types.drop_last();
        assert forall|i: int| 0 <= i < init.len() implies canonical(#[trigger] init[i]) by {
            assert(init[i] == types[i]);
        }
        lemma_parse_types_text(init);
        assert(canonical(types[types.len() - 1]));
        lemma_parse_text(types.last());
        assert(texts.drop_last() == type_texts(init));
        assert(texts.last() == type_text(types.last()));
        assert(init.push(types.last()) == types);
    }
}

/// The texts of the fields of a tuple read as the fields.
pub proof fn lemma_parse_fields_text(fields: Seq<(Seq<char>, DataTypeView)>)
    requires
        canonical_tuple(fields),
    ensures
        parse_tuple_fields(field_texts(fields)) == Ok::<Seq<(Seq<char>, DataTypeView)>, Failure>(
            fields,
        ),
        forall|k: int| 0 <= k < fields.len() ==> is_trimmed(#[trigger] field_texts(fields)[k]),
        forall|k: int| 0 <= k < fields.len() ==> (#[trigger] field_texts(fields)[k]).len() > 0,
    decreases fields,
{
    let texts = field_texts(fields);
    if fields.len() == 0 {
        assert(fields == Seq::<(Seq<char>, DataTypeView)>::empty());
    } else {
        let init = fields.drop_last();
        let last = fields.last();
        assert forall|i: int| 0 <= i < init.len() implies {
            &&& canonical((#[trigger] init[i]).1)
            &&& init[i].0.len() > 0 ==> is_balanced(init[i].0) && parts_no_name(init[i].0)
            &&& init[i].0.len() == 0 ==> parts_no_name(type_text(init[i].1))
        } by {
            assert(init[i] == fields[i]);
        }
        lemma_parse_fields_text(init);
        assert(fields[fields.len() - 1] == last);
        assert(canonical(last.1));
        lemma_parse_text(last.1);
        lemma_parse_field_text(last.0, last.1);
        assert(texts.drop_last() == field_texts(init));
        assert(texts.last() == field_text(last.0, type_text(last.1)));
        assert(init.push(last) == fields);
        assert forall|k: int| 0 <= k < fields.len() implies is_trimmed(#[trigger] texts[k])
            && texts[k].len() > 0 by {
            if k < init.len() {
                assert(texts[k] == field_texts(init)[k]);
            }
        }
    }
}

/// How `FixedString(..)` is read.
#[verifier::rlimit(40)]
pub proof fn lemma_read_fixed_string(arguments: Seq<char>)
    ensures
        parse_type(call_text("FixedString"@, arguments)) == match parse_number(arguments, 0, usize::MAX as int) {
            Ok(n) => Ok(DataTypeView::FixedString(n as usize)),
            Err(e) => Err(e),
        },
{
    lemma_call_keywords();
    lemma_call_parts_text("FixedString"@, arguments);
}

/// How `Decimal(..)` is read.
#[verifier::rlimit(40)]
pub proof fn lemma_read_decimal(arguments: Seq<char>)
    ensures
        parse_type(call_text("Decimal"@, arguments)) == parse_decimal(call_text("Decimal"@, arguments), arguments),
{
    lemma_call_keywords();
    lemma_call_parts_text("Decimal"@, arguments);
}

/// How `Decimal32(..)` is read.
#[verifier::rlimit(40)]
pub proof fn lemma_read_decimal32(arguments: Seq<char>)
    ensures
        parse_type(call_text("Decimal32"@, arguments)) == match parse_number(arguments, 0, u8::MAX as int) {
            Ok(n) => Ok(DataTypeView::Decimal32(n as u8)),
            Err(e) => Err(e),
        },
{
    lemma_call_keywords();
    lemma_call_parts_text("Decimal32"@, arguments);
}

/// How `Decimal64(..)` is read.
#[verifier::rlimit(40)]
pub proof fn lemma_read_decimal64(arguments: Seq<char>)
    ensures
        parse_type(call_text("Decimal64"@, arguments)) == match parse_number(arguments, 0, u8::MAX as int) {
            Ok(n) => Ok(DataTypeView::Decimal64(n as u8)),
            Err(e) => Err(e),
        },
{
    lemma_call_keywords();
    lemma_call_parts_text("Decimal64"@, arguments);
}

/// How `Decimal128(..)` is read.
#[verifier::rlimit(40)]
pub proof fn lemma_read_decimal128(arguments: Seq<char>)
    ensures
        parse_type(call_text("Decimal128"@, arguments)) == match parse_number(arguments, 0, u8::MAX as int) {
            Ok(n) => Ok(DataTypeView::Decimal128(n as u8)),
            Err(e) => Err(e),
        },
{
    lemma_call_keywords();
    lemma_call_parts_text("Decimal128"@, arguments);
}

/// How `Decimal256(..)` is read.
#[verifier::rlimit(40)]
pub proof fn lemma_read_decimal256(arguments: Seq<char>)
    ensures
        parse_type(call_text("Decimal256"@, arguments)) == match parse_number(arguments, 0, u8::MAX as int) {
            Ok(n) => Ok(DataTypeView::Decimal256(n as u8)),
            Err(e) => Err(e),
        },
{
    lemma_call_keywords();
    lemma_call_parts_text("Decimal256"@, arguments);
}

/// How `DateTime(..)` is read.
#[verifier::rlimit(40)]
pub proof fn lemma_read_datetime(arguments: Seq<char>)
    ensures
        parse_type(call_text("DateTime"@, arguments)) == parse_datetime(arguments),
{
    lemma_call_keywords();
    lemma_call_parts_text("DateTime"@, arguments);
}

/// How `DateTime64(..)` is read.
#[verifier::rlimit(40)]
pub proof fn lemma_read_datetime64(arguments: Seq<char>)
    ensures
        parse_type(call_text("DateTime64"@, arguments)) == parse_datetime64(arguments),
{
    lemma_call_keywords();
    lemma_call_parts_text("DateTime64"@, arguments);
}

/// How `Nullable(..)` is read.
#[verifier::rlimit(40)]
pub proof fn lemma_read_nullable(arguments: Seq<char>)
    ensures
        parse_type(call_text("Nullable"@, arguments)) == match parse_type(arguments) {
            Ok(ty) => Ok(DataTypeView::Nullable(Box::new(ty))),
            Err(e) => Err(e),
        },
{
    lemma_call_keywords();
    lemma_call_parts_text("Nullable"@, arguments);
}

/// How `Array(..)` is read.
#[verifier::rlimit(40)]
pub proof fn lemma_read_array(arguments: Seq<char>)
    ensures
        parse_type(call_text("Array"@, arguments)) == match parse_type(arguments) {
            Ok(ty) => Ok(DataTypeView::Array(Box::new(ty))),
            Err(e) => Err(e),
        },
{
    lemma_call_keywords();
    lemma_call_parts_text("Array"@, arguments);
}

/// How `LowCardinality(..)` is read.
#[verifier::rlimit(40)]
pub proof fn lemma_read_low_cardinality(arguments: Seq<char>)
    ensures
        parse_type(call_text("LowCardinality"@, arguments)) == match parse_type(arguments) {
            Ok(ty) => Ok(DataTypeView::LowCardinality(Box::new(ty))),
            Err(e) => Err(e),
        },
{
    lemma_call_keywords();
    lemma_call_parts_text("LowCardinality"@, arguments);
}

/// How `Map(..)` is read.
#[verifier::rlimit(40)]
pub proof fn lemma_read_map(arguments: Seq<char>)
    ensures
        parse_type(call_text("Map"@, arguments)) == match parse_map_fields(arguments, split_fields(arguments)) {
            Ok(pair) => Ok(DataTypeView::Mapping(Box::new(pair.0), Box::new(pair.1))),
            Err(e) => Err(e),
        },
{
    lemma_call_keywords();
    lemma_call_parts_text("Map"@, arguments);
}

/// How `Tuple(..)` is read.
#[verifier::rlimit(40)]
pub proof fn lemma_read_tuple(arguments: Seq<char>)
    ensures
        parse_type(call_text("Tuple"@, arguments)) == match parse_tuple_fields(split_fields(arguments)) {
            Ok(fields) => Ok(DataTypeView::Tuple(fields)),
            Err(e) => Err(e),
        },
{
    lemma_call_keywords();
    lemma_call_parts_text("Tuple"@, arguments);
}

/// How `Enum8(..)` is read.
#[verifier::rlimit(40)]
pub proof fn lemma_read_enum8(arguments: Seq<char>)
    ensures
        parse_type(call_text("Enum8"@, arguments)) == match parse_enum_list(arguments, i8::MIN as int, i8::MAX as int) {
            Ok(elements) => Ok(DataTypeView::Enum8(elements)),
            Err(e) => Err(e),
        },
{
    lemma_call_keywords();
    lemma_call_parts_text("Enum8"@, arguments);
}

/// How `Enum16(..)` is read.
#[verifier::rlimit(40)]
pub proof fn lemma_read_enum16(arguments: Seq<char>)
    ensures
        parse_type(call_text("Enum16"@, arguments)) == match parse_enum_list(arguments, i16::MIN as int, i16::MAX as int) {
            Ok(elements) => Ok(DataTypeView::Enum16(elements)),
            Err(e) => Err(e),
        },
{
    lemma_call_keywords();
    lemma_call_parts_text("Enum16"@, arguments);
}

/// How `AggregateFunction(..)` is read.
#[verifier::rlimit(40)]
pub proof fn lemma_read_aggregate_function(arguments: Seq<char>)
    ensures
        parse_type(call_text("AggregateFunction"@, arguments)) == match parse_agg_fields(arguments, split_fields(arguments)) {
            Ok(pair) => Ok(DataTypeView::AggregateFunction(pair.0, pair.1)),
            Err(e) => Err(e),
        },
{
    lemma_call_keywords();
    lemma_call_parts_text("AggregateFunction"@, arguments);
}

/// How `SimpleAggregateFunction(..)` is read.
#[verifier::rlimit(40)]
pub proof fn lemma_read_simple_aggregate_function(arguments: Seq<char>)
    ensures
        parse_type(call_text("SimpleAggregateFunction"@, arguments)) == match parse_agg_fields(arguments, split_fields(arguments)) {
            Ok(pair) => Ok(DataTypeView::SimpleAggregateFunction(pair.0, pair.1)),
            Err(e) => Err(e),
        },
{
    lemma_call_keywords();
    lemma_call_parts_text("SimpleAggregateFunction"@, arguments);
}

/// Whether the type has neither arguments nor types inside it.
pub open spec fn is_scalar(ty: DataTypeView) -> bool {
    ty is Bool || ty is Int8 || ty is Int16 || ty is Int32 || ty is Int64 || ty is Int128
        || ty is Int256 || ty is UInt8 || ty is UInt16 || ty is UInt32 || ty is UInt64
        || ty is UInt128 || ty is UInt256 || ty is Float32 || ty is Float64 || ty is String
        || ty is Ipv4 || ty is Ipv6 || ty is Uuid || ty is Date || ty is Date32 || ty is Json || ty
        == DataTypeView::DateTime(None)
}

/// The description of a type with numbers or time zones for arguments reads
/// as the type.
#[verifier::rlimit(40)]
pub proof fn lemma_parse_numbers_text(ty: DataTypeView)
    requires
        canonical(ty),
        ty is FixedString || ty is Decimal || ty is Decimal32 || ty is Decimal64
            || ty is Decimal128 || ty is Decimal256,
    ensures
        parse_type(type_text(ty)) == Ok::<DataTypeView, Failure>(ty),
{
    let text = type_text(ty);
    match ty {
        DataTypeView::FixedString(n) => {
            lemma_read_fixed_string(nat_text(n as nat));
            lemma_parse_number_text(n as int, 0, usize::MAX as int);
        },
        DataTypeView::Decimal32(n) => {
            lemma_read_decimal32(nat_text(n as nat));
            lemma_parse_number_text(n as int, 0, u8::MAX as int);
        },
        DataTypeView::Decimal64(n) => {
            lemma_read_decimal64(nat_text(n as nat));
            lemma_parse_number_text(n as int, 0, u8::MAX as int);
        },
        DataTypeView::Decimal128(n) => {
            lemma_read_decimal128(nat_text(n as nat));
            lemma_parse_number_text(n as int, 0, u8::MAX as int);
        },
        DataTypeView::Decimal256(n) => {
            lemma_read_decimal256(nat_text(n as nat));
            lemma_parse_number_text(n as int, 0, u8::MAX as int);
        },
        DataTypeView::Decimal(p, s) => {
            let inner = nat_text(p as nat) + seq![','] + nat_text(s as nat);
            lemma_read_decimal(inner);
            lemma_parse_number_pair(p as nat, nat_text(s as nat));
            lemma_parse_number_text(p as int, 0, u8::MAX as int);
            lemma_parse_number_text(s as int, 0, u8::MAX as int);
            assert(parse_decimal(text, inner) == Ok::<DataTypeView, Failure>(ty));
        },
        _ => {},
    }
}

/// The description of a time reads as the type.
#[verifier::rlimit(40)]
pub proof fn lemma_parse_time_text(ty: DataTypeView)
    requires
        canonical(ty),
        ty is DateTime64 || (ty is DateTime && ty != DataTypeView::DateTime(None)),
    ensures
        parse_type(type_text(ty)) == Ok::<DataTypeView, Failure>(ty),
{
    let text = type_text(ty);
    match ty {
        DataTypeView::DateTime(Some(tz)) => {
            lemma_read_datetime(quoted(tz));
            lemma_parse_quoted_zone(tz);
            assert(parse_datetime(quoted(tz)) == Ok::<DataTypeView, Failure>(ty));
        },
        DataTypeView::DateTime64(p, None) => {
            lemma_read_datetime64(nat_text(p as nat));
            lemma_parse_number_text(p as int, 0, MAX_TIME_PRECISION as int);
            lemma_int_text_chars(p as int);
            lemma_first_index_absent(nat_text(p as nat), ',');
            assert(parse_datetime64(nat_text(p as nat)) == Ok::<DataTypeView, Failure>(ty));
        },
        DataTypeView::DateTime64(p, Some(tz)) => {
            let inner = nat_text(p as nat) + seq![','] + quoted(tz);
            lemma_read_datetime64(inner);
            lemma_parse_number_pair(p as nat, quoted(tz));
            lemma_parse_number_text(p as int, 0, MAX_TIME_PRECISION as int);
            lemma_parse_quoted_zone(tz);
            assert(parse_datetime64(inner) == Ok::<DataTypeView, Failure>(ty));
        },
        _ => {},
    }
}

/// The description of an enum reads as the enum.
#[verifier::rlimit(40)]
pub proof fn lemma_parse_enum_type_text(ty: DataTypeView)
    requires
        canonical(ty),
        ty is Enum8 || ty is Enum16,
    ensures
        parse_type(type_text(ty)) == Ok::<DataTypeView, Failure>(ty),
{
    match ty {
        DataTypeView::Enum8(elements) => {
            lemma_read_enum8(join_fields(element_texts(elements)));
            lemma_parse_enum_text(elements, i8::MIN as int, i8::MAX as int);
        },
        DataTypeView::Enum16(elements) => {
            lemma_read_enum16(join_fields(element_texts(elements)));
            lemma_parse_enum_text(elements, i16::MIN as int, i16::MAX as int);
        },
        _ => {},
    }
}

/// The description of a type around one other type reads as the type, once
/// the description of the other type reads as that.
#[verifier::rlimit(40)]
pub proof fn lemma_parse_wrapped_text(ty: DataTypeView, inner: DataTypeView)
    requires
        ty == DataTypeView::LowCardinality(Box::new(inner)) || ty == DataTypeView::Array(
            Box::new(inner),
        ) || ty == DataTypeView::Nullable(Box::new(inner)),
        parse_type(type_text(inner)) == Ok::<DataTypeView, Failure>(inner),
    ensures
        parse_type(type_text(ty)) == Ok::<DataTypeView, Failure>(ty),
{
    match ty {
        DataTypeView::LowCardinality(_) => {
            lemma_read_low_cardinality(type_text(inner));
        },
        DataTypeView::Array(_) => {
            lemma_read_array(type_text(inner));
        },
        DataTypeView::Nullable(_) => {
            lemma_read_nullable(type_text(inner));
        },
        _ => {},
    }
}

/// The description of a tuple reads as the tuple, once the texts of its
/// fields read as the fields.
#[verifier::rlimit(40)]
pub proof fn lemma_parse_tuple_text(fields: Seq<(Seq<char>, DataTypeView)>)
    requires
        canonical_list(field_texts(fields)),
        parse_tuple_fields(field_texts(fields)) == Ok::<Seq<(Seq<char>, DataTypeView)>, Failure>(
            fields,
        ),
        forall|k: int| 0 <= k < fields.len() ==> is_trimmed(#[trigger] field_texts(fields)[k]),
        forall|k: int| 0 <= k < fields.len() ==> (#[trigger] field_texts(fields)[k]).len() > 0,
    ensures
        parse_type(type_text(DataTypeView::Tuple(fields))) == Ok::<DataTypeView, Failure>(
            DataTypeView::Tuple(fields),
        ),
{
    let texts = field_texts(fields);
    lemma_read_tuple(join_fields(texts));
    if texts.len() > 0 {
        assert(texts[texts.len() - 1].len() > 0);
    }
    lemma_split_join(texts);
}

/// The description of an aggregate function reads as the type, once the
/// descriptions of its types read as these.
#[verifier::rlimit(40)]
pub proof fn lemma_parse_aggregate_text(ty: DataTypeView, f: AggFuncView, types: Seq<DataTypeView>)
    requires
        ty == DataTypeView::AggregateFunction(f, types) || ty
            == DataTypeView::SimpleAggregateFunction(f, types),
        canonical_func(f),
        parse_types(type_texts(types)) == Ok::<Seq<DataTypeView>, Failure>(types),
        canonical_arguments(func_text(f), type_texts(types)),
    ensures
        parse_type(type_text(ty)) == Ok::<DataTypeView, Failure>(ty),
{
    lemma_parse_arguments_text(f, types);
    match ty {
        DataTypeView::AggregateFunction(_, _) => {
            lemma_read_aggregate_function(agg_arguments(func_text(f), type_texts(types)));
        },
        DataTypeView::SimpleAggregateFunction(_, _) => {
            lemma_read_simple_aggregate_function(agg_arguments(func_text(f), type_texts(types)));
        },
        _ => {},
    }
}

/// The description that is written for a type reads as the type.
#[verifier::rlimit(40)]
pub proof fn lemma_parse_text(ty: DataTypeView)
    requires
        canonical(ty),
    ensures
        parse_type(type_text(ty)) == Ok::<DataTypeView, Failure>(ty),
    decreases ty,
{
    match ty {
        DataTypeView::FixedString(_)
        | DataTypeView::Decimal32(_)
        | DataTypeView::Decimal64(_)
        | DataTypeView::Decimal128(_)
        | DataTypeView::Decimal256(_)
        | DataTypeView::Decimal(_, _) => {
            lemma_parse_numbers_text(ty);
        },
        DataTypeView::DateTime(Some(_)) | DataTypeView::DateTime64(_, _) => {
            lemma_parse_time_text(ty);
        },
        DataTypeView::Enum8(_) | DataTypeView::Enum16(_) => {
            lemma_parse_enum_type_text(ty);
        },
        DataTypeView::LowCardinality(inner) => {
            lemma_parse_text(*inner);
            lemma_parse_wrapped_text(ty, *inner);
        },
        DataTypeView::Array(inner) => {
            lemma_parse_text(*inner);
            lemma_parse_wrapped_text(ty, *inner);
        },
        DataTypeView::Nullable(inner) => {
            lemma_parse_text(*inner);
            lemma_parse_wrapped_text(ty, *inner);
        },
        DataTypeView::Mapping(key, value) => {
            lemma_parse_text(*key);
            lemma_parse_text(*value);
            lemma_parse_map_text(*key, *value);
        },
        DataTypeView::Tuple(fields) => {
            lemma_parse_fields_text(fields);
            lemma_parse_tuple_text(fields);
        },
        DataTypeView::AggregateFunction(f, types) => {
            lemma_parse_types_text(types);
            lemma_parse_aggregate_text(ty, f, types);
        },
        DataTypeView::SimpleAggregateFunction(f, types) => {
            lemma_parse_types_text(types);
            lemma_parse_aggregate_text(ty, f, types);
        },
        _ => {
            lemma_parse_scalar_text(ty);
        },
    }
}

/// Two texts that read as types read, as a list, as the two types.
pub proof fn lemma_parse_types_pair(first: Seq<char>, second: Seq<char>)
    requires
        parse_type(first) is Ok,
        parse_type(second) is Ok,
    ensures
        parse_types(seq![first, second]) == Ok::<Seq<DataTypeView>, Failure>(
            seq![parse_type(first)->Ok_0, parse_type(second)->Ok_0],
        ),
{
    let texts = seq![first, second];
    let one = seq![first];
    assert(texts.drop_last() == one);
    assert(texts.last() == second);
    assert(one.drop_last() == Seq::<Seq<char>>::empty());
    assert(one.last() == first);
    assert(parse_types(one.drop_last()) == Ok::<Seq<DataTypeView>, Failure>(Seq::empty()));
    assert(parse_types(one) == Ok::<Seq<DataTypeView>, Failure>(
        Seq::<DataTypeView>::empty().push(parse_type(first)->Ok_0),
    ));
    assert(Seq::<DataTypeView>::empty().push(parse_type(first)->Ok_0).push(
        parse_type(second)->Ok_0,
    ) == seq![parse_type(first)->Ok_0, parse_type(second)->Ok_0]);
}

/// The descriptions of the key and the value of a map, with a comma between
/// them, have the two descriptions for their fields.
pub proof fn lemma_split_pair(key: DataTypeView, value: DataTypeView)
    requires
        is_field(type_text(key)),
        ends_no_field(type_text(value)),
    ensures
        split_fields(type_text(key) + seq![','] + type_text(value)) == seq![
            type_text(key),
            type_text(value),
        ],
{
    let texts = seq![type_text(key), type_text(value)];
    let first = seq![type_text(key)];
    lemma_type_text_shape(key);
    lemma_type_text_shape(value);
    assert(texts.drop_last() == first);
    assert(texts.last() == type_text(value));
    assert(join_fields(first) == type_text(key));
    assert(join_fields(texts) == type_text(key) + seq![','] + type_text(value));
    lemma_split_join(texts);
}

/// The description of a map reads as the map, once the descriptions of its
/// key and value read as these.
#[verifier::rlimit(40)]
pub proof fn lemma_parse_map_text(key: DataTypeView, value: DataTypeView)
    requires
        is_field(type_text(key)),
        ends_no_field(type_text(value)),
        parse_type(type_text(key)) == Ok::<DataTypeView, Failure>(key),
        parse_type(type_text(value)) == Ok::<DataTypeView, Failure>(value),
    ensures
        parse_type(type_text(DataTypeView::Mapping(Box::new(key), Box::new(value)))) == Ok::<
            DataTypeView,
            Failure,
        >(DataTypeView::Mapping(Box::new(key), Box::new(value))),
{
    let inner = type_text(key) + seq![','] + type_text(value);
    let texts = seq![type_text(key), type_text(value)];
    lemma_read_map(inner);
    lemma_split_pair(key, value);
    lemma_parse_types_pair(type_text(key), type_text(value));
    let types = seq![key, value];
    assert(types[0] == key && types[1] == value);
    assert(parse_map_fields(inner, texts) == Ok::<(DataTypeView, DataTypeView), Failure>(
        (key, value),
    ));
}

/// The arguments that are written for an aggregate function read as the
/// function and its types.
pub proof fn lemma_parse_arguments_text(f: AggFuncView, types: Seq<DataTypeView>)
    requires
        canonical_func(f),
        parse_types(type_texts(types)) == Ok::<Seq<DataTypeView>, Failure>(types),
        canonical_arguments(func_text(f), type_texts(types)),
    ensures
        parse_agg_fields(
            agg_arguments(func_text(f), type_texts(types)),
            split_fields(agg_arguments(func_text(f), type_texts(types))),
        ) == Ok::<(AggFuncView, Seq<DataTypeView>), Failure>((f, types)),
{
    let name = func_text(f);
    let texts = seq![name] + type_texts(types);
    let inner = agg_arguments(name, type_texts(types));
    lemma_agg_func_text(f);
    if name.len() == 0 && types.len() == 0 {
        let comma = seq![','];
        let nothing = Seq::<char>::empty();
        assert(inner == comma);
        assert(comma.take(0) == nothing);
        assert(is_field_end(comma, 0));
        assert(first_field_end(comma, 0) == Some(0int));
        assert(comma.skip(1) == nothing);
        assert(trim(nothing) == nothing);
        let fields = seq![nothing];
        assert(split_fields(nothing) == Seq::<Seq<char>>::empty());
        assert(split_fields(comma) == fields);
        assert(fields.skip(1) == Seq::<Seq<char>>::empty());
        assert(types == Seq::<DataTypeView>::empty());
        assert(type_texts(types) == Seq::<Seq<char>>::empty());
        assert(name == nothing);
    } else {
        assert forall|k: int| 0 <= k < texts.len() implies is_trimmed(#[trigger] texts[k]) by {
            if k > 0 {
                lemma_type_text_shape(types[k - 1]);
            }
        }
        if types.len() > 0 {
            lemma_type_text_shape(types.last());
            assert(texts.last() == type_text(types.last()));
        } else {
            assert(texts.last() == name);
        }
        lemma_join_prepend(name, type_texts(types));
        lemma_split_join(texts);
        assert(texts.skip(1) == type_texts(types));
        assert(texts[0] == name);
    }
}

} // verus!
