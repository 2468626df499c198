//! Reading a description and writing it again: the description that is
//! written for a type that some text denotes reads as the same type.
use vstd::prelude::*;

use crate::error::Failure;
use crate::metadata::canonical::all_canonical;
use crate::metadata::canonical::canonical;
use crate::metadata::canonical::canonical_arguments;
use crate::metadata::canonical::canonical_element;
use crate::metadata::canonical::canonical_elements;
use crate::metadata::canonical::canonical_func;
use crate::metadata::canonical::canonical_list;
use crate::metadata::canonical::canonical_tuple;
use crate::metadata::canonical::canonical_zone;
use crate::metadata::canonical::has_no;
use crate::metadata::canonical::lemma_int_text_chars;
use crate::metadata::canonical::lemma_parse_text;
use crate::metadata::data_type::DataTypeView;
use crate::metadata::format::agg_arguments;
use crate::metadata::format::call_text;
use crate::metadata::format::element_text;
use crate::metadata::format::element_texts;
use crate::metadata::format::field_text;
use crate::metadata::format::field_texts;
use crate::metadata::format::func_text;
use crate::metadata::format::join_fields;
use crate::metadata::format::quoted;
use crate::metadata::format::type_text;
use crate::metadata::format::type_texts;
use crate::metadata::grammar::agg_func;
use crate::metadata::grammar::call_parts;
use crate::metadata::grammar::comma_pieces;
use crate::metadata::grammar::enum_element;
use crate::metadata::grammar::enum_elements;
use crate::metadata::grammar::parse_agg_fields;
use crate::metadata::grammar::parse_datetime64;
use crate::metadata::grammar::parse_datetime;
use crate::metadata::grammar::parse_decimal;
use crate::metadata::grammar::parse_enum_list;
use crate::metadata::grammar::parse_map_fields;
use crate::metadata::grammar::parse_number;
use crate::metadata::grammar::parse_quoted_timezone;
use crate::metadata::grammar::parse_tuple_field;
use crate::metadata::grammar::parse_tuple_fields;
use crate::metadata::grammar::parse_type;
use crate::metadata::grammar::parse_types;
use crate::metadata::grammar::scalar_type;
use crate::metadata::grammar::MAX_TIME_PRECISION;
use crate::metadata::nesting::has_top_comma;
use crate::metadata::nesting::is_field;
use crate::metadata::nesting::has_top_space;
use crate::metadata::nesting::is_top_space;
use crate::metadata::nesting::lemma_name_end_is_top_space;
use crate::metadata::nesting::parts_no_name;
use crate::metadata::type_util::first_name_end;
use crate::metadata::type_util::is_balanced;
use crate::metadata::type_util::lemma_first_name_end;
use crate::text::strip_quotes;
use crate::metadata::nesting::is_plain;
use crate::metadata::nesting::is_plain_char;
use crate::metadata::nesting::is_top_comma;
use crate::metadata::nesting::lemma_depth_one;
use crate::metadata::nesting::lemma_join_prepend;
use crate::metadata::nesting::lemma_refines_call;
use crate::metadata::nesting::lemma_refines_chain;
use crate::metadata::nesting::lemma_refines_comma_dropped;
use crate::metadata::nesting::lemma_refines_concat3;
use crate::metadata::nesting::lemma_refines_concat;
use crate::metadata::nesting::lemma_refines_empty_call;
use crate::metadata::nesting::lemma_refines_field;
use crate::metadata::nesting::lemma_refines_is_inside;
use crate::metadata::nesting::lemma_refines_join;
use crate::metadata::nesting::lemma_refines_plain;
use crate::metadata::nesting::lemma_refines_quoted;
use crate::metadata::nesting::lemma_refines_same;
use crate::metadata::nesting::lemma_refines_split;
use crate::metadata::nesting::lemma_refines_trim;
use crate::metadata::nesting::lemma_split_fields_nest;
use crate::metadata::nesting::lemma_split_fields_trimmed;
use crate::metadata::nesting::lemma_whitespace_is_plain;
use crate::metadata::nesting::refines;
use crate::metadata::nesting::refines_at;
use crate::metadata::nesting::refines_inside;
use crate::metadata::type_util::lemma_split_weight;
use crate::metadata::type_util::lemma_total_weight_index;
use crate::metadata::type_util::split_fields;
use crate::text::first_index_of;
use crate::text::int_text;
use crate::text::is_digit;
use crate::text::is_whitespace;
use crate::text::lemma_first_index_of;
use crate::text::lemma_trim;
use crate::text::lemma_trim_of_trimmed;
use crate::text::nat_text;
use crate::text::parse_int;
use crate::text::trim;

verus! {

/// A text that reads as a keyword with arguments is the keyword, a bracket,
/// the arguments and a bracket.
pub proof fn lemma_call_parts_join(t: Seq<char>)
    requires
        call_parts(t) is Some,
    ensures
        t == call_text(call_parts(t).unwrap().0, call_parts(t).unwrap().1),
        call_parts(t).unwrap().1.len() + 2 <= t.len(),
{
    lemma_first_index_of(t, '(');
    let p = first_index_of(t, '(').unwrap();
    let head = t.take(p);
    let inner = t.subrange(p + 1, t.len() - 1);
    assert(t =~= head + seq!['('] + inner + seq![')']);
}

/// A text that reads as an integer holds no bracket and no comma, and the
/// integer is in the range that was asked for.
pub proof fn lemma_parsed_int(x: Seq<char>, min: int, max: int)
    requires
        parse_int(x, min, max) is Ok,
        min <= 0 <= max,
    ensures
        is_plain(x),
        min <= parse_int(x, min, max)->Ok_0 <= max,
{
    let negative = min < 0 && x[0] == '-';
    let digits = if negative || x[0] == '+' {
        x.skip(1)
    } else {
        x
    };
    assert forall|i: int| 0 <= i < x.len() implies is_plain_char(#[trigger] x[i]) by {
        if negative || x[0] == '+' {
            if i > 0 {
                assert(is_digit(digits[i - 1]));
            }
        } else {
            assert(is_digit(digits[i]));
        }
    }
}

/// An argument that reads as a number holds no bracket and no comma, and the
/// text of the number may stand for it.
pub proof fn lemma_parsed_number(x: Seq<char>, min: int, max: int)
    requires
        parse_number(x, min, max) is Ok,
        min <= 0 <= max,
    ensures
        min <= parse_number(x, min, max)->Ok_0 <= max,
        refines(x, int_text(parse_number(x, min, max)->Ok_0)),
{
    let n = parse_number(x, min, max)->Ok_0;
    let t = trim(x);
    let (lo, hi) = lemma_trim(x);
    lemma_parsed_int(t, min, max);
    assert forall|i: int| 0 <= i < x.len() implies is_plain_char(#[trigger] x[i]) by {
        if lo <= i < hi {
            assert(x[i] == t[i - lo]);
            assert(is_plain_char(t[i - lo]));
        } else {
            assert(is_whitespace(x[i]));
        }
    }
    lemma_int_text_chars(n);
    let text = int_text(n);
    assert forall|i: int| 0 <= i < text.len() implies is_plain_char(#[trigger] text[i]) by {
        assert(is_digit(text[i]) || text[i] == '-');
    }
    lemma_refines_plain(x, text);
}

/// Trimming a text, and dropping the quotes around it, bring no character
/// in.
pub proof fn lemma_has_no_kept(x: Seq<char>, c: char)
    requires
        has_no(x, c),
    ensures
        has_no(trim(x), c),
        has_no(strip_quotes(x), c),
{
    let (lo, hi) = lemma_trim(x);
    assert forall|i: int| 0 <= i < trim(x).len() implies #[trigger] trim(x)[i] != c by {
        assert(trim(x)[i] == x[lo + i]);
    }
    let bare = strip_quotes(x);
    assert forall|i: int| 0 <= i < bare.len() implies #[trigger] bare[i] != c by {
        if bare.len() < x.len() {
            assert(bare[i] == x[i + 1]);
        }
    }
}

/// The name that a text between quotes, or without them, denotes: between
/// quotes it may stand for the text.
pub proof fn lemma_unquoted(x: Seq<char>)
    ensures
        refines(x, quoted(strip_quotes(trim(x)))),
{
    let a = trim(x);
    let name = strip_quotes(a);
    lemma_refines_trim(x);
    if a.len() >= 2 && a[0] == '\'' && a.last() == '\'' {
        assert(a == quoted(name));
    } else {
        lemma_refines_quoted(a);
        lemma_refines_chain(x, a, quoted(name));
    }
}

/// An argument that reads as a time zone: the zone is as a description
/// holds it, and its quoted name may stand for the argument.
pub proof fn lemma_parsed_zone(x: Seq<char>)
    requires
        parse_quoted_timezone(x) is Ok,
    ensures
        canonical_zone(parse_quoted_timezone(x)->Ok_0),
        refines(x, quoted(parse_quoted_timezone(x)->Ok_0)),
{
    let bare = strip_quotes(trim(x));
    let tz = trim(bare);
    let q = seq!['\''];
    lemma_unquoted(x);
    lemma_trim(bare);
    lemma_refines_trim(bare);
    lemma_refines_same(q);
    lemma_refines_concat3(q, q, bare, tz, q, q);
    lemma_refines_chain(x, quoted(bare), quoted(tz));
}

/// A text whose trimmed form is empty is white space.
pub proof fn lemma_blank(x: Seq<char>)
    requires
        trim(x).len() == 0,
    ensures
        forall|i: int| 0 <= i < x.len() ==> is_whitespace(#[trigger] x[i]),
        is_plain(x),
{
    let (lo, hi) = lemma_trim(x);
    assert forall|i: int| 0 <= i < x.len() implies is_whitespace(#[trigger] x[i]) by {}
    lemma_whitespace_is_plain(x);
}

/// Two arguments with a comma between them: the texts that may stand for
/// the arguments may, with a comma between them, stand for the two.
pub proof fn lemma_refines_pair(inner: Seq<char>, i: int, first: Seq<char>, second: Seq<char>)
    requires
        0 <= i < inner.len(),
        inner[i] == ',',
        refines(inner.take(i), first),
        refines(inner.skip(i + 1), second),
    ensures
        refines(inner, first + seq![','] + second),
{
    let comma = seq![','];
    assert(inner == inner.take(i) + comma + inner.skip(i + 1));
    lemma_refines_same(comma);
    lemma_refines_concat3(inner.take(i), first, comma, comma, inner.skip(i + 1), second);
}

/// What is known of a text that reads as a type: the type is as a
/// description denotes it, and its description may stand for the text.
pub open spec fn reads_as(s: Seq<char>, ty: DataTypeView) -> bool {
    canonical(ty) && refines(s, type_text(ty))
}

/// A text that reads as a keyword with arguments reads well as a type whose
/// description is the keyword with arguments that may stand for those of
/// the text inside brackets.
pub proof fn lemma_call_reads(s: Seq<char>, ty: DataTypeView, arguments: Seq<char>)
    requires
        call_parts(trim(s)) is Some,
        type_text(ty) == call_text(call_parts(trim(s)).unwrap().0, arguments),
        refines_inside(call_parts(trim(s)).unwrap().1, arguments),
        canonical(ty),
    ensures
        reads_as(s, ty),
{
    let t = trim(s);
    let head = call_parts(t).unwrap().0;
    let inner = call_parts(t).unwrap().1;
    lemma_call_parts_join(t);
    lemma_refines_trim(s);
    lemma_refines_call(head, inner, arguments);
    lemma_refines_chain(s, t, type_text(ty));
}

/// `Decimal(..)`: the texts of the two numbers, with a comma between them,
/// may stand for the arguments.
pub proof fn lemma_parsed_decimal(t: Seq<char>, inner: Seq<char>)
    requires
        parse_decimal(t, inner) is Ok,
    ensures
        parse_decimal(t, inner)->Ok_0 matches DataTypeView::Decimal(p, s) && refines(
            inner,
            nat_text(p as nat) + seq![','] + nat_text(s as nat),
        ),
{
    lemma_first_index_of(inner, ',');
    let i = first_index_of(inner, ',').unwrap();
    lemma_parsed_number(inner.take(i), 0, u8::MAX as int);
    lemma_parsed_number(inner.skip(i + 1), 0, u8::MAX as int);
    let p = parse_number(inner.take(i), 0, u8::MAX as int)->Ok_0;
    let s = parse_number(inner.skip(i + 1), 0, u8::MAX as int)->Ok_0;
    lemma_refines_pair(inner, i, nat_text(p as nat), nat_text(s as nat));
}

/// `DateTime(..)`: the arguments are white space, or the quoted name of the
/// zone may stand for them.
pub proof fn lemma_parsed_datetime(inner: Seq<char>)
    requires
        parse_datetime(inner) is Ok,
    ensures
        match parse_datetime(inner)->Ok_0 {
            DataTypeView::DateTime(None) => forall|i: int|
                0 <= i < inner.len() ==> is_whitespace(#[trigger] inner[i]),
            DataTypeView::DateTime(Some(tz)) => canonical_zone(tz) && refines(inner, quoted(tz)),
            _ => false,
        },
{
    if trim(inner).len() == 0 {
        lemma_blank(inner);
    } else {
        lemma_parsed_zone(inner);
    }
}

/// `DateTime64(..)`: the text of the precision, and behind a comma the
/// quoted name of the zone where there is one, may stand for the arguments.
pub proof fn lemma_parsed_datetime64(inner: Seq<char>)
    requires
        parse_datetime64(inner) is Ok,
    ensures
        match parse_datetime64(inner)->Ok_0 {
            DataTypeView::DateTime64(p, None) => p <= MAX_TIME_PRECISION && refines(
                inner,
                nat_text(p as nat),
            ),
            DataTypeView::DateTime64(p, Some(tz)) => p <= MAX_TIME_PRECISION && canonical_zone(tz)
                && refines(
                inner,
                nat_text(p as nat) + seq![','] + quoted(tz),
            ),
            _ => false,
        },
{
    lemma_first_index_of(inner, ',');
    match first_index_of(inner, ',') {
        None => {
            lemma_parsed_number(inner, 0, MAX_TIME_PRECISION as int);
        },
        Some(i) => {
            lemma_parsed_number(inner.take(i), 0, MAX_TIME_PRECISION as int);
            lemma_parsed_zone(inner.skip(i + 1));
            let p = parse_number(inner.take(i), 0, MAX_TIME_PRECISION as int)->Ok_0;
            let tz = parse_quoted_timezone(inner.skip(i + 1))->Ok_0;
            lemma_refines_pair(inner, i, nat_text(p as nat), quoted(tz));
        },
    }
}

/// One piece of the arguments of an enum that holds an element: the element
/// is as a description holds it, and its text may stand for the piece.
pub proof fn lemma_parsed_element(piece: Seq<char>, min: int, max: int)
    requires
        has_no(piece, ','),
        min <= 0 <= max,
        enum_element(piece, min, max) matches Ok(Some(_)),
    ensures
        canonical_element(enum_element(piece, min, max)->Ok_0->Some_0, min, max),
        refines(piece, element_text(enum_element(piece, min, max)->Ok_0->Some_0)),
{
    let element = trim(piece);
    let found = enum_element(piece, min, max)->Ok_0->Some_0;
    lemma_refines_trim(piece);
    lemma_has_no_kept(piece, ',');
    lemma_first_index_of(element, '=');
    let k = first_index_of(element, '=').unwrap();
    let left = element.take(k);
    let right = element.skip(k + 1);
    let equals = seq!['='];
    assert(element == left + equals + right);
    lemma_unquoted(left);
    lemma_parsed_number(right, min, max);
    lemma_refines_same(equals);
    lemma_refines_concat3(left, quoted(found.0), equals, equals, right, int_text(found.1));
    lemma_refines_chain(piece, element, element_text(found));
    assert forall|i: int| 0 <= i < left.len() implies #[trigger] left[i] != ',' && left[i]
        != '=' by {
        assert(left[i] == element[i]);
    }
    lemma_has_no_kept(left, ',');
    lemma_has_no_kept(left, '=');
    lemma_has_no_kept(trim(left), ',');
    lemma_has_no_kept(trim(left), '=');
}

/// One piece of the arguments of an enum that holds no element is white
/// space.
pub proof fn lemma_parsed_no_element(piece: Seq<char>, min: int, max: int)
    requires
        enum_element(piece, min, max) == Ok::<Option<(Seq<char>, int)>, Failure>(None),
    ensures
        is_plain(piece),
{
    if trim(piece).len() == 0 {
        lemma_blank(piece);
    } else {
        lemma_first_index_of(trim(piece), '=');
    }
}

/// The pieces between the commas of a text hold no comma, and their join is
/// the text.
pub proof fn lemma_comma_pieces(x: Seq<char>)
    ensures
        comma_pieces(x).len() > 0,
        forall|k: int| 0 <= k < comma_pieces(x).len() ==> has_no(#[trigger] comma_pieces(x)[k], ','),
        join_fields(comma_pieces(x)) == x,
    decreases x.len(),
{
    lemma_first_index_of(x, ',');
    match first_index_of(x, ',') {
        None => {
            assert(comma_pieces(x) == seq![x]);
        },
        Some(i) => {
            let first = x.take(i);
            let rest = x.skip(i + 1);
            lemma_comma_pieces(rest);
            let pieces = comma_pieces(x);
            assert(pieces == seq![first] + comma_pieces(rest));
            assert forall|k: int| 0 <= k < pieces.len() implies has_no(#[trigger] pieces[k], ',') by {
                if k > 0 {
                    assert(pieces[k] == comma_pieces(rest)[k - 1]);
                } else {
                    assert forall|j: int| 0 <= j < first.len() implies #[trigger] first[j]
                        != ',' by {
                        assert(first[j] == x[j]);
                    }
                }
            }
            lemma_join_prepend(first, comma_pieces(rest));
            assert(x == first + seq![','] + rest);
        },
    }
}

/// Pieces that read as the elements of an enum: the elements are as a
/// description holds them, and the join of their texts may stand for the
/// join of the pieces.
pub proof fn lemma_parsed_elements(pieces: Seq<Seq<char>>, min: int, max: int)
    requires
        forall|k: int| 0 <= k < pieces.len() ==> has_no(#[trigger] pieces[k], ','),
        min <= 0 <= max,
        enum_elements(pieces, min, max) is Ok,
    ensures
        canonical_elements(enum_elements(pieces, min, max)->Ok_0, min, max),
        refines(
            join_fields(pieces),
            join_fields(element_texts(enum_elements(pieces, min, max)->Ok_0)),
        ),
    decreases pieces.len(),
{
    let elements = enum_elements(pieces, min, max)->Ok_0;
    let nothing = Seq::<char>::empty();
    if pieces.len() == 0 {
        lemma_refines_same(nothing);
        assert(element_texts(elements) == Seq::<Seq<char>>::empty());
    } else {
        let init = pieces.drop_last();
        let last = pieces.last();
        let comma = seq![','];
        assert forall|k: int| 0 <= k < init.len() implies has_no(#[trigger] init[k], ',') by {
            assert(init[k] == pieces[k]);
        }
        lemma_parsed_elements(init, min, max);
        let before = enum_elements(init, min, max)->Ok_0;
        let joined_before = join_fields(init);
        let written_before = join_fields(element_texts(before));
        assert(has_no(pieces[pieces.len() - 1], ','));
        match enum_element(last, min, max)->Ok_0 {
            None => {
                lemma_parsed_no_element(last, min, max);
                assert(is_plain(nothing));
                lemma_refines_plain(last, nothing);
                assert(elements == before);
                if init.len() == 0 {
                    assert(join_fields(pieces) == last);
                    assert(element_texts(before) == Seq::<Seq<char>>::empty());
                } else {
                    lemma_refines_comma_dropped();
                    lemma_refines_concat3(
                        joined_before,
                        written_before,
                        comma,
                        nothing,
                        last,
                        nothing,
                    );
                    assert(written_before + nothing + nothing == written_before);
                }
            },
            Some(element) => {
                lemma_parsed_element(last, min, max);
                assert(elements == before.push(element));
                let texts = element_texts(elements);
                assert(texts.drop_last() == element_texts(before));
                assert(texts.last() == element_text(element));
                assert forall|i: int| 0 <= i < elements.len() implies canonical_element(
                    #[trigger] elements[i],
                    min,
                    max,
                ) by {
                    if i < before.len() {
                        assert(elements[i] == before[i]);
                    }
                }
                if init.len() == 0 {
                    assert(join_fields(pieces) == last);
                    assert(before.len() == 0);
                    assert(join_fields(texts) == element_text(element));
                } else if before.len() == 0 {
                    lemma_refines_comma_dropped();
                    lemma_refines_concat3(
                        joined_before,
                        written_before,
                        comma,
                        nothing,
                        last,
                        element_text(element),
                    );
                    assert(written_before == nothing);
                    assert(join_fields(texts) == element_text(element));
                    assert(nothing + nothing + element_text(element) == element_text(element));
                } else {
                    lemma_refines_same(comma);
                    lemma_refines_concat3(
                        joined_before,
                        written_before,
                        comma,
                        comma,
                        last,
                        element_text(element),
                    );
                }
            },
        }
    }
}

/// The arguments of an enum: the elements are as a description holds them,
/// and the join of their texts may stand for the arguments.
pub proof fn lemma_parsed_enum(inner: Seq<char>, min: int, max: int)
    requires
        min <= 0 <= max,
        parse_enum_list(inner, min, max) is Ok,
    ensures
        canonical_elements(parse_enum_list(inner, min, max)->Ok_0, min, max),
        refines(inner, join_fields(element_texts(parse_enum_list(inner, min, max)->Ok_0))),
{
    lemma_comma_pieces(inner);
    lemma_parsed_elements(comma_pieces(inner), min, max);
}

/// Fields that read as types are as many as the types, and each reads as
/// the type at its place.
pub proof fn lemma_parsed_types_each(fields: Seq<Seq<char>>, i: int)
    requires
        parse_types(fields) is Ok,
        0 <= i < fields.len(),
    ensures
        parse_types(fields)->Ok_0.len() == fields.len(),
        parse_type(fields[i]) == Ok::<DataTypeView, Failure>(parse_types(fields)->Ok_0[i]),
    decreases fields.len(),
{
    lemma_parsed_types_len(fields);
    if i < fields.len() - 1 {
        lemma_parsed_types_len(fields.drop_last());
        lemma_parsed_types_each(fields.drop_last(), i);
    }
}

/// Fields that read as types are as many as the types.
pub proof fn lemma_parsed_types_len(fields: Seq<Seq<char>>)
    requires
        parse_types(fields) is Ok,
    ensures
        parse_types(fields)->Ok_0.len() == fields.len(),
    decreases fields.len(),
{
    if fields.len() > 0 {
        lemma_parsed_types_len(fields.drop_last());
    }
}

/// Fields that read as the fields of a tuple are as many as these, and each
/// reads as the one at its place.
pub proof fn lemma_parsed_fields_each(fields: Seq<Seq<char>>, i: int)
    requires
        parse_tuple_fields(fields) is Ok,
        0 <= i < fields.len(),
    ensures
        parse_tuple_fields(fields)->Ok_0.len() == fields.len(),
        parse_tuple_field(fields[i]) == Ok::<(Seq<char>, DataTypeView), Failure>(
            parse_tuple_fields(fields)->Ok_0[i],
        ),
    decreases fields.len(),
{
    lemma_parsed_fields_len(fields);
    if i < fields.len() - 1 {
        lemma_parsed_fields_len(fields.drop_last());
        lemma_parsed_fields_each(fields.drop_last(), i);
    }
}

/// Fields that read as the fields of a tuple are as many as these.
pub proof fn lemma_parsed_fields_len(fields: Seq<Seq<char>>)
    requires
        parse_tuple_fields(fields) is Ok,
    ensures
        parse_tuple_fields(fields)->Ok_0.len() == fields.len(),
    decreases fields.len(),
{
    if fields.len() > 0 {
        lemma_parsed_fields_len(fields.drop_last());
    }
}

/// Each field of a text is shorter than the text is with one character
/// more.
pub proof fn lemma_field_len(x: Seq<char>, i: int)
    requires
        0 <= i < split_fields(x).len(),
    ensures
        split_fields(x)[i].len() <= x.len(),
{
    lemma_split_weight(x);
    lemma_total_weight_index(split_fields(x), i);
}

/// What is known of a field that reads as a type.
pub open spec fn type_reads(field: Seq<char>) -> bool {
    parse_type(field) is Ok ==> reads_as(field, parse_type(field)->Ok_0)
}

/// What is known of a field that reads as a field of a tuple: its type is
/// as a description denotes it, its name has balanced brackets and no white
/// space outside them, the description of its type has no white space
/// outside its brackets where the field has no name, and the text of the
/// field may stand for it.
pub open spec fn field_reads(field: Seq<char>) -> bool {
    parse_tuple_field(field) matches Ok(pair) ==> {
        &&& canonical(pair.1)
        &&& pair.0.len() > 0 ==> is_balanced(pair.0) && parts_no_name(pair.0)
        &&& pair.0.len() == 0 ==> parts_no_name(type_text(pair.1))
        &&& refines(field, field_text(pair.0, type_text(pair.1)))
    }
}

/// The part of a field of a tuple that describes the type of the field.
pub open spec fn type_part(field: Seq<char>) -> Seq<char> {
    let t = trim(field);
    match first_name_end(t, 0) {
        None => t,
        Some(k) => t.skip(k + 1),
    }
}

/// A field of a tuple reads well once the part that describes its type
/// does.
pub proof fn lemma_parsed_field(field: Seq<char>)
    requires
        type_reads(type_part(field)),
    ensures
        field_reads(field),
        type_part(field).len() <= field.len(),
{
    let t = trim(field);
    let (lo, hi) = lemma_trim(field);
    lemma_refines_trim(field);
    lemma_first_name_end(t, 0);
    if parse_tuple_field(field) is Ok {
        let pair = parse_tuple_field(field)->Ok_0;
        let text = type_text(pair.1);
        match first_name_end(t, 0) {
            None => {
                if has_top_space(t, 0) {
                    let i = choose|i: int| is_top_space(t, 0, i);
                    lemma_name_end_is_top_space(t, i);
                }
                lemma_refines_field(t, text);
                lemma_refines_chain(field, t, text);
                assert(pair.0 == Seq::<char>::empty());
            },
            Some(k) => {
                let name = t.take(k);
                let gap = seq![t[k]];
                let blank = seq![' '];
                let rest = t.skip(k + 1);
                assert(t == name + gap + rest);
                assert(k > 0) by {
                    assert(t.take(0) == Seq::<char>::empty());
                }
                if has_top_space(name, 0) {
                    let i = choose|i: int| is_top_space(name, 0, i);
                    assert(name.take(i) == t.take(i));
                    assert(name[i] == t[i]);
                    lemma_name_end_is_top_space(t, i);
                }
                assert(is_plain(gap)) by {
                    assert forall|i: int| 0 <= i < gap.len() implies is_plain_char(
                        #[trigger] gap[i],
                    ) by {
                        assert(is_whitespace(gap[i]));
                    }
                }
                assert(is_plain(blank)) by {
                    assert forall|i: int| 0 <= i < blank.len() implies is_plain_char(
                        #[trigger] blank[i],
                    ) by {}
                }
                assert(is_whitespace(gap[0]));
                lemma_refines_plain(gap, blank);
                lemma_refines_same(name);
                lemma_refines_concat3(name, name, gap, blank, rest, text);
                lemma_refines_chain(field, t, field_text(name, text));
            },
        }
    }
}

/// Fields that read as types, each of them well: the types are as a
/// description denotes them, and the description of each may stand for its
/// field.
pub proof fn lemma_parsed_type_list(fields: Seq<Seq<char>>)
    requires
        parse_types(fields) is Ok,
        forall|i: int| 0 <= i < fields.len() ==> type_reads(#[trigger] fields[i]),
    ensures
        parse_types(fields)->Ok_0.len() == fields.len(),
        all_canonical(parse_types(fields)->Ok_0),
        forall|i: int|
            0 <= i < fields.len() ==> refines(
                #[trigger] fields[i],
                type_texts(parse_types(fields)->Ok_0)[i],
            ),
{
    let types = parse_types(fields)->Ok_0;
    lemma_parsed_types_len(fields);
    assert forall|i: int| 0 <= i < fields.len() implies canonical(#[trigger] types[i]) && refines(
        fields[i],
        type_texts(types)[i],
    ) by {
        lemma_parsed_types_each(fields, i);
        assert(type_reads(fields[i]));
    }
    assert forall|i: int| 0 <= i < fields.len() implies refines(
        #[trigger] fields[i],
        type_texts(types)[i],
    ) by {
        assert(canonical(types[i]) && refines(fields[i], type_texts(types)[i]));
    }
}

/// The arguments of a map whose fields read well: the map is as a
/// description denotes it, and the descriptions of key and value, with a
/// comma between them, may stand for the arguments.
pub proof fn lemma_parsed_map(inner: Seq<char>)
    requires
        parse_map_fields(inner, split_fields(inner)) is Ok,
        forall|i: int|
            0 <= i < split_fields(inner).len() ==> type_reads(#[trigger] split_fields(inner)[i]),
    ensures
        canonical(
            DataTypeView::Mapping(
                Box::new(parse_map_fields(inner, split_fields(inner))->Ok_0.0),
                Box::new(parse_map_fields(inner, split_fields(inner))->Ok_0.1),
            ),
        ),
        refines(
            inner,
            type_text(parse_map_fields(inner, split_fields(inner))->Ok_0.0) + seq![',']
                + type_text(parse_map_fields(inner, split_fields(inner))->Ok_0.1),
        ),
{
    let fields = split_fields(inner);
    let pair = parse_map_fields(inner, fields)->Ok_0;
    let types = parse_types(fields)->Ok_0;
    lemma_parsed_type_list(fields);
    lemma_split_fields_nest(inner);
    lemma_refines_split(inner);
    let texts = type_texts(types);
    assert(canonical(types[0]) && canonical(types[1]));
    assert(refines(fields[0], texts[0]));
    assert(refines(fields[1], texts[1]));
    lemma_refines_field(fields[0], texts[0]);
    lemma_refines_field(fields[1], texts[1]);
    assert(is_field(fields[0]));
    assert(fields.last() == fields[1]);
    lemma_refines_join(fields, texts);
    let first = seq![texts[0]];
    assert(texts.drop_last() == first);
    assert(join_fields(first) == texts[0]);
    assert(join_fields(texts) == texts[0] + seq![','] + texts[1]);
    lemma_refines_chain(inner, join_fields(fields), join_fields(texts));
}

/// The arguments of a tuple whose fields read well: the tuple is as a
/// description denotes it, and the join of the texts of its fields may stand
/// for the arguments.
pub proof fn lemma_parsed_tuple(inner: Seq<char>)
    requires
        parse_tuple_fields(split_fields(inner)) is Ok,
        forall|i: int|
            0 <= i < split_fields(inner).len() ==> field_reads(#[trigger] split_fields(inner)[i]),
    ensures
        canonical(DataTypeView::Tuple(parse_tuple_fields(split_fields(inner))->Ok_0)),
        refines(inner, join_fields(field_texts(parse_tuple_fields(split_fields(inner))->Ok_0))),
{
    let fields = split_fields(inner);
    let parsed = parse_tuple_fields(fields)->Ok_0;
    let texts = field_texts(parsed);
    lemma_parsed_fields_len(fields);
    lemma_split_fields_nest(inner);
    lemma_refines_split(inner);
    assert forall|i: int| 0 <= i < fields.len() implies {
        &&& canonical((#[trigger] parsed[i]).1)
        &&& parsed[i].0.len() > 0 ==> is_balanced(parsed[i].0) && parts_no_name(parsed[i].0)
        &&& parsed[i].0.len() == 0 ==> parts_no_name(type_text(parsed[i].1))
        &&& refines(fields[i], texts[i])
    } by {
        lemma_parsed_fields_each(fields, i);
        assert(field_reads(fields[i]));
    }
    assert forall|i: int| 0 <= i < fields.len() implies refines(#[trigger] fields[i], texts[i]) by {
        assert(canonical(parsed[i].1));
    }
    assert(canonical_tuple(parsed));
    lemma_refines_join(fields, texts);
    lemma_refines_chain(inner, join_fields(fields), join_fields(texts));
    assert forall|k: int| 0 <= k < texts.len() - 1 implies is_field(#[trigger] texts[k]) by {
        assert(is_field(fields[k]));
        assert(refines(fields[k], texts[k]));
        lemma_refines_field(fields[k], texts[k]);
    }
    if texts.len() > 0 {
        let k = texts.len() - 1;
        assert(refines(fields[k], texts[k]));
        lemma_refines_field(fields[k], texts[k]);
    }
}

/// The name of the function that a text names is the text without the white
/// space around it, and the function is as a description holds it.
pub proof fn lemma_func_text_agg(x: Seq<char>)
    ensures
        func_text(agg_func(x)) == trim(x),
        canonical_func(agg_func(x)),
{
    let t = trim(x);
    lemma_trim(x);
    lemma_trim_of_trimmed(t);
}

/// The arguments of an aggregate function whose types read well: function
/// and types are as a description denotes them, and the arguments that are
/// written for them may stand for the arguments inside brackets.
pub proof fn lemma_parsed_aggregate(inner: Seq<char>)
    requires
        parse_agg_fields(inner, split_fields(inner)) is Ok,
        forall|i: int|
            1 <= i < split_fields(inner).len() ==> type_reads(#[trigger] split_fields(inner)[i]),
    ensures
        canonical_func(parse_agg_fields(inner, split_fields(inner))->Ok_0.0),
        all_canonical(parse_agg_fields(inner, split_fields(inner))->Ok_0.1),
        canonical_arguments(
            func_text(parse_agg_fields(inner, split_fields(inner))->Ok_0.0),
            type_texts(parse_agg_fields(inner, split_fields(inner))->Ok_0.1),
        ),
        refines_inside(
            inner,
            agg_arguments(
                func_text(parse_agg_fields(inner, split_fields(inner))->Ok_0.0),
                type_texts(parse_agg_fields(inner, split_fields(inner))->Ok_0.1),
            ),
        ),
{
    let fields = split_fields(inner);
    let f = parse_agg_fields(inner, fields)->Ok_0.0;
    let types = parse_agg_fields(inner, fields)->Ok_0.1;
    let name = func_text(f);
    let others = fields.skip(1);
    let texts = seq![name] + type_texts(types);
    lemma_func_text_agg(fields[0]);
    lemma_split_fields_trimmed(inner);
    lemma_trim_of_trimmed(fields[0]);
    assert(name == fields[0]);
    assert forall|i: int| 0 <= i < others.len() implies type_reads(#[trigger] others[i]) by {
        assert(others[i] == fields[i + 1]);
        assert(type_reads(fields[i + 1]));
    }
    lemma_parsed_type_list(others);
    lemma_split_fields_nest(inner);
    lemma_refines_split(inner);
    assert forall|k: int| 0 <= k < fields.len() implies refines(#[trigger] fields[k], texts[k]) by {
        if k == 0 {
            lemma_refines_same(fields[0]);
        } else {
            assert(others[k - 1] == fields[k]);
            assert(refines(others[k - 1], type_texts(types)[k - 1]));
            assert(texts[k] == type_texts(types)[k - 1]);
        }
    }
    lemma_refines_join(fields, texts);
    lemma_refines_chain(inner, join_fields(fields), join_fields(texts));
    assert forall|k: int| 0 <= k < texts.len() - 1 implies is_field(#[trigger] texts[k]) by {
        assert(is_field(fields[k]));
        assert(refines(fields[k], texts[k]));
        lemma_refines_field(fields[k], texts[k]);
    }
    let last = texts.len() - 1;
    assert(refines(fields[last], texts[last]));
    lemma_refines_field(fields[last], texts[last]);
    assert(canonical_list(texts));
    if name.len() == 0 && types.len() == 0 {
        let comma = seq![','];
        let nothing = Seq::<char>::empty();
        assert(texts.len() == 1);
        assert(texts[0] == nothing);
        assert(join_fields(texts) == nothing);
        assert forall|d: nat| d >= 1 implies #[trigger] refines_at(
            inner,
            comma,
            d,
        ) by {
            assert(refines_at(inner, nothing, d));
            lemma_depth_one(',', d);
            if has_top_comma(comma, d) {
                let i = choose|i: int| is_top_comma(comma, d, i);
                assert(comma.take(0) == nothing);
            }
            if has_top_space(comma, d) {
                let i = choose|i: int| is_top_space(comma, d, i);
            }
        }
    } else {
        lemma_refines_is_inside(inner, join_fields(texts));
    }
}

/// The keyword and the arguments that a text reads as.
pub open spec fn head_of(s: Seq<char>) -> Seq<char> {
    call_parts(trim(s)).unwrap().0
}

/// The arguments that a text reads as.
pub open spec fn arguments_of(s: Seq<char>) -> Seq<char> {
    call_parts(trim(s)).unwrap().1
}

/// A text that reads as a type without arguments reads well.
#[verifier::rlimit(40)]
pub proof fn lemma_reads_scalar(s: Seq<char>)
    requires
        parse_type(s) is Ok,
        call_parts(trim(s)) is None,
    ensures
        reads_as(s, parse_type(s)->Ok_0),
{
    let t = trim(s);
    let ty = scalar_type(t).unwrap();
    assert(type_text(ty) == t);
    lemma_refines_trim(s);
}

/// A text that reads as a type with a number for its argument reads well.
#[verifier::rlimit(40)]
pub proof fn lemma_reads_numbered(s: Seq<char>)
    requires
        parse_type(s) is Ok,
        call_parts(trim(s)) is Some,
        head_of(s) == "FixedString"@ || (head_of(s) != "Decimal"@ && (head_of(s) == "Decimal32"@
            || head_of(s) == "Decimal64"@ || head_of(s) == "Decimal128"@ || head_of(s)
            == "Decimal256"@)),
    ensures
        reads_as(s, parse_type(s)->Ok_0),
{
    let inner = arguments_of(s);
    let ty = parse_type(s)->Ok_0;
    if head_of(s) == "FixedString"@ {
        lemma_parsed_number(inner, 0, usize::MAX as int);
        let n = parse_number(inner, 0, usize::MAX as int)->Ok_0;
        lemma_refines_is_inside(inner, nat_text(n as nat));
        assert(ty == DataTypeView::FixedString(n as usize));
        lemma_call_reads(s, ty, nat_text(n as nat));
    } else {
        lemma_parsed_number(inner, 0, u8::MAX as int);
        let n = parse_number(inner, 0, u8::MAX as int)->Ok_0;
        lemma_refines_is_inside(inner, nat_text(n as nat));
        lemma_call_reads(s, ty, nat_text(n as nat));
    }
}

/// A text that reads as a decimal of a precision and a scale reads well.
#[verifier::rlimit(40)]
pub proof fn lemma_reads_decimal(s: Seq<char>)
    requires
        parse_type(s) is Ok,
        call_parts(trim(s)) is Some,
        head_of(s) == "Decimal"@,
        head_of(s) != "FixedString"@,
    ensures
        reads_as(s, parse_type(s)->Ok_0),
{
    let inner = arguments_of(s);
    let ty = parse_type(s)->Ok_0;
    lemma_parsed_decimal(trim(s), inner);
    match ty {
        DataTypeView::Decimal(p, scale) => {
            let arguments = nat_text(p as nat) + seq![','] + nat_text(scale as nat);
            lemma_refines_is_inside(inner, arguments);
            lemma_call_reads(s, ty, arguments);
        },
        _ => {},
    }
}

/// A text that reads as a time reads well.
#[verifier::rlimit(40)]
pub proof fn lemma_reads_time(s: Seq<char>)
    requires
        parse_type(s) is Ok,
        call_parts(trim(s)) is Some,
        head_of(s) == "DateTime"@ || head_of(s) == "DateTime64"@,
        head_of(s) != "FixedString"@,
        head_of(s) != "Decimal"@,
        head_of(s) != "Decimal32"@,
        head_of(s) != "Decimal64"@,
        head_of(s) != "Decimal128"@,
        head_of(s) != "Decimal256"@,
    ensures
        reads_as(s, parse_type(s)->Ok_0),
{
    let t = trim(s);
    let head = head_of(s);
    let inner = arguments_of(s);
    let ty = parse_type(s)->Ok_0;
    if head == "DateTime"@ {
        lemma_parsed_datetime(inner);
        match ty {
            DataTypeView::DateTime(Some(tz)) => {
                lemma_refines_is_inside(inner, quoted(tz));
                lemma_call_reads(s, ty, quoted(tz));
            },
            _ => {
                let nothing = Seq::<char>::empty();
                let brackets = seq!['('] + inner + seq![')'];
                lemma_call_parts_join(t);
                lemma_refines_trim(s);
                lemma_refines_empty_call(inner);
                lemma_refines_same(head);
                lemma_refines_concat(head, head, brackets, nothing);
                assert(t == head + brackets);
                assert(head + nothing == head);
                lemma_refines_chain(s, t, head);
            },
        }
    } else {
        lemma_parsed_datetime64(inner);
        match ty {
            DataTypeView::DateTime64(p, None) => {
                lemma_refines_is_inside(inner, nat_text(p as nat));
                lemma_call_reads(s, ty, nat_text(p as nat));
            },
            DataTypeView::DateTime64(p, Some(tz)) => {
                let arguments = nat_text(p as nat) + seq![','] + quoted(tz);
                lemma_refines_is_inside(inner, arguments);
                lemma_call_reads(s, ty, arguments);
            },
            _ => {},
        }
    }
}

/// Whether a keyword is one of those that come before the enums where a
/// description is read.
pub open spec fn is_early_keyword(head: Seq<char>) -> bool {
    head == "FixedString"@ || head == "Decimal"@ || head == "Decimal32"@ || head == "Decimal64"@
        || head == "Decimal128"@ || head == "Decimal256"@ || head == "DateTime"@ || head
        == "DateTime64"@
}

/// Whether a keyword is one of those around one type.
pub open spec fn is_wrapper_keyword(head: Seq<char>) -> bool {
    head == "Nullable"@ || head == "Array"@ || head == "LowCardinality"@
}

/// A text that reads as a type around another type reads well once its
/// arguments do.
#[verifier::rlimit(40)]
pub proof fn lemma_reads_wrapped(s: Seq<char>)
    requires
        parse_type(s) is Ok,
        call_parts(trim(s)) is Some,
        !is_early_keyword(head_of(s)),
        is_wrapper_keyword(head_of(s)),
        type_reads(arguments_of(s)),
    ensures
        reads_as(s, parse_type(s)->Ok_0),
{
    let inner = arguments_of(s);
    let ty = parse_type(s)->Ok_0;
    let within = parse_type(inner)->Ok_0;
    lemma_refines_is_inside(inner, type_text(within));
    lemma_call_reads(s, ty, type_text(within));
}

/// A text that reads as a map reads well once the fields of its arguments
/// do.
#[verifier::rlimit(40)]
pub proof fn lemma_reads_map(s: Seq<char>)
    requires
        parse_type(s) is Ok,
        call_parts(trim(s)) is Some,
        !is_early_keyword(head_of(s)),
        !is_wrapper_keyword(head_of(s)),
        head_of(s) == "Map"@,
        forall|i: int|
            0 <= i < split_fields(arguments_of(s)).len() ==> type_reads(
                #[trigger] split_fields(arguments_of(s))[i],
            ),
    ensures
        reads_as(s, parse_type(s)->Ok_0),
{
    let inner = arguments_of(s);
    let ty = parse_type(s)->Ok_0;
    let pair = parse_map_fields(inner, split_fields(inner))->Ok_0;
    lemma_parsed_map(inner);
    let arguments = type_text(pair.0) + seq![','] + type_text(pair.1);
    lemma_refines_is_inside(inner, arguments);
    lemma_call_reads(s, ty, arguments);
}

/// A text that reads as a tuple reads well once the fields of its arguments
/// do.
#[verifier::rlimit(40)]
pub proof fn lemma_reads_tuple(s: Seq<char>)
    requires
        parse_type(s) is Ok,
        call_parts(trim(s)) is Some,
        !is_early_keyword(head_of(s)),
        !is_wrapper_keyword(head_of(s)),
        head_of(s) != "Map"@,
        head_of(s) == "Tuple"@,
        forall|i: int|
            0 <= i < split_fields(arguments_of(s)).len() ==> field_reads(
                #[trigger] split_fields(arguments_of(s))[i],
            ),
    ensures
        reads_as(s, parse_type(s)->Ok_0),
{
    let inner = arguments_of(s);
    let ty = parse_type(s)->Ok_0;
    let fields = parse_tuple_fields(split_fields(inner))->Ok_0;
    lemma_parsed_tuple(inner);
    let arguments = join_fields(field_texts(fields));
    lemma_refines_is_inside(inner, arguments);
    lemma_call_reads(s, ty, arguments);
}

/// A text that reads as an enum reads well.
#[verifier::rlimit(40)]
pub proof fn lemma_reads_enum(s: Seq<char>)
    requires
        parse_type(s) is Ok,
        call_parts(trim(s)) is Some,
        !is_early_keyword(head_of(s)),
        !is_wrapper_keyword(head_of(s)),
        head_of(s) != "Map"@,
        head_of(s) != "Tuple"@,
        head_of(s) == "Enum8"@ || head_of(s) == "Enum16"@,
    ensures
        reads_as(s, parse_type(s)->Ok_0),
{
    let inner = arguments_of(s);
    let ty = parse_type(s)->Ok_0;
    if head_of(s) == "Enum8"@ {
        lemma_parsed_enum(inner, i8::MIN as int, i8::MAX as int);
        let elements = parse_enum_list(inner, i8::MIN as int, i8::MAX as int)->Ok_0;
        let arguments = join_fields(element_texts(elements));
        lemma_refines_is_inside(inner, arguments);
        lemma_call_reads(s, ty, arguments);
    } else {
        lemma_parsed_enum(inner, i16::MIN as int, i16::MAX as int);
        let elements = parse_enum_list(inner, i16::MIN as int, i16::MAX as int)->Ok_0;
        let arguments = join_fields(element_texts(elements));
        lemma_refines_is_inside(inner, arguments);
        lemma_call_reads(s, ty, arguments);
    }
}

/// A text that reads as an aggregate function reads well once the fields
/// of its arguments behind the first do.
#[verifier::rlimit(40)]
pub proof fn lemma_reads_aggregate(s: Seq<char>)
    requires
        parse_type(s) is Ok,
        call_parts(trim(s)) is Some,
        !is_early_keyword(head_of(s)),
        !is_wrapper_keyword(head_of(s)),
        head_of(s) != "Map"@,
        head_of(s) != "Tuple"@,
        head_of(s) != "Enum8"@,
        head_of(s) != "Enum16"@,
        forall|i: int|
            1 <= i < split_fields(arguments_of(s)).len() ==> type_reads(
                #[trigger] split_fields(arguments_of(s))[i],
            ),
    ensures
        reads_as(s, parse_type(s)->Ok_0),
{
    let inner = arguments_of(s);
    let ty = parse_type(s)->Ok_0;
    let pair = parse_agg_fields(inner, split_fields(inner))->Ok_0;
    lemma_parsed_aggregate(inner);
    let arguments = agg_arguments(func_text(pair.0), type_texts(pair.1));
    lemma_call_reads(s, ty, arguments);
}

/// The part of a field of a tuple that describes the type is no longer than
/// the field.
pub proof fn lemma_type_part_len(field: Seq<char>)
    ensures
        type_part(field).len() <= field.len(),
{
    lemma_trim(field);
    lemma_first_name_end(trim(field), 0);
}

/// The fields of the arguments of a text read well as types.
pub proof fn lemma_parsed_type_fields(s: Seq<char>)
    requires
        call_parts(trim(s)) is Some,
    ensures
        forall|i: int|
            0 <= i < split_fields(arguments_of(s)).len() ==> type_reads(
                #[trigger] split_fields(arguments_of(s))[i],
            ),
    decreases s.len(), 0nat,
{
    let inner = arguments_of(s);
    let fields = split_fields(inner);
    lemma_trim(s);
    lemma_call_parts_join(trim(s));
    assert forall|i: int| 0 <= i < fields.len() implies type_reads(#[trigger] fields[i]) by {
        lemma_field_len(inner, i);
        if parse_type(fields[i]) is Ok {
            lemma_parsed(fields[i]);
        }
    }
}

/// The fields of the arguments of a text read well as fields of a tuple.
pub proof fn lemma_parsed_tuple_fields(s: Seq<char>)
    requires
        call_parts(trim(s)) is Some,
    ensures
        forall|i: int|
            0 <= i < split_fields(arguments_of(s)).len() ==> field_reads(
                #[trigger] split_fields(arguments_of(s))[i],
            ),
    decreases s.len(), 0nat,
{
    let inner = arguments_of(s);
    let fields = split_fields(inner);
    lemma_trim(s);
    lemma_call_parts_join(trim(s));
    assert forall|i: int| 0 <= i < fields.len() implies field_reads(#[trigger] fields[i]) by {
        lemma_field_len(inner, i);
        lemma_type_part_len(fields[i]);
        if parse_type(type_part(fields[i])) is Ok {
            lemma_parsed(type_part(fields[i]));
        }
        lemma_parsed_field(fields[i]);
    }
}

/// The arguments of a text read well as a type.
pub proof fn lemma_parsed_arguments(s: Seq<char>)
    requires
        call_parts(trim(s)) is Some,
    ensures
        type_reads(arguments_of(s)),
    decreases s.len(), 0nat,
{
    lemma_trim(s);
    lemma_call_parts_join(trim(s));
    if parse_type(arguments_of(s)) is Ok {
        lemma_parsed(arguments_of(s));
    }
}

/// A text that reads as a type reads well: the type is as a description
/// denotes it, and the description that is written for the type may stand
/// for the text.
#[verifier::rlimit(40)]
pub proof fn lemma_parsed(s: Seq<char>)
    requires
        parse_type(s) is Ok,
    ensures
        reads_as(s, parse_type(s)->Ok_0),
    decreases s.len(), 1nat,
{
    if call_parts(trim(s)) is None {
        lemma_reads_scalar(s);
    } else {
        let head = head_of(s);
        if head == "FixedString"@ {
            lemma_reads_numbered(s);
        } else if head == "Decimal"@ {
            lemma_reads_decimal(s);
        } else if head == "Decimal32"@ || head == "Decimal64"@ || head == "Decimal128"@ || head
            == "Decimal256"@ {
            lemma_reads_numbered(s);
        } else if head == "DateTime"@ || head == "DateTime64"@ {
            lemma_reads_time(s);
        } else if is_wrapper_keyword(head) {
            lemma_parsed_arguments(s);
            lemma_reads_wrapped(s);
        } else if head == "Map"@ {
            lemma_parsed_type_fields(s);
            lemma_reads_map(s);
        } else if head == "Tuple"@ {
            lemma_parsed_tuple_fields(s);
            lemma_reads_tuple(s);
        } else if head == "Enum8"@ || head == "Enum16"@ {
            lemma_reads_enum(s);
        } else {
            lemma_parsed_type_fields(s);
            lemma_reads_aggregate(s);
        }
    }
}

/// Reading is stable under writing: a text that denotes a type denotes a
/// type whose description, as this library writes it, reads as the same
/// type.  So the description that is written after reading a text is the
/// description that is written after reading that description.
pub proof fn lemma_round_trip(s: Seq<char>)
    requires
        parse_type(s) is Ok,
    ensures
        parse_type(type_text(parse_type(s)->Ok_0)) == parse_type(s),
        parse_type(type_text(parse_type(s)->Ok_0)) is Ok,
        type_text(parse_type(type_text(parse_type(s)->Ok_0))->Ok_0) == type_text(
            parse_type(s)->Ok_0,
        ),
{
    lemma_parsed(s);
    lemma_parse_text(parse_type(s)->Ok_0);
}

} // verus!
