//! The argument list of a composite type: its fields, split at the commas
//! that no bracket encloses.
use vstd::prelude::*;

use crate::error::Error;
use crate::error::Failure;
use crate::error::Result;
use crate::metadata::data_type::elements_view;
use crate::metadata::data_type::fields_view;
use crate::metadata::data_type::lemma_fields_view_push;
use crate::metadata::data_type::lemma_types_view_push;
use crate::metadata::data_type::parse_number_chars;
use crate::metadata::data_type::types_view;
use crate::metadata::data_type::AggFunc;
use crate::metadata::data_type::AggFuncView;
use crate::metadata::data_type::DataType;
use crate::metadata::data_type::DataTypeView;
use crate::metadata::data_type::EnumCode;
use crate::metadata::grammar::comma_pieces;
use crate::metadata::grammar::enum_element;
use crate::metadata::grammar::enum_elements;
use crate::metadata::grammar::parse_agg_fields;
use crate::metadata::grammar::parse_enum_list;
use crate::metadata::grammar::parse_map_fields;
use crate::metadata::grammar::parse_tuple_field as parse_tuple_field_spec;
use crate::metadata::grammar::parse_tuple_fields;
use crate::metadata::grammar::parse_types;
use crate::text::count_char;
use crate::text::find_char;
use crate::text::char_is_whitespace;
use crate::text::is_whitespace;
use crate::text::from_chars;
use crate::text::lemma_first_index_of;
use crate::text::prefixed;
use crate::text::strip_quotes_chars;
use crate::text::slice_after;
use crate::text::slice_before;
use crate::text::lemma_trim;
use crate::text::slice_of;
use crate::text::to_chars;
use crate::text::trim;
use crate::text::trim_chars;

verus! {

/// How many `(` of `s` are still open at its end; `None` once a `)` comes
/// that closes nothing.
pub open spec fn open_brackets(s: Seq<char>) -> Option<nat>
    decreases s.len(),
{
    if s.len() == 0 {
        Some(0)
    } else {
        match open_brackets(s.drop_last()) {
            None => None,
            Some(d) => if s.last() == '(' {
                Some(d + 1)
            } else if s.last() == ')' {
                if d == 0 {
                    None
                } else {
                    Some((d - 1) as nat)
                }
            } else {
                Some(d)
            },
        }
    }
}

/// Every `(` of `s` is closed by a later `)`, and every `)` closes one.
pub open spec fn is_balanced(s: Seq<char>) -> bool {
    open_brackets(s) == Some(0nat)
}

/// Position `i` of `s` holds a comma that ends a field: what stands before
/// it has balanced brackets.
pub open spec fn is_field_end(s: Seq<char>, i: int) -> bool {
    0 <= i < s.len() && s[i] == ',' && is_balanced(s.take(i))
}

/// The first position from `from` on that ends a field.
pub open spec fn first_field_end(s: Seq<char>, from: int) -> Option<int>
    decreases s.len() - from,
{
    if from < 0 || from >= s.len() {
        None
    } else if is_field_end(s, from) {
        Some(from)
    } else {
        first_field_end(s, from + 1)
    }
}

/// Position `k` of a field of a tuple holds white space that parts a name
/// from a type: it stands outside every bracket, what stands before it
/// having balanced brackets.
pub open spec fn is_name_end(t: Seq<char>, k: int) -> bool {
    0 <= k < t.len() && is_whitespace(t[k]) && is_balanced(t.take(k))
}

/// The first position from `from` on that parts a name from a type.
pub open spec fn first_name_end(t: Seq<char>, from: int) -> Option<int>
    decreases t.len() - from,
{
    if from < 0 || from >= t.len() {
        None
    } else if is_name_end(t, from) {
        Some(from)
    } else {
        first_name_end(t, from + 1)
    }
}

/// The first position that parts a name from a type does so, and none lies
/// between.
pub proof fn lemma_first_name_end(t: Seq<char>, from: int)
    requires
        0 <= from,
    ensures
        match first_name_end(t, from) {
            Some(k) => from <= k < t.len() && is_name_end(t, k) && forall|j: int|
                from <= j < k ==> !is_name_end(t, j),
            None => forall|j: int| from <= j ==> !is_name_end(t, j),
        },
    decreases t.len() - from,
{
    if from < t.len() && !is_name_end(t, from) {
        lemma_first_name_end(t, from + 1);
    }
}

/// The fields of an argument list, each without the white space around it:
/// the text is cut at each comma that ends a field, and what follows the last
/// such comma, unless it is empty, is the last field.
pub open spec fn split_fields(s: Seq<char>) -> Seq<Seq<char>>
    decreases s.len(),
{
    if s.len() == 0 {
        Seq::empty()
    } else {
        match first_field_end(s, 0) {
            Some(i) => {
                proof {
                    lemma_first_field_end(s, 0);
                }
                seq![trim(s.take(i))] + split_fields(s.skip(i + 1))
            },
            None => seq![trim(s)],
        }
    }
}

/// `s[i]` is `p`, and `p` occurs `skip` times before it.
pub open spec fn is_nth_index_of(s: Seq<char>, p: char, skip: nat, i: int) -> bool {
    0 <= i < s.len() && s[i] == p && count_char(s.take(i), p) == skip
}

/// A longer prefix holds a character at least as often as a shorter one,
/// and just as often only where the character does not stand between their
/// ends.
pub proof fn lemma_count_char_take(s: Seq<char>, p: char, a: int, b: int)
    requires
        0 <= a <= b <= s.len(),
    ensures
        count_char(s.take(a), p) <= count_char(s.take(b), p),
        count_char(s.take(a), p) == count_char(s.take(b), p) ==> forall|j: int|
            a <= j < b ==> s[j] != p,
    decreases b - a,
{
    if a < b {
        lemma_count_char_take(s, p, a, b - 1);
        assert(s.take(b).drop_last() == s.take(b - 1));
    }
}

/// At most one position is occurrence number `skip`.
pub proof fn lemma_nth_index_of_unique(s: Seq<char>, p: char, skip: nat, i: int, j: int)
    requires
        is_nth_index_of(s, p, skip, i),
        is_nth_index_of(s, p, skip, j),
    ensures
        i == j,
{
    if i < j {
        lemma_count_char_take(s, p, i + 1, j);
        assert(s.take(i + 1).drop_last() == s.take(i));
    } else if j < i {
        lemma_count_char_take(s, p, j + 1, i);
        assert(s.take(j + 1).drop_last() == s.take(j));
    }
}

/// The first field end from `from` on is a field end, and none lies between.
pub proof fn lemma_first_field_end(s: Seq<char>, from: int)
    requires
        0 <= from,
    ensures
        match first_field_end(s, from) {
            Some(i) => from <= i < s.len() && is_field_end(s, i) && forall|j: int|
                from <= j < i ==> !is_field_end(s, j),
            None => forall|j: int| from <= j ==> !is_field_end(s, j),
        },
    decreases s.len() - from,
{
    if from < s.len() && !is_field_end(s, from) {
        lemma_first_field_end(s, from + 1);
    }
}

/// Once a `)` has closed nothing, no longer prefix is balanced: none of the
/// commas behind it ends a field.
pub proof fn lemma_unmatched_close_never_balances(s: Seq<char>, k: int, i: int)
    requires
        0 <= k <= i <= s.len(),
        open_brackets(s.take(k)) is None,
    ensures
        open_brackets(s.take(i)) is None,
        !is_balanced(s.take(i)),
        !is_field_end(s, i),
    decreases i - k,
{
    if k < i {
        lemma_unmatched_close_never_balances(s, k, i - 1);
        assert(s.take(i).drop_last() == s.take(i - 1));
    }
}

/// A text in which some `)` closes nothing is one field whatever commas
/// follow that bracket, as long as no comma before it ends a field.
pub proof fn lemma_unmatched_close_single_field(s: Seq<char>, k: int)
    requires
        0 <= k <= s.len(),
        open_brackets(s.take(k)) is None,
        forall|j: int| 0 <= j < k ==> !is_field_end(s, j),
    ensures
        first_field_end(s, 0) is None,
        s.len() > 0 ==> split_fields(s) == seq![trim(s)],
{
    lemma_first_field_end(s, 0);
    if first_field_end(s, 0) is Some {
        let i = first_field_end(s, 0).unwrap();
        if i >= k {
            lemma_unmatched_close_never_balances(s, k, i);
        }
    }
}

/// Whether the brackets of `s` are balanced.
pub fn is_balanced_brackets(s: &[char]) -> (b: bool)
    ensures
        b == is_balanced(s@),
{
    let mut depth: usize = 0;
    let mut i: usize = 0;
    assert(s@.take(0) == Seq::<char>::empty());
    while i < s.len()
        invariant
            i <= s@.len(),
            depth <= i,
            open_brackets(s@.take(i as int)) == Some(depth as nat),
        decreases s@.len() - i,
    {
        assert(s@.take(i + 1).drop_last() == s@.take(i as int));
        if s[i] == '(' {
            depth = depth + 1;
        } else if s[i] == ')' {
            if depth == 0 {
                proof {
                    lemma_unmatched_close_never_balances(s@, i + 1, s@.len() as int);
                    assert(s@.take(s@.len() as int) == s@);
                }
                return false;
            }
            depth = depth - 1;
        }
        i = i + 1;
    }
    assert(s@.take(i as int) == s@);
    depth == 0
}

/// Finding an occurrence of a character by its number.
pub trait FindSkip {
    /// The position of occurrence number `skip_num`, counted from 0, of `p`.
    fn find_skip(&self, p: char, skip_num: usize) -> Option<usize>;
}

impl FindSkip for [char] {
    fn find_skip(&self, p: char, skip_num: usize) -> (r: Option<usize>)
        ensures
            match r {
                Some(i) => is_nth_index_of(self@, p, skip_num as nat, i as int),
                None => count_char(self@, p) <= skip_num,
            },
    {
        let mut seen: usize = 0;
        let mut i: usize = 0;
        assert(self@.take(0) == Seq::<char>::empty());
        while i < self.len()
            invariant
                i <= self@.len(),
                seen <= skip_num,
                seen == count_char(self@.take(i as int), p),
            decreases self@.len() - i,
        {
            assert(self@.take(i + 1).drop_last() == self@.take(i as int));
            if self[i] == p {
                if seen == skip_num {
                    return Some(i);
                }
                seen = seen + 1;
            }
            i = i + 1;
        }
        assert(self@.take(i as int) == self@);
        None
    }
}

impl FindSkip for str {
    fn find_skip(&self, p: char, skip_num: usize) -> (r: Option<usize>)
        ensures
            match r {
                Some(i) => is_nth_index_of(self@, p, skip_num as nat, i as int),
                None => count_char(self@, p) <= skip_num,
            },
    {
        let chars = to_chars(self);
        chars.as_slice().find_skip(p, skip_num)
    }
}

/// The texts that a list of pieces holds.
pub open spec fn texts(pieces: Seq<&[char]>) -> Seq<Seq<char>> {
    Seq::new(pieces.len(), |i: int| pieces[i]@)
}

/// Splits an argument list into its fields.
pub fn split_to_fields(inner: &[char]) -> (fields: Vec<&[char]>)
    ensures
        texts(fields@) == split_fields(inner@),
{
    let mut fields: Vec<&[char]> = Vec::new();
    let mut remaining: &[char] = inner;
    let mut skip: usize = 0;
    let ghost mut checked: int = 0;
    assert(texts(fields@) == Seq::<Seq<char>>::empty());
    assert(remaining@.take(0) == Seq::<char>::empty());
    while remaining.len() > 0
        invariant
            texts(fields@) + split_fields(remaining@) == split_fields(inner@),
            0 <= checked <= remaining@.len(),
            count_char(remaining@.take(checked), ',') == skip,
            forall|j: int| 0 <= j < checked ==> !is_field_end(remaining@, j),
            skip <= checked,
        decreases remaining@.len(), remaining@.len() - checked,
    {
        let ghost text = remaining@;
        proof {
            lemma_first_field_end(text, 0);
        }
        match remaining.find_skip(',', skip) {
            Some(idx) => {
                proof {
                    if idx < checked {
                        lemma_count_char_take(text, ',', idx + 1, checked);
                        assert(text.take(idx + 1).drop_last() == text.take(idx as int));
                    }
                    lemma_count_char_take(text, ',', checked, idx as int);
                }
                let field: &[char] = slice_of(remaining, 0, idx);
                assert(field@ == text.take(idx as int));
                if is_balanced_brackets(field) {
                    let trimmed: &[char] = trim_chars(field);
                    let ghost before = texts(fields@);
                    fields.push(trimmed);
                    remaining = slice_of(remaining, idx + 1, remaining.len());
                    skip = 0;
                    proof {
                        assert(is_field_end(text, idx as int));
                        assert(first_field_end(text, 0) == Some(idx as int));
                        assert(remaining@ == text.skip(idx + 1));
                        assert(texts(fields@) == before + seq![trim(text.take(idx as int))]);
                        assert(split_fields(text) == seq![trim(text.take(idx as int))]
                            + split_fields(remaining@));
                        checked = 0;
                        assert(remaining@.take(0) == Seq::<char>::empty());
                    }
                } else {
                    proof {
                        assert(text.take(idx + 1).drop_last() == text.take(idx as int));
                        checked = idx + 1;
                    }
                    skip = skip + 1;
                }
            },
            None => {
                proof {
                    lemma_count_char_take(text, ',', checked, text.len() as int);
                    assert(text.take(text.len() as int) == text);
                    assert(first_field_end(text, 0) is None);
                }
                let trimmed: &[char] = trim_chars(remaining);
                let ghost before = texts(fields@);
                fields.push(trimmed);
                remaining = slice_of(remaining, 0, 0);
                skip = 0;
                proof {
                    assert(texts(fields@) == before + seq![trim(text)]);
                    assert(remaining@ == Seq::<char>::empty());
                    checked = 0;
                    assert(remaining@.take(0) == Seq::<char>::empty());
                }
            },
        }
    }
    assert(split_fields(remaining@) == Seq::<Seq<char>>::empty());
    assert(texts(fields@) + Seq::<Seq<char>>::empty() == texts(fields@));
    fields
}

/// The length of all the fields together, one more counted for each.
pub open spec fn total_weight(fields: Seq<Seq<char>>) -> nat
    decreases fields.len(),
{
    if fields.len() == 0 {
        0
    } else {
        total_weight(fields.drop_last()) + fields.last().len() + 1
    }
}

/// A field in front of others adds its length and one to their weight.
pub proof fn lemma_total_weight_prepend(first: Seq<char>, rest: Seq<Seq<char>>)
    ensures
        total_weight(seq![first] + rest) == first.len() + 1 + total_weight(rest),
    decreases rest.len(),
{
    let all = seq![first] + rest;
    if rest.len() == 0 {
        assert(all.drop_last() == Seq::<Seq<char>>::empty());
        assert(all.last() == first);
        assert(total_weight(all.drop_last()) == 0);
    } else {
        lemma_total_weight_prepend(first, rest.drop_last());
        assert(all.drop_last() == seq![first] + rest.drop_last());
        assert(all.last() == rest.last());
    }
}

/// Fields without the first of them weigh no more than all of them.
pub proof fn lemma_total_weight_skip(fields: Seq<Seq<char>>, k: int)
    requires
        0 <= k <= fields.len(),
    ensures
        total_weight(fields.skip(k)) <= total_weight(fields),
    decreases fields.len(),
{
    if k == fields.len() {
        assert(fields.skip(k) == Seq::<Seq<char>>::empty());
    } else {
        lemma_total_weight_skip(fields.drop_last(), k);
        assert(fields.skip(k).drop_last() == fields.drop_last().skip(k));
        assert(fields.skip(k).last() == fields.last());
    }
}

/// The fields of a text weigh no more than the text is long, and one.
pub proof fn lemma_split_weight(s: Seq<char>)
    ensures
        total_weight(split_fields(s)) <= s.len() + 1,
    decreases s.len(),
{
    if s.len() > 0 {
        lemma_first_field_end(s, 0);
        match first_field_end(s, 0) {
            Some(i) => {
                lemma_split_weight(s.skip(i + 1));
                lemma_trim(s.take(i));
                lemma_total_weight_prepend(trim(s.take(i)), split_fields(s.skip(i + 1)));
            },
            None => {
                lemma_trim(s);
                lemma_total_weight_prepend(trim(s), Seq::empty());
                assert(seq![trim(s)] + Seq::<Seq<char>>::empty() == seq![trim(s)]);
            },
        }
    }
}

/// Each field weighs less than all of them together.
pub proof fn lemma_total_weight_index(fields: Seq<Seq<char>>, i: int)
    requires
        0 <= i < fields.len(),
    ensures
        fields[i].len() < total_weight(fields),
    decreases fields.len(),
{
    if i < fields.len() - 1 {
        lemma_total_weight_index(fields.drop_last(), i);
    }
}

/// Reads the types of the fields from position `from` on.
fn parse_type_list(fields: &Vec<&[char]>, from: usize, Ghost(bound): Ghost<nat>) -> (r: Result<
    Vec<DataType>,
>)
    requires
        from <= fields@.len(),
        total_weight(texts(fields@)) <= bound,
    ensures
        match r {
            Ok(types) => types@.len() == fields@.len() - from && parse_types(
                texts(fields@).skip(from as int),
            ) == Ok::<Seq<DataTypeView>, Failure>(types_view(types@)),
            Err(e) => parse_types(texts(fields@).skip(from as int)) == Err::<
                Seq<DataTypeView>,
                Failure,
            >(e@),
        },
    decreases bound, 0nat,
{
    let ghost all = texts(fields@).skip(from as int);
    let mut types: Vec<DataType> = Vec::new();
    let mut i: usize = from;
    assert(all.take(0) == Seq::<Seq<char>>::empty());
    assert(types_view(types@) == Seq::<DataTypeView>::empty());
    while i < fields.len()
        invariant
            from <= i <= fields@.len(),
            types@.len() == i - from,
            all == texts(fields@).skip(from as int),
            total_weight(texts(fields@)) <= bound,
            parse_types(all.take(i - from)) == Ok::<Seq<DataTypeView>, Failure>(
                types_view(types@),
            ),
        decreases fields@.len() - i,
    {
        proof {
            lemma_total_weight_index(texts(fields@), i as int);
            assert(all.take(i - from + 1).drop_last() == all.take(i - from));
            assert(all.take(i - from + 1).last() == fields@[i as int]@);
        }
        match DataType::from_chars(fields[i]) {
            Ok(ty) => {
                proof {
                    lemma_types_view_push(types@, ty);
                }
                types.push(ty);
            },
            Err(e) => {
                proof {
                    lemma_parse_types_failure(all, i - from + 1);
                }
                return Err(e);
            },
        }
        i = i + 1;
    }
    assert(all.take(i - from) == all);
    Ok(types)
}

/// A failure among the first fields is the failure of the whole list.
pub proof fn lemma_parse_types_failure(fields: Seq<Seq<char>>, k: int)
    requires
        0 <= k <= fields.len(),
        parse_types(fields.take(k)) is Err,
    ensures
        parse_types(fields) == parse_types(fields.take(k)),
    decreases fields.len() - k,
{
    if k == fields.len() {
        assert(fields.take(k) == fields);
    } else {
        assert(fields.take(k + 1).drop_last() == fields.take(k));
        lemma_parse_types_failure(fields, k + 1);
    }
}

/// A failure among the first fields of a tuple is the failure of the tuple.
pub proof fn lemma_parse_tuple_fields_failure(fields: Seq<Seq<char>>, k: int)
    requires
        0 <= k <= fields.len(),
        parse_tuple_fields(fields.take(k)) is Err,
    ensures
        parse_tuple_fields(fields) == parse_tuple_fields(fields.take(k)),
    decreases fields.len() - k,
{
    if k == fields.len() {
        assert(fields.take(k) == fields);
    } else {
        assert(fields.take(k + 1).drop_last() == fields.take(k));
        lemma_parse_tuple_fields_failure(fields, k + 1);
    }
}

/// A failure among the first pieces of an enum is the failure of the enum.
pub proof fn lemma_enum_elements_failure(pieces: Seq<Seq<char>>, k: int, min: int, max: int)
    requires
        0 <= k <= pieces.len(),
        enum_elements(pieces.take(k), min, max) is Err,
    ensures
        enum_elements(pieces, min, max) == enum_elements(pieces.take(k), min, max),
    decreases pieces.len() - k,
{
    if k == pieces.len() {
        assert(pieces.take(k) == pieces);
    } else {
        assert(pieces.take(k + 1).drop_last() == pieces.take(k));
        lemma_enum_elements_failure(pieces, k + 1, min, max);
    }
}

/// The key and value types of the argument list of a `Map`.
pub fn parse_map(inner: &[char]) -> (r: Result<(DataType, DataType)>)
    ensures
        match r {
            Ok(pair) => parse_map_fields(inner@, split_fields(inner@)) == Ok::<
                (DataTypeView, DataTypeView),
                Failure,
            >((pair.0@, pair.1@)),
            Err(e) => parse_map_fields(inner@, split_fields(inner@)) == Err::<
                (DataTypeView, DataTypeView),
                Failure,
            >(e@),
        },
    decreases inner@.len() + 1, 2nat,
{
    let fields: Vec<&[char]> = split_to_fields(inner);
    if fields.len() != 2 {
        let mut text: String = prefixed("Can't parse map type: Map(", inner);
        text.append(")");
        return Err(Error::ParseTypeError(text));
    }
    proof {
        lemma_split_weight(inner@);
        assert(texts(fields@).skip(0) == texts(fields@));
    }
    match parse_type_list(&fields, 0, Ghost(inner@.len() + 1)) {
        Ok(mut types) => {
            let value: DataType = types.pop().unwrap();
            let key: DataType = types.pop().unwrap();
            Ok((key, value))
        },
        Err(e) => Err(e),
    }
}

/// The function and the argument types of the argument list of an aggregate
/// function.
pub fn parse_agg_func(inner: &[char]) -> (r: Result<(AggFunc, Vec<DataType>)>)
    ensures
        match r {
            Ok(pair) => parse_agg_fields(inner@, split_fields(inner@)) == Ok::<
                (AggFuncView, Seq<DataTypeView>),
                Failure,
            >((pair.0@, types_view(pair.1@))),
            Err(e) => parse_agg_fields(inner@, split_fields(inner@)) == Err::<
                (AggFuncView, Seq<DataTypeView>),
                Failure,
            >(e@),
        },
    decreases inner@.len() + 1, 2nat,
{
    let fields: Vec<&[char]> = split_to_fields(inner);
    if fields.len() == 0 {
        return Err(
            Error::ParseTypeError(prefixed("No aggregate function name found, type: ", inner)),
        );
    }
    proof {
        lemma_split_weight(inner@);
    }
    let func: AggFunc = AggFunc::from_chars(fields[0]);
    match parse_type_list(&fields, 1, Ghost(inner@.len() + 1)) {
        Ok(types) => Ok((func, types)),
        Err(e) => Err(e),
    }
}

/// The first position of a field of a tuple that parts a name from a type.
pub fn find_name_end(t: &[char]) -> (r: Option<usize>)
    ensures
        match r {
            Some(k) => first_name_end(t@, 0) == Some(k as int),
            None => first_name_end(t@, 0) is None,
        },
{
    let mut depth: usize = 0;
    let mut i: usize = 0;
    assert(t@.take(0) == Seq::<char>::empty());
    proof {
        lemma_first_name_end(t@, 0);
    }
    while i < t.len()
        invariant
            i <= t@.len(),
            depth <= i,
            open_brackets(t@.take(i as int)) == Some(depth as nat),
            forall|j: int| 0 <= j < i ==> !is_name_end(t@, j),
        decreases t@.len() - i,
    {
        proof {
            assert(t@.take(i + 1).drop_last() == t@.take(i as int));
            lemma_first_name_end(t@, 0);
        }
        let c: char = t[i];
        if c == '(' {
            depth = depth + 1;
        } else if c == ')' {
            if depth == 0 {
                proof {
                    assert forall|j: int| i < j implies !is_name_end(t@, j) by {
                        if j < t@.len() {
                            lemma_unmatched_close_never_balances(t@, i + 1, j);
                        }
                    }
                }
                return None;
            }
            depth = depth - 1;
        } else if depth == 0 && char_is_whitespace(c) {
            assert(is_balanced(t@.take(i as int)));
            assert(is_name_end(t@, i as int));
            return Some(i);
        }
        i = i + 1;
    }
    None
}

/// One field of a tuple: its name, empty where it has none, and its type.
/// The name is what stands before the first white space outside every
/// bracket of the field.
pub fn parse_tuple_field(field: &[char]) -> (r: Result<(String, DataType)>)
    ensures
        match r {
            Ok(pair) => parse_tuple_field_spec(field@) == Ok::<(Seq<char>, DataTypeView), Failure>(
                (pair.0@, pair.1@),
            ),
            Err(e) => parse_tuple_field_spec(field@) == Err::<(Seq<char>, DataTypeView), Failure>(
                e@,
            ),
        },
    decreases field@.len(), 2nat,
{
    let t: &[char] = trim_chars(field);
    proof {
        lemma_trim(field@);
        lemma_first_name_end(t@, 0);
    }
    match find_name_end(t) {
        None => match DataType::from_chars(t) {
            Ok(ty) => Ok((String::new(), ty)),
            Err(e) => Err(e),
        },
        Some(k) => match DataType::from_chars(slice_after(t, k)) {
            Ok(ty) => Ok((from_chars(slice_before(t, k)), ty)),
            Err(e) => Err(e),
        },
    }
}

/// The fields of the argument list of a tuple.
pub fn parse_tuple(inner: &[char]) -> (r: Result<Vec<(String, DataType)>>)
    ensures
        match r {
            Ok(fields) => parse_tuple_fields(split_fields(inner@)) == Ok::<
                Seq<(Seq<char>, DataTypeView)>,
                Failure,
            >(fields_view(fields@)),
            Err(e) => parse_tuple_fields(split_fields(inner@)) == Err::<
                Seq<(Seq<char>, DataTypeView)>,
                Failure,
            >(e@),
        },
    decreases inner@.len() + 1, 2nat,
{
    let fields: Vec<&[char]> = split_to_fields(inner);
    let ghost all = texts(fields@);
    let mut parsed: Vec<(String, DataType)> = Vec::new();
    let mut i: usize = 0;
    proof {
        lemma_split_weight(inner@);
        assert(all.take(0) == Seq::<Seq<char>>::empty());
        assert(fields_view(parsed@) == Seq::<(Seq<char>, DataTypeView)>::empty());
    }
    while i < fields.len()
        invariant
            i <= fields@.len(),
            all == texts(fields@),
            all == split_fields(inner@),
            total_weight(all) <= inner@.len() + 1,
            parse_tuple_fields(all.take(i as int)) == Ok::<
                Seq<(Seq<char>, DataTypeView)>,
                Failure,
            >(fields_view(parsed@)),
        decreases fields@.len() - i,
    {
        proof {
            lemma_total_weight_index(all, i as int);
            assert(all.take(i + 1).drop_last() == all.take(i as int));
            assert(all.take(i + 1).last() == fields@[i as int]@);
        }
        match parse_tuple_field(fields[i]) {
            Ok(pair) => {
                proof {
                    lemma_fields_view_push(parsed@, pair);
                }
                parsed.push(pair);
            },
            Err(e) => {
                proof {
                    lemma_parse_tuple_fields_failure(all, i + 1);
                }
                return Err(e);
            },
        }
        i = i + 1;
    }
    assert(all.take(i as int) == all);
    Ok(parsed)
}

/// One piece of the argument list of an enum.
fn parse_enum_element<T: EnumCode>(piece: &[char]) -> (r: Result<Option<(String, T)>>)
    ensures
        match r {
            Ok(Some(pair)) => enum_element(piece@, T::least(), T::greatest()) == Ok::<
                Option<(Seq<char>, int)>,
                Failure,
            >(Some((pair.0@, pair.1.code()))),
            Ok(None) => enum_element(piece@, T::least(), T::greatest()) == Ok::<
                Option<(Seq<char>, int)>,
                Failure,
            >(None),
            Err(e) => enum_element(piece@, T::least(), T::greatest()) == Err::<
                Option<(Seq<char>, int)>,
                Failure,
            >(e@),
        },
{
    let element: &[char] = trim_chars(piece);
    if element.len() == 0 {
        return Ok(None);
    }
    match find_char(element, '=') {
        None => Err(Error::ParseTypeError(prefixed("invalid tuple element: ", element))),
        Some(k) => {
            proof {
                lemma_first_index_of(element@, '=');
            }
            let bounds: (i128, i128) = T::bounds();
            match parse_number_chars(slice_after(element, k), bounds.0, bounds.1) {
                Ok(code) => {
                    let name: String = from_chars(
                        strip_quotes_chars(trim_chars(slice_before(element, k))),
                    );
                    Ok(Some((name, T::from_code(code))))
                },
                Err(e) => Err(e),
            }
        },
    }
}

/// The names and codes of the argument list of an enum: `'name' = code`
/// between commas.
pub fn parse_enum<T: EnumCode>(inner: &[char]) -> (r: Result<Vec<(String, T)>>)
    ensures
        match r {
            Ok(elements) => parse_enum_list(inner@, T::least(), T::greatest()) == Ok::<
                Seq<(Seq<char>, int)>,
                Failure,
            >(elements_view(elements@)),
            Err(e) => parse_enum_list(inner@, T::least(), T::greatest()) == Err::<
                Seq<(Seq<char>, int)>,
                Failure,
            >(e@),
        },
{
    let mut elements: Vec<(String, T)> = Vec::new();
    let mut remaining: &[char] = inner;
    let mut last: bool = false;
    let ghost mut done: Seq<Seq<char>> = Seq::empty();
    proof {
        assert(done + comma_pieces(inner@) == comma_pieces(inner@));
        assert(elements_view(elements@) == Seq::<(Seq<char>, int)>::empty());
    }
    while !last
        invariant
            !last ==> done + comma_pieces(remaining@) == comma_pieces(inner@),
            last ==> done == comma_pieces(inner@),
            enum_elements(done, T::least(), T::greatest()) == Ok::<Seq<(Seq<char>, int)>, Failure>(
                elements_view(elements@),
            ),
        decreases
                if last {
                    0
                } else {
                    remaining@.len() + 1
                },
    {
        let ghost text = remaining@;
        proof {
            lemma_first_index_of(text, ',');
        }
        let piece: &[char] = match find_char(remaining, ',') {
            Some(i) => {
                let piece: &[char] = slice_before(remaining, i);
                remaining = slice_after(remaining, i);
                piece
            },
            None => {
                last = true;
                remaining
            },
        };
        let ghost next = done.push(piece@);
        proof {
            assert(next.drop_last() == done);
            if last {
                assert(done + seq![text] == next);
            } else {
                assert(done + (seq![piece@] + comma_pieces(remaining@)) == next + comma_pieces(
                    remaining@,
                ));
            }
        }
        match parse_enum_element::<T>(piece) {
            Ok(Some(pair)) => {
                let ghost before = elements_view(elements@);
                let ghost view = (pair.0@, pair.1.code());
                elements.push(pair);
                assert(elements_view(elements@) == before.push(view));
            },
            Ok(None) => {},
            Err(e) => {
                proof {
                    let all = comma_pieces(inner@);
                    if last {
                        assert(all.take(all.len() as int) == all);
                    } else {
                        assert(all.take(next.len() as int) == next);
                        lemma_enum_elements_failure(
                            all,
                            next.len() as int,
                            T::least(),
                            T::greatest(),
                        );
                    }
                }
                return Err(e);
            },
        }
        proof {
            done = next;
        }
    }
    Ok(elements)
}

} // verus!
