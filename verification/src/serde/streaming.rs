//! Decoding while the stream grows: what a decoder says of a stream, it says
//! of every stream that starts with it, unless it said that the data was not
//! enough.
use vstd::prelude::*;

use crate::error::Failure;
use crate::metadata::data_type::DataTypeView;
use crate::serde::buf::lemma_varint_end;
use crate::serde::buf::read_bytes;
use crate::serde::buf::read_size_at;
use crate::serde::buf::read_string;
use crate::serde::buf::read_varint;
use crate::serde::buf::varint_end;
use crate::serde::de::fixed_width;
use crate::serde::de::header_at;
use crate::serde::de::row_at;
use crate::serde::de::strings_at;
use crate::serde::de::type_at;
use crate::serde::de::types_at;
use crate::serde::de::value_at;

verus! {

/// What was read of a stream is settled by what is read of a longer one: a
/// value with the count of its bytes stays, a failure stays, and only the
/// want of data may turn into anything.
pub open spec fn settled<T>(
    before: core::result::Result<(T, nat), Failure>,
    after: core::result::Result<(T, nat), Failure>,
) -> bool {
    match before {
        Err(Failure::NotEnoughData) => true,
        _ => after == before,
    }
}

/// What was read took no more bytes than the stream has.
pub open spec fn within<T>(found: core::result::Result<(T, nat), Failure>, len: nat) -> bool {
    found matches Ok(pair) ==> pair.1 <= len
}

/// The end of a variable-length integer is found in a longer stream where
/// it was found, and missed where ten bytes were seen without it.
pub proof fn lemma_varint_end_extends(s: Seq<u8>, more: Seq<u8>, from: int)
    requires
        0 <= from,
    ensures
        varint_end(s, from) is Some ==> varint_end(s + more, from) == varint_end(s, from),
        varint_end(s, from) is None && s.len() >= 10 ==> varint_end(s + more, from) is None,
    decreases 10 - from,
{
    let longer = s + more;
    if from < 10 && from < s.len() {
        assert(longer[from] == s[from]);
        if s[from] >= 0x80 {
            lemma_varint_end_extends(s, more, from + 1);
        }
    }
}

/// A variable-length integer is settled by a longer stream.
pub proof fn lemma_varint_settled(s: Seq<u8>, more: Seq<u8>)
    ensures
        settled(read_varint(s), read_varint(s + more)),
        within(read_varint(s), s.len()),
{
    lemma_varint_end_extends(s, more, 0);
    lemma_varint_end(s, 0);
    match varint_end(s, 0) {
        Some(k) => {
            assert((s + more).take(k + 1) == s.take(k + 1));
        },
        None => {},
    }
}

/// A size is settled by a longer stream.
pub proof fn lemma_size_settled(s: Seq<u8>, more: Seq<u8>)
    ensures
        settled(read_size_at(s), read_size_at(s + more)),
        within(read_size_at(s), s.len()),
{
    lemma_varint_settled(s, more);
}

/// Bytes of a given count are settled by a longer stream.
pub proof fn lemma_bytes_settled(s: Seq<u8>, more: Seq<u8>, size: nat)
    ensures
        settled(read_bytes(s, size), read_bytes(s + more, size)),
        within(read_bytes(s, size), s.len()),
{
    if size <= s.len() {
        assert((s + more).take(size as int) == s.take(size as int));
    }
}

/// A string is settled by a longer stream.
pub proof fn lemma_string_settled(s: Seq<u8>, more: Seq<u8>)
    ensures
        settled(read_string(s), read_string(s + more)),
        within(read_string(s), s.len()),
{
    lemma_size_settled(s, more);
    match read_size_at(s) {
        Ok((size, n)) => {
            assert((s + more).skip(n as int) == s.skip(n as int) + more);
            lemma_bytes_settled(s.skip(n as int), more, size as nat);
        },
        Err(_) => {},
    }
}

/// A value is settled by a longer stream: once it is read it stays as it
/// is, and a failure other than the want of data stays a failure whatever
/// bytes follow.
pub proof fn lemma_value_settled(ty: DataTypeView, s: Seq<u8>, more: Seq<u8>)
    ensures
        settled(value_at(ty, s), value_at(ty, s + more)),
        within(value_at(ty, s), s.len()),
    decreases ty,
{
    match fixed_width(ty) {
        Some(width) => {
            if s.len() >= width {
                assert((s + more).take(width as int) == s.take(width as int));
            }
        },
        None => {
            match ty {
                DataTypeView::Bool => {
                    if s.len() > 0 {
                        assert((s + more)[0] == s[0]);
                    }
                },
                DataTypeView::String => {
                    lemma_size_settled(s, more);
                    match read_size_at(s) {
                        Ok((size, n)) => {
                            assert((s + more).skip(n as int) == s.skip(n as int) + more);
                            lemma_bytes_settled(s.skip(n as int), more, size as nat);
                        },
                        Err(_) => {},
                    }
                },
                DataTypeView::Nullable(inner) => {
                    if s.len() > 0 {
                        assert((s + more)[0] == s[0]);
                        assert((s + more).skip(1) == s.skip(1) + more);
                        lemma_value_settled(*inner, s.skip(1), more);
                    }
                },
                _ => {},
            }
        },
    }
}

/// A row is settled by a longer stream.
pub proof fn lemma_row_settled(types: Seq<DataTypeView>, s: Seq<u8>, more: Seq<u8>)
    ensures
        settled(row_at(types, s), row_at(types, s + more)),
        within(row_at(types, s), s.len()),
    decreases types.len(),
{
    if types.len() > 0 {
        lemma_row_settled(types.drop_last(), s, more);
        match row_at(types.drop_last(), s) {
            Ok((values, n)) => {
                assert((s + more).skip(n as int) == s.skip(n as int) + more);
                lemma_value_settled(types.last(), s.skip(n as int), more);
            },
            Err(_) => {},
        }
    }
}

/// Strings of a given count are settled by a longer stream.
pub proof fn lemma_strings_settled(s: Seq<u8>, more: Seq<u8>, count: nat)
    ensures
        settled(strings_at(s, count), strings_at(s + more, count)),
        within(strings_at(s, count), s.len()),
    decreases count,
{
    if count > 0 {
        lemma_strings_settled(s, more, (count - 1) as nat);
        match strings_at(s, (count - 1) as nat) {
            Ok((texts, n)) => {
                assert((s + more).skip(n as int) == s.skip(n as int) + more);
                lemma_string_settled(s.skip(n as int), more);
            },
            Err(_) => {},
        }
    }
}

/// The description of a type is settled by a longer stream.
pub proof fn lemma_type_settled(s: Seq<u8>, more: Seq<u8>)
    ensures
        settled(type_at(s), type_at(s + more)),
        within(type_at(s), s.len()),
{
    lemma_string_settled(s, more);
}

/// Types of a given count are settled by a longer stream.
pub proof fn lemma_types_settled(s: Seq<u8>, more: Seq<u8>, count: nat)
    ensures
        settled(types_at(s, count), types_at(s + more, count)),
        within(types_at(s, count), s.len()),
    decreases count,
{
    if count > 0 {
        lemma_types_settled(s, more, (count - 1) as nat);
        match types_at(s, (count - 1) as nat) {
            Ok((types, n)) => {
                assert((s + more).skip(n as int) == s.skip(n as int) + more);
                lemma_type_settled(s.skip(n as int), more);
            },
            Err(_) => {},
        }
    }
}

/// A header is settled by a longer stream.
pub proof fn lemma_header_settled(s: Seq<u8>, more: Seq<u8>)
    ensures
        settled(header_at(s), header_at(s + more)),
        within(header_at(s), s.len()),
{
    lemma_varint_settled(s, more);
    match read_varint(s) {
        Ok((count, n)) => {
            let names_from = s.skip(n as int);
            assert((s + more).skip(n as int) == names_from + more);
            lemma_strings_settled(names_from, more, count as nat);
            match strings_at(names_from, count as nat) {
                Ok((names, m)) => {
                    let types_from = s.skip((n + m) as int);
                    assert((s + more).skip((n + m) as int) == types_from + more);
                    lemma_types_settled(types_from, more, count as nat);
                },
                Err(_) => {},
            }
        },
        Err(_) => {},
    }
}

} // verus!
