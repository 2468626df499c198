//! Universally unique identifiers.
use vstd::prelude::*;
use vstd::std_specs::convert::FromSpecImpl;

verus! {

/// A universally unique identifier: its sixteen bytes as they come from the
/// wire, the first three fields with their least significant byte first.
#[derive(Debug, Clone, Copy, Hash, PartialEq, Eq)]
pub struct Uuid(pub [u8; 16]);

impl View for Uuid {
    type V = Seq<u8>;

    open spec fn view(&self) -> Seq<u8> {
        self.0@
    }
}

/// The hexadecimal digit of a number below sixteen, in lower case.
pub open spec fn hex_digit(n: nat) -> char {
    if n < 10 {
        (0x30 + n) as char
    } else {
        (0x61 + n - 10) as char
    }
}

/// The two hexadecimal digits of each byte, one byte after the other.
pub open spec fn hex_text(bytes: Seq<u8>) -> Seq<char>
    decreases bytes.len(),
{
    if bytes.len() == 0 {
        Seq::empty()
    } else {
        hex_text(bytes.drop_last()) + seq![
            hex_digit((bytes.last() / 16) as nat),
            hex_digit((bytes.last() % 16) as nat),
        ]
    }
}

/// The bytes of an identifier in the order in which they are written: the
/// bytes of each of the first three fields, of four, two and two bytes, are
/// turned round; the last eight bytes stay.
pub open spec fn written_order(bytes: Seq<u8>) -> Seq<u8> {
    seq![bytes[3], bytes[2], bytes[1], bytes[0], bytes[5], bytes[4], bytes[7], bytes[6]]
        + bytes.skip(8)
}

/// The text of an identifier: its bytes in the order in which they are
/// written, in hexadecimal digits, with hyphens behind the fourth, sixth,
/// eighth and tenth byte.
pub open spec fn uuid_text(bytes: Seq<u8>) -> Seq<char> {
    let b = written_order(bytes);
    hex_text(b.subrange(0, 4)) + seq!['-'] + hex_text(b.subrange(4, 6)) + seq!['-'] + hex_text(
        b.subrange(6, 8),
    ) + seq!['-'] + hex_text(b.subrange(8, 10)) + seq!['-'] + hex_text(b.subrange(10, 16))
}

/// `uuid::Uuid::from_bytes_le` makes the identifier whose first three
/// fields are the given bytes turned round, and the `Display` of the
/// identifier writes its sixteen bytes in hexadecimal digits of lower case,
/// with hyphens behind the fourth, sixth, eighth and tenth byte.
#[verifier::external_body]
fn uuid_hyphenated(bytes: &[u8; 16]) -> (text: String)
    ensures
        text@ == uuid_text(bytes@),
{
    uuid::Uuid::from_bytes_le(*bytes).to_string()
}

impl Uuid {
    /// The identifier of these bytes.
    pub fn new(data: [u8; 16]) -> (r: Uuid)
        ensures
            r@ == data@,
    {
        Uuid(data)
    }

    /// The text of the identifier, as `a4a3a2a1-b2b1-c2c1-d1d2-d3d4d5d6d7d8`
    /// for the bytes from `a1` to `d8`.
    pub fn to_text(&self) -> (text: String)
        ensures
            text@ == uuid_text(self@),
    {
        uuid_hyphenated(&self.0)
    }
}

impl From<Uuid> for String {
    /// The text of the identifier.
    fn from(value: Uuid) -> (text: String)
        ensures
            text@ == uuid_text(value@),
    {
        value.to_text()
    }
}

impl FromSpecImpl<Uuid> for String {
    open spec fn obeys_from_spec() -> bool {
        false
    }

    open spec fn from_spec(v: Uuid) -> String {
        arbitrary()
    }
}

} // verus!
