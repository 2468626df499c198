//! The failures that parsing and decoding report.
use vstd::prelude::*;

use crate::text::nat_text;
use crate::text::render_nat;

verus! {

pub type Result<T> = core::result::Result<T, Error>;

/// Why a text is not a decimal integer of the wanted type.
#[derive(Debug, Clone, Copy, PartialEq, Eq, Hash)]
pub enum IntFault {
    /// The text is empty.
    Empty,
    /// The text is more than an optional sign followed by digits, or it has
    /// no digit.
    InvalidDigit,
    /// The number is above the largest value of the type.
    PosOverflow,
    /// The number is below the smallest value of the type.
    NegOverflow,
}

/// Why raw bytes are not a fixed-point decimal.
#[derive(Debug, Clone, Copy, PartialEq, Eq, Hash)]
pub enum DecimalFault {
    /// The scale is above the largest one a fixed-point value can have.
    ScaleExceedsMaximumPrecision(u32),
    /// The unscaled number is above the 96 bits of a fixed-point value.
    ExceedsMaximumPossibleValue,
    /// The unscaled number is below the 96 bits of a fixed-point value.
    LessThanMinimumPossibleValue,
    /// A 256-bit number does not fit in 128 bits.
    ExceedsRange,
}

/// A failure of parsing or decoding.
///
/// `NotEnoughData` is the one failure that more bytes can mend; every other
/// one stays for an input that stays.
#[derive(Debug, Clone, PartialEq, Eq)]
pub enum Error {
    /// Numeric: a text is not a decimal integer of the wanted type.
    ParseIntError(IntFault),
    /// Numeric: a number read from the wire does not fit the narrower type.
    TryFromIntError,
    /// Numeric: raw bytes are outside what a fixed-point decimal holds.
    ParseDecimalError(DecimalFault),
    /// Encoding: bytes are not a JSON document; the text says why.
    SerdeJsonError(String),
    /// Numeric: a variable-length integer does not fit in 64 bits.
    LEB128Error,
    /// Encoding: bytes are not UTF-8.
    Utf8Error,
    /// A failure that a caller's own decoding reports, in its words.
    SerdeError(String),
    /// Grammar: a type description is malformed; the text names the fragment
    /// at fault.
    ParseTypeError(String),
    /// Insufficient data: the buffer holds fewer bytes than the read needs.
    NotEnoughData,
    /// Encoding: a byte is neither of the two values it may have; the text
    /// names it.
    EncodingError(String),
    /// Unsupported: values of this type, which the text names, cannot be
    /// decoded yet.
    NotSupported(String),
    /// Unsupported: decoding needs to know the shape that it is to decode.
    SerdeAnyNotSupported,
}

/// What an [`Error`] says, its texts as sequences of characters.
pub ghost enum Failure {
    ParseIntError(IntFault),
    TryFromIntError,
    ParseDecimalError(DecimalFault),
    SerdeJsonError(Seq<char>),
    LEB128Error,
    Utf8Error,
    SerdeError(Seq<char>),
    ParseTypeError(Seq<char>),
    NotEnoughData,
    EncodingError(Seq<char>),
    NotSupported(Seq<char>),
    SerdeAnyNotSupported,
}

impl View for Error {
    type V = Failure;

    open spec fn view(&self) -> Failure {
        match self {
            Error::ParseIntError(f) => Failure::ParseIntError(*f),
            Error::TryFromIntError => Failure::TryFromIntError,
            Error::ParseDecimalError(f) => Failure::ParseDecimalError(*f),
            Error::SerdeJsonError(m) => Failure::SerdeJsonError(m@),
            Error::LEB128Error => Failure::LEB128Error,
            Error::Utf8Error => Failure::Utf8Error,
            Error::SerdeError(m) => Failure::SerdeError(m@),
            Error::ParseTypeError(m) => Failure::ParseTypeError(m@),
            Error::NotEnoughData => Failure::NotEnoughData,
            Error::EncodingError(m) => Failure::EncodingError(m@),
            Error::NotSupported(m) => Failure::NotSupported(m@),
            Error::SerdeAnyNotSupported => Failure::SerdeAnyNotSupported,
        }
    }
}

/// The five kinds of failure.
#[derive(Debug, Clone, Copy, PartialEq, Eq, Hash)]
pub enum ErrorKind {
    Grammar,
    Numeric,
    Encoding,
    InsufficientData,
    Unsupported,
}

impl IntFault {
    /// What the fault says.
    pub open spec fn text(self) -> Seq<char> {
        match self {
            IntFault::Empty => "cannot parse integer from empty string"@,
            IntFault::InvalidDigit => "invalid digit found in string"@,
            IntFault::PosOverflow => "number too large to fit in target type"@,
            IntFault::NegOverflow => "number too small to fit in target type"@,
        }
    }

    /// What the fault says.
    pub fn message(&self) -> (text: &'static str)
        ensures
            text@ == self.text(),
    {
        match self {
            IntFault::Empty => "cannot parse integer from empty string",
            IntFault::InvalidDigit => "invalid digit found in string",
            IntFault::PosOverflow => "number too large to fit in target type",
            IntFault::NegOverflow => "number too small to fit in target type",
        }
    }
}

impl DecimalFault {
    /// What the fault says.
    pub open spec fn text(self) -> Seq<char> {
        match self {
            DecimalFault::ScaleExceedsMaximumPrecision(scale) => "Scale exceeds the maximum precision allowed: "@
                + nat_text(scale as nat),
            DecimalFault::ExceedsMaximumPossibleValue => "Number exceeds maximum value that can be represented."@,
            DecimalFault::LessThanMinimumPossibleValue => "Number less than minimum value that can be represented."@,
            DecimalFault::ExceedsRange => "Exceeds the range of decimal"@,
        }
    }

    /// What the fault says.
    pub fn message(&self) -> (text: String)
        ensures
            text@ == self.text(),
    {
        let mut text: String = String::new();
        match self {
            DecimalFault::ScaleExceedsMaximumPrecision(scale) => {
                text.append("Scale exceeds the maximum precision allowed: ");
                render_nat(&mut text, *scale as u128);
            },
            DecimalFault::ExceedsMaximumPossibleValue => {
                text.append("Number exceeds maximum value that can be represented.");
            },
            DecimalFault::LessThanMinimumPossibleValue => {
                text.append("Number less than minimum value that can be represented.");
            },
            DecimalFault::ExceedsRange => {
                text.append("Exceeds the range of decimal");
            },
        }
        assert(text@ =~= self.text());
        text
    }
}

impl Failure {
    /// What the failure says: its kind in words, and the text that it
    /// carries.
    pub open spec fn text(self) -> Seq<char> {
        match self {
            Failure::ParseIntError(f) => "Parse number error: "@ + f.text(),
            Failure::TryFromIntError => "Try from number error: out of range integral type conversion attempted"@,
            Failure::ParseDecimalError(f) => "Parse number to decimal error: "@ + f.text(),
            Failure::SerdeJsonError(m) => "Serde json error: "@ + m,
            Failure::LEB128Error => "Read leb128 error: The number being read is larger than can be represented"@,
            Failure::Utf8Error => "encoding utf-8 string error: invalid utf-8 sequence"@,
            Failure::SerdeError(m) => "Serde deSer error: "@ + m,
            Failure::ParseTypeError(m) => "Parse type error: "@ + m,
            Failure::NotEnoughData => "Not enough data"@,
            Failure::EncodingError(m) => "Encoding error: "@ + m,
            Failure::NotSupported(m) => "Not supported: "@ + m,
            Failure::SerdeAnyNotSupported => "Deserialize from any not supported"@,
        }
    }

    /// The kind that the failure belongs to.
    pub open spec fn kind(self) -> ErrorKind {
        match self {
            Failure::ParseIntError(_) => ErrorKind::Numeric,
            Failure::TryFromIntError => ErrorKind::Numeric,
            Failure::ParseDecimalError(_) => ErrorKind::Numeric,
            Failure::SerdeJsonError(_) => ErrorKind::Encoding,
            Failure::LEB128Error => ErrorKind::Numeric,
            Failure::Utf8Error => ErrorKind::Encoding,
            Failure::SerdeError(_) => ErrorKind::Encoding,
            Failure::ParseTypeError(_) => ErrorKind::Grammar,
            Failure::NotEnoughData => ErrorKind::InsufficientData,
            Failure::EncodingError(_) => ErrorKind::Encoding,
            Failure::NotSupported(_) => ErrorKind::Unsupported,
            Failure::SerdeAnyNotSupported => ErrorKind::Unsupported,
        }
    }

    /// Whether the same call may succeed once the buffer holds more bytes.
    pub open spec fn is_retryable(self) -> bool {
        self is NotEnoughData
    }
}

/// The outcome of a call, seen through the views of its value and its error.
pub open spec fn outcome<T: View>(r: Result<T>) -> core::result::Result<T::V, Failure> {
    match r {
        Ok(v) => Ok(v@),
        Err(e) => Err(e@),
    }
}

impl Error {
    /// The kind that the failure belongs to.
    pub fn kind(&self) -> (k: ErrorKind)
        ensures
            k == self@.kind(),
    {
        match self {
            Error::ParseIntError(_) => ErrorKind::Numeric,
            Error::TryFromIntError => ErrorKind::Numeric,
            Error::ParseDecimalError(_) => ErrorKind::Numeric,
            Error::SerdeJsonError(_) => ErrorKind::Encoding,
            Error::LEB128Error => ErrorKind::Numeric,
            Error::Utf8Error => ErrorKind::Encoding,
            Error::SerdeError(_) => ErrorKind::Encoding,
            Error::ParseTypeError(_) => ErrorKind::Grammar,
            Error::NotEnoughData => ErrorKind::InsufficientData,
            Error::EncodingError(_) => ErrorKind::Encoding,
            Error::NotSupported(_) => ErrorKind::Unsupported,
            Error::SerdeAnyNotSupported => ErrorKind::Unsupported,
        }
    }

    /// What the failure says, for people to read.
    pub fn message(&self) -> (text: String)
        ensures
            text@ == self@.text(),
    {
        let mut text: String = String::new();
        match self {
            Error::ParseIntError(f) => {
                text.append("Parse number error: ");
                text.append(f.message());
            },
            Error::TryFromIntError => {
                text.append(
                    "Try from number error: out of range integral type conversion attempted",
                );
            },
            Error::ParseDecimalError(f) => {
                text.append("Parse number to decimal error: ");
                let detail: String = f.message();
                text.append(detail.as_str());
            },
            Error::SerdeJsonError(m) => {
                text.append("Serde json error: ");
                text.append(m.as_str());
            },
            Error::LEB128Error => {
                text.append(
                    "Read leb128 error: The number being read is larger than can be represented",
                );
            },
            Error::Utf8Error => {
                text.append("encoding utf-8 string error: invalid utf-8 sequence");
            },
            Error::SerdeError(m) => {
                text.append("Serde deSer error: ");
                text.append(m.as_str());
            },
            Error::ParseTypeError(m) => {
                text.append("Parse type error: ");
                text.append(m.as_str());
            },
            Error::NotEnoughData => {
                text.append("Not enough data");
            },
            Error::EncodingError(m) => {
                text.append("Encoding error: ");
                text.append(m.as_str());
            },
            Error::NotSupported(m) => {
                text.append("Not supported: ");
                text.append(m.as_str());
            },
            Error::SerdeAnyNotSupported => {
                text.append("Deserialize from any not supported");
            },
        }
        assert(text@ =~= self@.text());
        text
    }

    /// Whether the same call may succeed once the buffer holds more bytes.
    pub fn is_retryable(&self) -> (b: bool)
        ensures
            b == self@.is_retryable(),
    {
        match self {
            Error::NotEnoughData => true,
            _ => false,
        }
    }
}

} // verus!
