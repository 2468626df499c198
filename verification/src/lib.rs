//! Type descriptions and row decoding for a columnar database's wire protocol.
//!
//! `metadata` turns textual type descriptions such as
//! `Map(String, Array(Decimal64(18)))` into [`metadata::DataType`] values,
//! `serde` reads length-prefixed and fixed-width fields out of a chunked
//! byte stream, and `values` holds the raw decoded values together with
//! their conversions.
#![allow(dead_code)]
#![allow(non_camel_case_types)]

use vstd::prelude::*;

pub mod error;
pub mod metadata;
pub mod serde;
pub mod text;
pub mod values;

pub use error::Error;
pub use error::Result;

verus! {

/// The sum of two sizes that together fit in a `usize`.
pub fn add(left: usize, right: usize) -> (sum: usize)
    requires
        left + right <= usize::MAX,
    ensures
        sum == left + right,
{
    left + right
}

} // verus!
