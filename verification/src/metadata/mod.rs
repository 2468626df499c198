//! Type descriptions: the model of a column's type and its textual grammar.
use vstd::prelude::*;

pub mod canonical;
pub mod column;
pub mod data_type;
pub mod format;
pub mod grammar;
pub mod keywords;
pub mod nesting;
pub mod round_trip;
pub mod type_util;

pub use column::ColumnSpec;
pub use column::RowSpec;
pub use data_type::AggFunc;
pub use data_type::DataType;
pub use data_type::Tz;

verus! {

/// The columns of a row by name and type.  Their order is the order of the
/// values on the wire.
pub type Metadata = Vec<(String, DataType)>;

pub type MetadataRef<'a> = &'a Metadata;

} // verus!
