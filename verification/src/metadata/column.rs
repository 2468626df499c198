//! The description of one column.
use vstd::prelude::*;

use crate::error::Failure;
use crate::error::Result;
use crate::metadata::data_type::DataType;
use crate::metadata::data_type::DataTypeView;
use crate::metadata::grammar::parse_type;

verus! {

/// The columns of a row, in their order.
pub type RowSpec = Vec<ColumnSpec>;

/// A column: its name, its type, and the description that the type was read
/// from.
pub struct ColumnSpec {
    col_name: String,
    col_type: DataType,
    original_type: String,
}

impl ColumnSpec {
    /// The name of the column.
    pub closed spec fn spec_name(&self) -> Seq<char> {
        self.col_name@
    }

    /// The type of the column.
    pub closed spec fn spec_type(&self) -> DataTypeView {
        self.col_type@
    }

    /// The description that the type was read from.
    pub closed spec fn spec_original_type(&self) -> Seq<char> {
        self.original_type@
    }

    /// The type is what the description denotes.
    #[verifier::type_invariant]
    closed spec fn consistent(&self) -> bool {
        parse_type(self.original_type@) == Ok::<DataTypeView, Failure>(self.col_type@)
    }

    /// The column of this name whose type `original_type` describes; the
    /// failure of the description where it denotes no type.
    pub fn try_new(col_name: String, original_type: String) -> (r: Result<ColumnSpec>)
        ensures
            match r {
                Ok(col) => col.spec_name() == col_name@ && col.spec_original_type()
                    == original_type@ && parse_type(original_type@) == Ok::<DataTypeView, Failure>(
                    col.spec_type(),
                ),
                Err(e) => parse_type(original_type@) == Err::<DataTypeView, Failure>(e@),
            },
    {
        match DataType::parse(original_type.as_str()) {
            Ok(col_type) => Ok(ColumnSpec { col_name, col_type, original_type }),
            Err(e) => Err(e),
        }
    }

    /// Whether values of the column may be null.
    pub fn is_nullable(&self) -> (b: bool)
        ensures
            b == (self.spec_type() is Nullable),
    {
        self.col_type.is_nullable()
    }

    /// The name of the column.
    pub fn name(&self) -> (name: &str)
        ensures
            name@ == self.spec_name(),
    {
        self.col_name.as_str()
    }

    /// The type of the column.
    pub fn data_type(&self) -> (ty: &DataType)
        ensures
            ty@ == self.spec_type(),
            parse_type(self.spec_original_type()) == Ok::<DataTypeView, Failure>(ty@),
    {
        proof {
            use_type_invariant(self);
        }
        &self.col_type
    }

    /// The description that the type was read from.
    pub fn original_type(&self) -> (text: &str)
        ensures
            text@ == self.spec_original_type(),
    {
        self.original_type.as_str()
    }
}

} // verus!
