//! Column metadata for table schemas.

use vstd::prelude::*;

use crate::types::ColumnType;

verus! {

/// Mathematical model of a column: its name as characters, with type,
/// nullability and position.
pub struct ColumnModel {
    /// Column name.
    pub name: Seq<char>,
    /// Column data type.
    pub column_type: ColumnType,
    /// Whether NULL values are allowed.
    pub nullable: bool,
    /// Position in the table schema, starting at 0.
    pub ordinal: u32,
}

/// One column of a table schema.
#[derive(Debug, PartialEq)]
pub struct Column {
    name: String,
    column_type: ColumnType,
    nullable: bool,
    ordinal: u32,
}

impl View for Column {
    type V = ColumnModel;

    closed spec fn view(&self) -> ColumnModel {
        ColumnModel {
            name: self.name@,
            column_type: self.column_type,
            nullable: self.nullable,
            ordinal: self.ordinal,
        }
    }
}

impl Clone for Column {
    /// A copy with the same model.
    fn clone(&self) -> (r: Self)
        ensures
            r@ == self@,
    {
        Column {
            name: self.name.clone(),
            column_type: self.column_type,
            nullable: self.nullable,
            ordinal: self.ordinal,
        }
    }
}

impl Column {
    /// Creates a new column.
    pub fn new(name: String, column_type: ColumnType, nullable: bool, ordinal: u32) -> (r: Self)
        ensures
            r@.name == name@,
            r@.column_type == column_type,
            r@.nullable == nullable,
            r@.ordinal == ordinal,
    {
        Self { name, column_type, nullable, ordinal }
    }

    /// The column name.
    pub fn name(&self) -> (r: &str)
        ensures
            r@ == self@.name,
    {
        self.name.as_str()
    }

    /// The column data type.
    pub fn column_type(&self) -> (r: ColumnType)
        ensures
            r == self@.column_type,
    {
        self.column_type
    }

    /// Whether the column admits NULL.
    pub fn is_nullable(&self) -> (r: bool)
        ensures
            r == self@.nullable,
    {
        self.nullable
    }

    /// The column's position in the table schema.
    pub fn ordinal(&self) -> (r: u32)
        ensures
            r == self@.ordinal,
    {
        self.ordinal
    }

    /// Storage size in bytes of one field of this column.
    pub fn size(&self) -> (r: usize)
        requires
            self@.column_type.spec_size() <= usize::MAX,
        ensures
            r == self@.column_type.spec_size(),
    {
        self.column_type.size()
    }
}

/// The column types of a schema, in order.
pub open spec fn column_types(cols: Seq<ColumnModel>) -> Seq<ColumnType> {
    cols.map_values(|c: ColumnModel| c.column_type)
}

/// The models of a sequence of columns.
pub open spec fn columns_view(cols: Seq<Column>) -> Seq<ColumnModel> {
    cols.map_values(|c: Column| c@)
}

} // verus!
