//! Table metadata structure.

use vstd::prelude::*;

use crate::table::column::{columns_view, Column, ColumnModel};
use crate::text::str_eq;
use crate::types::SegmentId;

verus! {

/// Table type tag.
#[derive(Debug, Clone, Copy, PartialEq, Eq, Structural)]
pub enum TableType {
    /// User-defined table.
    User,
    /// System table.
    System,
    /// Temporary table.
    Temporary,
}

/// The display name of a table type.
pub open spec fn spec_table_type_name(t: TableType) -> Seq<char> {
    match t {
        TableType::User => "User"@,
        TableType::System => "System"@,
        TableType::Temporary => "Temporary"@,
    }
}

impl TableType {
    /// The display name of this table type.
    pub fn as_str(&self) -> (r: &'static str)
        ensures
            r@ == spec_table_type_name(*self),
    {
        match self {
            TableType::User => "User",
            TableType::System => "System",
            TableType::Temporary => "Temporary",
        }
    }
}

/// Mathematical model of a table: its scalar fields and the models of its
/// columns.
pub struct TableModel {
    /// Unique table identifier.
    pub table_id: u64,
    /// Table name.
    pub table_name: Seq<char>,
    /// Associated segment identifier.
    pub segment_id: SegmentId,
    /// Table type.
    pub table_type: TableType,
    /// Row count.
    pub row_count: u64,
    /// Column count.
    pub column_count: u32,
    /// Creation timestamp.
    pub created_at: u64,
    /// Column models in ordinal order.
    pub columns: Seq<ColumnModel>,
}

/// Table metadata: identity, storage segment, type, and the ordered column
/// schema.
#[derive(Debug, PartialEq)]
pub struct Table {
    /// Unique table identifier.
    pub table_id: u64,
    /// Table name.
    pub table_name: String,
    /// Associated segment identifier for storage.
    pub segment_id: SegmentId,
    /// Table type.
    pub table_type: TableType,
    /// Row count (kept in memory only).
    pub row_count: u64,
    /// Column count.
    pub column_count: u32,
    /// Creation timestamp, seconds since the epoch.
    pub created_at: u64,
    /// Column definitions in ordinal order.
    pub columns: Vec<Column>,
}

impl View for Table {
    type V = TableModel;

    open spec fn view(&self) -> TableModel {
        TableModel {
            table_id: self.table_id,
            table_name: self.table_name@,
            segment_id: self.segment_id,
            table_type: self.table_type,
            row_count: self.row_count,
            column_count: self.column_count,
            created_at: self.created_at,
            columns: columns_view(self.columns@),
        }
    }
}

impl Clone for Table {
    /// A copy with the same model.
    fn clone(&self) -> (r: Self)
        ensures
            r@ == self@,
    {
        let r = Table {
            table_id: self.table_id,
            table_name: self.table_name.clone(),
            segment_id: self.segment_id,
            table_type: self.table_type,
            row_count: self.row_count,
            column_count: self.column_count,
            created_at: self.created_at,
            columns: self.columns.clone(),
        };
        proof {
            assert(columns_view(r.columns@) =~= columns_view(self.columns@));
        }
        r
    }
}

/// Relies on `std::time::SystemTime::now`: the current time in seconds
/// since the epoch. Nothing is assumed of the value.
#[verifier::external_body]
pub(crate) fn current_timestamp() -> u64 {
    std::time::SystemTime::now()
        .duration_since(std::time::UNIX_EPOCH)
        .unwrap_or_default()
        .as_secs()
}

impl Table {
    /// Creates a new table with no columns and type `User`.
    pub fn new(table_id: u64, table_name: String, segment_id: SegmentId) -> (r: Self)
        ensures
            r.table_id == table_id,
            r.table_name@ == table_name@,
            r.segment_id == segment_id,
            r.table_type == TableType::User,
            r.row_count == 0,
            r.column_count == 0,
            r.columns@.len() == 0,
    {
        Self {
            table_id,
            table_name,
            segment_id,
            table_type: TableType::User,
            row_count: 0,
            column_count: 0,
            created_at: current_timestamp(),
            columns: Vec::new(),
        }
    }

    /// Creates a new table of the given type, with no columns.
    pub fn with_type(
        table_id: u64,
        table_name: String,
        segment_id: SegmentId,
        table_type: TableType,
    ) -> (r: Self)
        ensures
            r.table_id == table_id,
            r.table_name@ == table_name@,
            r.segment_id == segment_id,
            r.table_type == table_type,
            r.row_count == 0,
            r.column_count == 0,
            r.columns@.len() == 0,
    {
        Self {
            table_id,
            table_name,
            segment_id,
            table_type,
            row_count: 0,
            column_count: 0,
            created_at: current_timestamp(),
            columns: Vec::new(),
        }
    }

    /// Creates a new `User` table with the given columns.
    pub fn with_columns(
        table_id: u64,
        table_name: String,
        segment_id: SegmentId,
        columns: Vec<Column>,
    ) -> (r: Self)
        requires
            columns@.len() <= u32::MAX,
        ensures
            r.table_id == table_id,
            r.table_name@ == table_name@,
            r.segment_id == segment_id,
            r.table_type == TableType::User,
            r.row_count == 0,
            r.column_count == columns@.len(),
            r.columns@ == columns@,
    {
        let column_count = columns.len() as u32;
        Self {
            table_id,
            table_name,
            segment_id,
            table_type: TableType::User,
            row_count: 0,
            column_count,
            created_at: current_timestamp(),
            columns,
        }
    }

    /// The table identifier.
    pub fn table_id(&self) -> (r: u64)
        ensures
            r == self.table_id,
    {
        self.table_id
    }

    /// The table name.
    pub fn table_name(&self) -> (r: &str)
        ensures
            r@ == self.table_name@,
    {
        self.table_name.as_str()
    }

    /// The segment identifier.
    pub fn segment_id(&self) -> (r: SegmentId)
        ensures
            r == self.segment_id,
    {
        self.segment_id
    }

    /// The table type.
    pub fn table_type(&self) -> (r: TableType)
        ensures
            r == self.table_type,
    {
        self.table_type
    }

    /// Whether this is a system table.
    pub fn is_system(&self) -> (r: bool)
        ensures
            r == (self.table_type == TableType::System),
    {
        match self.table_type {
            TableType::System => true,
            _ => false,
        }
    }

    /// Whether this is a temporary table.
    pub fn is_temporary(&self) -> (r: bool)
        ensures
            r == (self.table_type == TableType::Temporary),
    {
        match self.table_type {
            TableType::Temporary => true,
            _ => false,
        }
    }

    /// Replaces the column schema and the column count.
    pub fn set_columns(&mut self, columns: Vec<Column>)
        requires
            columns@.len() <= u32::MAX,
        ensures
            final(self).columns@ == columns@,
            final(self).column_count == columns@.len(),
            final(self).table_id == old(self).table_id,
            final(self).table_name@ == old(self).table_name@,
            final(self).segment_id == old(self).segment_id,
            final(self).table_type == old(self).table_type,
            final(self).row_count == old(self).row_count,
            final(self).created_at == old(self).created_at,
    {
        self.column_count = columns.len() as u32;
        self.columns = columns;
    }

    /// Looks a column up by name. Returns a column with that name from the
    /// schema, or `None` when no column has it.
    pub fn get_column(&self, name: &str) -> (r: Option<&Column>)
        ensures
            r matches Some(c) ==> c@.name == name@ && exists|i: int|
                0 <= i < self.columns@.len() && self.columns@[i] == *c,
            r is None ==> forall|i: int|
                0 <= i < self.columns@.len() ==> (#[trigger] self.columns@[i])@.name != name@,
    {
        let mut i: usize = 0;
        while i < self.columns.len()
            invariant
                0 <= i <= self.columns@.len(),
                forall|k: int| 0 <= k < i ==> (#[trigger] self.columns@[k])@.name != name@,
            decreases self.columns@.len() - i,
        {
            if str_eq(self.columns[i].name(), name) {
                return Some(&self.columns[i]);
            }
            i = i + 1;
        }
        None
    }

    /// Looks a column up by ordinal position.
    pub fn get_column_by_ordinal(&self, ordinal: u32) -> (r: Option<&Column>)
        ensures
            r matches Some(c) ==> c@.ordinal == ordinal && exists|i: int|
                0 <= i < self.columns@.len() && self.columns@[i] == *c,
            r is None ==> forall|i: int|
                0 <= i < self.columns@.len() ==> (#[trigger] self.columns@[i])@.ordinal
                    != ordinal,
    {
        let mut i: usize = 0;
        while i < self.columns.len()
            invariant
                0 <= i <= self.columns@.len(),
                forall|k: int| 0 <= k < i ==> (#[trigger] self.columns@[k])@.ordinal != ordinal,
            decreases self.columns@.len() - i,
        {
            if self.columns[i].ordinal() == ordinal {
                return Some(&self.columns[i]);
            }
            i = i + 1;
        }
        None
    }

    /// All columns in ordinal order.
    pub fn columns(&self) -> (r: &[Column])
        ensures
            r@ == self.columns@,
    {
        self.columns.as_slice()
    }

    /// The column count.
    pub fn column_count(&self) -> (r: u32)
        ensures
            r == self.column_count,
    {
        self.column_count
    }

    /// The models of this table's columns, in order.
    pub open spec fn spec_columns(self) -> Seq<crate::table::column::ColumnModel> {
        columns_view(self.columns@)
    }
}

} // verus!
