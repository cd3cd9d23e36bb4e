//! Fluent builder for `Table` values, assigning column ordinals in
//! insertion order and validating before build.

use vstd::prelude::*;

use crate::table::column::{columns_view, Column, ColumnModel};
use crate::table::table::{Table, TableType};
use vstd::string::StrSliceExecFns;
use crate::types::SegmentId;

verus! {

/// Mathematical model of a builder's accumulated state.
pub struct TableBuilderModel {
    /// Table identifier.
    pub table_id: u64,
    /// Table name.
    pub table_name: Seq<char>,
    /// Segment identifier; zero means not yet set.
    pub segment_id: SegmentId,
    /// Table type.
    pub table_type: TableType,
    /// Columns added so far.
    pub columns: Seq<ColumnModel>,
}

/// Builder for `Table` values.
#[derive(Debug)]
pub struct TableBuilder {
    table_id: u64,
    table_name: String,
    segment_id: SegmentId,
    table_type: TableType,
    columns: Vec<Column>,
}

impl View for TableBuilder {
    type V = TableBuilderModel;

    closed spec fn view(&self) -> TableBuilderModel {
        TableBuilderModel {
            table_id: self.table_id,
            table_name: self.table_name@,
            segment_id: self.segment_id,
            table_type: self.table_type,
            columns: columns_view(self.columns@),
        }
    }
}

impl TableBuilder {
    /// Creates a new builder with the required fields; the segment is unset
    /// and the table type is `User`.
    pub fn new(table_id: u64, table_name: String) -> (r: Self)
        ensures
            r@.table_id == table_id,
            r@.table_name == table_name@,
            r@.segment_id == 0,
            r@.table_type == TableType::User,
            r@.columns.len() == 0,
    {
        Self {
            table_id,
            table_name,
            segment_id: 0,
            table_type: TableType::User,
            columns: Vec::new(),
        }
    }

    /// Sets the table identifier.
    pub fn table_id(self, id: u64) -> (r: Self)
        ensures
            r@ == (TableBuilderModel { table_id: id, ..self@ }),
    {
        let mut s = self;
        s.table_id = id;
        s
    }

    /// Sets the segment identifier; it must be allocated by the tablespace
    /// or segment layer before the table is built.
    pub fn segment_id(self, segment_id: SegmentId) -> (r: Self)
        ensures
            r@ == (TableBuilderModel { segment_id: segment_id, ..self@ }),
    {
        let mut s = self;
        s.segment_id = segment_id;
        s
    }

    /// Sets the table type.
    pub fn table_type(self, table_type: TableType) -> (r: Self)
        ensures
            r@ == (TableBuilderModel { table_type: table_type, ..self@ }),
    {
        let mut s = self;
        s.table_type = table_type;
        s
    }

    /// Adds a single column, re-assigning its ordinal to the current column
    /// count.
    pub fn column(self, column: Column) -> (r: Self)
        requires
            self@.columns.len() < u32::MAX,
        ensures
            r@.columns == self@.columns.push(
                (ColumnModel {
                    ordinal: self@.columns.len() as u32,
                    ..column@
                }),
            ),
            r@.table_id == self@.table_id,
            r@.table_name == self@.table_name,
            r@.segment_id == self@.segment_id,
            r@.table_type == self@.table_type,
    {
        let mut s = self;
        let ordinal = s.columns.len() as u32;
        let new_column = Column::new(
            column.name().to_owned(),
            column.column_type(),
            column.is_nullable(),
            ordinal,
        );
        s.columns.push(new_column);
        proof {
            assert(s@.columns =~= self@.columns.push(
                ColumnModel { ordinal: self@.columns.len() as u32, ..column@ },
            ));
        }
        s
    }

    /// Adds several columns at once, assigning ordinals in order.
    pub fn columns(self, columns: Vec<Column>) -> (r: Self)
        requires
            self@.columns.len() + columns@.len() <= u32::MAX,
        ensures
            r@.columns.len() == self@.columns.len() + columns@.len(),
            forall|i: int|
                0 <= i < self@.columns.len() ==> r@.columns[i] == self@.columns[i],
            forall|i: int|
                0 <= i < columns@.len() ==> r@.columns[self@.columns.len() + i] == (ColumnModel {
                    ordinal: (self@.columns.len() + i) as u32,
                    ..(#[trigger] columns@[i])@
                }),
            r@.table_id == self@.table_id,
            r@.table_name == self@.table_name,
            r@.segment_id == self@.segment_id,
            r@.table_type == self@.table_type,
    {
        let ghost orig = self@.columns;
        let mut s = self;
        let mut i: usize = 0;
        while i < columns.len()
            invariant
                0 <= i <= columns@.len(),
                s@.columns.len() == orig.len() + i,
                orig.len() + columns@.len() <= u32::MAX,
                forall|k: int| 0 <= k < orig.len() ==> s@.columns[k] == orig[k],
                forall|k: int|
                    0 <= k < i ==> s@.columns[orig.len() + k] == (ColumnModel {
                        ordinal: (orig.len() + k) as u32,
                        ..(#[trigger] columns@[k])@
                    }),
                s@.table_id == self@.table_id,
                s@.table_name == self@.table_name,
                s@.segment_id == self@.segment_id,
                s@.table_type == self@.table_type,
            decreases columns@.len() - i,
        {
            let col = &columns[i];
            s = s.column(
                Column::new(col.name().to_owned(), col.column_type(), col.is_nullable(), 0),
            );
            i = i + 1;
        }
        s
    }

    /// Builds the table. The segment identifier must have been set.
    pub fn build(self) -> (r: Table)
        requires
            self@.segment_id != 0,
            self@.columns.len() <= u32::MAX,
        ensures
            r.table_id == self@.table_id,
            r.table_name@ == self@.table_name,
            r.segment_id == self@.segment_id,
            r.table_type == self@.table_type,
            r.row_count == 0,
            r.column_count == self@.columns.len(),
            r.spec_columns() == self@.columns,
    {
        let table_type = self.table_type;
        let mut table = Table::with_columns(
            self.table_id,
            self.table_name,
            self.segment_id,
            self.columns,
        );
        table.table_type = table_type;
        table
    }

    /// Builds the table, returning an error instead of demanding a set
    /// segment: fails when the segment identifier is zero or the name is
    /// empty.
    pub fn try_build(self) -> (r: Result<Table, String>)
        requires
            self@.columns.len() <= u32::MAX,
        ensures
            r is Ok <==> (self@.segment_id != 0 && self@.table_name.len() != 0),
            r matches Ok(t) ==> {
                &&& t.table_id == self@.table_id
                &&& t.table_name@ == self@.table_name
                &&& t.segment_id == self@.segment_id
                &&& t.table_type == self@.table_type
                &&& t.row_count == 0
                &&& t.column_count == self@.columns.len()
                &&& t.spec_columns() == self@.columns
            },
    {
        if self.segment_id == 0 {
            return Err("segment_id must be set".to_owned());
        }
        if self.table_name.as_str().unicode_len() == 0 {
            return Err("table_name cannot be empty".to_owned());
        }
        Ok(self.build())
    }
}

} // verus!
