//! Query executor: translates parsed statements into catalog and heap
//! operations. Full-table scans and single-row appends only; UPDATE and
//! DELETE report the scan count.

use vstd::prelude::*;

use crate::catalog::error::CatalogError;
use crate::catalog::Catalog;
use crate::heap::{HeapTable, RowId, Value, ValueModel};
use crate::sql::{self, spec_trim, spec_trim_back, spec_trim_front, Statement};
use crate::table::column::ColumnModel;
use crate::table::Column;
use crate::text::{spec_parse_u64, str_eq, u64_to_string};
use crate::types::ColumnType;
use vstd::string::StrSliceExecFns;
use vstd::string::StringExecFns;
use vstd::utf8::{encode_utf8, valid_utf8};

verus! {

/// Executor result type.
pub type ExecResult<T> = Result<T, ExecError>;

/// Executor error types.
#[derive(Debug, Clone)]
pub enum ExecError {
    /// The statement did not parse.
    SqlError(sql::SqlError),
    /// No table has the name.
    TableNotFound(String),
    /// No column has the name.
    ColumnNotFound(String),
    /// Any other failure.
    Other(String),
}

/// Parses a value literal against a column type: `NULL` in any case reads
/// as NULL; an optionally signed integer literal reads as the column's
/// integer type; a single- or double-quoted literal reads as its contents;
/// anything else reads as the literal text.
pub fn parse_value(val: &str, col_type: &ColumnType) -> (r: Value)
    ensures
        ({
            let t = spec_trim(encode_utf8(val@));
            &&& (spec_is_null_word(t) ==> r is Null)
            &&& (!spec_is_null_word(t) ==> match spec_int_literal_value(t) {
                Some(v) => r == spec_int_value(v, *col_type),
                None => {
                    let inner = if spec_is_quoted(t) {
                        t.subrange(1, t.len() - 1)
                    } else {
                        t
                    };
                    if valid_utf8(inner) {
                        r@ == ValueModel::VarChar(inner)
                    } else {
                        r is Null
                    }
                },
            })
        }),
        r@ == spec_parse_value_model(val@, *col_type),
{
    let bytes = val.as_bytes_vec();
    let trimmed = trim_ascii(bytes.as_slice());
    let t = trimmed.as_slice();
    let n = t.len();
    proof {
        assert(t@ == spec_trim(encode_utf8(val@)));
    }
    if is_null_word(t) {
        return Value::Null;
    }
    // An optionally negated run of digits is an integer literal.
    let neg = n > 0 && t[0] == 45;
    let digits_from: usize = if neg {
        1
    } else {
        0
    };
    if digits_from < n {
        let digits = vstd::slice::slice_subrange(t, digits_from, n);
        proof {
            if !neg {
                assert(digits@ =~= t@);
            } else {
                assert(digits@ =~= t@.skip(1));
            }
        }
        match crate::text::parse_u64(digits) {
            Some(mag) => {
                if !neg && mag <= i64::MAX as u64 {
                    return int_value(mag as i64, col_type);
                }
                if neg && mag <= 0x8000_0000_0000_0000u64 {
                    let v: i64 = if mag == 0x8000_0000_0000_0000u64 {
                        i64::MIN
                    } else {
                        -(mag as i64)
                    };
                    return int_value(v, col_type);
                }
            },
            None => {},
        }
    }
    proof {
        if t@.len() > 0 && t@[0] != 45 {
            if spec_parse_u64(t@) matches Some(m) {
                assert(crate::text::all_digits(t@));
                assert(crate::text::is_digit(t@[0]));
            }
        }
        assert(spec_int_literal_value(t@) is None);
    }
    // A quoted literal loses its quotes.
    let inner = if n >= 2 && ((t[0] == 39 && t[n - 1] == 39) || (t[0] == 34 && t[n - 1] == 34)) {
        vstd::slice::slice_to_vec(vstd::slice::slice_subrange(t, 1, n - 1))
    } else {
        vstd::slice::slice_to_vec(t)
    };
    proof {
        if spec_is_quoted(t@) {
            assert(inner@ =~= t@.subrange(1, t@.len() - 1));
        } else {
            assert(inner@ =~= t@);
        }
    }
    match crate::text::string_from_utf8(inner) {
        Some(s) => Value::VarChar(s),
        None => Value::Null,
    }
}

/// The signed 64-bit value of an integer literal: an optionally negated
/// run of decimal digits whose magnitude fits; anything else has none.
pub open spec fn spec_int_literal_value(t: Seq<u8>) -> Option<i64> {
    if t.len() > 0 && t[0] == 45 {
        match crate::text::spec_parse_u64(t.skip(1)) {
            Some(m) => if m < 0x8000_0000_0000_0000u64 {
                Some((-(m as int)) as i64)
            } else if m == 0x8000_0000_0000_0000u64 {
                Some(i64::MIN)
            } else {
                None
            },
            None => None,
        }
    } else {
        match crate::text::spec_parse_u64(t) {
            Some(m) => if m <= i64::MAX {
                Some(m as i64)
            } else {
                None
            },
            None => None,
        }
    }
}

/// Whether a byte string is wrapped in matching single or double quotes.
pub open spec fn spec_is_quoted(t: Seq<u8>) -> bool {
    t.len() >= 2 && ((t[0] == 39 && t[t.len() - 1] == 39) || (t[0] == 34 && t[t.len() - 1]
        == 34))
}

/// The model of the value a literal parses to against a column type.
pub open spec fn spec_parse_value_model(lit: Seq<char>, ct: ColumnType) -> ValueModel {
    let t = spec_trim(encode_utf8(lit));
    if spec_is_null_word(t) {
        ValueModel::Null
    } else {
        match spec_int_literal_value(t) {
            Some(v) => spec_int_value(v, ct)@,
            None => {
                let inner = if spec_is_quoted(t) {
                    t.subrange(1, t.len() - 1)
                } else {
                    t
                };
                if valid_utf8(inner) {
                    ValueModel::VarChar(inner)
                } else {
                    ValueModel::Null
                }
            },
        }
    }
}

/// The models of a row of literals parsed against a schema's column types;
/// literals past the schema read as 64-bit integers.
pub open spec fn spec_parsed_values(lits: Seq<String>, cols: Seq<ColumnType>) -> Seq<ValueModel> {
    Seq::new(
        lits.len(),
        |k: int|
            spec_parse_value_model(
                lits[k]@,
                if 0 <= k < cols.len() {
                    cols[k]
                } else {
                    ColumnType::Int64
                },
            ),
    )
}

/// An integer literal's value at a column's integer type; other column
/// types take it as a 64-bit integer.
pub open spec fn spec_int_value(v: i64, ct: ColumnType) -> Value {
    match ct {
        ColumnType::Int8 => Value::Int8(v as i8),
        ColumnType::Int16 => Value::Int16(v as i16),
        ColumnType::Int32 => Value::Int32(v as i32),
        ColumnType::Int64 => Value::Int64(v),
        ColumnType::UInt8 => Value::UInt8(v as u8),
        ColumnType::UInt16 => Value::UInt16(v as u16),
        ColumnType::UInt32 => Value::UInt32(v as u32),
        ColumnType::UInt64 => Value::UInt64(v as u64),
        _ => Value::Int64(v),
    }
}

/// An integer literal as a value of the column's integer type; other
/// column types take the literal as a 64-bit integer.
fn int_value(v: i64, col_type: &ColumnType) -> (r: Value)
    ensures
        r == spec_int_value(v, *col_type),
{
    match col_type {
        ColumnType::Int8 => Value::Int8(v as i8),
        ColumnType::Int16 => Value::Int16(v as i16),
        ColumnType::Int32 => Value::Int32(v as i32),
        ColumnType::Int64 => Value::Int64(v),
        ColumnType::UInt8 => Value::UInt8(v as u8),
        ColumnType::UInt16 => Value::UInt16(v as u16),
        ColumnType::UInt32 => Value::UInt32(v as u32),
        ColumnType::UInt64 => Value::UInt64(v as u64),
        _ => Value::Int64(v),
    }
}

/// Whether a byte string spells `NULL` in any case.
pub open spec fn spec_is_null_word(t: Seq<u8>) -> bool {
    t.len() == 4 && (t[0] == 78 || t[0] == 110) && (t[1] == 85 || t[1] == 117) && (t[2] == 76
        || t[2] == 108) && (t[3] == 76 || t[3] == 108)
}

/// Whether the bytes spell `NULL` in any case.
fn is_null_word(t: &[u8]) -> (r: bool)
    ensures
        r == spec_is_null_word(t@),
{
    t.len() == 4 && (t[0] == 78 || t[0] == 110) && (t[1] == 85 || t[1] == 117) && (t[2] == 76
        || t[2] == 108) && (t[3] == 76 || t[3] == 108)
}

/// A copy of the bytes with surrounding ASCII whitespace removed.
fn trim_ascii(s: &[u8]) -> (r: Vec<u8>)
    ensures
        r@ == spec_trim(s@),
{
    let n = s.len();
    let mut start: usize = 0;
    proof {
        assert(s@.skip(0) =~= s@);
    }
    while start < n && (s[start] == 32 || s[start] == 9 || s[start] == 10 || s[start] == 13)
        invariant
            0 <= start <= n,
            n == s@.len(),
            spec_trim_front(s@.skip(start as int)) == spec_trim_front(s@),
        decreases n - start,
    {
        proof {
            assert(s@.skip(start as int)[0] == s@[start as int]);
            assert(s@.skip(start as int).drop_first() =~= s@.skip(start as int + 1));
        }
        start = start + 1;
    }
    proof {
        if start < n {
            assert(s@.skip(start as int)[0] == s@[start as int]);
        } else {
            assert(s@.skip(start as int) =~= Seq::<u8>::empty());
        }
        assert(spec_trim_front(s@) == s@.skip(start as int));
    }
    let mut end: usize = n;
    while end > start && (s[end - 1] == 32 || s[end - 1] == 9 || s[end - 1] == 10 || s[end - 1]
        == 13)
        invariant
            start <= end <= n,
            n == s@.len(),
            spec_trim_front(s@) == s@.skip(start as int),
            spec_trim_back(s@.subrange(start as int, end as int)) == spec_trim_back(
                s@.skip(start as int),
            ),
        decreases end,
    {
        proof {
            let piece = s@.subrange(start as int, end as int);
            assert(piece.last() == s@[end - 1]);
            assert(piece.drop_last() =~= s@.subrange(start as int, end as int - 1));
        }
        end = end - 1;
    }
    proof {
        let piece = s@.subrange(start as int, end as int);
        if end > start {
            assert(piece.last() == s@[end - 1]);
        } else {
            assert(piece =~= Seq::<u8>::empty());
        }
        assert(spec_trim_back(piece) == piece);
        assert(s@.subrange(start as int, end as int) == spec_trim(s@));
    }
    vstd::slice::slice_to_vec(vstd::slice::slice_subrange(s, start, end))
}

/// Renders a value for SELECT output.
pub fn format_value(val: &Value) -> (r: String) {
    match val {
        Value::Null => "NULL".to_owned(),
        Value::Int8(n) => i64_to_string(*n as i64),
        Value::Int16(n) => i64_to_string(*n as i64),
        Value::Int32(n) => i64_to_string(*n as i64),
        Value::Int64(n) => i64_to_string(*n),
        Value::UInt8(n) => u64_to_string(*n as u64),
        Value::UInt16(n) => u64_to_string(*n as u64),
        Value::UInt32(n) => u64_to_string(*n as u64),
        Value::UInt64(n) => u64_to_string(*n),
        Value::Boolean(b) => if *b {
            "true".to_owned()
        } else {
            "false".to_owned()
        },
        Value::VarChar(s) => s.clone(),
        Value::Blob(b) => {
            let mut out = "<".to_owned();
            let digits = u64_to_string(b.len() as u64);
            out.append(digits.as_str());
            out.append(" bytes>");
            out
        },
    }
}

/// Formats a signed integer as decimal text.
pub fn i64_to_string(v: i64) -> (r: String) {
    if v >= 0 {
        u64_to_string(v as u64)
    } else {
        let mag: u64 = if v == i64::MIN {
            0x8000_0000_0000_0000u64
        } else {
            (-(v as i64)) as u64
        };
        let mut out = "-".to_owned();
        let digits = u64_to_string(mag);
        out.append(digits.as_str());
        out
    }
}

/// The query executor: a catalog of tables and the heap each one's rows
/// live in.
pub struct Executor {
    catalog: Catalog,
    heap_tables: Vec<(String, HeapTable)>,
}

/// What one successfully executed statement does to the executor, given
/// the statement the text parses to: CREATE registers the table and an
/// empty heap, INSERT appends the parsed row to the named heap, and the
/// read-only forms leave the state unchanged.
pub open spec fn spec_statement_effect(
    t: Seq<u8>,
    st: Statement,
    pre: Executor,
    post: Executor,
) -> bool {
    match st {
        Statement::CreateTable(ct) => {
            &&& sql::spec_create_extraction(t, ct)
            &&& post.spec_catalog().spec_tables().len() == pre.spec_catalog().spec_tables().len()
                + 1
            &&& post.spec_catalog().spec_tables().last().table_name@ == ct.table_name@
            &&& post.spec_heaps().len() == pre.spec_heaps().len() + 1
            &&& post.spec_heaps().last().0@ == ct.table_name@
        },
        Statement::Insert(ist) => {
            &&& sql::spec_insert_extraction(t, ist)
            &&& exists|h: int|
                {
                    &&& 0 <= h < pre.spec_heaps().len()
                    &&& (#[trigger] pre.spec_heaps()[h]).0@ == ist.table_name@
                    &&& (forall|i: int|
                        0 <= i < pre.spec_heaps().len() && i != h ==> post.spec_heaps()[i]
                            == pre.spec_heaps()[i])
                    &&& (exists|rid: RowId|
                        #[trigger] crate::heap::insert_transition_for(
                            pre.spec_heaps()[h].1.models(),
                            pre.spec_heaps()[h].1.spec_first_page_id(),
                            spec_parsed_values(ist.values@, pre.spec_heaps()[h].1.spec_cols()),
                            pre.spec_heaps()[h].1.spec_cols(),
                            post.spec_heaps()[h].1.models(),
                            Ok::<RowId, crate::heap::HeapError>(rid),
                        ))
                }
        },
        Statement::Select(sel) => sql::spec_from_extraction(t, sel.from@, sel.where_clause)
            && post == pre,
        Statement::Update(ust) => sql::spec_update_extraction(t, ust) && post == pre,
        Statement::Delete(del) => sql::spec_from_extraction(
            t,
            del.table_name@,
            del.where_clause,
        ) && post == pre,
    }
}

impl Executor {
    /// The catalog the executor creates tables in.
    pub closed spec fn spec_catalog(self) -> Catalog {
        self.catalog
    }

    /// The named heaps the executor scans and appends to.
    pub closed spec fn spec_heaps(self) -> Seq<(String, HeapTable)> {
        self.heap_tables@
    }

    /// Executor invariant: the catalog and every heap are well formed.
    pub open spec fn wf(self) -> bool {
        &&& self.spec_catalog().wf()
        &&& forall|i: int|
            0 <= i < self.spec_heaps().len() ==> (#[trigger] self.spec_heaps()[i]).1.wf()
    }

    /// Creates an executor over a catalog.
    pub fn new(catalog: Catalog) -> (r: Executor)
        requires
            catalog.wf(),
        ensures
            r.wf(),
    {
        Executor { catalog, heap_tables: Vec::new() }
    }

    /// Parses and runs one statement; a line of text describes the outcome.
    pub fn execute(&mut self, sql_text: &str) -> (r: ExecResult<String>)
        requires
            old(self).wf(),
        ensures
            final(self).wf(),
            ({
                let t = sql::spec_trim(encode_utf8(sql_text@));
                let create = sql::spec_starts_with(
                    sql::spec_upper(t),
                    seq![67u8, 82u8, 69u8, 65u8, 84u8, 69u8, 32u8, 84u8, 65u8, 66u8, 76u8, 69u8],
                );
                &&& ((r is Ok && create) ==> {
                    &&& final(self).spec_catalog().spec_tables().len() == old(self).spec_catalog().spec_tables().len() + 1
                    &&& final(self).spec_heaps().len() == old(self).spec_heaps().len() + 1
                    &&& exists|ct: sql::CreateTableStmt|
                        {
                            &&& #[trigger] sql::spec_create_extraction(t, ct)
                            &&& final(self).spec_catalog().spec_tables().last().table_name@
                                == ct.table_name@
                            &&& final(self).spec_catalog().spec_tables().last().spec_columns().len()
                                == ct.columns@.len()
                            &&& final(self).spec_heaps().last().0@ == ct.table_name@
                        }
                })
                &&& ((r is Ok && !create) ==> (final(self).spec_catalog() == old(self).spec_catalog() && final(self).spec_heaps().len() == old(self).spec_heaps().len()))
                &&& (r is Ok ==> exists|st: Statement| #[trigger] spec_statement_effect(
                    t,
                    st,
                    *old(self),
                    *final(self),
                ))
            }),
    {
        let stmt = match sql::parse(sql_text) {
            Ok(s) => s,
            Err(e) => {
                return Err(ExecError::SqlError(e));
            },
        };
        let ghost gstmt = stmt;
        let ghost t = sql::spec_trim(encode_utf8(sql_text@));
        match stmt {
            Statement::CreateTable(ct) => {
                let ghost gct = ct;
                let r = self.execute_create_table(ct);
                proof {
                    if r is Ok {
                        assert(sql::spec_create_extraction(t, gct));
                        assert(spec_statement_effect(t, gstmt, *old(self), *self));
                    }
                }
                r
            },
            Statement::Insert(ins) => {
                let ghost gins = ins;
                let r = self.execute_insert(ins);
                proof {
                    if r is Ok {
                        assert(spec_statement_effect(t, gstmt, *old(self), *self));
                    }
                }
                r
            },
            Statement::Select(sel) => {
                let ghost gsel = sel;
                let r = self.execute_select(sel);
                proof {
                    if r is Ok {
                        assert(spec_statement_effect(t, gstmt, *old(self), *self));
                    }
                }
                r
            },
            Statement::Update(upd) => {
                let ghost gupd = upd;
                let r = self.execute_update(upd);
                proof {
                    if r is Ok {
                        assert(spec_statement_effect(t, gstmt, *old(self), *self));
                    }
                }
                r
            },
            Statement::Delete(del) => {
                let ghost gdel = del;
                let r = self.execute_delete(del);
                proof {
                    if r is Ok {
                        assert(spec_statement_effect(t, gstmt, *old(self), *self));
                    }
                }
                r
            },
        }
    }

    /// Creates the table in the catalog and an empty heap for its rows.
    fn execute_create_table(&mut self, ct: sql::CreateTableStmt) -> (r: ExecResult<String>)
        requires
            old(self).wf(),
        ensures
            final(self).wf(),
            r is Ok ==> {
                &&& final(self).spec_catalog().spec_tables().len() == old(self).spec_catalog().spec_tables().len() + 1
                &&& final(self).spec_catalog().spec_tables().last().table_name@
                    == ct.table_name@
                &&& final(self).spec_catalog().spec_tables().last().spec_columns().len()
                    == ct.columns@.len()
                &&& forall|i: int|
                    0 <= i < ct.columns@.len() ==> {
                        let cm = final(self).spec_catalog().spec_tables().last().spec_columns()[i];
                        cm.name == (#[trigger] ct.columns@[i]).name@ && cm.column_type
                            == ct.columns@[i].data_type && cm.nullable == ct.columns@[i].nullable
                            && cm.ordinal == i
                    }
                &&& final(self).spec_heaps().len() == old(self).spec_heaps().len() + 1
                &&& final(self).spec_heaps().last().0@ == ct.table_name@
            },
            r is Err ==> final(self).spec_heaps() == old(self).spec_heaps(),
    {
        if self.catalog.peek_next_table_id() == u64::MAX {
            return Err(ExecError::Other("table identifiers exhausted".to_owned()));
        }
        if ct.columns.len() > 0xFFFF_FFFFusize {
            return Err(ExecError::Other("too many columns".to_owned()));
        }
        let mut columns: Vec<Column> = Vec::new();
        let ncols = ct.columns.len();
        let mut i: usize = 0;
        while i < ncols
            invariant
                0 <= i <= ncols,
                ncols == ct.columns@.len(),
                ncols <= 0xFFFF_FFFF,
                columns@.len() == i,
                forall|k: int|
                    0 <= k < i ==> {
                        let cm = (#[trigger] columns@[k])@;
                        cm.name == ct.columns@[k].name@ && cm.column_type == ct.columns@[
                            k
                        ].data_type && cm.nullable == ct.columns@[k].nullable && cm.ordinal == k
                    },
            decreases ncols - i,
        {
            let def = &ct.columns[i];
            columns.push(Column::new(def.name.clone(), def.data_type, def.nullable, i as u32));
            i = i + 1;
        }
        let ghost cols_v = columns@;
        let table = match self.catalog.create_table(ct.table_name.as_str(), 1, columns) {
            Ok(t) => t,
            Err(e) => {
                proof {
                    assert forall|k: int|
                        0 <= k < self.spec_heaps().len() implies (
                        #[trigger] self.spec_heaps()[k]).1.wf() by {
                        assert(self.spec_heaps()[k] == old(self).spec_heaps()[k]);
                    }
                }
                return Err(exec_error_of(e));
            },
        };
        let ghost tv = table@;
        proof {
            assert(self.spec_catalog().spec_tables().last()@ == tv);
            assert forall|i: int| 0 <= i < ct.columns@.len() implies ({
                let cm = self.spec_catalog().spec_tables().last().spec_columns()[i];
                cm.name == (#[trigger] ct.columns@[i]).name@ && cm.column_type == ct.columns@[
                    i
                ].data_type && cm.nullable == ct.columns@[i].nullable && cm.ordinal == i
            }) by {
                assert(cols_v[i]@.name == ct.columns@[i].name@);
                assert(self.spec_catalog().spec_tables().last().spec_columns()[i] == (
                ColumnModel { ordinal: i as u32, ..cols_v[i]@ }));
            }
        }
        let heap = HeapTable::new(table, 1);
        let ghost gh = heap;
        let ghost pre = self.heap_tables@;
        self.heap_tables.push((ct.table_name.clone(), heap));
        proof {
            assert forall|k: int|
                0 <= k < self.spec_heaps().len() implies (#[trigger] self.spec_heaps()[k]).1.wf()
                by {
                if k < pre.len() {
                    assert(self.spec_heaps()[k] == pre[k]);
                    assert(old(self).spec_heaps()[k] == pre[k]);
                } else {
                    assert(self.spec_heaps()[k].1 == gh);
                }
            }
        }
        let mut out = "Created table '".to_owned();
        out.append(ct.table_name.as_str());
        out.append("'");
        Ok(out)
    }

    /// The position of the named heap, if the executor holds one.
    fn find_heap_index(&self, name: &str) -> (r: Option<usize>)
        ensures
            r matches Some(i) ==> i < self.spec_heaps().len() && self.spec_heaps()[i as int].0@
                == name@,
    {
        let n = self.heap_tables.len();
        let mut i: usize = 0;
        while i < n
            invariant
                0 <= i <= n,
                n == self.heap_tables@.len(),
            decreases n - i,
        {
            if str_eq(self.heap_tables[i].0.as_str(), name) {
                return Some(i);
            }
            i = i + 1;
        }
        None
    }

    /// Parses the literals against the schema and appends the row.
    fn execute_insert(&mut self, ins: sql::InsertStmt) -> (r: ExecResult<String>)
        requires
            old(self).wf(),
        ensures
            final(self).wf(),
            final(self).spec_catalog() == old(self).spec_catalog(),
            final(self).spec_heaps().len() == old(self).spec_heaps().len(),
            r is Ok ==> exists|h: int|
                {
                    &&& 0 <= h < old(self).spec_heaps().len()
                    &&& (#[trigger] old(self).spec_heaps()[h]).0@ == ins.table_name@
                    &&& final(self).spec_heaps()[h].0 == old(self).spec_heaps()[h].0
                    &&& (forall|i: int|
                        0 <= i < old(self).spec_heaps().len() && i != h
                            ==> final(self).spec_heaps()[i] == old(self).spec_heaps()[i])
                    &&& (exists|rid: RowId|
                        #[trigger] crate::heap::insert_transition_for(
                            old(self).spec_heaps()[h].1.models(),
                            old(self).spec_heaps()[h].1.spec_first_page_id(),
                            spec_parsed_values(
                                ins.values@,
                                old(self).spec_heaps()[h].1.spec_cols(),
                            ),
                            old(self).spec_heaps()[h].1.spec_cols(),
                            final(self).spec_heaps()[h].1.models(),
                            Ok::<RowId, crate::heap::HeapError>(rid),
                        ))
                },
    {
        let at = match self.find_heap_index(ins.table_name.as_str()) {
            Some(i) => i,
            None => {
                return Err(ExecError::TableNotFound(ins.table_name));
            },
        };
        let mut values: Vec<Value> = Vec::new();
        let ncols = self.heap_tables[at].1.table().columns().len();
        let nvals = ins.values.len();
        let mut i: usize = 0;
        while i < nvals
            invariant
                0 <= i <= nvals,
                nvals == ins.values@.len(),
                at < self.heap_tables@.len(),
                *self == *old(self),
                old(self).wf(),
                ncols == self.heap_tables@[at as int].1.spec_table().columns@.len(),
                values@.len() == i,
                forall|k: int|
                    0 <= k < i ==> (#[trigger] values@[k])@ == spec_parsed_values(
                        ins.values@,
                        self.heap_tables@[at as int].1.spec_cols(),
                    )[k],
            decreases nvals - i,
        {
            let ct = if i < ncols {
                self.heap_tables[at].1.table().columns()[i].column_type()
            } else {
                ColumnType::Int64
            };
            proof {
                let scols = self.heap_tables@[at as int].1.spec_cols();
                assert(scols.len() == ncols);
                if i < ncols {
                    assert(ct == scols[i as int]);
                }
            }
            values.push(parse_value(ins.values[i].as_str(), &ct));
            i = i + 1;
        }
        proof {
            assert(crate::heap::values_view(values@) =~= spec_parsed_values(
                ins.values@,
                self.heap_tables@[at as int].1.spec_cols(),
            ));
        }
        match heap_insert_at(&mut self.heap_tables, at, values) {
            Ok(rid) => {
                let mut out = "Inserted row at page ".to_owned();
                let digits = u64_to_string(rid.page_id);
                out.append(digits.as_str());
                out.append(", slot ");
                let digits = u64_to_string(rid.slot_idx as u64);
                out.append(digits.as_str());
                Ok(out)
            },
            Err(_) => Err(ExecError::Other("insert failed".to_owned())),
        }
    }

    /// Scans the table and renders each row, fields joined by bars.
    fn execute_select(&mut self, sel: sql::SelectStmt) -> (r: ExecResult<String>)
        requires
            old(self).wf(),
        ensures
            final(self).wf(),
            *final(self) == *old(self),
    {
        let at = match self.find_heap_index(sel.from.as_str()) {
            Some(i) => i,
            None => {
                return Err(ExecError::TableNotFound(sel.from));
            },
        };
        let tuples = match self.heap_tables[at].1.scan() {
            Ok(t) => t,
            Err(_) => {
                return Err(ExecError::Other("scan failed".to_owned()));
            },
        };
        if tuples.len() == 0 {
            return Ok("(empty result)".to_owned());
        }
        let mut out = String::new();
        let nrows = tuples.len();
        let mut r_at: usize = 0;
        while r_at < nrows
            invariant
                0 <= r_at <= nrows,
                nrows == tuples@.len(),
            decreases nrows - r_at,
        {
            let vals = tuples[r_at].values();
            let nvals = vals.len();
            let mut v_at: usize = 0;
            while v_at < nvals
                invariant
                    0 <= v_at <= nvals,
                    nvals == vals@.len(),
                decreases nvals - v_at,
            {
                if v_at > 0 {
                    out.append(" | ");
                }
                let field = format_value(&vals[v_at]);
                out.append(field.as_str());
                v_at = v_at + 1;
            }
            out.append("\n");
            r_at = r_at + 1;
        }
        Ok(out)
    }

    /// Scans the table and reports its row count; no rows change.
    fn execute_update(&mut self, upd: sql::UpdateStmt) -> (r: ExecResult<String>)
        requires
            old(self).wf(),
        ensures
            final(self).wf(),
            final(self).spec_catalog() == old(self).spec_catalog(),
            final(self).spec_heaps().len() == old(self).spec_heaps().len(),
            *final(self) == *old(self),
            r matches Ok(msg) ==> exists|h: int|
                {
                    &&& 0 <= h < old(self).spec_heaps().len()
                    &&& (#[trigger] old(self).spec_heaps()[h]).0@ == upd.table_name@
                    &&& encode_utf8(msg@) == encode_utf8("Updated "@) + crate::text::dec_digits(
                        crate::heap::spec_scan_pages(
                            old(self).spec_heaps()[h].1.models(),
                            old(self).spec_heaps()[h].1.spec_cols(),
                            0,
                        ).len() as nat,
                    ) + encode_utf8(" row(s)"@)
                },
    {
        let at = match self.find_heap_index(upd.table_name.as_str()) {
            Some(i) => i,
            None => {
                return Err(ExecError::TableNotFound(upd.table_name));
            },
        };
        let tuples = match self.heap_tables[at].1.scan() {
            Ok(t) => t,
            Err(_) => {
                return Err(ExecError::Other("scan failed".to_owned()));
            },
        };
        let mut out = "Updated ".to_owned();
        let digits = u64_to_string(tuples.len() as u64);
        out.append(digits.as_str());
        out.append(" row(s)");
        proof {
            crate::text::lemma_encode_utf8_concat("Updated "@, digits@);
            crate::text::lemma_encode_utf8_concat("Updated "@ + digits@, " row(s)"@);
            assert(out@ == ("Updated "@ + digits@) + " row(s)"@);
        }
        Ok(out)
    }

    /// Scans the table and reports its row count; no rows change.
    fn execute_delete(&mut self, del: sql::DeleteStmt) -> (r: ExecResult<String>)
        requires
            old(self).wf(),
        ensures
            final(self).wf(),
            final(self).spec_catalog() == old(self).spec_catalog(),
            final(self).spec_heaps().len() == old(self).spec_heaps().len(),
            *final(self) == *old(self),
            r matches Ok(msg) ==> exists|h: int|
                {
                    &&& 0 <= h < old(self).spec_heaps().len()
                    &&& (#[trigger] old(self).spec_heaps()[h]).0@ == del.table_name@
                    &&& encode_utf8(msg@) == encode_utf8("Deleted "@) + crate::text::dec_digits(
                        crate::heap::spec_scan_pages(
                            old(self).spec_heaps()[h].1.models(),
                            old(self).spec_heaps()[h].1.spec_cols(),
                            0,
                        ).len() as nat,
                    ) + encode_utf8(" row(s)"@)
                },
    {
        let at = match self.find_heap_index(del.table_name.as_str()) {
            Some(i) => i,
            None => {
                return Err(ExecError::TableNotFound(del.table_name));
            },
        };
        let tuples = match self.heap_tables[at].1.scan() {
            Ok(t) => t,
            Err(_) => {
                return Err(ExecError::Other("scan failed".to_owned()));
            },
        };
        let mut out = "Deleted ".to_owned();
        let digits = u64_to_string(tuples.len() as u64);
        out.append(digits.as_str());
        out.append(" row(s)");
        proof {
            crate::text::lemma_encode_utf8_concat("Deleted "@, digits@);
            crate::text::lemma_encode_utf8_concat("Deleted "@ + digits@, " row(s)"@);
            assert(out@ == ("Deleted "@ + digits@) + " row(s)"@);
        }
        Ok(out)
    }
}

/// Appends a row to the heap at `at`, keeping every heap well formed.
fn heap_insert_at(
    heaps: &mut Vec<(String, HeapTable)>,
    at: usize,
    values: Vec<Value>,
) -> (r: crate::heap::HeapResult<crate::heap::RowId>)
    requires
        at < old(heaps)@.len(),
        forall|i: int| 0 <= i < old(heaps)@.len() ==> (#[trigger] old(heaps)@[i]).1.wf(),
    ensures
        final(heaps)@.len() == old(heaps)@.len(),
        forall|i: int| 0 <= i < final(heaps)@.len() ==> (#[trigger] final(heaps)@[i]).1.wf(),
        forall|i: int|
            0 <= i < final(heaps)@.len() && i != at ==> final(heaps)@[i] == old(heaps)@[i],
        final(heaps)@[at as int].0 == old(heaps)@[at as int].0,
        final(heaps)@[at as int].1.spec_table() == old(heaps)@[at as int].1.spec_table(),
        final(heaps)@[at as int].1.spec_first_page_id() == old(heaps)@[
            at as int
        ].1.spec_first_page_id(),
        crate::heap::insert_transition_for(
            old(heaps)@[at as int].1.models(),
            old(heaps)@[at as int].1.spec_first_page_id(),
            crate::heap::values_view(values@),
            old(heaps)@[at as int].1.spec_cols(),
            final(heaps)@[at as int].1.models(),
            r,
        ),
{
    let entry = &mut heaps[at];
    let heap = &mut entry.1;
    heap.insert(values.as_slice())
}

/// Maps a catalog error into an executor error carrying its description.
fn exec_error_of(e: CatalogError) -> ExecError {
    ExecError::Other(e.message())
}

} // verus!
