//! The SQL front end.

use aistore::sql::{parse, SqlError, Statement};
use aistore::types::ColumnType;

#[test]
fn create_table_with_two_columns() {
    // Parsing a CREATE TABLE with a 64-bit id and a 20-byte not-null string
    // yields two columns at positions zero and one, the first nullable and
    // the second not.
    let stmt = parse("CREATE TABLE t (id INT64, s VARCHAR(20) NOT NULL)").unwrap();
    match stmt {
        Statement::CreateTable(ct) => {
            assert_eq!(ct.table_name, "t");
            assert_eq!(ct.columns.len(), 2);
            assert_eq!(ct.columns[0].name, "id");
            assert_eq!(ct.columns[0].data_type, ColumnType::Int64);
            assert_eq!(ct.columns[0].nullable, true);
            assert_eq!(ct.columns[1].name, "s");
            assert_eq!(ct.columns[1].data_type, ColumnType::Varchar(20));
            assert_eq!(ct.columns[1].nullable, false);
        }
        _ => panic!("expected CREATE TABLE"),
    }
}

#[test]
fn int_keyword_reads_as_int32() {
    // The parser treats INT as a 32-bit integer even where the declaration
    // says a wider type would fit.
    let stmt = parse("create table x (a INT, b BOOLEAN, c TEXT)").unwrap();
    match stmt {
        Statement::CreateTable(ct) => {
            assert_eq!(ct.columns[0].data_type, ColumnType::Int32);
            assert_eq!(ct.columns[1].data_type, ColumnType::Bool);
            assert_eq!(ct.columns[2].data_type, ColumnType::Varchar(255));
        }
        _ => panic!("expected CREATE TABLE"),
    }
}

#[test]
fn insert_splits_values() {
    let stmt = parse("INSERT INTO t 1, 'a', NULL").unwrap();
    match stmt {
        Statement::Insert(ins) => {
            assert_eq!(ins.table_name, "t");
            assert_eq!(ins.values, vec!["1", "'a'", "NULL"]);
        }
        _ => panic!("expected INSERT"),
    }
}

#[test]
fn select_with_where() {
    let stmt = parse("SELECT * FROM t WHERE id = 1").unwrap();
    match stmt {
        Statement::Select(sel) => {
            assert_eq!(sel.from, "t");
            assert_eq!(sel.where_clause.as_deref(), Some("id = 1"));
        }
        _ => panic!("expected SELECT"),
    }
}

#[test]
fn update_with_set() {
    let stmt = parse("UPDATE t SET a = 1, b = 'x' WHERE id = 2").unwrap();
    match stmt {
        Statement::Update(upd) => {
            assert_eq!(upd.table_name, "t");
            assert_eq!(upd.set.len(), 2);
            assert_eq!(upd.set[0], ("a".to_string(), "1".to_string()));
            assert_eq!(upd.set[1], ("b".to_string(), "'x'".to_string()));
            assert_eq!(upd.where_clause.as_deref(), Some("id = 2"));
        }
        _ => panic!("expected UPDATE"),
    }
}

#[test]
fn delete_without_where() {
    let stmt = parse("DELETE FROM t").unwrap();
    match stmt {
        Statement::Delete(del) => {
            assert_eq!(del.table_name, "t");
            assert!(del.where_clause.is_none());
        }
        _ => panic!("expected DELETE"),
    }
}

#[test]
fn unknown_statement_is_syntax_error() {
    assert!(matches!(parse("GRANT ALL"), Err(SqlError::SyntaxError(_))));
}
