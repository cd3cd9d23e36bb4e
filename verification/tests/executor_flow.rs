//! The executor: statements against a live catalog and heap.

use aistore::catalog::Catalog;
use aistore::executor::{ExecError, Executor};

#[test]
fn executor_create_insert_select() {
    let catalog = Catalog::new(".").unwrap();
    let mut exec = Executor::new(catalog);

    let out = exec
        .execute("CREATE TABLE t (id INT64, s VARCHAR(20))")
        .unwrap();
    assert_eq!(out, "Created table 't'");

    exec.execute("INSERT INTO t 1, 'a'").unwrap();
    exec.execute("INSERT INTO t 2, 'b'").unwrap();

    let rows = exec.execute("SELECT * FROM t").unwrap();
    assert_eq!(rows, "1 | a\n2 | b\n");

    let updated = exec.execute("UPDATE t SET s = 'x'").unwrap();
    assert_eq!(updated, "Updated 2 row(s)");

    let deleted = exec.execute("DELETE FROM t").unwrap();
    assert_eq!(deleted, "Deleted 2 row(s)");
}

#[test]
fn executor_unknown_table() {
    let catalog = Catalog::new(".").unwrap();
    let mut exec = Executor::new(catalog);
    let r = exec.execute("SELECT * FROM ghost");
    assert!(matches!(r, Err(ExecError::TableNotFound(_))));
}

#[test]
fn executor_rejects_garbage() {
    let catalog = Catalog::new(".").unwrap();
    let mut exec = Executor::new(catalog);
    assert!(matches!(
        exec.execute("GRANT ALL"),
        Err(ExecError::SqlError(_))
    ));
}

#[test]
fn test_parse_value_negative_integer() {
    let v = aistore::executor::parse_value("-42", &aistore::types::ColumnType::Int64);
    assert!(matches!(v, aistore::heap::Value::Int64(-42)));
}

#[test]
fn test_parse_value_quoted_text() {
    let v = aistore::executor::parse_value("  'hello world'  ", &aistore::types::ColumnType::Varchar(32));
    match v {
        aistore::heap::Value::VarChar(s) => assert_eq!(s, "hello world"),
        _ => panic!("expected a VarChar"),
    }
}

#[test]
fn test_parse_value_plain_text_fallback() {
    let v = aistore::executor::parse_value("plain", &aistore::types::ColumnType::Varchar(32));
    match v {
        aistore::heap::Value::VarChar(s) => assert_eq!(s, "plain"),
        _ => panic!("expected a VarChar"),
    }
}
