//! Column types: sizes, classification and display names.

use aistore::types::ColumnType;

#[test]
fn test_column_type_sizes() {
    assert_eq!(ColumnType::Int8.size(), 1);
    assert_eq!(ColumnType::Int16.size(), 2);
    assert_eq!(ColumnType::Int32.size(), 4);
    assert_eq!(ColumnType::Int64.size(), 8);
    assert_eq!(ColumnType::UInt8.size(), 1);
    assert_eq!(ColumnType::UInt16.size(), 2);
    assert_eq!(ColumnType::UInt32.size(), 4);
    assert_eq!(ColumnType::UInt64.size(), 8);
    assert_eq!(ColumnType::Float32.size(), 4);
    assert_eq!(ColumnType::Float64.size(), 8);
    assert_eq!(ColumnType::Bool.size(), 1);
}

#[test]
fn test_column_type_variable_sizes() {
    assert_eq!(ColumnType::Varchar(100).size(), 104);
    assert_eq!(ColumnType::Varchar(255).size(), 259);
    assert_eq!(ColumnType::Blob(1024).size(), 1028);
}

#[test]
fn test_column_type_display() {
    assert_eq!(ColumnType::Int8.display_string(), "INT8");
    assert_eq!(ColumnType::Int32.display_string(), "INT32");
    assert_eq!(ColumnType::UInt64.display_string(), "UINT64");
    assert_eq!(ColumnType::Float32.display_string(), "FLOAT32");
    assert_eq!(ColumnType::Varchar(255).display_string(), "VARCHAR(255)");
    assert_eq!(ColumnType::Blob(1024).display_string(), "BLOB(1024)");
    assert_eq!(ColumnType::Bool.display_string(), "BOOL");
}

#[test]
fn test_column_type_is_variable_length() {
    assert!(!ColumnType::Int32.is_variable_length());
    assert!(!ColumnType::Float64.is_variable_length());
    assert!(ColumnType::Varchar(100).is_variable_length());
    assert!(ColumnType::Blob(256).is_variable_length());
}

#[test]
fn test_column_type_is_numeric() {
    assert!(ColumnType::Int32.is_numeric());
    assert!(ColumnType::UInt64.is_numeric());
    assert!(ColumnType::Float32.is_numeric());
    assert!(!ColumnType::Varchar(100).is_numeric());
    assert!(!ColumnType::Bool.is_numeric());
}
