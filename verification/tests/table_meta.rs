//! Tables, columns, the builder, and the system cache.

use aistore::table::{Column, SysCache, SysCacheError, Table, TableBuilder, TableType};
use aistore::types::ColumnType;

#[test]
fn test_table_new() {
    let table = Table::new(1, "test_table".to_string(), 100);
    assert_eq!(table.table_id(), 1);
    assert_eq!(table.table_name(), "test_table");
    assert_eq!(table.segment_id(), 100);
    assert!(!table.is_system());
    assert!(!table.is_temporary());
}

#[test]
fn table_test_table_with_type() {
    let table = Table::with_type(2, "sys_table".to_string(), 200, TableType::System);
    assert_eq!(table.table_id(), 2);
    assert_eq!(table.table_name(), "sys_table");
    assert!(table.is_system());
}

#[test]
fn test_table_temporary() {
    let table = Table::with_type(3, "temp_table".to_string(), 300, TableType::Temporary);
    assert!(table.is_temporary());
}

#[test]
fn test_table_with_columns() {
    let columns = vec![
        Column::new("id".to_string(), ColumnType::Int64, false, 0),
        Column::new("name".to_string(), ColumnType::Varchar(255), true, 1),
    ];

    let table = Table::with_columns(1, "test_table".to_string(), 100, columns);
    assert_eq!(table.column_count(), 2);
    assert_eq!(table.columns().len(), 2);

    let id_col = table.get_column("id").unwrap();
    assert_eq!(id_col.ordinal(), 0);
    assert!(!id_col.is_nullable());

    let name_col = table.get_column_by_ordinal(1).unwrap();
    assert_eq!(name_col.name(), "name");
    assert!(name_col.is_nullable());
}

#[test]
fn test_table_get_column_not_found() {
    let table = Table::new(1, "test".to_string(), 100);
    assert!(table.get_column("nonexistent").is_none());
}

#[test]
fn test_table_empty_columns() {
    let table = Table::new(1, "test".to_string(), 100);
    assert_eq!(table.column_count(), 0);
    assert!(table.columns().is_empty());
}

#[test]
fn test_table_creation() {
    let table = Table::new(1, "users".to_string(), 100);
    assert_eq!(table.table_id, 1);
    assert_eq!(table.table_name, "users");
    assert_eq!(table.segment_id, 100);
    assert_eq!(table.table_type, TableType::User);
}

#[test]
fn tests_test_table_with_type() {
    let table = Table::with_type(2, "config".to_string(), 200, TableType::System);
    assert!(table.is_system());
    assert!(!table.is_temporary());
}

#[test]
fn test_column_new() {
    let col = Column::new("id".to_string(), ColumnType::Int64, false, 0);
    assert_eq!(col.name(), "id");
    assert_eq!(col.column_type(), ColumnType::Int64);
    assert!(!col.is_nullable());
    assert_eq!(col.ordinal(), 0);
    assert_eq!(col.size(), 8);
}

#[test]
fn test_column_nullable() {
    let col = Column::new("name".to_string(), ColumnType::Varchar(255), true, 1);
    assert!(col.is_nullable());
    assert_eq!(col.size(), 259);
}

#[test]
fn test_column_ordinal() {
    let col = Column::new("age".to_string(), ColumnType::Int32, true, 5);
    assert_eq!(col.ordinal(), 5);
}

#[test]
fn test_table_builder_basic() {
    let table = TableBuilder::new(1, "users".to_string())
        .segment_id(100)
        .column(Column::new("id".to_string(), ColumnType::Int64, false, 0))
        .build();

    assert_eq!(table.table_id(), 1);
    assert_eq!(table.table_name(), "users");
    assert_eq!(table.segment_id(), 100);
    assert_eq!(table.column_count(), 1);
}

#[test]
fn test_table_builder_multiple_columns() {
    let table = TableBuilder::new(1, "users".to_string())
        .segment_id(100)
        .column(Column::new("id".to_string(), ColumnType::Int64, false, 0))
        .column(Column::new("name".to_string(), ColumnType::Varchar(255), true, 0))
        .column(Column::new("email".to_string(), ColumnType::Varchar(512), true, 0))
        .build();

    assert_eq!(table.column_count(), 3);

    assert_eq!(table.get_column_by_ordinal(0).unwrap().name(), "id");
    assert_eq!(table.get_column_by_ordinal(1).unwrap().name(), "name");
    assert_eq!(table.get_column_by_ordinal(2).unwrap().name(), "email");
}

#[test]
fn test_table_builder_columns_batch() {
    let cols = vec![
        Column::new("a".to_string(), ColumnType::Int32, false, 0),
        Column::new("b".to_string(), ColumnType::Int32, false, 0),
    ];

    let table = TableBuilder::new(1, "test".to_string())
        .segment_id(100)
        .columns(cols)
        .build();

    assert_eq!(table.column_count(), 2);
}

#[test]
fn test_table_builder_try_build() {
    let result = TableBuilder::new(1, "users".to_string()).try_build();
    assert!(result.is_err());

    let result = TableBuilder::new(1, "users".to_string())
        .segment_id(100)
        .try_build();
    assert!(result.is_ok());
}

#[test]
fn test_table_builder_with_type() {
    let table = TableBuilder::new(1, "sys_table".to_string())
        .segment_id(100)
        .table_type(TableType::System)
        .column(Column::new("id".to_string(), ColumnType::Int64, false, 0))
        .build();

    assert!(table.is_system());
}

#[test]
fn test_syscache_insert_and_get() {
    let mut cache = SysCache::new();
    let table = Table::new(1, "test_table".to_string(), 100);

    cache.insert(table).unwrap();

    let retrieved = cache.get_by_name("test_table").unwrap();
    assert_eq!(retrieved.table_id, 1);
    assert_eq!(retrieved.table_name(), "test_table");

    let retrieved = cache.get_by_id(1).unwrap();
    assert_eq!(retrieved.segment_id, 100);
}

#[test]
fn syscache_test_syscache_remove() {
    let mut cache = SysCache::new();
    let table = Table::new(1, "test_table".to_string(), 100);

    cache.insert(table).unwrap();
    assert_eq!(cache.size(), 1);

    let removed = cache.remove_by_name("test_table").unwrap();
    assert_eq!(removed.table_id, 1);
    assert!(cache.is_empty());
}

#[test]
fn test_syscache_duplicate_insert() {
    let mut cache = SysCache::new();
    let table = Table::new(1, "test_table".to_string(), 100);

    cache.insert(table).unwrap();
    let duplicate = Table::new(2, "test_table".to_string(), 200);

    assert!(matches!(
        cache.insert(duplicate),
        Err(SysCacheError::AlreadyExists(_))
    ));
}

#[test]
fn test_syscache_not_found() {
    let cache = SysCache::new();

    assert!(matches!(
        cache.get_by_name("nonexistent"),
        Err(SysCacheError::NotFound(_))
    ));

    assert!(matches!(cache.get_by_id(999), Err(SysCacheError::NotFound(_))));
}

#[test]
fn syscache_test_syscache_allocate_id() {
    let mut cache = SysCache::new();

    let id1 = cache.allocate_table_id();
    let id2 = cache.allocate_table_id();

    assert_eq!(id1, 1);
    assert_eq!(id2, 2);
}

#[test]
fn test_syscache_basic_operations() {
    let mut cache = SysCache::new();

    let table = Table::new(1, "test".to_string(), 100);
    cache.insert(table).unwrap();

    let retrieved = cache.get_by_name("test").unwrap();
    assert_eq!(retrieved.table_id, 1);

    let retrieved = cache.get_by_id(1).unwrap();
    assert_eq!(retrieved.table_name(), "test");

    assert_eq!(cache.size(), 1);
    assert!(!cache.is_empty());
}

#[test]
fn tests_test_syscache_remove() {
    let mut cache = SysCache::new();
    let table = Table::new(1, "test".to_string(), 100);

    cache.insert(table).unwrap();
    assert_eq!(cache.size(), 1);

    cache.remove_by_name("test").unwrap();
    assert!(cache.is_empty());
}

#[test]
fn tests_test_syscache_allocate_id() {
    let mut cache = SysCache::new();

    assert_eq!(cache.allocate_table_id(), 1);
    assert_eq!(cache.allocate_table_id(), 2);
    assert_eq!(cache.allocate_table_id(), 3);
}

#[test]
fn test_syscache_exists() {
    let mut cache = SysCache::new();
    let table = Table::new(1, "test".to_string(), 100);

    assert!(!cache.exists_by_name("test"));
    assert!(!cache.exists_by_id(1));

    cache.insert(table).unwrap();

    assert!(cache.exists_by_name("test"));
    assert!(cache.exists_by_id(1));
}

#[test]
fn test_syscache_clear() {
    let mut cache = SysCache::new();

    cache.insert(Table::new(1, "t1".to_string(), 100)).unwrap();
    cache.insert(Table::new(2, "t2".to_string(), 200)).unwrap();

    assert_eq!(cache.size(), 2);

    cache.clear();

    assert!(cache.is_empty());
}
