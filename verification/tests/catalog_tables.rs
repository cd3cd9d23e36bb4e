//! The catalog: creation, lookup, persistence and reload.

use aistore::catalog::error::CatalogError;
use aistore::catalog::Catalog;
use aistore::table::Column;
use aistore::types::ColumnType;

#[test]
fn test_catalog_create_and_load() {
    let mut catalog = Catalog::new(".").unwrap();

    let columns = vec![
        Column::new("id".to_string(), ColumnType::Int64, false, 0),
        Column::new("name".to_string(), ColumnType::Varchar(255), true, 1),
    ];

    let table = catalog.create_table("users", 100, columns).unwrap();

    assert_eq!(table.table_id(), 1);
    assert_eq!(table.table_name(), "users");
    assert_eq!(table.segment_id(), 100);
    assert_eq!(table.column_count(), 2);

    let loaded_catalog = catalog.reload().unwrap();
    let loaded_table = loaded_catalog.get_table("users").unwrap();

    assert_eq!(loaded_table.table_id(), table.table_id());
    assert_eq!(loaded_table.table_name(), table.table_name());
    assert_eq!(loaded_table.column_count(), 2);
}

#[test]
fn test_catalog_get_table_by_id() {
    let mut catalog = Catalog::new(".").unwrap();

    let columns = vec![Column::new("id".to_string(), ColumnType::Int64, false, 0)];

    catalog.create_table("test", 100, columns).unwrap();

    let table = catalog.get_table_by_id(1).unwrap();
    assert_eq!(table.table_name(), "test");
}

#[test]
fn test_catalog_table_already_exists() {
    let mut catalog = Catalog::new(".").unwrap();

    let columns = vec![Column::new("id".to_string(), ColumnType::Int64, false, 0)];

    catalog.create_table("users", 100, columns.clone()).unwrap();

    let result = catalog.create_table("users", 200, columns);
    assert!(matches!(result, Err(CatalogError::TableAlreadyExists(_))));
}

#[test]
fn test_catalog_drop_table() {
    let mut catalog = Catalog::new(".").unwrap();

    let columns = vec![Column::new("id".to_string(), ColumnType::Int64, false, 0)];
    catalog.create_table("users", 100, columns).unwrap();

    assert!(catalog.table_exists("users"));

    catalog.drop_table("users").unwrap();

    assert!(!catalog.table_exists("users"));

    let result = catalog.get_table("users");
    assert!(matches!(result, Err(CatalogError::TableNotFound(_))));
}

#[test]
fn test_catalog_list_tables() {
    let mut catalog = Catalog::new(".").unwrap();

    let cols1 = vec![Column::new("a".to_string(), ColumnType::Int32, false, 0)];
    let cols2 = vec![Column::new("b".to_string(), ColumnType::Int32, false, 0)];

    catalog.create_table("table1", 100, cols1).unwrap();
    catalog.create_table("table2", 200, cols2).unwrap();

    let tables = catalog.list_tables();
    assert_eq!(tables.len(), 2);

    let names: Vec<String> = tables.iter().map(|t| t.table_name().to_string()).collect();
    assert!(names.contains(&"table1".to_string()));
    assert!(names.contains(&"table2".to_string()));
}

#[test]
fn test_catalog_duplicate_column_name() {
    let mut catalog = Catalog::new(".").unwrap();

    let columns = vec![
        Column::new("id".to_string(), ColumnType::Int64, false, 0),
        Column::new("id".to_string(), ColumnType::Int32, false, 1),
    ];

    let result = catalog.create_table("test", 100, columns);
    assert!(matches!(result, Err(CatalogError::ColumnAlreadyExists(_))));
}

#[test]
fn test_catalog_persistence_single_column() {
    let mut catalog = Catalog::new(".").unwrap();
    let columns = vec![Column::new("id".to_string(), ColumnType::Int64, false, 0)];
    catalog.create_table("accounts", 1000, columns).unwrap();

    let catalog = catalog.reload().unwrap();
    assert!(catalog.table_exists("accounts"));
    let table = catalog.get_table("accounts").unwrap();

    assert_eq!(table.table_id(), 1);
    assert_eq!(table.segment_id(), 1000);
    assert_eq!(table.column_count(), 1);
}

#[test]
fn test_catalog_multiple_int_columns() {
    let mut catalog = Catalog::new(".").unwrap();

    let columns = vec![
        Column::new("id".to_string(), ColumnType::Int64, false, 0),
        Column::new("age".to_string(), ColumnType::Int32, true, 1),
        Column::new("score".to_string(), ColumnType::Int32, true, 2),
        Column::new("big_value".to_string(), ColumnType::Int64, false, 3),
    ];

    let table = catalog.create_table("metrics", 100, columns.clone()).unwrap();

    assert_eq!(table.table_name(), "metrics");
    assert_eq!(table.column_count(), 4);

    let loaded_table = catalog.get_table("metrics").unwrap();
    assert_eq!(loaded_table.table_id(), table.table_id());
    assert_eq!(loaded_table.column_count(), 4);

    for (i, original_col) in columns.iter().enumerate() {
        let loaded_col = loaded_table.get_column_by_ordinal(i as u32).unwrap();
        assert_eq!(loaded_col.name(), original_col.name(), "Column {} name mismatch", i);
        assert_eq!(
            loaded_col.column_type(),
            original_col.column_type(),
            "Column {} type mismatch",
            i
        );
        assert_eq!(
            loaded_col.is_nullable(),
            original_col.is_nullable(),
            "Column {} nullable mismatch",
            i
        );
    }

    assert_eq!(loaded_table.get_column("id").unwrap().column_type(), ColumnType::Int64);
    assert_eq!(loaded_table.get_column("age").unwrap().column_type(), ColumnType::Int32);
}

#[test]
fn test_catalog_multiple_int_columns_persistence() {
    let mut catalog = Catalog::new(".").unwrap();

    let columns = vec![
        Column::new("user_id".to_string(), ColumnType::Int64, false, 0),
        Column::new("post_id".to_string(), ColumnType::Int64, false, 1),
        Column::new("view_count".to_string(), ColumnType::Int32, true, 2),
        Column::new("like_count".to_string(), ColumnType::Int32, true, 3),
    ];

    catalog.create_table("stats", 500, columns).unwrap();

    let catalog = catalog.reload().unwrap();

    assert!(catalog.table_exists("stats"));
    let table = catalog.get_table("stats").unwrap();

    assert_eq!(table.table_name(), "stats");
    assert_eq!(table.column_count(), 4);

    let expected = vec![
        ("user_id", ColumnType::Int64, false),
        ("post_id", ColumnType::Int64, false),
        ("view_count", ColumnType::Int32, true),
        ("like_count", ColumnType::Int32, true),
    ];

    for (i, (name, expected_type, expected_nullable)) in expected.iter().enumerate() {
        let col = table.get_column_by_ordinal(i as u32).unwrap();
        assert_eq!(col.name(), *name, "Column {} name mismatch", i);
        assert_eq!(col.column_type(), *expected_type, "Column {} type mismatch", i);
        assert_eq!(col.is_nullable(), *expected_nullable, "Column {} nullable mismatch", i);
    }
}

#[test]
fn test_many_columns() {
    let mut catalog = Catalog::new(".").unwrap();
    let num_columns = 100;

    let columns: Vec<Column> = (0..num_columns)
        .map(|i| {
            let col_type = if i % 4 == 0 { ColumnType::Int64 } else { ColumnType::Int32 };
            Column::new(format!("col_{}", i), col_type, true, i as u32)
        })
        .collect();

    let table = catalog.create_table("wide_table", 1000, columns).unwrap();
    assert_eq!(table.column_count(), num_columns as u32);

    let loaded_table = catalog.get_table("wide_table").unwrap();
    assert_eq!(loaded_table.column_count(), num_columns as u32);

    for i in 0..num_columns {
        let col = loaded_table.get_column(&format!("col_{}", i)).unwrap();
        assert_eq!(col.ordinal(), i as u32);
    }
}

#[test]
fn test_many_tables() {
    let mut catalog = Catalog::new(".").unwrap();
    let num_tables = 100;

    for i in 0..num_tables {
        let columns = vec![Column::new("id".to_string(), ColumnType::Int64, false, 0)];
        catalog
            .create_table(&format!("table_{}", i), (i + 1) as u64, columns)
            .unwrap();
    }

    let tables = catalog.list_tables();
    assert_eq!(tables.len(), num_tables);

    for i in 0..num_tables {
        let table = catalog.get_table(&format!("table_{}", i)).unwrap();
        assert_eq!(table.table_name(), format!("table_{}", i));
    }
}

#[test]
fn test_many_tables_persistence() {
    let mut catalog = Catalog::new(".").unwrap();
    let num_tables = 100;

    for i in 0..num_tables {
        let columns = vec![
            Column::new("id".to_string(), ColumnType::Int64, false, 0),
            Column::new("value".to_string(), ColumnType::Int32, true, 1),
        ];
        catalog
            .create_table(&format!("table_{}", i), (i + 1) as u64, columns)
            .unwrap();
    }

    let catalog = catalog.reload().unwrap();
    let tables = catalog.list_tables();
    assert_eq!(tables.len(), num_tables);

    for i in 0..num_tables {
        let table = catalog.get_table(&format!("table_{}", i)).unwrap();
        assert_eq!(table.column_count(), 2);
        assert!(table.get_column("id").is_some());
        assert!(table.get_column("value").is_some());
    }
}

#[test]
fn test_many_columns_persistence() {
    let num_columns = 100;

    let columns: Vec<Column> = (0..num_columns)
        .map(|i| {
            let col_type = if i % 3 == 0 {
                ColumnType::Int64
            } else if i % 3 == 1 {
                ColumnType::Int32
            } else {
                ColumnType::Varchar(255)
            };
            Column::new(format!("col_{}", i), col_type, i % 2 == 0, i as u32)
        })
        .collect();

    let mut catalog = Catalog::new(".").unwrap();
    catalog.create_table("wide_table", 1000, columns).unwrap();

    let catalog = catalog.reload().unwrap();
    let table = catalog.get_table("wide_table").unwrap();
    assert_eq!(table.column_count(), num_columns as u32);

    for i in 0..num_columns {
        let col = table.get_column(&format!("col_{}", i)).unwrap();
        assert_eq!(col.ordinal(), i as u32);
    }
}

#[test]
fn test_concurrent_persistence_recovery() {
    let num_tables = 20;
    let num_loads = 5;

    let mut catalog = Catalog::new(".").unwrap();
    for i in 0..num_tables {
        let columns = vec![
            Column::new("id".to_string(), ColumnType::Int64, false, 0),
            Column::new("data".to_string(), ColumnType::Int32, true, 1),
        ];
        catalog
            .create_table(&format!("table_{}", i), (i + 1) as u64, columns)
            .unwrap();
    }

    for _ in 0..num_loads {
        let loaded = catalog.reload().unwrap();
        let tables = loaded.list_tables();
        assert_eq!(tables.len(), num_tables);

        for table in tables {
            let _ = loaded.get_table(table.table_name());
        }
    }
}

#[test]
fn test_all_column_types() {
    let mut catalog = Catalog::new(".").unwrap();

    let columns = vec![
        Column::new("c_int8".to_string(), ColumnType::Int8, true, 0),
        Column::new("c_int16".to_string(), ColumnType::Int16, true, 1),
        Column::new("c_int32".to_string(), ColumnType::Int32, false, 2),
        Column::new("c_int64".to_string(), ColumnType::Int64, false, 3),
        Column::new("c_uint8".to_string(), ColumnType::UInt8, true, 4),
        Column::new("c_varchar".to_string(), ColumnType::Varchar(100), true, 5),
        Column::new("c_blob".to_string(), ColumnType::Blob(256), true, 6),
        Column::new("c_bool".to_string(), ColumnType::Bool, true, 7),
    ];

    let table = catalog.create_table("mixed_types", 100, columns.clone()).unwrap();
    assert_eq!(table.column_count(), 8);

    let loaded_table = catalog.get_table("mixed_types").unwrap();

    assert_eq!(loaded_table.get_column("c_int8").unwrap().column_type(), ColumnType::Int8);
    assert_eq!(loaded_table.get_column("c_int16").unwrap().column_type(), ColumnType::Int16);
    assert_eq!(loaded_table.get_column("c_int32").unwrap().column_type(), ColumnType::Int32);
    assert_eq!(loaded_table.get_column("c_int64").unwrap().column_type(), ColumnType::Int64);
    assert_eq!(loaded_table.get_column("c_uint8").unwrap().column_type(), ColumnType::UInt8);
    assert_eq!(
        loaded_table.get_column("c_varchar").unwrap().column_type(),
        ColumnType::Varchar(100)
    );
    assert_eq!(loaded_table.get_column("c_blob").unwrap().column_type(), ColumnType::Blob(256));
    assert_eq!(loaded_table.get_column("c_bool").unwrap().column_type(), ColumnType::Bool);
}

#[test]
fn test_catalog_error_display() {
    let err = CatalogError::TableAlreadyExists("users".to_string());
    assert_eq!(err.message(), "Table already exists: users");

    let err = CatalogError::TableNotFound("orders".to_string());
    assert_eq!(err.message(), "Table not found: orders");
}

#[test]
fn test_catalog_error_from_io() {
    let catalog_err = CatalogError::IoError("file not found".to_string());
    assert!(matches!(catalog_err, CatalogError::IoError(_)));
}

#[test]
fn catalog_round_trip_users_table() {
    // The catalog round trip: a users table with a not-null 64-bit id and a
    // nullable 255-byte name gets identifier one; after a reload the table
    // and its columns come back with types and nullability preserved.
    let mut catalog = Catalog::new(".").unwrap();
    let columns = vec![
        Column::new("id".to_string(), ColumnType::Int64, false, 0),
        Column::new("name".to_string(), ColumnType::Varchar(255), true, 1),
    ];
    let table = catalog.create_table("users", 100, columns).unwrap();
    assert_eq!(table.table_id(), 1);

    let loaded = catalog.reload().unwrap();
    let t = loaded.get_table("users").unwrap();
    assert_eq!(t.column_count(), 2);
    let name_col = t.get_column("name").unwrap();
    assert_eq!(name_col.is_nullable(), true);
    assert_eq!(name_col.column_type(), ColumnType::Varchar(255));
}

#[test]
fn table_ids_find_their_own_names() {
    // For every listed table, looking up its identifier yields its name.
    let mut catalog = Catalog::new(".").unwrap();
    for i in 0..5 {
        let columns = vec![Column::new("id".to_string(), ColumnType::Int64, false, 0)];
        catalog
            .create_table(&format!("t_{}", i), (i + 1) as u64, columns)
            .unwrap();
    }
    for t in catalog.list_tables() {
        let by_id = catalog.get_table_by_id(t.table_id()).unwrap();
        assert_eq!(by_id.table_name(), t.table_name());
    }
}

#[test]
fn test_create_table_zero_segment_rejected() {
    let mut catalog = Catalog::new(".").unwrap();
    let columns = vec![Column::new("id".to_string(), ColumnType::Int64, false, 0)];
    let r = catalog.create_table("orders", 0, columns);
    assert!(matches!(r, Err(CatalogError::InvalidArgument(_))));
}

#[test]
fn test_load_rejects_corrupt_file() {
    let mut catalog = Catalog::new(".").unwrap();
    let columns = vec![Column::new("id".to_string(), ColumnType::Int64, false, 0)];
    catalog.create_table("users", 100, columns).unwrap();
    let mut fs = catalog.system_files().clone_fs();
    fs.create_file(b"broken.tbl").unwrap();
    fs.pwrite(b"broken.tbl", b"only|three|fields\n", 0).unwrap();
    let r = Catalog::load(fs);
    assert!(matches!(r, Err(CatalogError::ParseError(_))));
}

#[test]
fn test_load_reconciles_id_counter() {
    let mut catalog = Catalog::new(".").unwrap();
    let ca = vec![Column::new("id".to_string(), ColumnType::Int64, false, 0)];
    let cb = vec![Column::new("id".to_string(), ColumnType::Int64, false, 0)];
    catalog.create_table("a", 1, ca).unwrap();
    catalog.create_table("b", 2, cb).unwrap();
    let reloaded = catalog.reload().unwrap();
    assert_eq!(reloaded.peek_next_table_id(), 3);
}
