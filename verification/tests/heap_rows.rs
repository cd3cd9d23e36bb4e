//! Heap pages, tuples and their serialization.

use aistore::heap::{HeapError, HeapPage, HeapTable, RowId, Tuple, Value};
use aistore::table::{Column, Table};
use aistore::types::ColumnType;

fn two_col_table() -> Table {
    Table::with_columns(
        1,
        "t".to_string(),
        100,
        vec![
            Column::new("id".to_string(), ColumnType::Int64, false, 0),
            Column::new("s".to_string(), ColumnType::Varchar(16), true, 1),
        ],
    )
}

#[test]
fn tuple_round_trip_two_columns() {
    // Serializing and deserializing a representable tuple returns the
    // tuple.
    let table = two_col_table();
    let tuple = Tuple::new(vec![Value::Int64(1), Value::VarChar("a".to_string())]);
    let bytes = tuple.serialize(table.columns()).unwrap();
    let back = Tuple::deserialize(bytes.as_slice(), table.columns()).unwrap();
    assert_eq!(back.values(), tuple.values());
}

#[test]
fn tuple_round_trip_with_null_and_blob() {
    let table = Table::with_columns(
        2,
        "u".to_string(),
        100,
        vec![
            Column::new("a".to_string(), ColumnType::UInt16, true, 0),
            Column::new("b".to_string(), ColumnType::Blob(8), true, 1),
            Column::new("c".to_string(), ColumnType::Bool, true, 2),
        ],
    );
    let tuple = Tuple::new(vec![
        Value::Null,
        Value::Blob(vec![1, 2, 3]),
        Value::Boolean(true),
    ]);
    let bytes = tuple.serialize(table.columns()).unwrap();
    let back = Tuple::deserialize(bytes.as_slice(), table.columns()).unwrap();
    assert_eq!(back.values(), tuple.values());
}

#[test]
fn tuple_serialize_rejects_oversized_string() {
    // A string longer than its column's declared width does not serialize.
    let table = two_col_table();
    let tuple = Tuple::new(vec![
        Value::Int64(1),
        Value::VarChar("seventeen bytes!!".to_string()),
    ]);
    assert!(matches!(
        tuple.serialize(table.columns()),
        Err(HeapError::SerializationError(_))
    ));
}

#[test]
fn value_raw_bytes_round_small_ints() {
    let v = Value::UInt32(0xDEADBEEF);
    let bytes = v.serialize();
    assert_eq!(bytes, vec![0xEF, 0xBE, 0xAD, 0xDE]);
    assert_eq!(v.serialized_size(), 4);
    let back = Value::deserialize(bytes.as_slice(), &ColumnType::UInt32).unwrap();
    assert_eq!(back, v);
}

#[test]
fn heap_page_insert_get_delete() {
    let mut page = HeapPage::new(9);
    assert_eq!(page.page_id(), 9);
    assert_eq!(page.slot_count(), 0);

    let s0 = page.insert_tuple(&[1, 2, 3]).unwrap();
    let s1 = page.insert_tuple(&[4, 5]).unwrap();
    assert_eq!(s0, 0);
    assert_eq!(s1, 1);
    assert_eq!(page.get_tuple(0).unwrap(), vec![1, 2, 3]);
    assert_eq!(page.get_tuple(1).unwrap(), vec![4, 5]);
    assert!(matches!(page.get_tuple(2), Err(HeapError::InvalidSlot(2))));

    page.delete_tuple(0).unwrap();
    assert!(matches!(page.get_tuple(0), Err(HeapError::TupleNotFound(_))));
    assert_eq!(page.get_tuple(1).unwrap(), vec![4, 5]);

    let live = page.iter_tuples();
    assert_eq!(live.len(), 1);
    assert_eq!(live[0].0, 1);
}

#[test]
fn heap_page_out_of_space() {
    let mut page = HeapPage::new(1);
    let big = vec![0u8; 9000];
    assert!(matches!(page.insert_tuple(big.as_slice()), Err(HeapError::OutOfSpace)));
}

#[test]
fn heap_slotted_insert_scan_in_order() {
    // Inserting tuples (1, "a") and (2, "b") into a fresh heap: a scan
    // returns exactly those two tuples in insertion order.
    let table = two_col_table();
    let mut heap = HeapTable::new(table, 1);
    heap.insert(&[Value::Int64(1), Value::VarChar("a".to_string())]).unwrap();
    heap.insert(&[Value::Int64(2), Value::VarChar("b".to_string())]).unwrap();

    let rows = heap.scan().unwrap();
    assert_eq!(rows.len(), 2);
    assert_eq!(
        rows[0].values(),
        &[Value::Int64(1), Value::VarChar("a".to_string())]
    );
    assert_eq!(
        rows[1].values(),
        &[Value::Int64(2), Value::VarChar("b".to_string())]
    );
}

#[test]
fn heap_get_update_delete() {
    let table = two_col_table();
    let mut heap = HeapTable::new(table, 1);
    let rid = heap.insert(&[Value::Int64(1), Value::VarChar("a".to_string())]).unwrap();
    assert_eq!(rid, RowId::new(1, 0));

    let t = heap.get(rid).unwrap();
    assert_eq!(t.values()[0], Value::Int64(1));

    heap.update(rid, &[Value::Int64(9), Value::VarChar("z".to_string())]).unwrap();
    let rows = heap.scan().unwrap();
    assert_eq!(rows.len(), 1);
    assert_eq!(rows[0].values()[0], Value::Int64(9));

    let rid2 = RowId::new(1, 1);
    heap.delete(rid2).unwrap();
    assert_eq!(heap.scan().unwrap().len(), 0);
    assert!(matches!(heap.get(rid2), Err(HeapError::TupleNotFound(_))));
    assert!(matches!(
        heap.get(RowId::new(77, 0)),
        Err(HeapError::PageNotFound(77))
    ));
}

#[test]
fn heap_page_image_round_trip() {
    let mut page = HeapPage::new(3);
    page.insert_tuple(&[10, 20, 30]).unwrap();
    page.insert_tuple(&[40]).unwrap();
    let image = page.as_bytes().to_vec();
    let rebuilt = HeapPage::from_bytes(3, image.as_slice());
    assert_eq!(rebuilt.slot_count(), 2);
    assert_eq!(rebuilt.get_tuple(0).unwrap(), vec![10, 20, 30]);
    assert_eq!(rebuilt.get_tuple(1).unwrap(), vec![40]);
}
