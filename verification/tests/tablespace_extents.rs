//! Tablespaces: the free-extent list, extent headers and their bitmap, the
//! file header, and extent allocation growing the file.

use aistore::tablespace::{
    ExtentHeader, FileHeader, FreeExtentList, TablespaceConfig, TablespaceManager,
    EXTENT_SIZE, FILE_HEADER_SIZE,
};

#[test]
fn test_free_extent_list() {
    let mut list = FreeExtentList::new();
    list.add_extent(0, 0, 100);
    list.add_extent(1, 0x100000, 50);
    list.add_extent(2, 0x200000, 127);
    assert_eq!(list.len(), 3);

    let extent = list.get_extent(100).unwrap();
    assert_eq!(extent.free_pages, 127);
    assert_eq!(extent.file_id, 2);

    let extent = list.get_extent(50).unwrap();
    assert_eq!(extent.free_pages, 100);
}

#[test]
fn mod_test_extent_header() {
    let mut header = ExtentHeader::new(1, 0, 0);
    assert!(header.has_free_pages());
    assert!(!header.is_full());

    for i in 0..10 {
        let page_idx = header.allocate_page().unwrap();
        assert_eq!(page_idx, i as u32);
    }
    assert_eq!(header.free_pages, 117);

    for _ in 10..127 {
        assert!(header.allocate_page().is_some());
    }
    assert!(header.is_full());
    assert!(header.allocate_page().is_none());

    header.free_page(50);
    assert_eq!(header.free_pages, 1);
}

#[test]
fn test_file_header() {
    let mut header = FileHeader::new(1, 0);
    assert!(header.is_valid());
    header.init_checksum();
    assert!(header.verify_checksum());
}

#[test]
fn extent_bitmap_population_matches_free_pages() {
    // The bitmap population count tracks the free-page count through
    // allocations and frees.
    let mut header = ExtentHeader::new(7, 0, 0);
    let popcount = |bm: &Vec<u8>| -> u32 {
        bm.iter().map(|b| b.count_ones()).sum()
    };
    assert_eq!(popcount(&header.page_bitmap), header.free_pages);
    for _ in 0..5 {
        header.allocate_page().unwrap();
        assert_eq!(popcount(&header.page_bitmap), header.free_pages);
    }
    let idx = header.allocate_page().unwrap();
    header.free_page(idx);
    assert_eq!(popcount(&header.page_bitmap), header.free_pages);
}

#[test]
fn extent_allocation_grows_file() {
    // A fresh tablespace grows by one extent per allocation: after three,
    // the file holds the header plus three extents.
    let mut mgr = TablespaceManager::new("data");
    let ts = mgr.create_tablespace("space", TablespaceConfig::default()).unwrap();
    for _ in 0..3 {
        mgr.allocate_extent(ts).unwrap();
    }
    let file = mgr.get_file(ts, 0).unwrap();
    assert_eq!(file.len(), FILE_HEADER_SIZE + 3 * EXTENT_SIZE);
    let header = aistore::tablespace::read_file_header(file.as_slice()).unwrap();
    assert_eq!(header.extent_count, 3);
    assert_eq!(header.free_pages, 3 * 127);
}

#[test]
fn test_tablespace_creation() {
    let mut mgr = TablespaceManager::new("data");

    let ts_id = mgr
        .create_tablespace("test_tablespace", TablespaceConfig::default())
        .unwrap();
    assert_eq!(ts_id, 1);

    let names = mgr.list_tablespaces();
    assert_eq!(names.len(), 1);
    assert_eq!(names[0], "test_tablespace");
}

#[test]
fn duplicate_tablespace_name_is_rejected() {
    let mut mgr = TablespaceManager::new("data");
    mgr.create_tablespace("a", TablespaceConfig::default()).unwrap();
    let r = mgr.create_tablespace("a", TablespaceConfig::default());
    assert!(matches!(
        r,
        Err(aistore::tablespace::TablespaceError::InvalidArgument(_))
    ));
}

#[test]
fn file_header_checksum_covers_fields() {
    // The checksum is the CRC-32 of the header image; re-computing it on
    // the encoded bytes gives the same value, so the encoder does not hand
    // its input back unchanged.
    let mut h = FileHeader::new(9, 0);
    h.init_checksum();
    let mut zeroed = h;
    zeroed.checksum = 0;
    let img = aistore::tablespace::encode_file_header(&zeroed);
    assert_eq!(h.checksum, crc32fast::hash(img.as_slice()));
    assert_ne!(img.as_slice(), &[0u8; 40]);
}
