//! Segment-file headers and the in-memory segment directory.

use aistore::segment::{
    ExtentHeader, FileHeader, SegmentManager, SegmentType, EXTENT_PAGE_COUNT, EXTENT_SIZE,
    EXTENT_USABLE_PAGES, FILE_HEADER_SIZE, FILE_MAGIC, FILE_VERSION,
};
use aistore::tablespace::segment::{
    SegmentDirectory, SegmentHeader as TsSegmentHeader, SegmentType as TsSegmentType,
    SEGMENT_USABLE_PAGES,
};
use aistore::tablespace::FreeExtent;
use aistore::types::BLOCK_SIZE;

#[test]
fn test_file_header_creation() {
    let mut header = FileHeader::new();

    assert_eq!(header.magic, FILE_MAGIC);
    assert_eq!(header.version, FILE_VERSION);
    assert_eq!(header.file_size, FILE_HEADER_SIZE as u64);
    assert_eq!(header.segment_count, 0);

    header.init_checksum();
    assert!(header.verify_checksum());
}

#[test]
fn test_file_header_checksum() {
    let mut header = FileHeader::new();
    header.init_checksum();

    assert!(header.verify_checksum());

    header.file_size = 9999;
    assert!(!header.verify_checksum());
}

#[test]
fn tests_test_extent_header() {
    let header = ExtentHeader::new();

    assert_eq!(header.next_extent_ptr, 0);

    let checksum = header.compute_checksum();
    assert_ne!(checksum, 0);
}

#[test]
fn tests_test_segment_header() {
    let mut header = aistore::segment::SegmentHeader::new(1, SegmentType::Generic);

    assert_eq!(header.segment_id, 1);
    assert_eq!(header.segment_type, SegmentType::Generic);
    assert_eq!(header.next_extent_ptr, 0);
    assert_eq!(header.total_pages, 0);

    header.init_checksum();
    assert!(header.verify_checksum());

    header.total_pages = 100;
    assert!(!header.verify_checksum());
}

#[test]
fn test_extent_size_constants() {
    assert_eq!(EXTENT_SIZE, 1024 * 1024);
    assert_eq!(EXTENT_PAGE_COUNT, 128);
    assert_eq!(EXTENT_USABLE_PAGES, 127);
    assert!(EXTENT_USABLE_PAGES as usize * BLOCK_SIZE < EXTENT_SIZE);
}

#[test]
fn segment_test_segment_header() {
    let header = TsSegmentHeader::new(1, TsSegmentType::Data, 1);
    assert!(header.is_valid());
    let mut h = header;
    h.init_checksum();
    assert!(h.verify_checksum());
}

#[test]
fn test_segment_directory() {
    let mut dir = SegmentDirectory::new();
    let extent = FreeExtent::new(0, 0, SEGMENT_USABLE_PAGES);
    let seg_id = dir.create_segment(1, TsSegmentType::Data, extent);
    assert_eq!(seg_id, 1);
    assert!(dir.get(1).is_some());
    assert!(dir.get(2).is_none());
}

#[test]
fn test_segment_creation_multiple() {
    let mut dir = SegmentDirectory::new();
    for i in 0..5 {
        let extent = FreeExtent::new(0, (i * 1024 * 1024) as u64, SEGMENT_USABLE_PAGES);
        let seg_id = dir.create_segment(1, TsSegmentType::Data, extent);
        assert_eq!(seg_id, i as u64 + 1);
    }
    assert_eq!(dir.len(), 5);
}

#[test]
fn test_segment_manager_new_file() {
    let manager = SegmentManager::new(Vec::new());

    assert!(manager.is_ok());
    let mgr = manager.unwrap();

    let header = mgr.cached_file_header();
    assert!(header.is_valid());
    assert_eq!(header.segment_count, 0);
    assert_eq!(header.file_size, FILE_HEADER_SIZE as u64);
}

#[test]
fn test_segment_manager_existing_file() {
    let image = {
        let manager = SegmentManager::new(Vec::new());
        assert!(manager.is_ok());
        manager.unwrap().file_bytes().clone()
    };

    let manager = SegmentManager::new(image);
    assert!(manager.is_ok());
    let mgr = manager.unwrap();

    let header = mgr.cached_file_header();
    assert!(header.is_valid());
    assert_eq!(header.segment_count, 0);
}

#[test]
fn test_create_segment() {
    let manager = SegmentManager::new(Vec::new());
    assert!(manager.is_ok());

    let mut mgr = manager.unwrap();
    let segment_id = mgr.create_segment(SegmentType::Generic);

    assert!(segment_id.is_ok());
    assert_eq!(segment_id.unwrap(), 1);

    let header = mgr.cached_file_header();
    assert_eq!(header.segment_count, 1);
}

#[test]
fn test_allocate_page() {
    let manager = SegmentManager::new(Vec::new());
    assert!(manager.is_ok());

    let mut mgr = manager.unwrap();

    let segment_id = mgr.create_segment(SegmentType::Generic);
    assert!(segment_id.is_ok());
    let segment_id = segment_id.unwrap();

    let page_idx = mgr.allocate_page(segment_id);
    assert!(page_idx.is_ok());
    assert_eq!(page_idx.unwrap(), 0);
}

#[test]
fn segment_pages_round_trip() {
    // A page written to a segment reads back, including across the chained
    // second extent.
    let mut mgr = SegmentManager::new(Vec::new()).unwrap();
    let seg = mgr.create_segment(SegmentType::Data).unwrap();
    for expect in 0..128u64 {
        let p = mgr.allocate_page(seg).unwrap();
        assert_eq!(p, expect);
    }
    mgr.write_page(seg, 0, &[1, 2, 3]).unwrap();
    mgr.write_page(seg, 127, &[9, 9]).unwrap();
    let first = mgr.read_page(seg, 0).unwrap();
    assert_eq!(&first[0..3], &[1, 2, 3]);
    let chained = mgr.read_page(seg, 127).unwrap();
    assert_eq!(&chained[0..2], &[9, 9]);
}
