//! Buffer descriptors, the replacement manager, and the buffer pool.

use aistore::buffer::lru::LruManager;
use aistore::buffer::{BufferDesc, BufferError, BufferMgr, BufferTag};
use aistore::vfs::MemFs;

#[test]
fn test_buffer_tag_creation() {
    let tag = BufferTag::new(12345);
    assert_eq!(tag.page_id, 12345);
}

#[test]
fn test_dirty_flag() {
    let mut desc = BufferDesc::new();
    assert!(!desc.is_dirty());
    desc.set_dirty();
    assert!(desc.is_dirty());
    desc.clear_dirty();
    assert!(!desc.is_dirty());
}

#[test]
fn test_pin_count() {
    let mut desc = BufferDesc::new();
    assert_eq!(desc.pin_count(), 0);
    assert_eq!(desc.pin(), 1);
    assert_eq!(desc.pin(), 2);
    assert_eq!(desc.unpin(), 1);
    assert_eq!(desc.unpin(), 0);
}

#[test]
fn test_buffer_mgr_init() {
    let mgr = BufferMgr::init(8, MemFs::new(), b"/tmp/test".to_vec());
    assert_eq!(mgr.buffer_size(), 8);
}

#[test]
fn test_lookup_returns_none_for_unknown_page() {
    let mgr = BufferMgr::init(8, MemFs::new(), b"/tmp/test".to_vec());
    assert_eq!(mgr.lookup(99999), None);
}

#[test]
fn test_mark_dirty_nonexistent_page() {
    let mut mgr = BufferMgr::init(8, MemFs::new(), b"/tmp/test".to_vec());
    mgr.mark_dirty(99999);
}

#[test]
fn test_unpin_page_nonexistent_page() {
    let mut mgr = BufferMgr::init(8, MemFs::new(), b"/tmp/test".to_vec());
    let result = mgr.unpin_page(99999);
    assert!(result.is_err());
    assert_eq!(result.unwrap_err(), BufferError::PageNotFound(99999));
}

#[test]
fn test_buffer_desc_state_initial_values() {
    let desc = BufferDesc::new();
    assert_eq!(desc.pin_count(), 0);
    assert!(!desc.is_dirty());
    assert!(desc.can_evict());
}

#[test]
fn test_buffer_desc_dirty_set_clear() {
    let mut desc = BufferDesc::new();
    assert!(!desc.is_dirty());
    desc.set_dirty();
    assert!(desc.is_dirty());
    desc.clear_dirty();
    assert!(!desc.is_dirty());
}

#[test]
fn test_buffer_desc_pin_unpin() {
    let mut desc = BufferDesc::new();
    assert_eq!(desc.pin_count(), 0);
    assert!(desc.can_evict());

    desc.pin();
    assert_eq!(desc.pin_count(), 1);
    assert!(!desc.can_evict());

    desc.pin();
    assert_eq!(desc.pin_count(), 2);

    desc.unpin();
    assert_eq!(desc.pin_count(), 1);
    assert!(!desc.can_evict());

    desc.unpin();
    assert_eq!(desc.pin_count(), 0);
    assert!(desc.can_evict());
}

#[test]
fn fresh_descriptor_pin_unpin_counts() {
    // A fresh descriptor counts pins up and down and is evictable exactly
    // at zero.
    let mut desc = BufferDesc::new();
    assert_eq!(desc.pin(), 1);
    assert_eq!(desc.pin(), 2);
    assert_eq!(desc.unpin(), 1);
    assert!(!desc.can_evict());
    assert_eq!(desc.unpin(), 0);
    assert!(desc.can_evict());
}

#[test]
fn hot_cold_promotion_protects_accessed_frame() {
    // Pool of ten: hot five, cold three, candidates two. Add frames 0..10,
    // access frame 5, then evict once: the victim must not be 5.
    let mut lru = LruManager::new(5, 3, 2);
    for i in 0..10 {
        lru.add(i);
    }
    lru.access(5);
    let victim = lru.evict().unwrap();
    assert_ne!(victim, 5);
}

#[test]
fn mark_dirty_twice_is_once() {
    // Marking a cached page dirty twice leaves the pool exactly as one
    // marking does.
    let mut fs = MemFs::new();
    fs.create_file(b"d/page_0.dat").unwrap();
    fs.truncate(b"d/page_0.dat", 8192).unwrap();
    let mut a = BufferMgr::init(4, fs.clone_fs(), b"d".to_vec());
    let mut b = BufferMgr::init(4, fs, b"d".to_vec());
    let pa = a.get_page(7).unwrap();
    let pb = b.get_page(7).unwrap();
    assert_eq!(pa, pb);
    a.mark_dirty(7);
    b.mark_dirty(7);
    b.mark_dirty(7);
    let fa = a.frame_bytes(pa);
    let fb = b.frame_bytes(pb);
    assert_eq!(fa, fb);
    a.unpin_page(7).unwrap();
    b.unpin_page(7).unwrap();
    assert!(a.flush_all().is_ok());
    assert!(b.flush_all().is_ok());
}

#[test]
fn get_page_round_trips_written_bytes() {
    // Writing a frame, flushing, evicting and re-reading yields the
    // written bytes from the page file.
    let mut fs = MemFs::new();
    fs.create_file(b"d/page_0.dat").unwrap();
    fs.truncate(b"d/page_0.dat", 4 * 8192).unwrap();
    let mut mgr = BufferMgr::init(2, fs, b"d".to_vec());
    let idx = mgr.get_page(1).unwrap();
    mgr.write_frame_bytes(idx, 0, &[7u8, 8, 9]);
    mgr.mark_dirty(1);
    mgr.unpin_page(1).unwrap();
    mgr.flush_all().unwrap();
    // Fill the pool so page 1 is evicted.
    let i2 = mgr.get_page(2).unwrap();
    mgr.unpin_page(2).unwrap();
    let _ = i2;
    let i3 = mgr.get_page(3).unwrap();
    mgr.unpin_page(3).unwrap();
    let _ = i3;
    let again = mgr.get_page(1).unwrap();
    let bytes = mgr.frame_bytes(again);
    assert_eq!(&bytes[0..3], &[7u8, 8, 9]);
    mgr.unpin_page(1).unwrap();
}
