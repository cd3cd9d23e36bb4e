//! The in-memory filesystem.

use aistore::vfs::{MemFs, VfsError};

#[test]
fn vfs_create_write_read() {
    let mut fs = MemFs::new();
    assert!(!fs.file_exists(b"a.dat"));
    fs.create_file(b"a.dat").unwrap();
    assert!(fs.file_exists(b"a.dat"));
    assert_eq!(fs.pwrite(b"a.dat", &[1, 2, 3], 4).unwrap(), 3);
    assert_eq!(fs.file_size(b"a.dat").unwrap(), 7);
    let out = fs.pread(b"a.dat", 7, 0).unwrap();
    assert_eq!(out, vec![0, 0, 0, 0, 1, 2, 3]);
    // A read past the end is short.
    let tail = fs.pread(b"a.dat", 10, 5).unwrap();
    assert_eq!(tail, vec![2, 3]);
}

#[test]
fn vfs_truncate_and_remove() {
    let mut fs = MemFs::new();
    fs.create_file(b"a").unwrap();
    fs.pwrite(b"a", &[9, 9], 0).unwrap();
    fs.truncate(b"a", 4).unwrap();
    assert_eq!(fs.pread(b"a", 4, 0).unwrap(), vec![9, 9, 0, 0]);
    fs.truncate(b"a", 1).unwrap();
    assert_eq!(fs.pread(b"a", 4, 0).unwrap(), vec![9]);
    fs.remove_file(b"a").unwrap();
    assert!(matches!(fs.pread(b"a", 1, 0), Err(VfsError::NotFound(_))));
    assert!(matches!(fs.remove_file(b"a"), Err(VfsError::NotFound(_))));
}

#[test]
fn vfs_directories_are_accepted() {
    let mut fs = MemFs::new();
    fs.create_dir(b"sys").unwrap();
    fs.remove_dir(b"sys").unwrap();
}
