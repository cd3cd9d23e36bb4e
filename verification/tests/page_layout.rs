//! The page header and its packed metadata word.

use aistore::page::{Page, PageHeader, Special};
use std::mem::size_of;

#[test]
fn test_special_pack_unpack() {
    let special = Special::new(0x1FFF, 0x3);
    assert_eq!(special.pack(), 0xDFFF);
}

#[test]
fn test_special_unpack() {
    let special = Special::unpack(0xDFFF);
    assert_eq!(special.pack(), 0xDFFF);
}

#[test]
fn test_page_header_layout() {
    assert_eq!(size_of::<PageHeader>(), 48);
    assert_eq!(PageHeader::size(), 48);
}

#[test]
fn page_fresh_space() {
    let page = Page::new();
    assert_eq!(page.slot_space(), 0);
    assert_eq!(Page::header_size(), 48);
}
