//! Page structure definition: the page header that every 8 KiB page carries,
//! with its packed `Special` metadata word.

use vstd::prelude::*;

use crate::types::{PageId, PAGE_SIZE};

verus! {

/// Special page metadata: a 14-bit offset and a 2-bit reserve packed into
/// one 16-bit word.
#[derive(Debug, Clone, Copy, PartialEq, Eq, Structural)]
pub struct Special {
    /// 14-bit offset value.
    pub m_offset: u16,
    /// 2-bit reserve value.
    pub m_reserve: u16,
}

impl Special {
    /// The packed word: offset in the low 14 bits, reserve in the top 2.
    pub open spec fn spec_pack(self) -> u16 {
        (self.m_offset & 0x3FFF) | ((self.m_reserve & 0x3) << 14)
    }

    /// Creates a new `Special` with the given offset and reserve values.
    pub fn new(offset: u16, reserve: u16) -> (r: Self)
        requires
            offset < 0x4000,
            reserve < 4,
        ensures
            r.m_offset == offset,
            r.m_reserve == reserve,
    {
        Self { m_offset: offset, m_reserve: reserve }
    }

    /// Returns the packed 16-bit representation.
    pub fn pack(self) -> (r: u16)
        ensures
            r == self.spec_pack(),
    {
        (self.m_offset & 0x3FFF) | ((self.m_reserve & 0x3) << 14)
    }

    /// Unpacks a 16-bit value into a `Special`. Inverse of `pack` for values
    /// whose fields fit their widths.
    pub fn unpack(value: u16) -> (r: Self)
        ensures
            r.m_offset == value & 0x3FFF,
            r.m_reserve == (value >> 14) & 0x3,
            r.m_offset < 0x4000,
            r.m_reserve < 4,
            r.spec_pack() == value,
    {
        let r = Self { m_offset: value & 0x3FFF, m_reserve: (value >> 14) & 0x3 };
        proof {
            assert(value & 0x3FFF < 0x4000 && (value >> 14) & 0x3 < 4)
                by (bit_vector);
            assert(((value & 0x3FFF) & 0x3FFF) | ((((value >> 14) & 0x3) & 0x3) << 14) == value)
                by (bit_vector);
        }
        r
    }
}

/// In-bounds fields pack and unpack without loss.
pub proof fn lemma_special_pack_unpack(s: Special)
    requires
        s.m_offset < 0x4000,
        s.m_reserve < 4,
    ensures
        (s.spec_pack() & 0x3FFF) == s.m_offset,
        ((s.spec_pack() >> 14) & 0x3) == s.m_reserve,
{
    let o = s.m_offset;
    let r = s.m_reserve;
    assert(o < 0x4000 && r < 4 ==> ((o & 0x3FFF) | ((r & 0x3) << 14)) & 0x3FFF
        == o) by (bit_vector);
    assert(o < 0x4000 && r < 4 ==> ((((o & 0x3FFF) | ((r & 0x3) << 14)) >> 14)
        & 0x3) == r) by (bit_vector);
}

/// Page type tag.
#[derive(Debug, Clone, Copy, PartialEq, Eq, Structural)]
pub enum PageType {
    /// Invalid or unset page type.
    Invalid,
    /// Data page containing user data.
    Data,
    /// Index page containing index entries.
    Index,
    /// Directory page for page management.
    Directory,
    /// Free page (unused).
    Free,
    /// Internal system page.
    System,
}

/// Persistent header carried by every page.
///
/// The on-disk layout is 48 bytes with no padding; this in-memory form keeps
/// the same fields in the same order.
#[derive(Debug, Clone, Copy)]
pub struct PageHeader {
    /// 32-bit checksum for data integrity.
    pub checksum: u32,
    /// Global log sequence number.
    pub glsn: u64,
    /// Previous log sequence number for this page.
    pub plsn: u64,
    /// Write-ahead log identifier for recovery.
    pub wal_id: u64,
    /// Special metadata (14-bit offset plus 2-bit reserve).
    pub special: Special,
    /// Page flags.
    pub flag: u16,
    /// Lower bound offset (slot area start).
    pub lower: u16,
    /// Upper bound offset (data area end).
    pub upper: u16,
    /// Page type tag.
    pub type_: u16,
    /// Page identifier of this page.
    pub myself: PageId,
}

impl PageHeader {
    /// Creates a new zeroed `PageHeader`.
    pub fn new() -> (r: Self)
        ensures
            r.checksum == 0,
            r.glsn == 0,
            r.plsn == 0,
            r.wal_id == 0,
            r.special == (Special { m_offset: 0, m_reserve: 0 }),
            r.flag == 0,
            r.lower == 0,
            r.upper == 0,
            r.type_ == 0,
            r.myself == 0,
    {
        Self {
            checksum: 0,
            glsn: 0,
            plsn: 0,
            wal_id: 0,
            special: Special::new(0, 0),
            flag: 0,
            lower: 0,
            upper: 0,
            type_: 0,
            myself: 0,
        }
    }

    /// Size of the persistent page header in bytes (48, packed).
    pub fn size() -> (r: usize)
        ensures
            r == 48,
    {
        48
    }

    /// Available data space in the page: everything above `upper`.
    pub fn available_space(&self) -> (r: usize)
        requires
            self.upper <= PAGE_SIZE,
        ensures
            r == PAGE_SIZE - self.upper,
    {
        PAGE_SIZE - self.upper as usize
    }

    /// Size of the slot area, which ends at `lower`.
    pub fn slot_space(&self) -> (r: usize)
        ensures
            r == self.lower,
    {
        self.lower as usize
    }
}

impl Default for PageHeader {
    /// Same as `PageHeader::new`.
    fn default() -> (r: Self)
        ensures
            r.lower == 0 && r.upper == 0 && r.myself == 0,
    {
        Self::new()
    }
}

/// Core page structure: the header of one 8 KiB page.
#[derive(Debug, Clone, Copy)]
pub struct Page {
    /// Page header kept in the persistent layout's field order.
    pub header: PageHeader,
}

impl Page {
    /// Creates a new zeroed page.
    pub fn new() -> (r: Self)
        ensures
            r.header.lower == 0 && r.header.upper == 0 && r.header.myself == 0,
    {
        Self { header: PageHeader::new() }
    }

    /// Size of the page header in bytes.
    pub fn header_size() -> (r: usize)
        ensures
            r == 48,
    {
        PageHeader::size()
    }

    /// Available data space in the page.
    pub fn available_space(&self) -> (r: usize)
        requires
            self.header.upper <= PAGE_SIZE,
        ensures
            r == PAGE_SIZE - self.header.upper,
    {
        self.header.available_space()
    }

    /// Size of the slot area.
    pub fn slot_space(&self) -> (r: usize)
        ensures
            r == self.header.lower,
    {
        self.header.slot_space()
    }
}

impl Default for Page {
    /// Same as `Page::new`.
    fn default() -> (r: Self)
        ensures
            r.header.lower == 0 && r.header.upper == 0 && r.header.myself == 0,
    {
        Self::new()
    }
}

} // verus!
