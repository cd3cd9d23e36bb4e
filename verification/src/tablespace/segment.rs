//! Segment metadata within a tablespace: the persisted segment header and
//! the in-memory segment directory.

use vstd::prelude::*;

use crate::table::table::current_timestamp;
use crate::tablespace::FreeExtent;
use crate::types::Timestamp;

verus! {

/// Segment magic number ("SEG!").
pub const SEGMENT_MAGIC: u32 = 0x53454721;

/// Segment format version.
pub const SEGMENT_VERSION: u32 = 1;

/// Size of the persisted segment header.
pub const SEGMENT_HEADER_SIZE: usize = 40;

/// Pages per segment extent.
pub const SEGMENT_PAGE_COUNT: u32 = 128;

/// Usable pages per segment extent.
pub const SEGMENT_USABLE_PAGES: u32 = 127;

/// Segment type tag.
#[derive(Debug, Clone, Copy, PartialEq, Eq, Structural)]
pub enum SegmentType {
    /// Table data.
    Data,
    /// Index data.
    Index,
    /// Rollback data.
    Rollback,
    /// System data.
    System,
    /// Temporary data.
    Temporary,
    /// Undo data.
    Undo,
}

impl SegmentType {
    /// The numeric tag stored on disk for this type.
    pub open spec fn spec_tag(self) -> u8 {
        match self {
            SegmentType::Data => 0,
            SegmentType::Index => 1,
            SegmentType::Rollback => 2,
            SegmentType::System => 3,
            SegmentType::Temporary => 4,
            SegmentType::Undo => 5,
        }
    }

    /// The numeric tag stored on disk for this type.
    pub fn tag(&self) -> (r: u8)
        ensures
            r == self.spec_tag(),
    {
        match self {
            SegmentType::Data => 0,
            SegmentType::Index => 1,
            SegmentType::Rollback => 2,
            SegmentType::System => 3,
            SegmentType::Temporary => 4,
            SegmentType::Undo => 5,
        }
    }
}

/// Persistent segment header.
#[derive(Debug, Clone, Copy)]
pub struct SegmentHeader {
    /// Magic number.
    pub magic: u32,
    /// Format version.
    pub version: u32,
    /// Segment identifier.
    pub segment_id: u64,
    /// Segment type tag.
    pub segment_type: u8,
    /// Reserved bytes.
    pub reserved: [u8; 7],
    /// Owning tablespace.
    pub tablespace_id: u64,
    /// First extent of the segment.
    pub extent_ptr: u64,
    /// Total pages in the segment.
    pub total_pages: u64,
    /// Free pages in the segment.
    pub free_pages: u64,
    /// Used pages in the segment.
    pub used_pages: u64,
    /// Flags.
    pub flags: u32,
    /// Header checksum.
    pub checksum: u32,
}

/// The persisted image of a segment header: magic, version, identifier,
/// type tag, three zero bytes, tablespace, first extent, checksum.
pub open spec fn spec_segment_header_bytes(h: SegmentHeader) -> Seq<u8> {
    vstd::bytes::spec_u32_to_le_bytes(h.magic) + vstd::bytes::spec_u32_to_le_bytes(h.version)
        + vstd::bytes::spec_u64_to_le_bytes(h.segment_id) + seq![h.segment_type, 0u8, 0u8, 0u8]
        + vstd::bytes::spec_u64_to_le_bytes(h.tablespace_id) + vstd::bytes::spec_u64_to_le_bytes(
        h.extent_ptr,
    ) + vstd::bytes::spec_u32_to_le_bytes(h.checksum)
}

impl SegmentHeader {
    /// Creates a new header for a segment of the given type.
    pub fn new(segment_id: u64, segment_type: SegmentType, tablespace_id: u64) -> (r: Self)
        ensures
            r.magic == SEGMENT_MAGIC,
            r.version == SEGMENT_VERSION,
            r.segment_id == segment_id,
            r.segment_type == segment_type.spec_tag(),
            r.tablespace_id == tablespace_id,
            r.extent_ptr == 0,
            r.total_pages == 0,
            r.free_pages == 0,
            r.used_pages == 0,
            r.flags == 0,
            r.checksum == 0,
    {
        Self {
            magic: SEGMENT_MAGIC,
            version: SEGMENT_VERSION,
            segment_id,
            segment_type: segment_type.tag(),
            reserved: [0; 7],
            tablespace_id,
            extent_ptr: 0,
            total_pages: 0,
            free_pages: 0,
            used_pages: 0,
            flags: 0,
            checksum: 0,
        }
    }

    /// Whether the magic number is right.
    pub fn is_valid(&self) -> (r: bool)
        ensures
            r == (self.magic == SEGMENT_MAGIC),
    {
        self.magic == SEGMENT_MAGIC
    }

    /// The CRC-32 of the header image with the checksum field zeroed.
    pub fn compute_checksum(&self) -> (r: u32)
        ensures
            r == crate::tablespace::crc32_of(
                spec_segment_header_bytes(SegmentHeader { checksum: 0, ..*self }),
            ),
    {
        let mut zeroed = *self;
        zeroed.checksum = 0;
        let bytes = encode_segment_header(&zeroed);
        crc32fast::hash(bytes.as_slice())
    }

    /// Whether the stored checksum is zero or matches the image.
    pub fn verify_checksum(&self) -> (r: bool)
        ensures
            r == (self.checksum == 0 || self.checksum == crate::tablespace::crc32_of(
                spec_segment_header_bytes(SegmentHeader { checksum: 0, ..*self }),
            )),
    {
        self.checksum == 0 || self.compute_checksum() == self.checksum
    }

    /// Stores the image's CRC-32 in the checksum field.
    pub fn init_checksum(&mut self)
        ensures
            *final(self) == (SegmentHeader {
                checksum: crate::tablespace::crc32_of(
                    spec_segment_header_bytes(SegmentHeader { checksum: 0, ..*old(self) }),
                ),
                ..*old(self)
            }),
    {
        self.checksum = self.compute_checksum();
    }
}

/// Writes the persisted image of a segment header.
pub fn encode_segment_header(h: &SegmentHeader) -> (r: Vec<u8>)
    ensures
        r@ == spec_segment_header_bytes(*h),
        r@.len() == SEGMENT_HEADER_SIZE,
{
    proof {
        vstd::bytes::lemma_auto_spec_u32_to_from_le_bytes();
        vstd::bytes::lemma_auto_spec_u64_to_from_le_bytes();
    }
    let mut out = vstd::bytes::u32_to_le_bytes(h.magic);
    let mut b = vstd::bytes::u32_to_le_bytes(h.version);
    out.append(&mut b);
    let mut b = vstd::bytes::u64_to_le_bytes(h.segment_id);
    out.append(&mut b);
    out.push(h.segment_type);
    out.push(0);
    out.push(0);
    out.push(0);
    let mut b = vstd::bytes::u64_to_le_bytes(h.tablespace_id);
    out.append(&mut b);
    let mut b = vstd::bytes::u64_to_le_bytes(h.extent_ptr);
    out.append(&mut b);
    let mut b = vstd::bytes::u32_to_le_bytes(h.checksum);
    out.append(&mut b);
    proof {
        assert(out@ =~= spec_segment_header_bytes(*h));
    }
    out
}

/// Directory entry for one segment.
#[derive(Debug, Clone)]
pub struct SegmentDirEntry {
    /// Segment identifier.
    pub segment_id: u64,
    /// Segment type.
    pub segment_type: SegmentType,
    /// Owning tablespace.
    pub tablespace_id: u64,
    /// The segment's first extent.
    pub extent: FreeExtent,
    /// Total pages in the segment.
    pub total_pages: u64,
    /// Free pages in the segment.
    pub free_pages: u64,
    /// Creation time.
    pub created_at: Timestamp,
    /// Last modification time.
    pub modified_at: Timestamp,
}

impl SegmentDirEntry {
    /// Creates a directory entry for a fresh segment.
    pub fn new(
        segment_id: u64,
        segment_type: SegmentType,
        tablespace_id: u64,
        extent: FreeExtent,
    ) -> (r: Self)
        ensures
            r.segment_id == segment_id,
            r.segment_type == segment_type,
            r.tablespace_id == tablespace_id,
            r.extent == extent,
            r.total_pages == 0,
            r.free_pages == SEGMENT_USABLE_PAGES,
    {
        let now = current_timestamp();
        Self {
            segment_id,
            segment_type,
            tablespace_id,
            extent,
            total_pages: 0,
            free_pages: SEGMENT_USABLE_PAGES as u64,
            created_at: now,
            modified_at: now,
        }
    }
}

/// The in-memory segment directory: segment `n` lives at position `n - 1`.
#[derive(Debug)]
pub struct SegmentDirectory {
    segments: Vec<Option<SegmentDirEntry>>,
}

impl SegmentDirectory {
    /// The directory's slots in identifier order.
    pub closed spec fn spec_segments(self) -> Seq<Option<SegmentDirEntry>> {
        self.segments@
    }

    /// Creates an empty directory.
    pub fn new() -> (r: Self)
        ensures
            r.spec_segments().len() == 0,
    {
        Self { segments: Vec::new() }
    }

    /// Registers a new segment and returns its identifier, one past the
    /// previous count.
    pub fn create_segment(
        &mut self,
        tablespace_id: u64,
        segment_type: SegmentType,
        extent: FreeExtent,
    ) -> (r: u64)
        requires
            old(self).spec_segments().len() < u64::MAX,
        ensures
            r == old(self).spec_segments().len() + 1,
            final(self).spec_segments().len() == old(self).spec_segments().len() + 1,
            forall|k: int|
                0 <= k < old(self).spec_segments().len() ==> final(self).spec_segments()[k] == old(
                    self,
                ).spec_segments()[k],
            final(self).spec_segments().last() matches Some(e) && e.segment_id == old(
                self,
            ).spec_segments().len() + 1 && e.segment_type == segment_type && e.tablespace_id
                == tablespace_id && e.extent == extent && e.total_pages == 0 && e.free_pages
                == SEGMENT_USABLE_PAGES,
    {
        let segment_id = self.segments.len() as u64 + 1;
        let entry = SegmentDirEntry::new(segment_id, segment_type, tablespace_id, extent);
        self.segments.push(Some(entry));
        segment_id
    }

    /// The directory entry of a segment, if registered.
    pub fn get(&self, segment_id: u64) -> (r: Option<&SegmentDirEntry>)
        ensures
            (segment_id == 0 || segment_id > self.spec_segments().len()) ==> r is None,
            0 < segment_id <= self.spec_segments().len() ==> (match self.spec_segments()[
                segment_id as int - 1
            ] {
                Some(e) => r matches Some(x) && *x == e,
                None => r is None,
            }),
    {
        if segment_id == 0 || segment_id > self.segments.len() as u64 {
            return None;
        }
        match &self.segments[(segment_id - 1) as usize] {
            Some(e) => Some(e),
            None => None,
        }
    }

    /// Mutable access to a segment's directory entry.
    pub fn get_mut(&mut self, segment_id: u64) -> (r: Option<&mut SegmentDirEntry>)
        ensures
            (segment_id == 0 || segment_id > old(self).spec_segments().len()) ==> (r is None
                && *final(self) == *old(self)),
            0 < segment_id <= old(self).spec_segments().len() ==> (match old(
                self,
            ).spec_segments()[segment_id as int - 1] {
                Some(e) => r matches Some(x) && *x == e && final(self).spec_segments() =~= old(
                    self,
                ).spec_segments().update(segment_id as int - 1, Some(*final(x))),
                None => r is None && final(self).spec_segments() =~= old(self).spec_segments(),
            }),
    {
        if segment_id == 0 || segment_id > self.segments.len() as u64 {
            return None;
        }
        let idx = (segment_id - 1) as usize;
        let slot = &mut self.segments[idx];
        match slot {
            Some(e) => Some(e),
            None => None,
        }
    }

    /// The number of directory slots.
    pub fn len(&self) -> (r: usize)
        ensures
            r == self.spec_segments().len(),
    {
        self.segments.len()
    }
}

impl Default for SegmentDirectory {
    /// Same as `SegmentDirectory::new`.
    fn default() -> (r: Self)
        ensures
            r.spec_segments().len() == 0,
    {
        Self::new()
    }
}

} // verus!
