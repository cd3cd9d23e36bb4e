//! Segment-file headers: the file header at the start of a segment file,
//! the extent header chaining extents, and the segment header at a
//! segment's first page.

use vstd::prelude::*;

use crate::tablespace::crc32_of;
use crate::types::{PageId, SegmentId};
use vstd::bytes::*;

verus! {

/// File magic number ("ASTR").
pub const FILE_MAGIC: u32 = 0x41535452;

/// File format version.
pub const FILE_VERSION: u32 = 1;

/// Extent size: 1 MiB.
pub const EXTENT_SIZE: usize = 1048576;

/// Pages per extent.
pub const EXTENT_PAGE_COUNT: u32 = 128;

/// Usable pages per extent (the first page holds metadata).
pub const EXTENT_USABLE_PAGES: u32 = 127;

/// Size of the persisted segment header.
pub const SEGMENT_HEADER_SIZE: usize = 24;

/// Size of the persisted file header.
pub const FILE_HEADER_SIZE: usize = 24;

/// Segment type tag.
#[derive(Debug, Clone, Copy, PartialEq, Eq, Structural)]
pub enum SegmentType {
    /// Generic segment.
    Generic,
    /// Data segment.
    Data,
    /// Index segment.
    Index,
    /// Metadata segment.
    Metadata,
}

impl SegmentType {
    /// The numeric tag stored on disk for this type.
    pub open spec fn spec_tag(self) -> u8 {
        match self {
            SegmentType::Generic => 0,
            SegmentType::Data => 1,
            SegmentType::Index => 2,
            SegmentType::Metadata => 3,
        }
    }

    /// The numeric tag stored on disk for this type.
    pub fn tag(&self) -> (r: u8)
        ensures
            r == self.spec_tag(),
    {
        match self {
            SegmentType::Generic => 0,
            SegmentType::Data => 1,
            SegmentType::Index => 2,
            SegmentType::Metadata => 3,
        }
    }
}

/// Header at the start of a segment file.
#[derive(Debug, Clone, Copy)]
pub struct FileHeader {
    /// Magic number.
    pub magic: u32,
    /// Format version.
    pub version: u32,
    /// Current file size in bytes.
    pub file_size: u64,
    /// Number of segments in the file.
    pub segment_count: u32,
    /// Header checksum.
    pub checksum: u32,
}

/// The persisted image of a segment-file header: magic, version, file size,
/// segment count, checksum; 24 bytes.
pub open spec fn spec_seg_file_header_bytes(h: FileHeader) -> Seq<u8> {
    spec_u32_to_le_bytes(h.magic) + spec_u32_to_le_bytes(h.version) + spec_u64_to_le_bytes(
        h.file_size,
    ) + spec_u32_to_le_bytes(h.segment_count) + spec_u32_to_le_bytes(h.checksum)
}

/// Writes the persisted image of a segment-file header.
pub fn encode_seg_file_header(h: &FileHeader) -> (r: Vec<u8>)
    ensures
        r@ == spec_seg_file_header_bytes(*h),
        r@.len() == FILE_HEADER_SIZE,
{
    proof {
        lemma_auto_spec_u32_to_from_le_bytes();
        lemma_auto_spec_u64_to_from_le_bytes();
    }
    let mut out = u32_to_le_bytes(h.magic);
    let mut b = u32_to_le_bytes(h.version);
    out.append(&mut b);
    let mut b = u64_to_le_bytes(h.file_size);
    out.append(&mut b);
    let mut b = u32_to_le_bytes(h.segment_count);
    out.append(&mut b);
    let mut b = u32_to_le_bytes(h.checksum);
    out.append(&mut b);
    proof {
        assert(out@ =~= spec_seg_file_header_bytes(*h));
    }
    out
}

impl FileHeader {
    /// Creates the header of a fresh segment file holding no segments.
    pub fn new() -> (r: Self)
        ensures
            r == (FileHeader {
                magic: FILE_MAGIC,
                version: FILE_VERSION,
                file_size: FILE_HEADER_SIZE as u64,
                segment_count: 0,
                checksum: 0,
            }),
    {
        FileHeader {
            magic: FILE_MAGIC,
            version: FILE_VERSION,
            file_size: FILE_HEADER_SIZE as u64,
            segment_count: 0,
            checksum: 0,
        }
    }

    /// Whether the magic number is right.
    pub fn is_valid(&self) -> (r: bool)
        ensures
            r == (self.magic == FILE_MAGIC),
    {
        self.magic == FILE_MAGIC
    }

    /// The CRC-32 of the header image with the checksum field zeroed.
    pub fn compute_checksum(&self) -> (r: u32)
        ensures
            r == crc32_of(spec_seg_file_header_bytes(FileHeader { checksum: 0, ..*self })),
    {
        let mut zeroed = *self;
        zeroed.checksum = 0;
        let bytes = encode_seg_file_header(&zeroed);
        crc32fast::hash(bytes.as_slice())
    }

    /// Whether the stored checksum is zero or matches the image.
    pub fn verify_checksum(&self) -> (r: bool)
        ensures
            r == (self.checksum == 0 || self.checksum == crc32_of(
                spec_seg_file_header_bytes(FileHeader { checksum: 0, ..*self }),
            )),
    {
        self.checksum == 0 || self.compute_checksum() == self.checksum
    }

    /// Stores the image's CRC-32 in the checksum field.
    pub fn init_checksum(&mut self)
        ensures
            *final(self) == (FileHeader {
                checksum: crc32_of(
                    spec_seg_file_header_bytes(FileHeader { checksum: 0, ..*old(self) }),
                ),
                ..*old(self)
            }),
    {
        self.checksum = self.compute_checksum();
    }
}

/// Header at the start of each extent: the forward link of the extent
/// chain, zero at the end.
#[derive(Debug, Clone, Copy)]
pub struct ExtentHeader {
    /// The file offset of the next extent header; zero means none.
    pub next_extent_ptr: u64,
}

impl ExtentHeader {
    /// Creates an unlinked extent header.
    pub fn new() -> (r: Self)
        ensures
            r.next_extent_ptr == 0,
    {
        ExtentHeader { next_extent_ptr: 0 }
    }

    /// The CRC-32 of the link's eight little-endian bytes.
    pub fn compute_checksum(&self) -> (r: u32)
        ensures
            r == crc32_of(spec_u64_to_le_bytes(self.next_extent_ptr)),
    {
        let bytes = u64_to_le_bytes(self.next_extent_ptr);
        crc32fast::hash(bytes.as_slice())
    }
}

/// Header at the first page of a segment's first extent.
#[derive(Debug, Clone, Copy)]
pub struct SegmentHeader {
    /// Segment identifier.
    pub segment_id: u64,
    /// Segment type.
    pub segment_type: SegmentType,
    /// The file offset of the segment's next extent; zero means none.
    pub next_extent_ptr: u64,
    /// Total number of pages in the segment.
    pub total_pages: u64,
    /// Header checksum.
    pub checksum: u32,
}

/// The persisted image of a segment header: identifier, type tag and three
/// zero bytes, next extent, total pages, checksum.
pub open spec fn spec_seg_header_bytes(h: SegmentHeader) -> Seq<u8> {
    spec_u64_to_le_bytes(h.segment_id) + seq![h.segment_type.spec_tag(), 0u8, 0u8, 0u8]
        + spec_u64_to_le_bytes(h.next_extent_ptr) + spec_u64_to_le_bytes(h.total_pages)
        + spec_u32_to_le_bytes(h.checksum)
}

/// Writes the persisted image of a segment header.
pub fn encode_seg_header(h: &SegmentHeader) -> (r: Vec<u8>)
    ensures
        r@ == spec_seg_header_bytes(*h),
        r@.len() == 32,
{
    proof {
        lemma_auto_spec_u32_to_from_le_bytes();
        lemma_auto_spec_u64_to_from_le_bytes();
    }
    let mut out = u64_to_le_bytes(h.segment_id);
    out.push(h.segment_type.tag());
    out.push(0);
    out.push(0);
    out.push(0);
    let mut b = u64_to_le_bytes(h.next_extent_ptr);
    out.append(&mut b);
    let mut b = u64_to_le_bytes(h.total_pages);
    out.append(&mut b);
    let mut b = u32_to_le_bytes(h.checksum);
    out.append(&mut b);
    proof {
        assert(out@ =~= spec_seg_header_bytes(*h));
    }
    out
}

impl SegmentHeader {
    /// Creates a header for a fresh segment of the given type.
    pub fn new(segment_id: u64, segment_type: SegmentType) -> (r: Self)
        ensures
            r == (SegmentHeader {
                segment_id,
                segment_type,
                next_extent_ptr: 0,
                total_pages: 0,
                checksum: 0,
            }),
    {
        SegmentHeader { segment_id, segment_type, next_extent_ptr: 0, total_pages: 0, checksum: 0 }
    }

    /// The CRC-32 of the header image with the checksum field zeroed.
    pub fn compute_checksum(&self) -> (r: u32)
        ensures
            r == crc32_of(spec_seg_header_bytes(SegmentHeader { checksum: 0, ..*self })),
    {
        let mut zeroed = *self;
        zeroed.checksum = 0;
        let bytes = encode_seg_header(&zeroed);
        crc32fast::hash(bytes.as_slice())
    }

    /// Whether the stored checksum is zero or matches the image.
    pub fn verify_checksum(&self) -> (r: bool)
        ensures
            r == (self.checksum == 0 || self.checksum == crc32_of(
                spec_seg_header_bytes(SegmentHeader { checksum: 0, ..*self }),
            )),
    {
        self.checksum == 0 || self.compute_checksum() == self.checksum
    }

    /// Stores the image's CRC-32 in the checksum field.
    pub fn init_checksum(&mut self)
        ensures
            *final(self) == (SegmentHeader {
                checksum: crc32_of(
                    spec_seg_header_bytes(SegmentHeader { checksum: 0, ..*old(self) }),
                ),
                ..*old(self)
            }),
    {
        self.checksum = self.compute_checksum();
    }
}

/// Segment-related errors.
#[derive(Debug)]
pub enum SegmentError {
    /// No segment with that identifier.
    NotFound(u64),
    /// The extent chain ends before the sought extent.
    ExtentNotFound(u64),
    /// The page index lies outside the segment.
    PageOutOfBounds(u64, u64),
    /// The file header is not valid.
    InvalidFileHeader,
    /// The segment header is not valid.
    InvalidSegmentHeader,
    /// The extent header is not valid.
    InvalidExtentHeader,
    /// A stored checksum does not match the stored bytes.
    ChecksumMismatch,
    /// An I/O failure.
    Io(String),
}

/// Result type for segment operations.
pub type SegmentResult<T> = Result<T, SegmentError>;

/// The file-header fields decoded from the first bytes of a file image.
pub open spec fn spec_decode_seg_file_header(data: Seq<u8>) -> FileHeader {
    FileHeader {
        magic: spec_u32_from_le_bytes(data.subrange(0, 4)),
        version: spec_u32_from_le_bytes(data.subrange(4, 8)),
        file_size: spec_u64_from_le_bytes(data.subrange(8, 16)),
        segment_count: spec_u32_from_le_bytes(data.subrange(16, 20)),
        checksum: spec_u32_from_le_bytes(data.subrange(20, 24)),
    }
}

/// Whether a file image starts with an acceptable header: long enough, the
/// right magic and version, and a zero or matching checksum.
pub open spec fn spec_seg_file_header_ok(data: Seq<u8>) -> bool {
    let h = spec_decode_seg_file_header(data);
    &&& data.len() >= FILE_HEADER_SIZE
    &&& h.magic == FILE_MAGIC
    &&& h.version == FILE_VERSION
    &&& (h.checksum == 0 || h.checksum == crc32_of(
        spec_seg_file_header_bytes(FileHeader { checksum: 0, ..h }),
    ))
}

/// The total-pages count of the segment header stored at `off`.
pub open spec fn seg_total_at(file: Seq<u8>, off: int) -> u64 {
    spec_u64_from_le_bytes(file.subrange(off + 20, off + 28))
}

/// The next-extent pointer of the segment header stored at `off`.
pub open spec fn seg_next_at(file: Seq<u8>, off: int) -> u64 {
    spec_u64_from_le_bytes(file.subrange(off + 12, off + 20))
}

/// The forward link of the extent header stored at `off`.
pub open spec fn ext_next_at(file: Seq<u8>, off: int) -> u64 {
    spec_u64_from_le_bytes(file.subrange(off, off + 8))
}

/// The file offset of a segment's extent number `k`: the segment's own
/// extent for zero, then the chain of forward links — the segment header's
/// for the first hop, each extent header's after that.
pub open spec fn spec_extent_offset(file: Seq<u8>, seg_off: int, k: int) -> int
    decreases k,
{
    if k <= 0 {
        seg_off
    } else if k == 1 {
        seg_next_at(file, seg_off) as int
    } else {
        ext_next_at(file, spec_extent_offset(file, seg_off, k - 1)) as int
    }
}

/// Whether a segment's chain of forward links reaches extent `hops`: every
/// link on the way is nonzero and lands a whole extent header inside the
/// file.
pub open spec fn spec_chain_ok(file: Seq<u8>, seg_off: int, hops: int) -> bool
    decreases hops,
{
    hops <= 0 || {
        &&& spec_chain_ok(file, seg_off, hops - 1)
        &&& {
            let nxt = if hops == 1 {
                seg_next_at(file, seg_off) as int
            } else {
                ext_next_at(file, spec_extent_offset(file, seg_off, hops - 1)) as int
            };
            nxt != 0 && nxt + 28 <= file.len() && nxt <= usize::MAX - 28
        }
    }
}

/// A reachable extent count keeps every smaller count reachable.
pub proof fn lemma_chain_ok_mono(file: Seq<u8>, seg_off: int, h1: int, h2: int)
    requires
        h1 <= h2,
        spec_chain_ok(file, seg_off, h2),
    ensures
        spec_chain_ok(file, seg_off, h1),
    decreases h2,
{
    if h1 < h2 && h2 > 0 {
        lemma_chain_ok_mono(file, seg_off, h1, h2 - 1);
    }
}

/// The file offset of page `p` within a segment: extent `p / 127`, then
/// one header page and `p mod 127` data pages into it.
pub open spec fn spec_page_file_offset(file: Seq<u8>, seg_off: int, p: int) -> int {
    spec_extent_offset(file, seg_off, p / 127) + (p % 127 + 1) * (crate::types::PAGE_SIZE as int)
}

/// The fixed file offset of a segment: segments are created back to back,
/// one extent each, behind the file header.
pub open spec fn spec_segment_offset(segment_id: u64) -> int {
    FILE_HEADER_SIZE + (segment_id - 1) * (EXTENT_SIZE as int)
}

/// Segment store over one file image: the image and its cached header.
/// Segment `n` starts at the fixed offset behind the header; extents a
/// segment gains later are appended to the file and chained by forward
/// links.
pub struct SegmentManager {
    file: Vec<u8>,
    header: FileHeader,
}

impl SegmentManager {
    /// The backing file image.
    pub closed spec fn spec_file(self) -> Seq<u8> {
        self.file@
    }

    /// The cached file header.
    pub closed spec fn spec_header(self) -> FileHeader {
        self.header
    }

    /// Store invariant: the image starts with the cached header's bytes,
    /// whose size field matches the image, and the header is valid.
    pub open spec fn wf(self) -> bool {
        &&& self.spec_file().len() == self.spec_header().file_size
        &&& self.spec_file().len() >= FILE_HEADER_SIZE
        &&& self.spec_file().subrange(0, FILE_HEADER_SIZE as int) == spec_seg_file_header_bytes(
            self.spec_header(),
        )
        &&& self.spec_header().magic == FILE_MAGIC
        &&& self.spec_header().version == FILE_VERSION
    }

    /// Opens a segment store over a file image: an empty image gets a fresh
    /// initialized header; a non-empty one must parse and pass its
    /// checksum.
    pub fn new(file: Vec<u8>) -> (r: SegmentResult<SegmentManager>)
        ensures
            r matches Ok(m) ==> m.wf(),
            file@.len() == 0 ==> (r matches Ok(m) && m.spec_header().segment_count == 0
                && m.spec_file().len() == FILE_HEADER_SIZE),
            file@.len() > 0 ==> {
                if spec_seg_file_header_ok(file@) && spec_decode_seg_file_header(file@).file_size
                    == file@.len() {
                    r matches Ok(m) && m.spec_file() == file@ && m.spec_header()
                        == spec_decode_seg_file_header(file@)
                } else {
                    r is Err
                }
            },
    {
        if file.len() == 0 {
            let mut header = FileHeader::new();
            header.init_checksum();
            let image = encode_seg_file_header(&header);
            let m = SegmentManager { file: image, header };
            proof {
                assert(m.spec_file().subrange(0, FILE_HEADER_SIZE as int) =~= m.spec_file());
            }
            return Ok(m);
        }
        let header = match read_seg_file_header(file.as_slice()) {
            Ok(h) => h,
            Err(e) => {
                return Err(e);
            },
        };
        if header.file_size != file.len() as u64 {
            return Err(SegmentError::InvalidFileHeader);
        }
        Ok(SegmentManager { file, header })
    }

    /// A copy of the cached file header.
    pub fn cached_file_header(&self) -> (r: FileHeader)
        ensures
            r == self.spec_header(),
    {
        self.header
    }

    /// The backing file image.
    pub fn file_bytes(&self) -> (r: &Vec<u8>)
        ensures
            r@ == self.spec_file(),
    {
        &self.file
    }

    /// Rewrites the first bytes of the image from the cached header.
    fn refresh_file_header(&mut self)
        requires
            old(self).spec_file().len() >= FILE_HEADER_SIZE,
        ensures
            final(self).spec_header() == old(self).spec_header(),
            final(self).spec_file().len() == old(self).spec_file().len(),
            final(self).spec_file().subrange(0, FILE_HEADER_SIZE as int)
                == spec_seg_file_header_bytes(final(self).spec_header()),
            forall|k: int|
                FILE_HEADER_SIZE <= k < final(self).spec_file().len() ==> final(self).spec_file()[k] == old(self).spec_file()[k],
    {
        let bytes = encode_seg_file_header(&self.header);
        crate::codec::write_bytes_at(&mut self.file, 0, bytes.as_slice());
        proof {
            assert(self.spec_file().subrange(0, FILE_HEADER_SIZE as int)
                =~= spec_seg_file_header_bytes(self.spec_header()));
        }
    }

    /// Creates a segment: appends one zero-filled extent holding the new
    /// segment's header and bumps the segment count. The new identifier is
    /// one past the old count.
    pub fn create_segment(&mut self, segment_type: SegmentType) -> (r: SegmentResult<SegmentId>)
        requires
            old(self).wf(),
        ensures
            final(self).wf(),
            r matches Ok(id) ==> {
                &&& id == old(self).spec_header().segment_count + 1
                &&& final(self).spec_header().segment_count == old(self).spec_header().segment_count + 1
                &&& final(self).spec_file().len() == old(self).spec_file().len() + EXTENT_SIZE
                &&& seg_total_at(final(self).spec_file(), old(self).spec_file().len() as int)
                    == 0
                &&& seg_next_at(final(self).spec_file(), old(self).spec_file().len() as int) == 0
            },
            r is Err ==> *final(self) == *old(self),
            (old(self).spec_file().len() + EXTENT_SIZE <= usize::MAX && old(
                self,
            ).spec_header().segment_count < 0xFFFF_FFFF) ==> r is Ok,
            r is Err ==> r matches Err(SegmentError::Io(_)),
    {
        let old_len = self.file.len();
        if old_len > usize::MAX - EXTENT_SIZE || self.header.segment_count == 0xFFFF_FFFF
            || (old_len as u64) > u64::MAX - EXTENT_SIZE as u64 {
            return Err(SegmentError::Io("file cannot grow".to_owned()));
        }
        let segment_id = self.header.segment_count as u64 + 1;
        self.file.resize(old_len + EXTENT_SIZE, 0);
        let mut seg_header = SegmentHeader::new(segment_id, segment_type);
        seg_header.init_checksum();
        let bytes = encode_seg_header(&seg_header);
        crate::codec::write_bytes_at(&mut self.file, old_len, bytes.as_slice());
        let ghost written = self.file@;
        self.header.segment_count = self.header.segment_count + 1;
        self.header.file_size = (old_len + EXTENT_SIZE) as u64;
        self.header.init_checksum();
        self.refresh_file_header();
        proof {
            lemma_auto_spec_u64_to_from_le_bytes();
            let f = self.spec_file();
            let so = old_len as int;
            // The refresh touched only the first bytes; the new segment
            // header's words read back as written.
            assert(f.subrange(so, so + 32) =~= written.subrange(so, so + 32));
            assert(written.subrange(so, so + 32) == spec_seg_header_bytes(seg_header));
            assert(f.subrange(so + 20, so + 28) =~= spec_seg_header_bytes(
                seg_header,
            ).subrange(20, 28));
            assert(spec_seg_header_bytes(seg_header).subrange(20, 28) =~= spec_u64_to_le_bytes(
                0,
            ));
            assert(f.subrange(so + 12, so + 20) =~= spec_seg_header_bytes(
                seg_header,
            ).subrange(12, 20));
            assert(spec_seg_header_bytes(seg_header).subrange(12, 20) =~= spec_u64_to_le_bytes(
                0,
            ));
        }
        Ok(segment_id)
    }

    /// The fixed file offset of a segment; `NotFound` when the identifier
    /// is zero or past the segment count.
    fn locate_segment(&self, segment_id: SegmentId) -> (r: SegmentResult<usize>)
        requires
            self.wf(),
        ensures
            r is Ok <==> (0 < segment_id <= self.spec_header().segment_count
                && spec_segment_offset(segment_id) + EXTENT_SIZE <= self.spec_file().len()),
            r matches Ok(off) ==> off == spec_segment_offset(segment_id),
            r is Err ==> r matches Err(SegmentError::NotFound(_)),
    {
        let flen = self.file.len();
        if segment_id == 0 || segment_id > self.header.segment_count as u64 {
            return Err(SegmentError::NotFound(segment_id));
        }
        let bound = (usize::MAX - FILE_HEADER_SIZE) / EXTENT_SIZE;
        if segment_id > bound as u64 {
            proof {
                assert(forall|id: int|
                    id > bound as int ==> #[trigger] ((id - 1) * (EXTENT_SIZE as int))
                        + EXTENT_SIZE > usize::MAX - FILE_HEADER_SIZE) by (nonlinear_arith)
                    requires
                        bound as int == (usize::MAX - FILE_HEADER_SIZE) as int / (
                        EXTENT_SIZE as int),
                ;
                assert(self.spec_file().len() == flen as int);
            }
            return Err(SegmentError::NotFound(segment_id));
        }
        proof {
            assert((segment_id as int - 1) * (EXTENT_SIZE as int) <= (bound as int - 1) * (
            EXTENT_SIZE as int) && (bound as int) * (EXTENT_SIZE as int) <= usize::MAX
                - FILE_HEADER_SIZE) by (nonlinear_arith)
                requires
                    bound as int == (usize::MAX - FILE_HEADER_SIZE) as int / (
                    EXTENT_SIZE as int),
                    0 < segment_id <= bound as u64,
            ;
        }
        let off = FILE_HEADER_SIZE + (segment_id as usize - 1) * EXTENT_SIZE;
        proof {
            assert(off == spec_segment_offset(segment_id));
        }
        if off > usize::MAX - EXTENT_SIZE || off + EXTENT_SIZE > self.file.len() {
            return Err(SegmentError::NotFound(segment_id));
        }
        Ok(off)
    }

    /// The file offset of a segment's extent number `k`, following the
    /// chain; `ExtentNotFound` when a link is zero or runs outside the
    /// file.
    fn extent_offset(&self, seg_off: usize, hops: u64) -> (r: SegmentResult<usize>)
        requires
            self.wf(),
            seg_off + 28 <= self.spec_file().len(),
        ensures
            r matches Ok(off) ==> off == spec_extent_offset(
                self.spec_file(),
                seg_off as int,
                hops as int,
            ) && off + 28 <= self.spec_file().len(),
            r is Ok <==> spec_chain_ok(self.spec_file(), seg_off as int, hops as int),
            r is Err ==> r matches Err(SegmentError::ExtentNotFound(_)),
    {
        let flen = self.file.len();
        let mut cur: usize = seg_off;
        let mut k: u64 = 0;
        while k < hops
            invariant
                0 <= k <= hops,
                self.wf(),
                flen == self.spec_file().len(),
                cur as int == spec_extent_offset(self.spec_file(), seg_off as int, k as int),
                cur + 28 <= flen,
                spec_chain_ok(self.spec_file(), seg_off as int, k as int),
            decreases hops - k,
        {
            let next: u64 = if k == 0 {
                crate::codec::read_u64_at(self.file.as_slice(), cur + 12)
            } else {
                crate::codec::read_u64_at(self.file.as_slice(), cur)
            };
            proof {
                lemma_auto_spec_u64_to_from_le_bytes();
                if k == 0 {
                    assert(next == seg_next_at(self.spec_file(), seg_off as int));
                } else {
                    assert(next == ext_next_at(
                        self.spec_file(),
                        spec_extent_offset(self.spec_file(), seg_off as int, k as int),
                    ));
                }
            }
            if next == 0 {
                proof {
                    if spec_chain_ok(self.spec_file(), seg_off as int, hops as int) {
                        lemma_chain_ok_mono(
                            self.spec_file(),
                            seg_off as int,
                            k as int + 1,
                            hops as int,
                        );
                    }
                }
                return Err(SegmentError::ExtentNotFound(cur as u64));
            }
            if next > (usize::MAX - 28) as u64 || (next as usize) + 28 > self.file.len() {
                proof {
                    if spec_chain_ok(self.spec_file(), seg_off as int, hops as int) {
                        lemma_chain_ok_mono(
                            self.spec_file(),
                            seg_off as int,
                            k as int + 1,
                            hops as int,
                        );
                    }
                }
                return Err(SegmentError::ExtentNotFound(cur as u64));
            }
            cur = next as usize;
            k = k + 1;
        }
        Ok(cur)
    }

    /// Allocates the next page of a segment: the page index is the old
    /// total-pages count; when the index starts a new extent, a fresh
    /// extent is appended and linked at the chain's end first.
    pub fn allocate_page(&mut self, segment_id: SegmentId) -> (r: SegmentResult<PageId>)
        requires
            old(self).wf(),
        ensures
            final(self).wf(),
            r matches Ok(p) ==> {
                &&& p == seg_total_at(
                    old(self).spec_file(),
                    spec_segment_offset(segment_id),
                )
                &&& seg_total_at(final(self).spec_file(), spec_segment_offset(segment_id)) == p
                    + 1
                &&& spec_page_file_offset(final(self).spec_file(), spec_segment_offset(segment_id), p as int)
                    == spec_extent_offset(
                    final(self).spec_file(),
                    spec_segment_offset(segment_id),
                    p as int / 127,
                ) + (p as int % 127 + 1) * (crate::types::PAGE_SIZE as int)
            },
            ({
                let so = spec_segment_offset(segment_id);
                let total = seg_total_at(old(self).spec_file(), so);
                (0 < segment_id <= old(self).spec_header().segment_count && so + EXTENT_SIZE
                    <= old(self).spec_file().len() && total < u64::MAX && (total == 0 || total
                    % 127 != 0)) ==> r is Ok
            }),
            r is Err ==> (r matches Err(SegmentError::NotFound(_)) || r matches Err(
                SegmentError::ExtentNotFound(_),
            ) || r matches Err(SegmentError::Io(_)) || r matches Err(
                SegmentError::InvalidExtentHeader,
            )),
    {
        let seg_off = match self.locate_segment(segment_id) {
            Ok(o) => o,
            Err(e) => {
                return Err(e);
            },
        };
        let total = crate::codec::read_u64_at(self.file.as_slice(), seg_off + 20);
        proof {
            assert(total == seg_total_at(old(self).spec_file(), spec_segment_offset(segment_id)));
        }
        if total == u64::MAX {
            return Err(SegmentError::Io("segment is full".to_owned()));
        }
        let page_idx = total;
        if page_idx % 127 == 0 && page_idx > 0 {
            // The current extent is full: append a fresh extent and link it
            // at the end of the chain.
            let old_len = self.file.len();
            if old_len > usize::MAX - EXTENT_SIZE {
                return Err(SegmentError::Io("file cannot grow".to_owned()));
            }
            let prev = match self.extent_offset(seg_off, (page_idx - 1) / 127) {
                Ok(o) => o,
                Err(e) => {
                    return Err(e);
                },
            };
            self.file.resize(old_len + EXTENT_SIZE, 0);
            self.header.file_size = (old_len + EXTENT_SIZE) as u64;
            self.header.init_checksum();
            self.refresh_file_header();
            if prev == seg_off {
                crate::codec::write_u64_at(&mut self.file, seg_off + 12, old_len as u64);
                proof {
                    assert(self.spec_file().subrange(0, FILE_HEADER_SIZE as int)
                        =~= spec_seg_file_header_bytes(self.spec_header()));
                }
            } else {
                if prev < FILE_HEADER_SIZE + 28 {
                    return Err(SegmentError::InvalidExtentHeader);
                }
                crate::codec::write_u64_at(&mut self.file, prev, old_len as u64);
                proof {
                    assert(self.spec_file().subrange(0, FILE_HEADER_SIZE as int)
                        =~= spec_seg_file_header_bytes(self.spec_header()));
                }
            }
        }
        let seg_off2 = match self.locate_segment(segment_id) {
            Ok(o) => o,
            Err(e) => {
                return Err(e);
            },
        };
        crate::codec::write_u64_at(&mut self.file, seg_off2 + 20, total + 1);
        proof {
            lemma_auto_spec_u64_to_from_le_bytes();
            assert(final(self).spec_file().subrange(
                seg_off2 + 20,
                seg_off2 as int + 28,
            ) =~= spec_u64_to_le_bytes(vstd::prelude::add(total, 1)));
            assert(seg_total_at(final(self).spec_file(), spec_segment_offset(segment_id))
                == total + 1);
            assert(final(self).spec_file().subrange(0, FILE_HEADER_SIZE as int)
                =~= spec_seg_file_header_bytes(final(self).spec_header()));
        }
        Ok(page_idx)
    }

    /// Reads a page of a segment: the 8 KiB at the page's chained offset.
    pub fn read_page(&self, segment_id: SegmentId, page_idx: PageId) -> (r: SegmentResult<
        Vec<u8>,
    >)
        requires
            self.wf(),
        ensures
            r matches Ok(b) ==> {
                let off = spec_page_file_offset(
                    self.spec_file(),
                    spec_segment_offset(segment_id),
                    page_idx as int,
                );
                &&& off + crate::types::PAGE_SIZE <= self.spec_file().len()
                &&& b@ == self.spec_file().subrange(off, off + crate::types::PAGE_SIZE)
            },
            ({
                let so = spec_segment_offset(segment_id);
                let off = spec_page_file_offset(self.spec_file(), so, page_idx as int);
                (0 < segment_id <= self.spec_header().segment_count && so + EXTENT_SIZE
                    <= self.spec_file().len() && spec_chain_ok(
                    self.spec_file(),
                    so,
                    page_idx as int / 127,
                ) && off + crate::types::PAGE_SIZE <= self.spec_file().len()
                    && self.spec_file().len() <= usize::MAX / 2) ==> r is Ok
            }),
            r is Err ==> (r matches Err(SegmentError::NotFound(_)) || r matches Err(
                SegmentError::ExtentNotFound(_),
            ) || r matches Err(SegmentError::PageOutOfBounds(_, _))),
    {
        let seg_off = match self.locate_segment(segment_id) {
            Ok(o) => o,
            Err(e) => {
                return Err(e);
            },
        };
        let ext = match self.extent_offset(seg_off, page_idx / 127) {
            Ok(o) => o,
            Err(e) => {
                return Err(e);
            },
        };
        let within = (page_idx % 127) as usize + 1;
        if ext > usize::MAX / 2 || within * crate::types::PAGE_SIZE > usize::MAX / 2 {
            return Err(SegmentError::PageOutOfBounds(segment_id, page_idx));
        }
        let off = ext + within * crate::types::PAGE_SIZE;
        if off > usize::MAX - crate::types::PAGE_SIZE || off + crate::types::PAGE_SIZE
            > self.file.len() {
            return Err(SegmentError::PageOutOfBounds(segment_id, page_idx));
        }
        let out = vstd::slice::slice_to_vec(
            vstd::slice::slice_subrange(
                self.file.as_slice(),
                off,
                off + crate::types::PAGE_SIZE,
            ),
        );
        Ok(out)
    }

    /// Writes a page of a segment: the data, zero-padded to 8 KiB, at the
    /// page's chained offset.
    pub fn write_page(&mut self, segment_id: SegmentId, page_idx: PageId, data: &[u8]) -> (r:
        SegmentResult<()>)
        requires
            old(self).wf(),
            data@.len() <= crate::types::PAGE_SIZE,
        ensures
            final(self).wf(),
            r is Ok ==> {
                let off = spec_page_file_offset(
                    old(self).spec_file(),
                    spec_segment_offset(segment_id),
                    page_idx as int,
                );
                &&& off + crate::types::PAGE_SIZE <= final(self).spec_file().len()
                &&& final(self).spec_file().subrange(off, off + data@.len() as int) == data@
                &&& forall|k: int|
                    0 <= k < final(self).spec_file().len() && !(off <= k < off
                        + crate::types::PAGE_SIZE) ==> final(self).spec_file()[k] == old(self).spec_file()[k]
            },
            r is Err ==> *final(self) == *old(self),
            ({
                let so = spec_segment_offset(segment_id);
                let off = spec_page_file_offset(old(self).spec_file(), so, page_idx as int);
                (0 < segment_id <= old(self).spec_header().segment_count && so + EXTENT_SIZE
                    <= old(self).spec_file().len() && spec_chain_ok(
                    old(self).spec_file(),
                    so,
                    page_idx as int / 127,
                ) && off + crate::types::PAGE_SIZE <= old(self).spec_file().len() && old(
                    self,
                ).spec_file().len() <= usize::MAX / 2) ==> r is Ok
            }),
            r is Err ==> (r matches Err(SegmentError::NotFound(_)) || r matches Err(
                SegmentError::ExtentNotFound(_),
            ) || r matches Err(SegmentError::PageOutOfBounds(_, _))),
    {
        let seg_off = match self.locate_segment(segment_id) {
            Ok(o) => o,
            Err(e) => {
                return Err(e);
            },
        };
        let ext = match self.extent_offset(seg_off, page_idx / 127) {
            Ok(o) => o,
            Err(e) => {
                return Err(e);
            },
        };
        let within = (page_idx % 127) as usize + 1;
        if ext > usize::MAX / 2 || within * crate::types::PAGE_SIZE > usize::MAX / 2 {
            return Err(SegmentError::PageOutOfBounds(segment_id, page_idx));
        }
        let off = ext + within * crate::types::PAGE_SIZE;
        if off > usize::MAX - crate::types::PAGE_SIZE || off + crate::types::PAGE_SIZE
            > self.file.len() {
            return Err(SegmentError::PageOutOfBounds(segment_id, page_idx));
        }
        if off < FILE_HEADER_SIZE {
            return Err(SegmentError::PageOutOfBounds(segment_id, page_idx));
        }
        let flen = self.file.len();
        crate::codec::write_bytes_at(&mut self.file, off, data);
        let mut k = data.len();
        while k < crate::types::PAGE_SIZE
            invariant
                data@.len() <= k <= crate::types::PAGE_SIZE,
                flen == self.spec_file().len(),
                off + crate::types::PAGE_SIZE <= flen,
                off >= FILE_HEADER_SIZE,
                self.spec_header() == old(self).spec_header(),
                self.spec_file().len() == old(self).spec_file().len(),
                self.spec_file().subrange(off as int, off + data@.len() as int) == data@,
                forall|j: int|
                    0 <= j < self.spec_file().len() && !(off <= j < off
                        + crate::types::PAGE_SIZE) ==> self.spec_file()[j] == old(self).spec_file()[j],
            decreases crate::types::PAGE_SIZE - k,
        {
            crate::codec::write_u8_at(&mut self.file, off + k, 0);
            proof {
                assert(self.spec_file().subrange(off as int, off + data@.len() as int)
                    =~= data@);
            }
            k = k + 1;
        }
        proof {
            assert(self.spec_file().len() == old(self).spec_file().len());
            assert(self.spec_header() == old(self).spec_header());
            assert(final(self).spec_file().subrange(0, FILE_HEADER_SIZE as int) =~= old(self).spec_file().subrange(0, FILE_HEADER_SIZE as int));
            assert(final(self).wf());
        }
        Ok(())
    }
}

/// Reads the file header from the first bytes of a file image.
pub fn read_seg_file_header(data: &[u8]) -> (r: SegmentResult<FileHeader>)
    ensures
        r is Ok <==> spec_seg_file_header_ok(data@),
        r matches Ok(h) ==> h == spec_decode_seg_file_header(data@) && data@.subrange(
            0,
            FILE_HEADER_SIZE as int,
        ) == spec_seg_file_header_bytes(h),
{
    if data.len() < FILE_HEADER_SIZE {
        return Err(SegmentError::InvalidFileHeader);
    }
    proof {
        lemma_auto_spec_u32_to_from_le_bytes();
        lemma_auto_spec_u64_to_from_le_bytes();
    }
    let magic = crate::codec::read_u32_at(data, 0);
    let version = crate::codec::read_u32_at(data, 4);
    let file_size = crate::codec::read_u64_at(data, 8);
    let segment_count = crate::codec::read_u32_at(data, 16);
    let checksum = crate::codec::read_u32_at(data, 20);
    let h = FileHeader { magic, version, file_size, segment_count, checksum };
    if !(magic == FILE_MAGIC && version == FILE_VERSION) {
        return Err(SegmentError::InvalidFileHeader);
    }
    if !h.verify_checksum() {
        return Err(SegmentError::ChecksumMismatch);
    }
    proof {
        assert(data@.subrange(0, FILE_HEADER_SIZE as int) =~= spec_seg_file_header_bytes(h)) by {
            let img = spec_seg_file_header_bytes(h);
            assert(img.subrange(0, 4) =~= data@.subrange(0, 4));
            assert(img.subrange(4, 8) =~= data@.subrange(4, 8));
            assert(img.subrange(8, 16) =~= data@.subrange(8, 16));
            assert(img.subrange(16, 20) =~= data@.subrange(16, 20));
            assert(img.subrange(20, 24) =~= data@.subrange(20, 24));
            assert forall|k: int| 0 <= k < 24 implies img[k] == data@[k] by {
                if k < 4 {
                    assert(img.subrange(0, 4)[k] == data@.subrange(0, 4)[k]);
                } else if k < 8 {
                    assert(img.subrange(4, 8)[k - 4] == data@.subrange(4, 8)[k - 4]);
                } else if k < 16 {
                    assert(img.subrange(8, 16)[k - 8] == data@.subrange(8, 16)[k - 8]);
                } else if k < 20 {
                    assert(img.subrange(16, 20)[k - 16] == data@.subrange(16, 20)[k - 16]);
                } else {
                    assert(img.subrange(20, 24)[k - 20] == data@.subrange(20, 24)[k - 20]);
                }
            }
        }
    }
    Ok(h)
}

} // verus!
