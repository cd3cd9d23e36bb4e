//! Tablespace storage: one tablespace is one file of 1 MiB extents behind a
//! 40-byte file header. Each extent's first page carries a header with a
//! free-page bitmap; a free-extent list serves extent allocation.

use vstd::prelude::*;

use vstd::bytes::*;

use crate::table::table::current_timestamp;
use crate::text::str_eq;
use crate::types::Timestamp;

pub mod segment;

verus! {

/// File magic number ("ASTR").
pub const FILE_MAGIC: u32 = 0x41535452;

/// File format version.
pub const FILE_VERSION: u32 = 1;

/// Extent size: 1 MiB.
pub const EXTENT_SIZE: usize = 1048576;

/// Pages per extent.
pub const EXTENT_PAGE_COUNT: u32 = 128;

/// Usable pages per extent (the first page holds the extent header).
pub const EXTENT_USABLE_PAGES: u32 = 127;

/// Default initial file size (16 MiB).
pub const DEFAULT_INITIAL_FILE_SIZE: usize = 16 * 1024 * 1024;

/// Default automatic extension step (16 MiB).
pub const DEFAULT_AUTO_EXTEND_SIZE: usize = 16 * 1024 * 1024;

/// Size of the persisted file header.
pub const FILE_HEADER_SIZE: usize = 40;

/// Size of the persisted extent header.
pub const EXTENT_HEADER_SIZE: usize = 56;

/// Relies on `crc32fast::hash`: the CRC-32 checksum of a byte slice, a
/// function of the bytes alone.
pub uninterp spec fn crc32_of(bytes: Seq<u8>) -> u32;

/// Relies on `crc32fast::hash` computing the IEEE CRC-32 of the bytes.
pub assume_specification[ crc32fast::hash ](buf: &[u8]) -> (r: u32)
    ensures
        r == crc32_of(buf@),
;

/// Tablespace error types.
#[derive(Debug)]
pub enum TablespaceError {
    /// No tablespace with that name or identifier.
    NotFound(String),
    /// The backing file is missing.
    FileNotFound(String),
    /// The file header is not valid.
    InvalidFileHeader,
    /// The extent header is not valid.
    InvalidExtentHeader,
    /// A stored checksum does not match the stored bytes.
    ChecksumMismatch,
    /// No free extent is available.
    NoFreeExtent,
    /// No space is left in the tablespace.
    NoSpace,
    /// An I/O failure.
    Io(String),
    /// A caller-supplied argument is not acceptable.
    InvalidArgument(String),
}

/// Result type for tablespace operations.
pub type TablespaceResult<T> = Result<T, TablespaceError>;

/// A free extent: its file, offset, and number of free pages.
#[derive(Debug, Clone, Copy, PartialEq, Eq, Structural)]
pub struct FreeExtent {
    /// File identifier within the tablespace.
    pub file_id: u32,
    /// Byte offset of the extent within the file.
    pub extent_offset: u64,
    /// Number of free pages in the extent.
    pub free_pages: u32,
}

impl FreeExtent {
    /// Creates a new free-extent record.
    pub fn new(file_id: u32, extent_offset: u64, free_pages: u32) -> (r: Self)
        ensures
            r == (FreeExtent { file_id, extent_offset, free_pages }),
    {
        Self { file_id, extent_offset, free_pages }
    }
}

/// Whether a free-extent list is sorted by free pages, largest first.
pub open spec fn free_list_sorted(s: Seq<FreeExtent>) -> bool {
    forall|i: int, j: int| 0 <= i < j < s.len() ==> (#[trigger] s[i]).free_pages >= (
    #[trigger] s[j]).free_pages
}

/// The first extent from position `i` on with at least `min_pages` free.
pub open spec fn first_fit_extent(s: Seq<FreeExtent>, min_pages: u32, i: int) -> Option<int>
    decreases s.len() - i,
{
    if i < 0 || i >= s.len() {
        None
    } else if s[i].free_pages >= min_pages {
        Some(i)
    } else {
        first_fit_extent(s, min_pages, i + 1)
    }
}

/// The free-extent list of a tablespace, kept sorted by free pages,
/// largest first.
#[derive(Debug)]
pub struct FreeExtentList {
    free_extents: Vec<FreeExtent>,
}

impl FreeExtentList {
    /// The extents in list order.
    pub closed spec fn view_list(self) -> Seq<FreeExtent> {
        self.free_extents@
    }

    /// List invariant: sorted by free pages, largest first.
    pub open spec fn wf(self) -> bool {
        free_list_sorted(self.view_list())
    }

    /// Creates an empty list.
    pub fn new() -> (r: Self)
        ensures
            r.wf(),
            r.view_list().len() == 0,
    {
        Self { free_extents: Vec::new() }
    }

    /// Removes and returns the first extent with at least `min_pages` free
    /// pages; `None` exactly when no extent qualifies.
    pub fn get_extent(&mut self, min_pages: u32) -> (r: Option<FreeExtent>)
        requires
            old(self).wf(),
        ensures
            final(self).wf(),
            r is Some <==> first_fit_extent(old(self).view_list(), min_pages, 0) is Some,
            r matches Some(e) ==> (first_fit_extent(old(self).view_list(), min_pages, 0)
                matches Some(i) && e == old(self).view_list()[i] && final(self).view_list() == old(
                self,
            ).view_list().remove(i)),
            r is None ==> final(self).view_list() == old(self).view_list(),
    {
        let n = self.free_extents.len();
        let mut i: usize = 0;
        while i < n
            invariant
                0 <= i <= n,
                n == self.view_list().len(),
                *self == *old(self),
                old(self).wf(),
                first_fit_extent(self.view_list(), min_pages, 0) == first_fit_extent(
                    self.view_list(),
                    min_pages,
                    i as int,
                ),
            decreases n - i,
        {
            if self.free_extents[i].free_pages >= min_pages {
                proof {
                    assert(first_fit_extent(self.view_list(), min_pages, i as int) == Some(
                        i as int,
                    ));
                }
                let e = self.free_extents.remove(i);
                proof {
                    lemma_sorted_remove(old(self).view_list(), i as int);
                }
                return Some(e);
            }
            i = i + 1;
        }
        proof {
            assert(first_fit_extent(self.view_list(), min_pages, 0) is None);
        }
        None
    }

    /// Puts an extent back, keeping the list sorted by free pages.
    pub fn return_extent(&mut self, extent: FreeExtent)
        requires
            old(self).wf(),
        ensures
            final(self).wf(),
            exists|i: int|
                0 <= i <= old(self).view_list().len() && final(self).view_list() == old(
                    self,
                ).view_list().insert(i, extent),
    {
        let n = self.free_extents.len();
        let mut i: usize = 0;
        while i < n && self.free_extents[i].free_pages >= extent.free_pages
            invariant
                0 <= i <= n,
                n == self.view_list().len(),
                *self == *old(self),
                old(self).wf(),
                forall|k: int|
                    0 <= k < i ==> (#[trigger] self.view_list()[k]).free_pages
                        >= extent.free_pages,
            decreases n - i,
        {
            i = i + 1;
        }
        self.free_extents.insert(i, extent);
        proof {
            lemma_sorted_insert(old(self).view_list(), i as int, extent);
        }
    }

    /// Records a new free extent.
    pub fn add_extent(&mut self, file_id: u32, extent_offset: u64, free_pages: u32)
        requires
            old(self).wf(),
        ensures
            final(self).wf(),
            exists|i: int|
                0 <= i <= old(self).view_list().len() && final(self).view_list() == old(
                    self,
                ).view_list().insert(
                    i,
                    (FreeExtent { file_id, extent_offset, free_pages }),
                ),
    {
        self.return_extent(FreeExtent::new(file_id, extent_offset, free_pages));
    }

    /// Whether the list is empty.
    pub fn is_empty(&self) -> (r: bool)
        ensures
            r == (self.view_list().len() == 0),
    {
        self.free_extents.is_empty()
    }

    /// The number of free extents recorded.
    pub fn len(&self) -> (r: usize)
        ensures
            r == self.view_list().len(),
    {
        self.free_extents.len()
    }
}

impl Default for FreeExtentList {
    /// Same as `FreeExtentList::new`.
    fn default() -> (r: Self)
        ensures
            r.wf(),
            r.view_list().len() == 0,
    {
        Self::new()
    }
}

/// Removing from a sorted list keeps it sorted.
proof fn lemma_sorted_remove(s: Seq<FreeExtent>, i: int)
    requires
        free_list_sorted(s),
        0 <= i < s.len(),
    ensures
        free_list_sorted(s.remove(i)),
{
    let t = s.remove(i);
    assert forall|a: int, b: int| 0 <= a < b < t.len() implies (#[trigger] t[a]).free_pages >= (
    #[trigger] t[b]).free_pages by {
        let pa = if a < i {
            a
        } else {
            a + 1
        };
        let pb = if b < i {
            b
        } else {
            b + 1
        };
        assert(t[a] == s[pa]);
        assert(t[b] == s[pb]);
    }
}

/// Inserting at a position bounded by the neighbours keeps the list sorted.
proof fn lemma_sorted_insert(s: Seq<FreeExtent>, i: int, e: FreeExtent)
    requires
        free_list_sorted(s),
        0 <= i <= s.len(),
        forall|k: int| 0 <= k < i ==> (#[trigger] s[k]).free_pages >= e.free_pages,
        i < s.len() ==> s[i].free_pages < e.free_pages,
    ensures
        free_list_sorted(s.insert(i, e)),
{
    let t = s.insert(i, e);
    assert forall|a: int, b: int| 0 <= a < b < t.len() implies (#[trigger] t[a]).free_pages >= (
    #[trigger] t[b]).free_pages by {
        if a < i {
            assert(t[a] == s[a]);
        } else if a == i {
            assert(t[a] == e);
        } else {
            assert(t[a] == s[a - 1]);
        }
        if b < i {
            assert(t[b] == s[b]);
        } else if b == i {
            assert(t[b] == e);
        } else {
            assert(t[b] == s[b - 1]);
        }
    }
}

/// The number of set bits in a byte.
pub open spec fn bits8(b: u8) -> nat {
    sum_bits(b) as nat
}

/// The number of set bits in a byte string.
pub open spec fn popcount(s: Seq<u8>) -> nat
    decreases s.len(),
{
    if s.len() == 0 {
        0
    } else {
        popcount(s.drop_last()) + bits8(s.last())
    }
}

/// Whether bit `i` of a bitmap is set, least significant bit of byte 0
/// first.
pub open spec fn bitmap_bit(s: Seq<u8>, i: int) -> bool {
    ((s[i / 8] >> ((i % 8) as u8)) & 1) == 1
}

/// Updating one byte changes the population count by that byte's change.
proof fn lemma_popcount_update(s: Seq<u8>, k: int, b: u8)
    requires
        0 <= k < s.len(),
    ensures
        popcount(s.update(k, b)) == popcount(s) - bits8(s[k]) + bits8(b),
    decreases s.len(),
{
    let t = s.update(k, b);
    if k == s.len() - 1 {
        assert(t.drop_last() =~= s.drop_last());
        assert(t.last() == b);
    } else {
        assert(t.drop_last() =~= s.drop_last().update(k, b));
        assert(t.last() == s.last());
        lemma_popcount_update(s.drop_last(), k, b);
    }
}

/// Clearing a set bit removes exactly one from the byte's bit count, and
/// setting a clear bit adds exactly one.
proof fn lemma_bits8_toggle(b: u8, k: u8)
    requires
        k < 8,
    ensures
        ((b >> k) & 1) == 1 ==> bits8(b & !(1u8 << k)) == bits8(b) - 1,
        ((b >> k) & 1) == 0 ==> bits8(b | (1u8 << k)) == bits8(b) + 1,
        ((b >> k) & 1) == 1 ==> bits8(b) >= 1,
{
    let c = b & !(1u8 << k);
    let d = b | (1u8 << k);
    assert(k < 8 && ((b >> k) & 1) == 1 ==> sum_bits(c) == sum_bits(b) - 1) by (bit_vector)
        requires
            c == b & !(1u8 << k),
            k < 8,
    ;
    assert(k < 8 && ((b >> k) & 1) == 0 ==> sum_bits(d) == sum_bits(b) + 1) by (bit_vector)
        requires
            d == b | (1u8 << k),
            k < 8,
    ;
    assert(((b >> k) & 1) == 1 ==> sum_bits(b) >= 1) by (bit_vector);
}

/// The bit count of a byte as a 16-bit sum.
pub open spec fn sum_bits(b: u8) -> u16 {
    ((b & 1) as u16 + ((b >> 1u8) & 1) as u16 + ((b >> 2u8) & 1) as u16 + ((b >> 3u8)
        & 1) as u16 + ((b >> 4u8) & 1) as u16 + ((b >> 5u8) & 1) as u16 + ((b >> 6u8)
        & 1) as u16 + ((b >> 7u8) & 1) as u16) as u16
}

/// `popcount` is bounded by eight bits per byte.
proof fn lemma_popcount_bound(s: Seq<u8>)
    ensures
        popcount(s) <= 8 * s.len(),
    decreases s.len(),
{
    if s.len() > 0 {
        lemma_popcount_bound(s.drop_last());
        let b = s.last();
        assert(sum_bits(b) <= 8) by (bit_vector);
    }
}

/// Every byte's bit count is at most the whole string's.
proof fn lemma_popcount_byte_le(s: Seq<u8>, k: int)
    requires
        0 <= k < s.len(),
    ensures
        bits8(s[k]) <= popcount(s),
    decreases s.len(),
{
    if k == s.len() - 1 {
    } else {
        lemma_popcount_byte_le(s.drop_last(), k);
        assert(s.drop_last()[k] == s[k]);
    }
}

/// Extending a byte string by one byte adds that byte's bit count.
proof fn lemma_popcount_push(s: Seq<u8>, b: u8)
    ensures
        popcount(s.push(b)) == popcount(s) + bits8(b),
{
    assert(s.push(b).drop_last() =~= s);
}

/// Persistent header at the start of each extent.
#[derive(Debug)]
pub struct ExtentHeader {
    /// File identifier within the tablespace.
    pub file_id: u32,
    /// Reserved word.
    pub reserved1: u32,
    /// Owning tablespace.
    pub tablespace_id: u64,
    /// Byte offset of the extent within the file.
    pub extent_offset: u64,
    /// Pages in the extent, the header page included.
    pub page_count: u32,
    /// Free pages in the extent.
    pub free_pages: u32,
    /// Free-page bitmap, 16 bytes: bit `i` set means page `i` is free.
    pub page_bitmap: Vec<u8>,
    /// Header checksum.
    pub checksum: u32,
}

/// The persisted image of an extent header: the fields in order, then the
/// 16-byte bitmap, the checksum, and four zero pad bytes, 56 bytes in all.
pub open spec fn spec_extent_header_bytes(h: ExtentHeader) -> Seq<u8> {
    spec_u32_to_le_bytes(h.file_id) + spec_u32_to_le_bytes(h.reserved1) + spec_u64_to_le_bytes(
        h.tablespace_id,
    ) + spec_u64_to_le_bytes(h.extent_offset) + spec_u32_to_le_bytes(h.page_count)
        + spec_u32_to_le_bytes(h.free_pages) + h.page_bitmap@ + spec_u32_to_le_bytes(h.checksum)
        + seq![0u8, 0u8, 0u8, 0u8]
}

impl ExtentHeader {
    /// Pages per extent.
    pub const PAGE_COUNT: u32 = 128;

    /// Usable pages per extent.
    pub const USABLE_PAGES: u32 = 127;

    /// Extent invariant: the bitmap is 16 bytes and its population count is
    /// exactly the free-page count.
    pub open spec fn wf(self) -> bool {
        &&& self.page_bitmap@.len() == 16
        &&& popcount(self.page_bitmap@) == self.free_pages
    }

    /// Creates the header of a fresh extent: the 127 usable pages free,
    /// the header page (bit 127) not.
    pub fn new(tablespace_id: u64, file_id: u32, extent_offset: u64) -> (r: Self)
        ensures
            r.wf(),
            r.file_id == file_id,
            r.tablespace_id == tablespace_id,
            r.extent_offset == extent_offset,
            r.page_count == 128,
            r.free_pages == 127,
            r.checksum == 0,
            forall|i: int| 0 <= i < 127 ==> bitmap_bit(r.page_bitmap@, i),
    {
        let mut page_bitmap: Vec<u8> = Vec::new();
        let mut k: usize = 0;
        proof {
            assert(sum_bits(0xFFu8) == 8) by (bit_vector);
            assert(sum_bits(0x7Fu8) == 7) by (bit_vector);
        }
        while k < 15
            invariant
                0 <= k <= 15,
                page_bitmap@.len() == k,
                popcount(page_bitmap@) == 8 * k,
                forall|j: int| 0 <= j < k ==> page_bitmap@[j] == 0xFFu8,
            decreases 15 - k,
        {
            proof {
                lemma_popcount_push(page_bitmap@, 0xFF);
                assert(sum_bits(0xFFu8) == 8) by (bit_vector);
            }
            page_bitmap.push(0xFF);
            k = k + 1;
        }
        proof {
            lemma_popcount_push(page_bitmap@, 0x7F);
            assert(sum_bits(0x7Fu8) == 7) by (bit_vector);
        }
        page_bitmap.push(0x7F);
        let r = Self {
            file_id,
            reserved1: 0,
            tablespace_id,
            extent_offset,
            page_count: 128,
            free_pages: 127,
            page_bitmap,
            checksum: 0,
        };
        proof {
            assert forall|i: int| 0 <= i < 127 implies bitmap_bit(r.page_bitmap@, i) by {
                let b = r.page_bitmap@[i / 8];
                let k8 = (i % 8) as u8;
                if i / 8 < 15 {
                    assert(b == 0xFFu8);
                    assert(k8 < 8 ==> ((0xFFu8 >> k8) & 1) == 1) by (bit_vector);
                } else {
                    assert(i / 8 == 15);
                    assert(b == 0x7Fu8);
                    assert(k8 < 7 ==> ((0x7Fu8 >> k8) & 1) == 1) by (bit_vector);
                }
            }
        }
        r
    }

    /// Allocates the lowest free usable page: clears its bitmap bit and
    /// decrements the free-page count. `None` exactly when no usable page
    /// is free.
    pub fn allocate_page(&mut self) -> (r: Option<u32>)
        requires
            old(self).wf(),
        ensures
            final(self).wf(),
            r is None ==> *final(self) == *old(self) && forall|i: int|
                0 <= i < 127 ==> !bitmap_bit(old(self).page_bitmap@, i),
            r matches Some(i) ==> {
                &&& i < 127
                &&& bitmap_bit(old(self).page_bitmap@, i as int)
                &&& forall|j: int| 0 <= j < i ==> !bitmap_bit(old(self).page_bitmap@, j)
                &&& final(self).free_pages == old(self).free_pages - 1
                &&& !bitmap_bit(final(self).page_bitmap@, i as int)
                &&& forall|j: int|
                    0 <= j < 128 && j != i ==> bitmap_bit(final(self).page_bitmap@, j)
                        == bitmap_bit(old(self).page_bitmap@, j)
                &&& final(self).tablespace_id == old(self).tablespace_id
                &&& final(self).extent_offset == old(self).extent_offset
                &&& final(self).page_count == old(self).page_count
                &&& final(self).file_id == old(self).file_id
                &&& final(self).reserved1 == old(self).reserved1
                &&& final(self).checksum == old(self).checksum
            },
    {
        let mut i: u32 = 0;
        while i < 127
            invariant
                0 <= i <= 127,
                *self == *old(self),
                old(self).wf(),
                forall|j: int| 0 <= j < i ==> !bitmap_bit(self.page_bitmap@, j),
            decreases 127 - i,
        {
            let byte_idx = (i / 8) as usize;
            let bit_idx = (i % 8) as u8;
            let b = self.page_bitmap[byte_idx];
            if (b >> bit_idx) & 1 == 1 {
                proof {
                    assert(bitmap_bit(self.page_bitmap@, i as int));
                    lemma_popcount_byte_le(self.page_bitmap@, byte_idx as int);
                    lemma_bits8_toggle(b, bit_idx);
                    lemma_popcount_update(self.page_bitmap@, byte_idx as int, b & !(1u8 << bit_idx));
                }
                self.page_bitmap[byte_idx] = b & !(1u8 << bit_idx);
                self.free_pages = self.free_pages - 1;
                proof {
                    let post = self.page_bitmap@;
                    let pre = old(self).page_bitmap@;
                    assert(post == pre.update(byte_idx as int, b & !(1u8 << bit_idx)));
                    assert(((b & !(1u8 << bit_idx)) >> bit_idx) & 1 == 0) by (bit_vector);
                    assert forall|j: int|
                        0 <= j < 128 && j != i implies bitmap_bit(post, j) == bitmap_bit(
                        pre,
                        j,
                    ) by {
                        if j / 8 == byte_idx as int {
                            let kj = (j % 8) as u8;
                            assert(kj != bit_idx);
                            assert(kj < 8 && bit_idx < 8 && kj != bit_idx ==> (((b & !(1u8
                                << bit_idx)) >> kj) & 1) == ((b >> kj) & 1)) by (bit_vector);
                        } else {
                            assert(post[j / 8] == pre[j / 8]);
                        }
                    }
                }
                return Some(i);
            }
            proof {
                assert(!bitmap_bit(self.page_bitmap@, i as int));
            }
            i = i + 1;
        }
        None
    }

    /// Frees an allocated usable page: sets its bitmap bit and increments
    /// the free-page count. The inverse of `allocate_page`.
    pub fn free_page(&mut self, page_idx: u32)
        requires
            old(self).wf(),
            page_idx < 127,
            !bitmap_bit(old(self).page_bitmap@, page_idx as int),
        ensures
            final(self).wf(),
            final(self).free_pages == old(self).free_pages + 1,
            bitmap_bit(final(self).page_bitmap@, page_idx as int),
            forall|j: int|
                0 <= j < 128 && j != page_idx ==> bitmap_bit(final(self).page_bitmap@, j)
                    == bitmap_bit(old(self).page_bitmap@, j),
            final(self).tablespace_id == old(self).tablespace_id,
            final(self).extent_offset == old(self).extent_offset,
            final(self).page_count == old(self).page_count,
            final(self).file_id == old(self).file_id,
            final(self).reserved1 == old(self).reserved1,
            final(self).checksum == old(self).checksum,
    {
        let byte_idx = (page_idx / 8) as usize;
        let bit_idx = (page_idx % 8) as u8;
        let b = self.page_bitmap[byte_idx];
        proof {
            assert(byte_idx as int == page_idx as int / 8);
            assert(bit_idx == (page_idx as int % 8) as u8);
            assert((b >> bit_idx) & 1 == 0 || (b >> bit_idx) & 1 == 1) by (bit_vector);
            assert(((b >> bit_idx) & 1) == 0);
            lemma_popcount_bound(self.page_bitmap@);
            lemma_bits8_toggle(b, bit_idx);
            lemma_popcount_update(self.page_bitmap@, byte_idx as int, b | (1u8 << bit_idx));
        }
        self.page_bitmap[byte_idx] = b | (1u8 << bit_idx);
        self.free_pages = self.free_pages + 1;
        proof {
            let post = self.page_bitmap@;
            let pre = old(self).page_bitmap@;
            assert(((b | (1u8 << bit_idx)) >> bit_idx) & 1 == 1) by (bit_vector)
                requires
                    bit_idx < 8,
            ;
            assert forall|j: int| 0 <= j < 128 && j != page_idx implies bitmap_bit(post, j)
                == bitmap_bit(pre, j) by {
                if j / 8 == byte_idx as int {
                    let kj = (j % 8) as u8;
                    assert(kj < 8 && bit_idx < 8 && kj != bit_idx ==> (((b | (1u8 << bit_idx))
                        >> kj) & 1) == ((b >> kj) & 1)) by (bit_vector);
                } else {
                    assert(post[j / 8] == pre[j / 8]);
                }
            }
        }
    }

    /// Whether the extent has no free usable page.
    pub fn is_full(&self) -> (r: bool)
        ensures
            r == (self.free_pages == 0),
    {
        self.free_pages == 0
    }

    /// Whether the extent has a free usable page.
    pub fn has_free_pages(&self) -> (r: bool)
        ensures
            r == (self.free_pages > 0),
    {
        self.free_pages > 0
    }

    /// The CRC-32 of the header image with the checksum field zeroed.
    pub fn compute_checksum(&self) -> (r: u32)
        requires
            self.page_bitmap@.len() == 16,
        ensures
            r == crc32_of(spec_extent_header_bytes(ExtentHeader { checksum: 0, ..*self })),
    {
        let mut zeroed = self.clone();
        zeroed.checksum = 0;
        let bytes = encode_extent_header(&zeroed);
        crc32fast::hash(bytes.as_slice())
    }

    /// Whether the stored checksum is zero or matches the image.
    pub fn verify_checksum(&self) -> (r: bool)
        requires
            self.page_bitmap@.len() == 16,
        ensures
            r == (self.checksum == 0 || self.checksum == crc32_of(
                spec_extent_header_bytes(ExtentHeader { checksum: 0, ..*self }),
            )),
    {
        self.checksum == 0 || self.compute_checksum() == self.checksum
    }

    /// Stores the image's CRC-32 in the checksum field.
    pub fn init_checksum(&mut self)
        requires
            old(self).page_bitmap@.len() == 16,
        ensures
            *final(self) == (ExtentHeader {
                checksum: crc32_of(
                    spec_extent_header_bytes(ExtentHeader { checksum: 0, ..*old(self) }),
                ),
                ..*old(self)
            }),
    {
        let c = self.compute_checksum();
        self.checksum = c;
    }
}

impl Clone for ExtentHeader {
    /// A copy with equal fields.
    fn clone(&self) -> (r: Self)
        ensures
            r.file_id == self.file_id,
            r.reserved1 == self.reserved1,
            r.tablespace_id == self.tablespace_id,
            r.extent_offset == self.extent_offset,
            r.page_count == self.page_count,
            r.free_pages == self.free_pages,
            r.page_bitmap@ == self.page_bitmap@,
            r.checksum == self.checksum,
    {
        let r = ExtentHeader {
            file_id: self.file_id,
            reserved1: self.reserved1,
            tablespace_id: self.tablespace_id,
            extent_offset: self.extent_offset,
            page_count: self.page_count,
            free_pages: self.free_pages,
            page_bitmap: vstd::slice::slice_to_vec(self.page_bitmap.as_slice()),
            checksum: self.checksum,
        };
        r
    }
}

/// Writes the persisted image of an extent header.
pub fn encode_extent_header(h: &ExtentHeader) -> (r: Vec<u8>)
    requires
        h.page_bitmap@.len() == 16,
    ensures
        r@ == spec_extent_header_bytes(*h),
        r@.len() == EXTENT_HEADER_SIZE,
{
    proof {
        lemma_auto_spec_u32_to_from_le_bytes();
        lemma_auto_spec_u64_to_from_le_bytes();
    }
    let mut out = u32_to_le_bytes(h.file_id);
    let mut b = u32_to_le_bytes(h.reserved1);
    out.append(&mut b);
    let mut b = u64_to_le_bytes(h.tablespace_id);
    out.append(&mut b);
    let mut b = u64_to_le_bytes(h.extent_offset);
    out.append(&mut b);
    let mut b = u32_to_le_bytes(h.page_count);
    out.append(&mut b);
    let mut b = u32_to_le_bytes(h.free_pages);
    out.append(&mut b);
    let mut b = vstd::slice::slice_to_vec(h.page_bitmap.as_slice());
    out.append(&mut b);
    let mut b = u32_to_le_bytes(h.checksum);
    out.append(&mut b);
    out.push(0);
    out.push(0);
    out.push(0);
    out.push(0);
    proof {
        assert(out@ =~= spec_extent_header_bytes(*h));
    }
    out
}

/// Every extent header that satisfies the invariant has a bitmap whose
/// population count equals its free-page count.
pub proof fn lemma_extent_bitmap_matches_free_pages(h: ExtentHeader)
    requires
        h.wf(),
    ensures
        popcount(h.page_bitmap@) == h.free_pages,
{
}

/// Persistent header at the start of each tablespace file.
#[derive(Debug, Clone, Copy)]
pub struct FileHeader {
    /// Magic number.
    pub magic: u32,
    /// Format version.
    pub version: u32,
    /// File identifier within the tablespace.
    pub file_id: u32,
    /// Reserved word (not persisted).
    pub reserved: u32,
    /// Owning tablespace.
    pub tablespace_id: u64,
    /// Current file size in bytes.
    pub file_size: u64,
    /// Number of extents in the file.
    pub extent_count: u32,
    /// Total free pages over all extents.
    pub free_pages: u32,
    /// Flags (not persisted).
    pub flags: u32,
    /// Header checksum.
    pub checksum: u32,
}

/// The persisted image of a file header: magic, version, file identifier,
/// tablespace, file size, extent count, free pages, checksum; 40 bytes.
pub open spec fn spec_file_header_bytes(h: FileHeader) -> Seq<u8> {
    spec_u32_to_le_bytes(h.magic) + spec_u32_to_le_bytes(h.version) + spec_u32_to_le_bytes(
        h.file_id,
    ) + spec_u64_to_le_bytes(h.tablespace_id) + spec_u64_to_le_bytes(h.file_size)
        + spec_u32_to_le_bytes(h.extent_count) + spec_u32_to_le_bytes(h.free_pages)
        + spec_u32_to_le_bytes(h.checksum)
}

impl FileHeader {
    /// Creates the header of a fresh tablespace file holding no extents.
    pub fn new(tablespace_id: u64, file_id: u32) -> (r: Self)
        ensures
            r == (FileHeader {
                magic: FILE_MAGIC,
                version: FILE_VERSION,
                file_id,
                reserved: 0,
                tablespace_id,
                file_size: FILE_HEADER_SIZE as u64,
                extent_count: 0,
                free_pages: 0,
                flags: 0,
                checksum: 0,
            }),
    {
        Self {
            magic: FILE_MAGIC,
            version: FILE_VERSION,
            file_id,
            reserved: 0,
            tablespace_id,
            file_size: FILE_HEADER_SIZE as u64,
            extent_count: 0,
            free_pages: 0,
            flags: 0,
            checksum: 0,
        }
    }

    /// Whether the magic number is right.
    pub fn is_valid(&self) -> (r: bool)
        ensures
            r == (self.magic == FILE_MAGIC),
    {
        self.magic == FILE_MAGIC
    }

    /// The CRC-32 of the header image with the checksum field zeroed.
    pub fn compute_checksum(&self) -> (r: u32)
        ensures
            r == crc32_of(spec_file_header_bytes(FileHeader { checksum: 0, ..*self })),
    {
        let mut zeroed = *self;
        zeroed.checksum = 0;
        let bytes = encode_file_header(&zeroed);
        crc32fast::hash(bytes.as_slice())
    }

    /// Whether the stored checksum is zero or matches the image.
    pub fn verify_checksum(&self) -> (r: bool)
        ensures
            r == (self.checksum == 0 || self.checksum == crc32_of(
                spec_file_header_bytes(FileHeader { checksum: 0, ..*self }),
            )),
    {
        self.checksum == 0 || self.compute_checksum() == self.checksum
    }

    /// Stores the image's CRC-32 in the checksum field.
    pub fn init_checksum(&mut self)
        ensures
            *final(self) == (FileHeader {
                checksum: crc32_of(
                    spec_file_header_bytes(FileHeader { checksum: 0, ..*old(self) }),
                ),
                ..*old(self)
            }),
    {
        self.checksum = self.compute_checksum();
    }
}

/// Writes the persisted image of a file header.
pub fn encode_file_header(h: &FileHeader) -> (r: Vec<u8>)
    ensures
        r@ == spec_file_header_bytes(*h),
        r@.len() == FILE_HEADER_SIZE,
{
    proof {
        lemma_auto_spec_u32_to_from_le_bytes();
        lemma_auto_spec_u64_to_from_le_bytes();
    }
    let mut out = u32_to_le_bytes(h.magic);
    let mut b = u32_to_le_bytes(h.version);
    out.append(&mut b);
    let mut b = u32_to_le_bytes(h.file_id);
    out.append(&mut b);
    let mut b = u64_to_le_bytes(h.tablespace_id);
    out.append(&mut b);
    let mut b = u64_to_le_bytes(h.file_size);
    out.append(&mut b);
    let mut b = u32_to_le_bytes(h.extent_count);
    out.append(&mut b);
    let mut b = u32_to_le_bytes(h.free_pages);
    out.append(&mut b);
    let mut b = u32_to_le_bytes(h.checksum);
    out.append(&mut b);
    proof {
        assert(out@ =~= spec_file_header_bytes(*h));
    }
    out
}

/// The header fields decoded from the first bytes of a file image, with
/// the unpersisted fields zero.
pub open spec fn spec_decode_file_header(data: Seq<u8>) -> FileHeader {
    FileHeader {
        magic: spec_u32_from_le_bytes(data.subrange(0, 4)),
        version: spec_u32_from_le_bytes(data.subrange(4, 8)),
        file_id: spec_u32_from_le_bytes(data.subrange(8, 12)),
        reserved: 0,
        tablespace_id: spec_u64_from_le_bytes(data.subrange(12, 20)),
        file_size: spec_u64_from_le_bytes(data.subrange(20, 28)),
        extent_count: spec_u32_from_le_bytes(data.subrange(28, 32)),
        free_pages: spec_u32_from_le_bytes(data.subrange(32, 36)),
        flags: 0,
        checksum: spec_u32_from_le_bytes(data.subrange(36, 40)),
    }
}

/// Whether a file image starts with an acceptable header: long enough, the
/// right magic and version, and a zero or matching checksum.
pub open spec fn spec_file_header_ok(data: Seq<u8>) -> bool {
    let h = spec_decode_file_header(data);
    &&& data.len() >= FILE_HEADER_SIZE
    &&& h.magic == FILE_MAGIC
    &&& h.version == FILE_VERSION
    &&& (h.checksum == 0 || h.checksum == crc32_of(
        spec_file_header_bytes(FileHeader { checksum: 0, ..h }),
    ))
}

/// Reads a file header from the first bytes of a file image: the decoded
/// header exactly when the image is acceptable. Fails with
/// `InvalidFileHeader` on a short image, a wrong magic number or an
/// unsupported version, and with `ChecksumMismatch` when the stored
/// checksum is non-zero and differs from the image's.
pub fn read_file_header(data: &[u8]) -> (r: TablespaceResult<FileHeader>)
    ensures
        r is Ok <==> spec_file_header_ok(data@),
        r matches Ok(h) ==> {
            &&& h == spec_decode_file_header(data@)
            &&& data@.subrange(0, FILE_HEADER_SIZE as int) == spec_file_header_bytes(h)
        },
        data@.len() < FILE_HEADER_SIZE ==> r matches Err(TablespaceError::InvalidFileHeader),
        data@.len() >= FILE_HEADER_SIZE && !(spec_decode_file_header(data@).magic == FILE_MAGIC
            && spec_decode_file_header(data@).version == FILE_VERSION) ==> r matches Err(
            TablespaceError::InvalidFileHeader,
        ),
        data@.len() >= FILE_HEADER_SIZE && spec_decode_file_header(data@).magic == FILE_MAGIC
            && spec_decode_file_header(data@).version == FILE_VERSION && !spec_file_header_ok(
            data@,
        ) ==> r matches Err(TablespaceError::ChecksumMismatch),
{
    if data.len() < FILE_HEADER_SIZE {
        return Err(TablespaceError::InvalidFileHeader);
    }
    proof {
        lemma_auto_spec_u32_to_from_le_bytes();
        lemma_auto_spec_u64_to_from_le_bytes();
    }
    let magic = crate::codec::read_u32_at(data, 0);
    let version = crate::codec::read_u32_at(data, 4);
    let file_id = crate::codec::read_u32_at(data, 8);
    let tablespace_id = crate::codec::read_u64_at(data, 12);
    let file_size = crate::codec::read_u64_at(data, 20);
    let extent_count = crate::codec::read_u32_at(data, 28);
    let free_pages = crate::codec::read_u32_at(data, 32);
    let checksum = crate::codec::read_u32_at(data, 36);
    let h = FileHeader {
        magic,
        version,
        file_id,
        reserved: 0,
        tablespace_id,
        file_size,
        extent_count,
        free_pages,
        flags: 0,
        checksum,
    };
    if !(magic == FILE_MAGIC && version == FILE_VERSION) {
        return Err(TablespaceError::InvalidFileHeader);
    }
    if !h.verify_checksum() {
        return Err(TablespaceError::ChecksumMismatch);
    }
    proof {
        assert(data@.subrange(0, FILE_HEADER_SIZE as int) =~= spec_file_header_bytes(h)) by {
            let img = spec_file_header_bytes(h);
            assert(img.subrange(0, 4) =~= data@.subrange(0, 4));
            assert(img.subrange(4, 8) =~= data@.subrange(4, 8));
            assert(img.subrange(8, 12) =~= data@.subrange(8, 12));
            assert(img.subrange(12, 20) =~= data@.subrange(12, 20));
            assert(img.subrange(20, 28) =~= data@.subrange(20, 28));
            assert(img.subrange(28, 32) =~= data@.subrange(28, 32));
            assert(img.subrange(32, 36) =~= data@.subrange(32, 36));
            assert(img.subrange(36, 40) =~= data@.subrange(36, 40));
            assert forall|k: int| 0 <= k < 40 implies img[k] == data@[k] by {
                if k < 4 {
                    assert(img.subrange(0, 4)[k] == data@.subrange(0, 4)[k]);
                } else if k < 8 {
                    assert(img.subrange(4, 8)[k - 4] == data@.subrange(4, 8)[k - 4]);
                } else if k < 12 {
                    assert(img.subrange(8, 12)[k - 8] == data@.subrange(8, 12)[k - 8]);
                } else if k < 20 {
                    assert(img.subrange(12, 20)[k - 12] == data@.subrange(12, 20)[k - 12]);
                } else if k < 28 {
                    assert(img.subrange(20, 28)[k - 20] == data@.subrange(20, 28)[k - 20]);
                } else if k < 32 {
                    assert(img.subrange(28, 32)[k - 28] == data@.subrange(28, 32)[k - 28]);
                } else if k < 36 {
                    assert(img.subrange(32, 36)[k - 32] == data@.subrange(32, 36)[k - 32]);
                } else {
                    assert(img.subrange(36, 40)[k - 36] == data@.subrange(36, 40)[k - 36]);
                }
            }
        }
    }
    Ok(h)
}

/// Configuration for creating a tablespace.
#[derive(Debug, Clone)]
pub struct TablespaceConfig {
    /// Tablespace name.
    pub name: String,
    /// Initial file size in bytes.
    pub initial_file_size: usize,
    /// Number of initial files.
    pub initial_files: u32,
    /// Automatic extension step in bytes.
    pub auto_extend_size: usize,
    /// Maximum size in bytes, zero for unlimited.
    pub max_size: usize,
}

impl Default for TablespaceConfig {
    /// An empty name with the default sizes.
    fn default() -> (r: Self)
        ensures
            r.name@.len() == 0,
            r.initial_file_size == DEFAULT_INITIAL_FILE_SIZE,
            r.initial_files == 1,
            r.auto_extend_size == DEFAULT_AUTO_EXTEND_SIZE,
            r.max_size == 0,
    {
        Self {
            name: String::new(),
            initial_file_size: DEFAULT_INITIAL_FILE_SIZE,
            initial_files: 1,
            auto_extend_size: DEFAULT_AUTO_EXTEND_SIZE,
            max_size: 0,
        }
    }
}

/// Lifecycle status of a tablespace.
#[derive(Debug, Clone, Copy, PartialEq, Eq, Structural)]
pub enum TablespaceStatus {
    /// Being created.
    Creating,
    /// In service.
    Active,
    /// Being dropped.
    Dropping,
    /// Being recovered.
    Recovering,
}

/// Metadata of one tablespace.
#[derive(Debug, Clone)]
pub struct TablespaceMeta {
    /// Tablespace identifier.
    pub tablespace_id: u64,
    /// Tablespace name.
    pub name: String,
    /// Lifecycle status.
    pub status: TablespaceStatus,
    /// Path of the backing file.
    pub file_path: String,
    /// Current file size in bytes.
    pub file_size: u64,
    /// Number of segments.
    pub segment_count: u32,
    /// Creation time.
    pub created_at: Timestamp,
    /// Last modification time.
    pub modified_at: Timestamp,
}

impl TablespaceMeta {
    /// Creates metadata for a tablespace being created.
    pub fn new(tablespace_id: u64, name: String, file_path: String) -> (r: Self)
        ensures
            r.tablespace_id == tablespace_id,
            r.name@ == name@,
            r.status == TablespaceStatus::Creating,
            r.file_path@ == file_path@,
            r.file_size == FILE_HEADER_SIZE,
            r.segment_count == 0,
    {
        let now = current_timestamp();
        Self {
            tablespace_id,
            name,
            status: TablespaceStatus::Creating,
            file_path,
            file_size: FILE_HEADER_SIZE as u64,
            segment_count: 0,
            created_at: now,
            modified_at: now,
        }
    }
}

/// One managed tablespace: metadata, the backing file image, and the
/// free-extent list.
pub struct TsEntry {
    /// Metadata.
    pub meta: TablespaceMeta,
    /// The cached file header, kept in step with the image.
    pub header: FileHeader,
    /// The backing file image.
    pub file: Vec<u8>,
    /// Free extents with room left.
    pub free_list: FreeExtentList,
}

impl TsEntry {
    /// Entry invariant: the image starts with the header's 40-byte image,
    /// the header's size field matches the image, and the free list is
    /// sorted.
    pub open spec fn wf(self) -> bool {
        &&& self.file@.len() == self.header.file_size
        &&& self.file@.len() >= FILE_HEADER_SIZE
        &&& self.file@.subrange(0, FILE_HEADER_SIZE as int) == spec_file_header_bytes(self.header)
        &&& self.free_list.wf()
    }
}

/// Tablespace manager: creates tablespaces and allocates extents in them.
/// Tablespace `n` lives at position `n - 1`.
pub struct TablespaceManager {
    data_dir: String,
    entries: Vec<TsEntry>,
}

/// The first entry from position `i` on whose name matches.
pub open spec fn find_ts(entries: Seq<TsEntry>, name: Seq<char>, i: int) -> Option<int>
    decreases entries.len() - i,
{
    if i < 0 || i >= entries.len() {
        None
    } else if entries[i].meta.name@ == name {
        Some(i)
    } else {
        find_ts(entries, name, i + 1)
    }
}

impl TablespaceManager {
    /// The managed tablespaces in identifier order.
    pub closed spec fn spec_entries(self) -> Seq<TsEntry> {
        self.entries@
    }

    /// Manager invariant: every entry is well formed and entry `i` has
    /// tablespace identifier `i + 1`.
    pub open spec fn wf(self) -> bool {
        forall|i: int|
            0 <= i < self.spec_entries().len() ==> (#[trigger] self.spec_entries()[i]).wf()
                && self.spec_entries()[i].meta.tablespace_id == i + 1
    }

    /// Creates a manager with no tablespaces.
    pub fn new(data_dir: &str) -> (r: Self)
        ensures
            r.wf(),
            r.spec_entries().len() == 0,
    {
        Self { data_dir: data_dir.to_owned(), entries: Vec::new() }
    }

    /// Creates a tablespace: writes a fresh file header and registers the
    /// name. Fails with `InvalidArgument` exactly when the name is taken.
    pub fn create_tablespace(&mut self, name: &str, _config: TablespaceConfig) -> (r:
        TablespaceResult<u64>)
        requires
            old(self).wf(),
            old(self).spec_entries().len() < u64::MAX,
        ensures
            final(self).wf(),
            r is Ok <==> find_ts(old(self).spec_entries(), name@, 0) is None,
            r matches Err(e) ==> (e matches TablespaceError::InvalidArgument(_) && *final(self)
                == *old(self)),
            r matches Ok(id) ==> {
                let fresh = (FileHeader {
                    magic: FILE_MAGIC,
                    version: FILE_VERSION,
                    file_id: 0,
                    reserved: 0,
                    tablespace_id: id,
                    file_size: FILE_HEADER_SIZE as u64,
                    extent_count: 0,
                    free_pages: 0,
                    flags: 0,
                    checksum: 0,
                });
                &&& id == old(self).spec_entries().len() + 1
                &&& final(self).spec_entries().len() == old(self).spec_entries().len() + 1
                &&& forall|k: int|
                    0 <= k < old(self).spec_entries().len() ==> final(self).spec_entries()[k]
                        == old(self).spec_entries()[k]
                &&& final(self).spec_entries().last().meta.name@ == name@
                &&& final(self).spec_entries().last().meta.tablespace_id == id
                &&& final(self).spec_entries().last().header == (FileHeader {
                    checksum: crc32_of(spec_file_header_bytes(fresh)),
                    ..fresh
                })
                &&& final(self).spec_entries().last().file@ == spec_file_header_bytes(
                    final(self).spec_entries().last().header,
                )
                &&& final(self).spec_entries().last().free_list.view_list().len() == 0
            },
    {
        let n = self.entries.len();
        let mut i: usize = 0;
        while i < n
            invariant
                0 <= i <= n,
                n == self.spec_entries().len(),
                *self == *old(self),
                old(self).wf(),
                find_ts(self.spec_entries(), name@, 0) == find_ts(
                    self.spec_entries(),
                    name@,
                    i as int,
                ),
            decreases n - i,
        {
            if str_eq(self.entries[i].meta.name.as_str(), name) {
                proof {
                    assert(find_ts(self.spec_entries(), name@, i as int) == Some(i as int));
                }
                return Err(
                    TablespaceError::InvalidArgument("tablespace name already exists".to_owned()),
                );
            }
            i = i + 1;
        }
        proof {
            assert(find_ts(self.spec_entries(), name@, 0) is None);
        }
        let tablespace_id = self.entries.len() as u64 + 1;
        let mut header = FileHeader::new(tablespace_id, 0);
        header.init_checksum();
        let file = encode_file_header(&header);
        let mut file_path = name.to_owned();
        file_path.append(".tbl");
        let meta = TablespaceMeta::new(tablespace_id, name.to_owned(), file_path);
        let entry = TsEntry { meta, header, file, free_list: FreeExtentList::new() };
        self.entries.push(entry);
        proof {
            let es = self.spec_entries();
            let last = es[es.len() - 1];
            assert(last.file@.subrange(0, FILE_HEADER_SIZE as int) =~= last.file@);
            assert(last.wf());
            assert forall|k: int| 0 <= k < es.len() implies (#[trigger] es[k]).wf()
                && es[k].meta.tablespace_id == k + 1 by {
                if k < es.len() - 1 {
                    assert(es[k] == old(self).spec_entries()[k]);
                }
            }
        }
        Ok(tablespace_id)
    }

    /// Looks a tablespace up by name; its identifier.
    pub fn open_tablespace(&self, name: &str) -> (r: TablespaceResult<u64>)
        requires
            self.wf(),
        ensures
            r is Ok <==> find_ts(self.spec_entries(), name@, 0) is Some,
            r matches Ok(id) ==> (find_ts(self.spec_entries(), name@, 0) matches Some(i) && id
                == i + 1),
            r matches Err(e) ==> e matches TablespaceError::NotFound(_),
    {
        let n = self.entries.len();
        let mut i: usize = 0;
        while i < n
            invariant
                0 <= i <= n,
                n == self.spec_entries().len(),
                self.wf(),
                find_ts(self.spec_entries(), name@, 0) == find_ts(
                    self.spec_entries(),
                    name@,
                    i as int,
                ),
            decreases n - i,
        {
            if str_eq(self.entries[i].meta.name.as_str(), name) {
                proof {
                    assert(find_ts(self.spec_entries(), name@, i as int) == Some(i as int));
                }
                return Ok(self.entries[i].meta.tablespace_id);
            }
            i = i + 1;
        }
        proof {
            assert(find_ts(self.spec_entries(), name@, 0) is None);
        }
        Err(TablespaceError::NotFound(name.to_owned()))
    }

    /// Allocates an extent in a tablespace: takes one with all usable pages
    /// free from the free list, or extends the file by one extent. Fails
    /// with `NotFound` on an unknown identifier and `NoSpace` when the file
    /// cannot grow.
    pub fn allocate_extent(&mut self, tablespace_id: u64) -> (r: TablespaceResult<FreeExtent>)
        requires
            old(self).wf(),
        ensures
            final(self).wf(),
            final(self).spec_entries().len() == old(self).spec_entries().len(),
            !(0 < tablespace_id <= old(self).spec_entries().len()) ==> (r matches Err(
                TablespaceError::NotFound(_),
            ) && *final(self) == *old(self)),
            0 < tablespace_id <= old(self).spec_entries().len() ==> {
                let idx = tablespace_id - 1;
                let pre = old(self).spec_entries()[idx as int];
                let post = final(self).spec_entries()[idx as int];
                &&& forall|k: int|
                    0 <= k < old(self).spec_entries().len() && k != idx
                        ==> final(self).spec_entries()[k] == old(self).spec_entries()[k]
                &&& match first_fit_extent(pre.free_list.view_list(), EXTENT_USABLE_PAGES, 0) {
                    Some(j) => {
                        &&& r matches Ok(e) && e == pre.free_list.view_list()[j]
                        &&& post.file@ == pre.file@
                        &&& post.free_list.view_list() == pre.free_list.view_list().remove(j)
                    },
                    None => {
                        if pre.file@.len() + EXTENT_SIZE <= usize::MAX
                            && pre.header.extent_count < 0xFFFF_FFFF && pre.header.free_pages
                            <= 0xFFFF_FFFF - 127 {
                            &&& r matches Ok(e) && e == (FreeExtent {
                                file_id: 0,
                                extent_offset: pre.file@.len() as u64,
                                free_pages: EXTENT_USABLE_PAGES,
                            })
                            &&& post.file@.len() == pre.file@.len() + EXTENT_SIZE
                            &&& post.header.extent_count == pre.header.extent_count + 1
                            &&& post.header.free_pages == pre.header.free_pages + 127
                            &&& post.header.file_size == pre.file@.len() + EXTENT_SIZE
                            &&& post.free_list.view_list() == pre.free_list.view_list()
                        } else {
                            r matches Err(TablespaceError::NoSpace)
                        }
                    },
                }
            },
    {
        if tablespace_id == 0 || tablespace_id > self.entries.len() as u64 {
            return Err(TablespaceError::NotFound("no such tablespace".to_owned()));
        }
        let idx = (tablespace_id - 1) as usize;
        entry_allocate_extent(&mut self.entries, idx)
    }

    /// The backing file image of a tablespace. Only file 0 exists.
    pub fn get_file(&self, tablespace_id: u64, file_id: u32) -> (r: TablespaceResult<&Vec<u8>>)
        requires
            self.wf(),
        ensures
            !(0 < tablespace_id <= self.spec_entries().len()) ==> (r matches Err(
                TablespaceError::NotFound(_),
            )),
            0 < tablespace_id <= self.spec_entries().len() && file_id > 0 ==> (r matches Err(
                TablespaceError::FileNotFound(_),
            )),
            0 < tablespace_id <= self.spec_entries().len() && file_id == 0 ==> (r matches Ok(f)
                && f@ == self.spec_entries()[tablespace_id as int - 1].file@),
    {
        if tablespace_id == 0 || tablespace_id > self.entries.len() as u64 {
            return Err(TablespaceError::NotFound("no such tablespace".to_owned()));
        }
        if file_id > 0 {
            return Err(TablespaceError::FileNotFound("only file 0 exists".to_owned()));
        }
        Ok(&self.entries[(tablespace_id - 1) as usize].file)
    }

    /// The names of the managed tablespaces, in identifier order.
    pub fn list_tablespaces(&self) -> (r: Vec<String>)
        ensures
            r@.len() == self.spec_entries().len(),
            forall|i: int|
                0 <= i < r@.len() ==> (#[trigger] r@[i])@ == self.spec_entries()[i].meta.name@,
    {
        let mut out: Vec<String> = Vec::new();
        let n = self.entries.len();
        let mut i: usize = 0;
        while i < n
            invariant
                0 <= i <= n,
                n == self.spec_entries().len(),
                out@.len() == i,
                forall|k: int|
                    0 <= k < i ==> (#[trigger] out@[k])@ == self.spec_entries()[k].meta.name@,
            decreases n - i,
        {
            out.push(self.entries[i].meta.name.clone());
            i = i + 1;
        }
        out
    }
}

/// Allocates an extent within the entry at `idx`: from its free list if one
/// has all usable pages free, else by extending the file by one extent. The
/// handed-out extent belongs to the caller; the free list keeps only
/// returned extents.
fn entry_allocate_extent(entries: &mut Vec<TsEntry>, idx: usize) -> (r: TablespaceResult<
    FreeExtent,
>)
    requires
        idx < old(entries)@.len(),
        forall|i: int| 0 <= i < old(entries)@.len() ==> (#[trigger] old(entries)@[i]).wf(),
        forall|i: int|
            0 <= i < old(entries)@.len() ==> (#[trigger] old(entries)@[i]).meta.tablespace_id == i
                + 1,
    ensures
        final(entries)@.len() == old(entries)@.len(),
        forall|i: int| 0 <= i < final(entries)@.len() ==> (#[trigger] final(entries)@[i]).wf(),
        forall|i: int|
            0 <= i < final(entries)@.len() ==> (#[trigger] final(entries)@[i]).meta.tablespace_id
                == i + 1,
        forall|i: int|
            0 <= i < final(entries)@.len() && i != idx ==> final(entries)@[i] == old(
                entries,
            )@[i],
        ({
            let pre = old(entries)@[idx as int];
            let post = final(entries)@[idx as int];
            match first_fit_extent(pre.free_list.view_list(), EXTENT_USABLE_PAGES, 0) {
                Some(j) => {
                    &&& r matches Ok(e) && e == pre.free_list.view_list()[j]
                    &&& post.file@ == pre.file@
                    &&& post.free_list.view_list() == pre.free_list.view_list().remove(j)
                },
                None => {
                    if pre.file@.len() + EXTENT_SIZE <= usize::MAX && pre.header.extent_count
                        < 0xFFFF_FFFF && pre.header.free_pages <= 0xFFFF_FFFF - 127 {
                        &&& r matches Ok(e) && e == (FreeExtent {
                            file_id: 0,
                            extent_offset: pre.file@.len() as u64,
                            free_pages: EXTENT_USABLE_PAGES,
                        })
                        &&& post.file@.len() == pre.file@.len() + EXTENT_SIZE
                        &&& post.header.extent_count == pre.header.extent_count + 1
                        &&& post.header.free_pages == pre.header.free_pages + 127
                        &&& post.header.file_size == pre.file@.len() + EXTENT_SIZE
                        &&& post.free_list.view_list() == pre.free_list.view_list()
                    } else {
                        r matches Err(TablespaceError::NoSpace)
                    }
                },
            }
        }),
{
    let entry = &mut entries[idx];
    match entry.free_list.get_extent(EXTENT_USABLE_PAGES) {
        Some(e) => {
            return Ok(e);
        },
        None => {},
    }
    // Extend the file by one zero-filled extent.
    let old_len = entry.file.len();
    if old_len > usize::MAX - EXTENT_SIZE || entry.header.extent_count == 0xFFFF_FFFF
        || entry.header.free_pages > 0xFFFF_FFFF - 127 {
        return Err(TablespaceError::NoSpace);
    }
    let new_len = old_len + EXTENT_SIZE;
    let extent_offset = old_len as u64;
    let ghost prefile = entry.file@;
    entry.file.resize(new_len, 0);
    // Write the new extent's header at the extent start.
    let mut extent_header = ExtentHeader::new(entry.header.tablespace_id, 0, extent_offset);
    extent_header.init_checksum();
    let hdr_bytes = encode_extent_header(&extent_header);
    crate::codec::write_bytes_at(&mut entry.file, old_len, hdr_bytes.as_slice());
    // Refresh the file header at the start of the file.
    entry.header.file_size = new_len as u64;
    entry.header.extent_count = entry.header.extent_count + 1;
    entry.header.free_pages = entry.header.free_pages + 127;
    entry.header.init_checksum();
    let fh_bytes = encode_file_header(&entry.header);
    crate::codec::write_bytes_at(&mut entry.file, 0, fh_bytes.as_slice());
    proof {
        assert(final(entries)@[idx as int].file@.subrange(0, FILE_HEADER_SIZE as int)
            =~= spec_file_header_bytes(final(entries)@[idx as int].header));
    }
    Ok(FreeExtent::new(0, extent_offset, EXTENT_USABLE_PAGES))
}

} // verus!
