//! Buffer pool: a fixed array of frames holding 8 KiB pages, a chained hash
//! table from page identifiers to frame indices, and a replacement manager.

pub mod lru;

use vstd::prelude::*;

use crate::infrastructure::hash_table::HashTable;
use crate::types::{PageId, PAGE_SIZE};
use crate::vfs::{MemFs, VfsError};
use lru::LruManager;

verus! {

/// Invalid page identifier (all bits set).
pub const INVALID_PAGE_ID: PageId = 0xFFFF_FFFF_FFFF_FFFF;

/// The dirty flag occupies bit 0 of the state word.
pub const DIRTY_BIT: u64 = 1;

/// The pin count occupies bits 8 and up of the state word.
pub const PIN_COUNT_SHIFT: u64 = 8;

/// Identifies the page a buffer holds.
#[derive(Debug, Clone, Copy, PartialEq, Eq, Structural)]
pub struct BufferTag {
    /// The page this buffer contains.
    pub page_id: PageId,
}

impl BufferTag {
    /// Creates a tag for a page.
    pub fn new(page_id: PageId) -> (r: Self)
        ensures
            r.page_id == page_id,
    {
        Self { page_id }
    }
}

/// The pin count encoded in a state word.
pub open spec fn spec_pin_count(state: u64) -> u64 {
    state >> 8u64
}

/// The dirty flag encoded in a state word.
pub open spec fn spec_dirty(state: u64) -> bool {
    state & 1 == 1
}

/// Descriptor of one buffer frame: the page it holds and a state word with
/// the dirty flag in bit 0 and the pin count in bits 8 and up.
#[derive(Debug)]
pub struct BufferDesc {
    /// The page this frame holds; `INVALID_PAGE_ID` when free.
    pub buf_tag: BufferTag,
    state: u64,
}

impl BufferDesc {
    /// The frame's state word.
    pub closed spec fn spec_state(self) -> u64 {
        self.state
    }

    /// The frame's tag.
    pub closed spec fn spec_tag(self) -> BufferTag {
        self.buf_tag
    }

    /// The frame's pin count.
    pub open spec fn pin_count_of(self) -> u64 {
        spec_pin_count(self.spec_state())
    }

    /// Whether the frame is dirty.
    pub open spec fn dirty_of(self) -> bool {
        spec_dirty(self.spec_state())
    }

    /// Creates a free, clean, unpinned descriptor.
    pub fn new() -> (r: Self)
        ensures
            r.spec_tag().page_id == INVALID_PAGE_ID,
            r.pin_count_of() == 0,
            !r.dirty_of(),
    {
        let r = Self { buf_tag: BufferTag::new(INVALID_PAGE_ID), state: 0 };
        proof {
            assert(spec_pin_count(0) == 0 && !spec_dirty(0)) by (bit_vector);
        }
        r
    }

    /// Whether the frame holds modifications not yet written back.
    pub fn is_dirty(&self) -> (r: bool)
        ensures
            r == self.dirty_of(),
    {
        let s = self.state;
        proof {
            assert((s & 1 != 0) == (s & 1 == 1)) by (bit_vector);
        }
        s & DIRTY_BIT != 0
    }

    /// Marks the frame dirty. Marking twice is the same as marking once.
    pub fn set_dirty(&mut self)
        ensures
            final(self).spec_tag() == old(self).spec_tag(),
            final(self).dirty_of(),
            final(self).pin_count_of() == old(self).pin_count_of(),
            final(self).spec_state() == (old(self).spec_state() | 1),
    {
        let s = self.state;
        self.state = s | DIRTY_BIT;
        proof {
            assert(spec_dirty(s | 1) && spec_pin_count(s | 1) == spec_pin_count(s))
                by (bit_vector);
        }
    }

    /// Clears the dirty flag.
    pub fn clear_dirty(&mut self)
        ensures
            final(self).spec_tag() == old(self).spec_tag(),
            !final(self).dirty_of(),
            final(self).pin_count_of() == old(self).pin_count_of(),
    {
        let s = self.state;
        self.state = s & !DIRTY_BIT;
        proof {
            assert(!spec_dirty(s & !1) && spec_pin_count(s & !1) == spec_pin_count(s))
                by (bit_vector);
        }
    }

    /// Increments the pin count and returns the new count, truncated to 32
    /// bits. The pin count lives in the state word's top 56 bits; pushing it
    /// past their capacity would be a fatal fault and is excluded.
    pub fn pin(&mut self) -> (r: u32)
        requires
            old(self).pin_count_of() < 0xFF_FFFF_FFFF_FFFFu64,
        ensures
            final(self).spec_tag() == old(self).spec_tag(),
            final(self).pin_count_of() == old(self).pin_count_of() + 1,
            final(self).dirty_of() == old(self).dirty_of(),
            r == final(self).pin_count_of() as u32,
    {
        let s = self.state;
        proof {
            assert((s >> 8u64) < 0xFF_FFFF_FFFF_FFFFu64 ==> s <= 0xFFFF_FFFF_FFFF_FFFFu64 - 0x100
                && spec_pin_count(vstd::prelude::add(s, 0x100)) == spec_pin_count(s) + 1
                && spec_dirty(vstd::prelude::add(s, 0x100)) == spec_dirty(s) && (
            vstd::prelude::add(s, 0x100) >> 8u64) == (s >> 8u64) + 1) by (bit_vector);
        }
        proof {
            assert(1u64 << 8u64 == 0x100) by (bit_vector);
        }
        self.state = s + (1u64 << PIN_COUNT_SHIFT);
        #[verifier::truncate] ((self.state >> PIN_COUNT_SHIFT as u32) as u32)
    }

    /// Decrements the pin count and returns the new count, truncated to 32
    /// bits. Decrementing an unpinned frame would be a fatal fault and is
    /// excluded.
    pub fn unpin(&mut self) -> (r: u32)
        requires
            old(self).pin_count_of() > 0,
        ensures
            final(self).spec_tag() == old(self).spec_tag(),
            final(self).pin_count_of() == old(self).pin_count_of() - 1,
            final(self).dirty_of() == old(self).dirty_of(),
            r == final(self).pin_count_of() as u32,
    {
        let s = self.state;
        proof {
            assert((s >> 8u64) > 0 ==> s >= 0x100 && spec_pin_count(vstd::prelude::sub(s, 0x100))
                == spec_pin_count(s) - 1 && spec_dirty(vstd::prelude::sub(s, 0x100)) == spec_dirty(s))
                by (bit_vector);
            assert(1u64 << 8u64 == 0x100) by (bit_vector);
        }
        self.state = s - (1u64 << PIN_COUNT_SHIFT);
        #[verifier::truncate] ((self.state >> PIN_COUNT_SHIFT as u32) as u32)
    }

    /// The current pin count.
    pub fn pin_count(&self) -> (r: u64)
        ensures
            r == self.pin_count_of(),
    {
        self.state >> PIN_COUNT_SHIFT as u32
    }

    /// Whether the frame can be evicted: exactly when its pin count is zero.
    pub fn can_evict(&self) -> (r: bool)
        ensures
            r == (self.pin_count_of() == 0),
    {
        self.pin_count() == 0
    }
}

/// Buffer manager errors.
#[derive(Debug, PartialEq)]
pub enum BufferError {
    /// The page is not in the pool.
    PageNotFound(PageId),
    /// Every frame is pinned.
    BufferPoolFull,
    /// The page is pinned and cannot be evicted.
    PagePinned(PageId),
    /// The page identifier is not acceptable.
    InvalidPageId(PageId),
}

/// The path of the file that holds a page: `<dir>/page_<group>.dat`, the
/// group being the top 32 bits of the page identifier.
pub open spec fn spec_page_path(dir: Seq<u8>, page_id: PageId) -> Seq<u8> {
    dir + seq![47u8, 112u8, 97u8, 103u8, 101u8, 95u8] + crate::text::dec_digits(
        (page_id >> 32u64) as nat,
    ) + seq![46u8, 100u8, 97u8, 116u8]
}

/// The byte offset of a page within its file: the low 32 bits of the page
/// identifier times the page size.
pub open spec fn spec_page_offset(page_id: PageId) -> int {
    (page_id & 0xFFFF_FFFF) * PAGE_SIZE
}


/// The 8 KiB window of a page within its file's contents, zero-padded past
/// the end of the file.
pub open spec fn spec_padded_page(data: Seq<u8>, off: int) -> Seq<u8> {
    Seq::new(
        PAGE_SIZE as nat,
        |k: int|
            if 0 <= off + k < data.len() {
                data[off + k]
            } else {
                0u8
            },
    )
}

/// Whether a file's contents hold the given page image at the page's
/// offset.
pub open spec fn file_holds_page(data: Seq<u8>, off: int, image: Seq<u8>) -> bool {
    &&& off + PAGE_SIZE <= data.len()
    &&& data.subrange(off, off + PAGE_SIZE) == image
}

/// Two distinct pages' backing windows never overlap: they live in files of
/// different names, or at offsets a full page apart.
proof fn lemma_page_targets_disjoint(dir: Seq<u8>, a: PageId, b: PageId)
    requires
        a != b,
    ensures
        spec_page_path(dir, a) != spec_page_path(dir, b) || spec_page_offset(a) + PAGE_SIZE
            <= spec_page_offset(b) || spec_page_offset(b) + PAGE_SIZE <= spec_page_offset(a),
{
    let ga = a >> 32u64;
    let gb = b >> 32u64;
    let la = a & 0xFFFF_FFFF;
    let lb = b & 0xFFFF_FFFF;
    if ga == gb {
        assert(la != lb) by (bit_vector)
            requires
                a != b,
                ga == a >> 32u64,
                gb == b >> 32u64,
                la == a & 0xFFFF_FFFF,
                lb == b & 0xFFFF_FFFF,
                ga == gb,
        ;
        assert(la < lb ==> (la as int) * 8192 + 8192 <= (lb as int) * 8192) by (nonlinear_arith);
        assert(lb < la ==> (lb as int) * 8192 + 8192 <= (la as int) * 8192) by (nonlinear_arith);
    } else {
        crate::text::lemma_dec_round_trip(ga as nat);
        crate::text::lemma_dec_round_trip(gb as nat);
        let da = crate::text::dec_digits(ga as nat);
        let db = crate::text::dec_digits(gb as nat);
        assert(da != db);
        let pa = spec_page_path(dir, a);
        let pb = spec_page_path(dir, b);
        if pa == pb {
            assert(pa.len() == dir.len() + 6 + da.len() + 4);
            assert(pb.len() == dir.len() + 6 + db.len() + 4);
            assert(da.len() == db.len());
            let start = dir.len() + 6;
            assert(da =~= db) by {
                assert forall|k: int| 0 <= k < da.len() implies da[k] == db[k] by {
                    assert(pa[start + k] == da[k]);
                    assert(pb[start + k] == db[k]);
                }
            }
        }
    }
}

/// The page a frame holds.
pub open spec fn frame_tag(bufs: Seq<BufferDesc>, i: int) -> PageId {
    bufs[i].spec_tag().page_id
}

/// Whether no other frame holds frame `i`'s page.
pub open spec fn tag_unshared(bufs: Seq<BufferDesc>, i: int) -> bool {
    forall|j: int| 0 <= j < bufs.len() && j != i ==> frame_tag(bufs, j) != frame_tag(bufs, i)
}

/// Whether the filesystem holds the page image at the page's window.
pub open spec fn vfs_holds_frame(vfs: MemFs, dir: Seq<u8>, tag: PageId, image: Seq<u8>) -> bool {
    file_holds_page(
        vfs.spec_file_data(spec_page_path(dir, tag)),
        spec_page_offset(tag),
        image,
    )
}

/// Whether a page's backing file exists and its window fits the address
/// space, so a write-back can succeed.
pub open spec fn dirty_file_ready(vfs: MemFs, dir: Seq<u8>, tag: PageId) -> bool {
    &&& vfs.spec_has_file(spec_page_path(dir, tag))
    &&& spec_page_offset(tag) + PAGE_SIZE <= usize::MAX
}

/// The state words after marking the frame at `idx` dirty; no frame named,
/// no change.
pub open spec fn spec_mark_dirty(states: Seq<u64>, idx: Option<usize>) -> Seq<u64> {
    match idx {
        Some(i) => if i < states.len() {
            states.update(i as int, states[i as int] | 1)
        } else {
            states
        },
        None => states,
    }
}

/// Marking a page dirty twice leaves the frame states exactly as marking
/// it once does.
pub proof fn lemma_mark_dirty_idempotent(states: Seq<u64>, idx: Option<usize>)
    ensures
        spec_mark_dirty(spec_mark_dirty(states, idx), idx) == spec_mark_dirty(states, idx),
{
    match idx {
        Some(i) => {
            if i < states.len() {
                let s = states[i as int];
                assert((s | 1) | 1 == s | 1) by (bit_vector);
                assert(spec_mark_dirty(spec_mark_dirty(states, idx), idx) =~= spec_mark_dirty(
                    states,
                    idx,
                ));
            }
        },
        None => {},
    }
}

/// Buffer manager: `buffer_size` frames, their 8 KiB page images, a hash
/// table from page identifiers to frame positions, a replacement manager,
/// and the filesystem the pages live on.
pub struct BufferMgr {
    buffer_size: usize,
    buffers: Vec<BufferDesc>,
    buf_hash_table: HashTable<usize>,
    page_data: Vec<Vec<u8>>,
    lru: LruManager,
    vfs: MemFs,
    data_dir: Vec<u8>,
}

impl BufferMgr {
    /// The frame descriptors.
    pub closed spec fn spec_buffers(self) -> Seq<BufferDesc> {
        self.buffers@
    }

    /// The frame state words.
    pub open spec fn spec_states(self) -> Seq<u64> {
        self.spec_buffers().map_values(|d: BufferDesc| d.spec_state())
    }

    /// The page identifier each frame holds.
    pub open spec fn spec_tags(self) -> Seq<PageId> {
        self.spec_buffers().map_values(|d: BufferDesc| d.spec_tag().page_id)
    }

    /// The page-to-frame hash table.
    pub closed spec fn spec_table(self) -> HashTable<usize> {
        self.buf_hash_table
    }

    /// The pool's capacity in frames.
    pub closed spec fn spec_size(self) -> nat {
        self.buffer_size as nat
    }

    /// The page images.
    pub closed spec fn spec_pages(self) -> Seq<Seq<u8>> {
        self.page_data@.map_values(|p: Vec<u8>| p@)
    }

    /// The filesystem the pool reads and writes pages on.
    pub closed spec fn spec_vfs(self) -> MemFs {
        self.vfs
    }

    /// The frame position a page is cached at, if any.
    pub open spec fn cached_at(self, page_id: PageId) -> Option<usize> {
        if self.spec_table().spec_has_key(page_id) {
            Some(self.spec_table().spec_get(page_id))
        } else {
            None
        }
    }

    /// Pool invariant: the sizes agree, the table is well formed, every page
    /// image is one page long, and every hash-table entry names a frame
    /// whose tag is that entry's page: the table and the frames agree at
    /// rest.
    pub open spec fn wf(self) -> bool {
        &&& self.spec_size() > 0
        &&& self.spec_buffers().len() == self.spec_size()
        &&& self.spec_pages().len() == self.spec_size()
        &&& self.spec_table().wf()
        &&& forall|i: int|
            0 <= i < self.spec_pages().len() ==> (#[trigger] self.spec_pages()[i]).len()
                == PAGE_SIZE
        &&& forall|pid: PageId|
            #[trigger] self.spec_table().spec_has_key(pid) ==> self.spec_table().spec_get(pid)
                < self.spec_size() && self.spec_buffers()[self.spec_table().spec_get(
                pid,
            ) as int].spec_tag().page_id == pid
        &&& self.spec_vfs().wf()
    }

    /// Every cached page's hash entry points at a frame tagged with that
    /// page: the hash table and the frames agree.
    pub proof fn lemma_table_frames_agree(self, page_id: PageId)
        requires
            self.wf(),
            self.spec_table().spec_has_key(page_id),
        ensures
            self.spec_table().spec_get(page_id) < self.spec_size(),
            self.spec_buffers()[self.spec_table().spec_get(page_id) as int].spec_tag().page_id
                == page_id,
    {
    }

    /// Creates a pool of `buffer_size` frames over the given filesystem.
    /// The replacement lists get half, three tenths and one fifth of the
    /// pool.
    pub fn init(buffer_size: usize, vfs: MemFs, data_dir: Vec<u8>) -> (r: Self)
        requires
            buffer_size > 0,
            vfs.wf(),
        ensures
            r.wf(),
            r.spec_size() == buffer_size,
            forall|pid: PageId| !(#[trigger] r.spec_table().spec_has_key(pid)),
            r.spec_vfs() == vfs,
            forall|i: int|
                0 <= i < r.spec_buffers().len() ==> {
                    &&& (#[trigger] r.spec_buffers()[i]).spec_tag().page_id == INVALID_PAGE_ID
                    &&& r.spec_buffers()[i].pin_count_of() == 0
                    &&& !r.spec_buffers()[i].dirty_of()
                },
    {
        let mut buffers: Vec<BufferDesc> = Vec::new();
        let mut page_data: Vec<Vec<u8>> = Vec::new();
        let mut i: usize = 0;
        while i < buffer_size
            invariant
                0 <= i <= buffer_size,
                buffers@.len() == i,
                page_data@.len() == i,
                forall|k: int|
                    0 <= k < i ==> (#[trigger] page_data@[k])@.len() == PAGE_SIZE,
                forall|k: int|
                    0 <= k < i ==> {
                        &&& (#[trigger] buffers@[k]).spec_tag().page_id == INVALID_PAGE_ID
                        &&& buffers@[k].pin_count_of() == 0
                        &&& !buffers@[k].dirty_of()
                    },
            decreases buffer_size - i,
        {
            buffers.push(BufferDesc::new());
            page_data.push(vec![0u8; PAGE_SIZE]);
            i = i + 1;
        }
        // Half the pool runs hot, three tenths cold, one fifth waits for
        // eviction; every list gets room for at least one frame.
        let hot_cap = if buffer_size / 2 > 1 {
            buffer_size / 2
        } else {
            1
        };
        let cold3 = buffer_size / 10 * 3 + (buffer_size % 10) * 3 / 10;
        let cold_cap = if cold3 > 1 {
            cold3
        } else {
            1
        };
        let free5 = buffer_size / 5;
        let free_cap = if free5 > 1 {
            free5
        } else {
            1
        };
        let lru = LruManager::new(hot_cap, cold_cap, free_cap);
        let buf_hash_table = HashTable::new(buffer_size);
        let r = BufferMgr {
            buffer_size,
            buffers,
            buf_hash_table,
            page_data,
            lru,
            vfs,
            data_dir,
        };
        r
    }

    /// The pool's capacity in frames.
    pub fn buffer_size(&self) -> (r: usize)
        ensures
            r == self.spec_size(),
    {
        self.buffer_size
    }

    /// The frame a page is cached at, if any.
    pub fn lookup(&self, page_id: PageId) -> (r: Option<usize>)
        requires
            self.wf(),
        ensures
            r == self.cached_at(page_id),
    {
        match self.buf_hash_table.get(page_id) {
            Some(idx) => Some(*idx),
            None => None,
        }
    }

    /// The file path of the page's backing file.
    fn page_file_path(&self, page_id: PageId) -> (r: Vec<u8>)
        ensures
            r@ == spec_page_path(self.spec_data_dir(), page_id),
    {
        let mut path = vstd::slice::slice_to_vec(self.data_dir.as_slice());
        path.push(47);
        path.push(112);
        path.push(97);
        path.push(103);
        path.push(101);
        path.push(95);
        let mut digits = crate::text::u64_to_dec(page_id >> 32);
        path.append(&mut digits);
        path.push(46);
        path.push(100);
        path.push(97);
        path.push(116);
        proof {
            assert(path@ =~= spec_page_path(self.spec_data_dir(), page_id));
        }
        path
    }

    /// The directory the pool's page files live in.
    pub closed spec fn spec_data_dir(self) -> Seq<u8> {
        self.data_dir@
    }

    /// The byte offset of a page within its file.
    fn page_offset(&self, page_id: PageId) -> (r: u64)
        ensures
            r == spec_page_offset(page_id),
    {
        proof {
            assert((page_id & 0xFFFF_FFFF) <= 0xFFFF_FFFFu64) by (bit_vector);
            assert(forall|x: u64| x <= 0xFFFF_FFFFu64 ==> #[trigger] (x as int * 8192)
                <= 0xFFFF_FFFFu64 as int * 8192) by (nonlinear_arith);
        }
        (page_id & 0xFFFF_FFFF) * PAGE_SIZE as u64
    }

    /// Marks a cached page dirty; not cached, nothing happens. Marking
    /// twice is the same as marking once.
    pub fn mark_dirty(&mut self, page_id: PageId)
        requires
            old(self).wf(),
        ensures
            final(self).wf(),
            final(self).spec_states() == spec_mark_dirty(
                old(self).spec_states(),
                old(self).cached_at(page_id),
            ),
            final(self).spec_tags() == old(self).spec_tags(),
            final(self).spec_table() == old(self).spec_table(),
            final(self).spec_pages() == old(self).spec_pages(),
            final(self).spec_vfs() == old(self).spec_vfs(),
            final(self).spec_size() == old(self).spec_size(),
    {
        let found = self.lookup(page_id);
        match found {
            Some(idx) => {
                desc_set_dirty(&mut self.buffers, idx);
                proof {
                    assert(final(self).spec_states() =~= spec_mark_dirty(
                        old(self).spec_states(),
                        old(self).cached_at(page_id),
                    ));
                    assert(final(self).spec_tags() =~= old(self).spec_tags());
                }
            },
            None => {
                proof {
                    assert(final(self).spec_states() =~= spec_mark_dirty(
                        old(self).spec_states(),
                        old(self).cached_at(page_id),
                    ));
                }
            },
        }
    }

    /// Releases one pin on a cached page; `PageNotFound` exactly when the
    /// page is not cached. The page must be pinned.
    pub fn unpin_page(&mut self, page_id: PageId) -> (r: Result<(), BufferError>)
        requires
            old(self).wf(),
            old(self).cached_at(page_id) matches Some(idx) ==> 0 < old(self).spec_buffers()[
                idx as int
            ].pin_count_of(),
        ensures
            final(self).wf(),
            r is Ok <==> old(self).cached_at(page_id) is Some,
            r matches Err(e) ==> (e == BufferError::PageNotFound(page_id) && *final(self) == *old(self)),
            old(self).cached_at(page_id) matches Some(idx) ==> {
                &&& final(self).spec_buffers()[idx as int].pin_count_of() == old(self).spec_buffers()[idx as int].pin_count_of() - 1
                &&& forall|k: int|
                    0 <= k < old(self).spec_buffers().len() && k != idx ==> final(self).spec_buffers()[k] == old(self).spec_buffers()[k]
                &&& final(self).spec_tags() == old(self).spec_tags()
                &&& final(self).spec_table() == old(self).spec_table()
                &&& final(self).spec_pages() == old(self).spec_pages()
                &&& final(self).spec_vfs() == old(self).spec_vfs()
            },
    {
        let found = self.lookup(page_id);
        match found {
            Some(idx) => {
                desc_unpin(&mut self.buffers, idx);
                proof {
                    assert(final(self).spec_tags() =~= old(self).spec_tags());
                }
                Ok(())
            },
            None => Err(BufferError::PageNotFound(page_id)),
        }
    }

    /// A copy of the page image held by a frame.
    pub fn frame_bytes(&self, idx: usize) -> (r: Vec<u8>)
        requires
            self.wf(),
            idx < self.spec_size(),
        ensures
            r@ == self.spec_pages()[idx as int],
    {
        vstd::slice::slice_to_vec(self.page_data[idx].as_slice())
    }

    /// Overwrites part of the page image held by a frame.
    pub fn write_frame_bytes(&mut self, idx: usize, offset: usize, bytes: &[u8])
        requires
            old(self).wf(),
            idx < old(self).spec_size(),
            offset + bytes@.len() <= PAGE_SIZE,
        ensures
            final(self).wf(),
            final(self).spec_pages()[idx as int] == old(self).spec_pages()[
                idx as int
            ].subrange(0, offset as int) + bytes@ + old(self).spec_pages()[idx as int].subrange(
                offset + bytes@.len(),
                PAGE_SIZE as int,
            ),
            forall|k: int|
                0 <= k < old(self).spec_pages().len() && k != idx ==> final(self).spec_pages()[k]
                    == old(self).spec_pages()[k],
            final(self).spec_buffers() == old(self).spec_buffers(),
            final(self).spec_table() == old(self).spec_table(),
            final(self).spec_vfs() == old(self).spec_vfs(),
            final(self).spec_size() == old(self).spec_size(),
            final(self).spec_tags() == old(self).spec_tags(),
            final(self).spec_states() == old(self).spec_states(),
    {
        proof {
            assert(old(self).spec_pages()[idx as int] == old(self).page_data@[idx as int]@);
        }
        let page = &mut self.page_data[idx];
        crate::codec::write_bytes_at(page, offset, bytes);
        proof {
            assert(final(self).spec_pages()[idx as int] =~= old(self).spec_pages()[
                idx as int
            ].subrange(0, offset as int) + bytes@ + old(self).spec_pages()[idx as int].subrange(
                offset + bytes@.len(),
                PAGE_SIZE as int,
            ));
            assert(final(self).spec_pages() =~= old(self).spec_pages().update(
                idx as int,
                final(self).spec_pages()[idx as int],
            ));
        }
    }

    /// Retrieves a page: on a hit the frame is freshened in the replacement
    /// lists and pinned; on a miss a frame is claimed (evicting an unpinned
    /// frame, writing it out first when dirty), the page is read from its
    /// file, hashed in, added to the replacement lists and pinned. Returns
    /// the frame position holding the page. Fails with `BufferPoolFull`
    /// when every frame is pinned, and `PageNotFound` when the page's file
    /// cannot be read.
    pub fn get_page(&mut self, page_id: PageId) -> (r: Result<usize, BufferError>)
        requires
            old(self).wf(),
            forall|i: int|
                0 <= i < old(self).spec_buffers().len() ==> (#[trigger] old(self).spec_buffers()[
                    i
                ]).pin_count_of() < 0xFF_FFFF_FFFF_FFFFu64,
        ensures
            final(self).wf(),
            final(self).spec_size() == old(self).spec_size(),
            r matches Ok(idx) ==> {
                &&& idx < final(self).spec_size()
                &&& final(self).spec_buffers()[idx as int].spec_tag().page_id == page_id
                &&& final(self).cached_at(page_id) == Some(idx)
                &&& final(self).spec_buffers()[idx as int].pin_count_of() > 0
            },
            old(self).cached_at(page_id) matches Some(idx) ==> {
                &&& r == Ok::<usize, BufferError>(idx)
                &&& final(self).spec_pages() == old(self).spec_pages()
                &&& final(self).spec_table() == old(self).spec_table()
                &&& final(self).spec_vfs() == old(self).spec_vfs()
                &&& final(self).spec_buffers()[idx as int].pin_count_of() == old(self).spec_buffers()[idx as int].pin_count_of() + 1
                &&& final(self).spec_buffers()[idx as int].dirty_of() == old(self).spec_buffers()[idx as int].dirty_of()
                &&& forall|k: int|
                    0 <= k < old(self).spec_buffers().len() && k != idx ==> final(self).spec_buffers()[k] == old(self).spec_buffers()[k]
            },
            old(self).cached_at(page_id) is None ==> (r matches Ok(idx)
                ==> final(self).spec_pages()[idx as int] == spec_padded_page(
                final(self).spec_vfs().spec_file_data(
                    spec_page_path(old(self).spec_data_dir(), page_id),
                ),
                spec_page_offset(page_id),
            )),
            (old(self).cached_at(page_id) is None && old(self).spec_vfs().spec_has_file(
                spec_page_path(old(self).spec_data_dir(), page_id),
            ) && spec_page_offset(page_id) + PAGE_SIZE <= usize::MAX && old(self).spec_table().spec_size() < old(self).spec_size() && exists|i: int|
                0 <= i < old(self).spec_buffers().len() && (#[trigger] old(self).spec_buffers()[
                    i
                ]).spec_tag().page_id == INVALID_PAGE_ID && old(self).spec_buffers()[
                    i
                ].pin_count_of() == 0) ==> r is Ok,
    {
        let found = self.lookup(page_id);
        match found {
            Some(idx) => {
                self.lru.access(idx);
                desc_pin(&mut self.buffers, idx);
                proof {
                    assert(final(self).spec_tags() =~= old(self).spec_tags());
                }
                return Ok(idx);
            },
            None => {},
        }
        self.load_page_miss(page_id)
    }

    /// The miss path of `get_page`: claims a frame, reads the page image
    /// from its file, hashes the page in, adds the frame to the replacement
    /// lists and pins it.
    #[verifier::rlimit(100)]
    fn load_page_miss(&mut self, page_id: PageId) -> (r: Result<usize, BufferError>)
        requires
            old(self).wf(),
            !old(self).spec_table().spec_has_key(page_id),
            forall|i: int|
                0 <= i < old(self).spec_buffers().len() ==> (#[trigger] old(self).spec_buffers()[
                    i
                ]).pin_count_of() < 0xFF_FFFF_FFFF_FFFFu64,
        ensures
            final(self).wf(),
            final(self).spec_size() == old(self).spec_size(),
            final(self).spec_data_dir() == old(self).spec_data_dir(),
            r matches Ok(idx) ==> {
                &&& idx < final(self).spec_size()
                &&& final(self).spec_buffers()[idx as int].spec_tag().page_id == page_id
                &&& final(self).cached_at(page_id) == Some(idx)
                &&& final(self).spec_buffers()[idx as int].pin_count_of() > 0
                &&& final(self).spec_pages()[idx as int] == spec_padded_page(
                    final(self).spec_vfs().spec_file_data(
                        spec_page_path(old(self).spec_data_dir(), page_id),
                    ),
                    spec_page_offset(page_id),
                )
            },
            (old(self).spec_vfs().spec_has_file(
                spec_page_path(old(self).spec_data_dir(), page_id),
            ) && spec_page_offset(page_id) + PAGE_SIZE <= usize::MAX && old(self).spec_table().spec_size() < old(self).spec_size() && exists|i: int|
                0 <= i < old(self).spec_buffers().len() && (#[trigger] old(self).spec_buffers()[
                    i
                ]).spec_tag().page_id == INVALID_PAGE_ID && old(self).spec_buffers()[
                    i
                ].pin_count_of() == 0) ==> r is Ok,
    {
        let idx = match self.allocate_buffer(page_id) {
            Ok(i) => i,
            Err(e) => {
                return Err(e);
            },
        };
        let path = self.page_file_path(page_id);
        let offset = self.page_offset(page_id);
        if offset > u64::MAX - PAGE_SIZE as u64 {
            return Err(BufferError::InvalidPageId(page_id));
        }
        let ghost vfs_now = self.spec_vfs();
        let ghost fdata = self.spec_vfs().spec_file_data(
            spec_page_path(old(self).spec_data_dir(), page_id),
        );
        let bytes = match self.vfs.pread(path.as_slice(), PAGE_SIZE, offset) {
            Ok(b) => b,
            Err(_) => {
                return Err(BufferError::PageNotFound(page_id));
            },
        };
        let ghost off0 = spec_page_offset(page_id);
        let ghost blen = bytes@.len() as int;
        proof {
            assert forall|k: int| 0 <= k < blen implies bytes@[k] == spec_padded_page(
                fdata,
                off0,
            )[k] by {}
            assert forall|k: int| blen <= k < PAGE_SIZE implies spec_padded_page(fdata, off0)[k]
                == 0 by {
                if off0 <= fdata.len() {
                    if off0 + PAGE_SIZE <= fdata.len() {
                        assert(blen == PAGE_SIZE);
                    } else {
                        assert(blen == fdata.len() - off0);
                        assert(off0 + k >= fdata.len());
                    }
                } else {
                    assert(blen == 0);
                    assert(off0 + k > fdata.len());
                }
            }
        }
        let mut image = bytes;
        while image.len() < PAGE_SIZE
            invariant
                blen <= image@.len() <= PAGE_SIZE,
                forall|k: int|
                    0 <= k < image@.len() ==> image@[k] == spec_padded_page(fdata, off0)[k],
                forall|k: int|
                    blen <= k < PAGE_SIZE ==> spec_padded_page(fdata, off0)[k] == 0,
            decreases PAGE_SIZE - image@.len(),
        {
            image.push(0);
        }
        proof {
            assert(image@ =~= spec_padded_page(fdata, off0));
        }
        let ghost before_img = *self;
        set_page_image(&mut self.page_data, idx, image);
        proof {
            assert forall|i: int|
                0 <= i < self.spec_pages().len() implies (#[trigger] self.spec_pages()[i]).len()
                == PAGE_SIZE by {
                assert(self.spec_pages()[i] == self.page_data@[i]@);
                if i != idx {
                    assert(self.page_data@[i] == before_img.page_data@[i]);
                    assert(before_img.spec_pages()[i] == before_img.page_data@[i]@);
                }
            }
        }
        match self.install_page(page_id, idx) {
            Ok(()) => Ok(idx),
            Err(e) => Err(e),
        }
    }

    /// Hashes a freshly loaded page in, adds its frame to the replacement
    /// lists, and pins it.
    #[verifier::spinoff_prover]
    fn install_page(&mut self, page_id: PageId, idx: usize) -> (r: Result<(), BufferError>)
        requires
            old(self).wf(),
            idx < old(self).spec_size(),
            old(self).spec_buffers()[idx as int].spec_tag().page_id == page_id,
            old(self).spec_buffers()[idx as int].pin_count_of() < 0xFF_FFFF_FFFF_FFFFu64,
            !old(self).spec_table().spec_has_key(page_id),
            forall|pid: PageId|
                #[trigger] old(self).spec_table().spec_has_key(pid) ==> old(self).spec_table().spec_get(pid) != idx,
        ensures
            final(self).wf(),
            final(self).spec_size() == old(self).spec_size(),
            final(self).spec_pages() == old(self).spec_pages(),
            final(self).spec_vfs() == old(self).spec_vfs(),
            final(self).spec_data_dir() == old(self).spec_data_dir(),
            old(self).spec_table().spec_size() < old(self).spec_size() ==> r is Ok,
            r is Ok ==> {
                &&& final(self).cached_at(page_id) == Some(idx)
                &&& final(self).spec_buffers()[idx as int].spec_tag().page_id == page_id
                &&& final(self).spec_buffers()[idx as int].pin_count_of() > 0
            },
    {
        if self.buf_hash_table.size() >= self.buffer_size {
            return Err(BufferError::BufferPoolFull);
        }
        self.buf_hash_table.insert(page_id, idx);
        self.lru.add(idx);
        desc_pin(&mut self.buffers, idx);
        proof {
            assert(final(self).wf()) by {
                assert forall|pid: PageId|
                    #[trigger] final(self).spec_table().spec_has_key(pid) implies final(self).spec_table().spec_get(pid) < final(self).spec_size() && final(self).spec_buffers()[final(self).spec_table().spec_get(pid) as int].spec_tag().page_id
                    == pid by {
                    if pid != page_id {
                        assert(self.spec_table().spec_get(pid) != idx);
                    }
                }
            }
        }
        Ok(())
    }

    /// Claims a frame for a new page: asks the replacement manager for
    /// victims until an unpinned one appears, writing a dirty victim's page
    /// out and unhashing it; the claimed frame gets the new page's tag, a
    /// zero state, and no hash entry yet. Fails with `BufferPoolFull` after
    /// a pool's worth of pinned victims.
    fn allocate_buffer(&mut self, page_id: PageId) -> (r: Result<usize, BufferError>)
        requires
            old(self).wf(),
            !old(self).spec_table().spec_has_key(page_id),
        ensures
            final(self).wf(),
            final(self).spec_size() == old(self).spec_size(),
            final(self).spec_data_dir() == old(self).spec_data_dir(),
            (exists|i: int|
                0 <= i < old(self).spec_buffers().len() && (#[trigger] old(self).spec_buffers()[
                    i
                ]).spec_tag().page_id == INVALID_PAGE_ID && old(self).spec_buffers()[
                    i
                ].pin_count_of() == 0) ==> (r is Ok && final(self).spec_vfs() == old(self).spec_vfs() && final(self).spec_pages() == old(self).spec_pages() && final(self).spec_table().spec_size() <= old(self).spec_table().spec_size()),
            r matches Ok(idx) ==> {
                &&& idx < final(self).spec_size()
                &&& final(self).spec_buffers()[idx as int].spec_tag().page_id == page_id
                &&& final(self).spec_buffers()[idx as int].pin_count_of() == 0
                &&& !final(self).spec_table().spec_has_key(page_id)
                &&& forall|pid: PageId|
                    #[trigger] final(self).spec_table().spec_has_key(pid) ==> final(self).spec_table().spec_get(pid) != idx
                &&& forall|i: int|
                    0 <= i < old(self).spec_buffers().len() ==> (#[trigger] final(self).spec_buffers()[i]).pin_count_of() == old(self).spec_buffers()[
                        i
                    ].pin_count_of()
            },
    {
        match self.claim_free_frame(page_id) {
            Some(idx) => {
                return Ok(idx);
            },
            None => {},
        }
        proof {
            assert(forall|i: int|
                0 <= i < old(self).spec_buffers().len() ==> !((#[trigger] old(
                    self,
                ).spec_buffers()[i]).spec_tag().page_id == INVALID_PAGE_ID && old(
                    self,
                ).spec_buffers()[i].pin_count_of() == 0));
        }
        let n = self.buffer_size;
        let mut tries: usize = 0;
        while tries < n
            invariant
                self.wf(),
                self.spec_size() == old(self).spec_size(),
                old(self).wf(),
                n == self.spec_size(),
                self.spec_data_dir() == old(self).spec_data_dir(),
                forall|i: int|
                    0 <= i < old(self).spec_buffers().len() ==> !((#[trigger] old(
                        self,
                    ).spec_buffers()[i]).spec_tag().page_id == INVALID_PAGE_ID && old(
                        self,
                    ).spec_buffers()[i].pin_count_of() == 0),
                forall|i: int|
                    0 <= i < old(self).spec_buffers().len() ==> (#[trigger] self.spec_buffers()[
                        i
                    ]).pin_count_of() == old(self).spec_buffers()[i].pin_count_of(),
            decreases n - tries,
        {
            match self.evict_page() {
                Ok(Some(idx)) => {
                    if !self.buf_hash_table.get(page_id).is_some() {
                        self.retag_claimed_frame(idx, page_id);
                        return Ok(idx);
                    } else {
                        return Err(BufferError::BufferPoolFull);
                    }
                },
                Ok(None) => {},
                Err(e) => {
                    return Err(e);
                },
            }
            tries = tries + 1;
        }
        Err(BufferError::BufferPoolFull)
    }


    /// Claims the first never-used frame, if any: one tagged invalid and
    /// unpinned. The claimed frame gets the new page's tag and a zero
    /// state; any hash entry under the invalid tag is dropped first.
    fn claim_free_frame(&mut self, page_id: PageId) -> (r: Option<usize>)
        requires
            old(self).wf(),
            !old(self).spec_table().spec_has_key(page_id),
        ensures
            final(self).wf(),
            final(self).spec_size() == old(self).spec_size(),
            final(self).spec_vfs() == old(self).spec_vfs(),
            final(self).spec_pages() == old(self).spec_pages(),
            final(self).spec_data_dir() == old(self).spec_data_dir(),
            final(self).spec_table().spec_size() <= old(self).spec_table().spec_size(),
            r is None ==> *final(self) == *old(self),
            r is None ==> forall|i: int|
                0 <= i < old(self).spec_buffers().len() ==> !((#[trigger] old(self).spec_buffers()[i]).spec_tag().page_id == INVALID_PAGE_ID && old(self).spec_buffers()[i].pin_count_of() == 0),
            r matches Some(idx) ==> {
                &&& idx < final(self).spec_size()
                &&& final(self).spec_buffers()[idx as int].spec_tag().page_id == page_id
                &&& final(self).spec_buffers()[idx as int].pin_count_of() == 0
                &&& !final(self).spec_table().spec_has_key(page_id)
                &&& forall|pid: PageId|
                    #[trigger] final(self).spec_table().spec_has_key(pid) ==> final(self).spec_table().spec_get(pid) != idx
                &&& forall|i: int|
                    0 <= i < old(self).spec_buffers().len() ==> (#[trigger] final(self).spec_buffers()[i]).pin_count_of() == old(self).spec_buffers()[
                        i
                    ].pin_count_of()
            },
            r is None ==> final(self).spec_buffers() == old(self).spec_buffers(),
    {
        let n = self.buffer_size;
        let mut i: usize = 0;
        while i < n
            invariant
                0 <= i <= n,
                *self == *old(self),
                old(self).wf(),
                !old(self).spec_table().spec_has_key(page_id),
                n == self.spec_size(),
                forall|k: int|
                    0 <= k < i ==> !((#[trigger] self.spec_buffers()[k]).spec_tag().page_id
                        == INVALID_PAGE_ID && self.spec_buffers()[k].pin_count_of() == 0),
            decreases n - i,
        {
            if self.buffers[i].buf_tag.page_id == INVALID_PAGE_ID && self.buffers[i].can_evict()
                && self.buffers[i].pin_count() == 0 {
                self.buf_hash_table.remove(INVALID_PAGE_ID);
                let ghost mid = *self;
                if self.buf_hash_table.get(page_id).is_some() {
                    proof {
                        // The sought page is not hashed, and removing the
                        // invalid key cannot make it appear.
                        assert(false);
                    }
                    return None;
                }
                set_desc_tag(&mut self.buffers, i, page_id);
                proof {
                    assert(final(self).wf() && forall|pid: PageId|
                        #[trigger] final(self).spec_table().spec_has_key(pid) ==> final(self).spec_table().spec_get(pid) != i) by {
                        assert forall|pid: PageId|
                            #[trigger] final(self).spec_table().spec_has_key(pid) implies final(self).spec_table().spec_get(pid) != i && final(self).spec_table().spec_get(
                            pid,
                        ) < final(self).spec_size() && final(self).spec_buffers()[final(self).spec_table().spec_get(pid) as int].spec_tag().page_id == pid by {
                            assert(mid.spec_table().spec_has_key(pid));
                            if mid.spec_table().spec_get(pid) == i {
                                assert(pid == INVALID_PAGE_ID);
                                assert(false);
                            }
                        }
                    }
                }
                return Some(i);
            }
            i = i + 1;
        }
        None
    }


    /// Gives a freed frame the new page's tag and a zero state; no hash
    /// entry names the frame, so the table and the frames keep agreeing.
    fn retag_claimed_frame(&mut self, idx: usize, page_id: PageId)
        requires
            old(self).wf(),
            idx < old(self).spec_size(),
            old(self).spec_buffers()[idx as int].pin_count_of() == 0,
            forall|pid: PageId|
                #[trigger] old(self).spec_table().spec_has_key(pid) ==> old(
                    self,
                ).spec_table().spec_get(pid) != idx,
        ensures
            final(self).wf(),
            final(self).spec_size() == old(self).spec_size(),
            final(self).spec_table() == old(self).spec_table(),
            final(self).spec_pages() == old(self).spec_pages(),
            final(self).spec_vfs() == old(self).spec_vfs(),
            final(self).spec_data_dir() == old(self).spec_data_dir(),
            final(self).spec_buffers()[idx as int].spec_tag().page_id == page_id,
            final(self).spec_buffers()[idx as int].pin_count_of() == 0,
            forall|i: int|
                0 <= i < old(self).spec_buffers().len() ==> (#[trigger] final(self).spec_buffers()[i]).pin_count_of() == old(self).spec_buffers()[
                    i
                ].pin_count_of(),
    {
        set_desc_tag(&mut self.buffers, idx, page_id);
        proof {
            assert forall|pid: PageId|
                #[trigger] final(self).spec_table().spec_has_key(pid) implies final(self).spec_table().spec_get(pid) < final(self).spec_size() && final(self).spec_buffers()[final(self).spec_table().spec_get(pid) as int].spec_tag().page_id
                == pid by {
                assert(self.spec_table().spec_get(pid) != idx);
            }
        }
    }

    /// Takes one eviction victim from the replacement manager. A pinned
    /// victim is reinserted and `Ok(None)` returned so the caller retries;
    /// an unpinned dirty victim's page is written to its file first. The
    /// freed frame loses its hash entry and is tagged invalid, clean,
    /// unpinned.
    fn evict_page(&mut self) -> (r: Result<Option<usize>, BufferError>)
        requires
            old(self).wf(),
        ensures
            final(self).wf(),
            final(self).spec_size() == old(self).spec_size(),
            final(self).spec_pages() == old(self).spec_pages(),
            final(self).spec_data_dir() == old(self).spec_data_dir(),
            final(self).spec_table().spec_size() <= old(self).spec_table().spec_size(),
            forall|i: int|
                0 <= i < old(self).spec_buffers().len() ==> (#[trigger] final(self).spec_buffers()[i]).pin_count_of() == old(self).spec_buffers()[
                    i
                ].pin_count_of(),
            forall|pid: PageId|
                #[trigger] final(self).spec_table().spec_has_key(pid) ==> old(self).spec_table().spec_has_key(pid),
            r matches Ok(None) ==> final(self).spec_vfs() == old(self).spec_vfs(),
            r is Err ==> final(self).spec_vfs() == old(self).spec_vfs(),
            r matches Ok(Some(idx)) ==> {
                let tag = old(self).spec_buffers()[idx as int].spec_tag().page_id;
                &&& idx < final(self).spec_size()
                &&& final(self).spec_buffers()[idx as int].spec_tag().page_id == INVALID_PAGE_ID
                &&& final(self).spec_buffers()[idx as int].pin_count_of() == 0
                &&& forall|pid: PageId|
                    #[trigger] final(self).spec_table().spec_has_key(pid) ==> final(self).spec_table().spec_get(pid) != idx
                &&& (old(self).spec_buffers()[idx as int].dirty_of() ==> file_holds_page(
                    final(self).spec_vfs().spec_file_data(
                        spec_page_path(old(self).spec_data_dir(), tag),
                    ),
                    spec_page_offset(tag),
                    old(self).spec_pages()[idx as int],
                ))
                &&& (!old(self).spec_buffers()[idx as int].dirty_of() ==> final(self).spec_vfs()
                    == old(self).spec_vfs())
            },
    {
        let victim = self.lru.evict();
        let idx = match victim {
            Some(i) => i,
            None => {
                return Ok(None);
            },
        };
        if idx >= self.buffer_size {
            // A stale entry naming no frame; drop it.
            return Ok(None);
        }
        if !self.buffers[idx].can_evict() {
            // Pinned: put the victim back and let the caller retry.
            self.lru.add(idx);
            return Ok(None);
        }
        if self.buffers[idx].is_dirty() {
            let page_id = self.buffers[idx].buf_tag.page_id;
            match self.write_page_to_disk(page_id, idx) {
                Ok(()) => {},
                Err(e) => {
                    return Err(e);
                },
            }
            desc_clear_dirty(&mut self.buffers, idx);
        }
        let old_pid = self.buffers[idx].buf_tag.page_id;
        self.buf_hash_table.remove(old_pid);
        let ghost mid = *self;
        set_desc_tag(&mut self.buffers, idx, INVALID_PAGE_ID);
        proof {
            assert(final(self).wf() && forall|pid: PageId|
                #[trigger] final(self).spec_table().spec_has_key(pid) ==> final(self).spec_table().spec_get(pid) != idx) by {
                assert forall|pid: PageId|
                    #[trigger] final(self).spec_table().spec_has_key(pid) implies final(self).spec_table().spec_get(pid) != idx && final(self).spec_table().spec_get(pid)
                    < final(self).spec_size() && final(self).spec_buffers()[final(self).spec_table().spec_get(pid) as int].spec_tag().page_id == pid by {
                    assert(mid.spec_table().spec_has_key(pid));
                    if mid.spec_table().spec_get(pid) == idx {
                        assert(pid == old_pid);
                        assert(false);
                    }
                }
            }
        }
        Ok(Some(idx))
    }

    /// Writes a frame's page image to the page's file at its offset:
    /// afterwards the file holds the image there, and every other file and
    /// every byte of this file outside the page's window is unchanged.
    /// Fails exactly when the file does not exist or the window lies
    /// outside the address space.
    fn write_page_to_disk(&mut self, page_id: PageId, idx: usize) -> (r: Result<
        (),
        BufferError,
    >)
        requires
            old(self).wf(),
            idx < old(self).spec_size(),
        ensures
            final(self).wf(),
            final(self).spec_size() == old(self).spec_size(),
            final(self).spec_buffers() == old(self).spec_buffers(),
            final(self).spec_table() == old(self).spec_table(),
            final(self).spec_pages() == old(self).spec_pages(),
            final(self).spec_data_dir() == old(self).spec_data_dir(),
            r is Ok <==> (old(self).spec_vfs().spec_has_file(
                spec_page_path(old(self).spec_data_dir(), page_id),
            ) && spec_page_offset(page_id) + PAGE_SIZE <= usize::MAX),
            r is Err ==> final(self).spec_vfs() == old(self).spec_vfs(),
            r is Ok ==> {
                let path = spec_page_path(old(self).spec_data_dir(), page_id);
                let off = spec_page_offset(page_id);
                &&& file_holds_page(
                    final(self).spec_vfs().spec_file_data(path),
                    off,
                    old(self).spec_pages()[idx as int],
                )
                &&& final(self).spec_vfs().spec_file_data(path).len() == (if off + PAGE_SIZE
                    > old(self).spec_vfs().spec_file_data(path).len() {
                    off + PAGE_SIZE
                } else {
                    old(self).spec_vfs().spec_file_data(path).len() as int
                })
                &&& forall|k: int|
                    0 <= k < final(self).spec_vfs().spec_file_data(path).len() && !(off <= k
                        < off + PAGE_SIZE) ==> final(self).spec_vfs().spec_file_data(path)[k]
                        == (if k < old(self).spec_vfs().spec_file_data(path).len() {
                        old(self).spec_vfs().spec_file_data(path)[k]
                    } else {
                        0u8
                    })
                &&& forall|other: Seq<u8>|
                    other != path ==> (#[trigger] final(self).spec_vfs().spec_has_file(other)
                        == old(self).spec_vfs().spec_has_file(other) && final(self).spec_vfs().spec_file_data(other) == old(self).spec_vfs().spec_file_data(
                        other,
                    ))
                &&& final(self).spec_vfs().spec_has_file(path)
            },
    {
        let path = self.page_file_path(page_id);
        let offset = self.page_offset(page_id);
        if offset > (usize::MAX - PAGE_SIZE) as u64 {
            proof {
                assert(!self.vfs.spec_has_file(path@) || true);
            }
            return Err(BufferError::InvalidPageId(page_id));
        }
        proof {
            assert(self.spec_pages()[idx as int] == self.page_data@[idx as int]@);
        }
        let bytes = vstd::slice::slice_to_vec(self.page_data[idx].as_slice());
        proof {
            assert(bytes@.len() == PAGE_SIZE);
        }
        match self.vfs.pwrite(path.as_slice(), bytes.as_slice(), offset) {
            Ok(_) => {
                proof {
                    let p = spec_page_path(self.spec_data_dir(), page_id);
                    let off = spec_page_offset(page_id);
                    let pre_data = old(self).spec_vfs().spec_file_data(p);
                    let post_data = self.spec_vfs().spec_file_data(p);
                    assert(self.spec_vfs().spec_has_file(p));
                    assert(post_data.len() == (if off + PAGE_SIZE > pre_data.len() {
                        off + PAGE_SIZE
                    } else {
                        pre_data.len() as int
                    }));
                    assert(post_data.subrange(off, off + PAGE_SIZE) =~= old(self).spec_pages()[
                        idx as int
                    ]);
                    assert forall|k: int|
                        0 <= k < post_data.len() && !(off <= k < off + PAGE_SIZE) implies
                        post_data[k] == (if k < pre_data.len() {
                            pre_data[k]
                        } else {
                            0u8
                        }) by {}
                }
                Ok(())
            },
            Err(_) => Err(BufferError::PageNotFound(page_id)),
        }
    }

    /// Writes every dirty frame's page to its file at the page's offset and
    /// clears the dirty flags; clean frames are not written. Tags, pins,
    /// page images and the hash table are untouched. Succeeds when every
    /// dirty frame's page file exists; afterwards no frame is dirty and,
    /// for every pre-state dirty frame whose tag no other frame shares, the
    /// filesystem holds that frame's page image at the page's offset.
    pub fn flush_all(&mut self) -> (r: Result<(), BufferError>)
        requires
            old(self).wf(),
        ensures
            final(self).wf(),
            final(self).spec_size() == old(self).spec_size(),
            final(self).spec_table() == old(self).spec_table(),
            final(self).spec_pages() == old(self).spec_pages(),
            final(self).spec_tags() == old(self).spec_tags(),
            final(self).spec_data_dir() == old(self).spec_data_dir(),
            r is Ok ==> forall|i: int|
                0 <= i < final(self).spec_buffers().len() ==> !(#[trigger] final(self).spec_buffers()[i]).dirty_of(),
            forall|i: int|
                0 <= i < old(self).spec_buffers().len() ==> (#[trigger] final(self).spec_buffers()[i]).pin_count_of() == old(self).spec_buffers()[
                    i
                ].pin_count_of(),
            (forall|i: int|
                0 <= i < old(self).spec_buffers().len() && (#[trigger] old(self).spec_buffers()[
                    i
                ]).dirty_of() ==> dirty_file_ready(
                    old(self).spec_vfs(),
                    old(self).spec_data_dir(),
                    frame_tag(old(self).spec_buffers(), i),
                )) ==> r is Ok,
            r is Ok ==> forall|i: int|
                0 <= i < old(self).spec_buffers().len() && (#[trigger] old(self).spec_buffers()[
                    i
                ]).dirty_of() && tag_unshared(old(self).spec_buffers(), i) ==> vfs_holds_frame(
                    final(self).spec_vfs(),
                    old(self).spec_data_dir(),
                    frame_tag(old(self).spec_buffers(), i),
                    old(self).spec_pages()[i],
                ),
    {
        let ghost dir = old(self).spec_data_dir();
        let ghost pre_bufs = old(self).spec_buffers();
        let n = self.buffer_size;
        let mut i: usize = 0;
        while i < n
            invariant
                0 <= i <= n,
                self.wf(),
                old(self).wf(),
                n == self.spec_size(),
                self.spec_size() == old(self).spec_size(),
                self.spec_table() == old(self).spec_table(),
                self.spec_pages() == old(self).spec_pages(),
                self.spec_tags() == old(self).spec_tags(),
                self.spec_data_dir() == old(self).spec_data_dir(),
                dir == old(self).spec_data_dir(),
                pre_bufs == old(self).spec_buffers(),
                self.spec_buffers().len() == pre_bufs.len(),
                forall|k: int| 0 <= k < i ==> !(#[trigger] self.spec_buffers()[k]).dirty_of(),
                forall|k: int|
                    i <= k < pre_bufs.len() ==> #[trigger] self.spec_buffers()[k]
                        == pre_bufs[k],
                forall|k: int|
                    0 <= k < pre_bufs.len() ==> (#[trigger] self.spec_buffers()[
                        k
                    ]).pin_count_of() == pre_bufs[k].pin_count_of(),
                forall|name: Seq<u8>|
                    #[trigger] self.spec_vfs().spec_has_file(name) == old(
                        self,
                    ).spec_vfs().spec_has_file(name),
                forall|k: int|
                    0 <= k < i && (#[trigger] pre_bufs[k]).dirty_of() && tag_unshared(
                        pre_bufs,
                        k,
                    ) ==> vfs_holds_frame(
                        self.spec_vfs(),
                        dir,
                        frame_tag(pre_bufs, k),
                        old(self).spec_pages()[k],
                    ),
            decreases n - i,
        {
            if self.buffers[i].is_dirty() {
                let page_id = self.buffers[i].buf_tag.page_id;
                let ghost pre_vfs = self.spec_vfs();
                match self.write_page_to_disk(page_id, i) {
                    Ok(()) => {},
                    Err(e) => {
                        return Err(e);
                    },
                }
                proof {
                    let tag_i = frame_tag(pre_bufs, i as int);
                    assert(page_id == tag_i);
                    // Earlier flushed pages with unshared tags keep their
                    // bytes: their windows never overlap this write's.
                    assert forall|k: int|
                        0 <= k < i && (#[trigger] pre_bufs[k]).dirty_of() && tag_unshared(
                            pre_bufs,
                            k,
                        ) implies vfs_holds_frame(
                        self.spec_vfs(),
                        dir,
                        frame_tag(pre_bufs, k),
                        old(self).spec_pages()[k],
                    ) by {
                        let tag_k = frame_tag(pre_bufs, k);
                        assert(tag_k != tag_i);
                        lemma_flush_preserves_window(
                            pre_vfs,
                            self.spec_vfs(),
                            dir,
                            tag_k,
                            tag_i,
                            old(self).spec_pages()[k],
                        );
                    }
                }
                desc_clear_dirty(&mut self.buffers, i);
                proof {
                    assert(self.spec_tags() =~= old(self).spec_tags());
                    assert(self.spec_pages() =~= old(self).spec_pages());
                }
            }
            i = i + 1;
        }
        Ok(())
    }
}

/// A write that fills one page's window, preserving all bytes outside it
/// and every other file, leaves a distinct page's stored image in place.
proof fn lemma_flush_preserves_window(
    pre: MemFs,
    post: MemFs,
    dir: Seq<u8>,
    tag_k: PageId,
    tag_i: PageId,
    image: Seq<u8>,
)
    requires
        tag_k != tag_i,
        vfs_holds_frame(pre, dir, tag_k, image),
        post.spec_file_data(spec_page_path(dir, tag_i)).len() >= pre.spec_file_data(
            spec_page_path(dir, tag_i),
        ).len(),
        forall|k: int|
            0 <= k < post.spec_file_data(spec_page_path(dir, tag_i)).len() && !(spec_page_offset(
                tag_i,
            ) <= k < spec_page_offset(tag_i) + PAGE_SIZE) ==> post.spec_file_data(
                spec_page_path(dir, tag_i),
            )[k] == (if k < pre.spec_file_data(spec_page_path(dir, tag_i)).len() {
                pre.spec_file_data(spec_page_path(dir, tag_i))[k]
            } else {
                0u8
            }),
        forall|other: Seq<u8>|
            other != spec_page_path(dir, tag_i) ==> (#[trigger] post.spec_has_file(other)
                == pre.spec_has_file(other) && post.spec_file_data(other) == pre.spec_file_data(
                other,
            )),
    ensures
        vfs_holds_frame(post, dir, tag_k, image),
{
    lemma_page_targets_disjoint(dir, tag_k, tag_i);
    let pk = spec_page_path(dir, tag_k);
    let pi = spec_page_path(dir, tag_i);
    let offk = spec_page_offset(tag_k);
    let offi = spec_page_offset(tag_i);
    let da = pre.spec_file_data(pk);
    let db = post.spec_file_data(pk);
    if pk == pi {
        assert(offk + PAGE_SIZE <= offi || offi + PAGE_SIZE <= offk);
        assert(db.len() >= da.len());
        assert forall|j: int| 0 <= j < PAGE_SIZE implies #[trigger] db[offk + j] == da[offk + j] by {
            assert(offk + j < da.len());
            assert(!(offi <= offk + j < offi + PAGE_SIZE));
        }
        assert(db.subrange(offk, offk + PAGE_SIZE) =~= da.subrange(offk, offk + PAGE_SIZE));
    } else {
        assert(post.spec_has_file(pk) == pre.spec_has_file(pk));
        assert(db == da);
    }
}

/// Marks the frame at `idx` dirty, leaving the others alone.
fn desc_set_dirty(buffers: &mut Vec<BufferDesc>, idx: usize)
    requires
        idx < old(buffers)@.len(),
    ensures
        final(buffers)@.len() == old(buffers)@.len(),
        forall|k: int|
            0 <= k < final(buffers)@.len() && k != idx ==> final(buffers)@[k] == old(
                buffers,
            )@[k],
        final(buffers)@[idx as int].spec_tag() == old(buffers)@[idx as int].spec_tag(),
        final(buffers)@[idx as int].dirty_of(),
        final(buffers)@[idx as int].pin_count_of() == old(buffers)@[idx as int].pin_count_of(),
        final(buffers)@[idx as int].spec_state() == (old(buffers)@[idx as int].spec_state() | 1),
{
    let d = &mut buffers[idx];
    d.set_dirty();
}

/// Clears the dirty flag of the frame at `idx`, leaving the others alone.
fn desc_clear_dirty(buffers: &mut Vec<BufferDesc>, idx: usize)
    requires
        idx < old(buffers)@.len(),
    ensures
        final(buffers)@.len() == old(buffers)@.len(),
        forall|k: int|
            0 <= k < final(buffers)@.len() && k != idx ==> final(buffers)@[k] == old(
                buffers,
            )@[k],
        final(buffers)@[idx as int].spec_tag() == old(buffers)@[idx as int].spec_tag(),
        !final(buffers)@[idx as int].dirty_of(),
        final(buffers)@[idx as int].pin_count_of() == old(buffers)@[idx as int].pin_count_of(),
{
    let d = &mut buffers[idx];
    d.clear_dirty();
}

/// Pins the frame at `idx`, leaving the others alone.
fn desc_pin(buffers: &mut Vec<BufferDesc>, idx: usize)
    requires
        idx < old(buffers)@.len(),
        old(buffers)@[idx as int].pin_count_of() < 0xFF_FFFF_FFFF_FFFFu64,
    ensures
        final(buffers)@.len() == old(buffers)@.len(),
        forall|k: int|
            0 <= k < final(buffers)@.len() && k != idx ==> final(buffers)@[k] == old(
                buffers,
            )@[k],
        final(buffers)@[idx as int].spec_tag() == old(buffers)@[idx as int].spec_tag(),
        final(buffers)@[idx as int].pin_count_of() == old(buffers)@[idx as int].pin_count_of()
            + 1,
        final(buffers)@[idx as int].dirty_of() == old(buffers)@[idx as int].dirty_of(),
{
    let d = &mut buffers[idx];
    d.pin();
}

/// Unpins the frame at `idx`, leaving the others alone.
fn desc_unpin(buffers: &mut Vec<BufferDesc>, idx: usize)
    requires
        idx < old(buffers)@.len(),
        0 < old(buffers)@[idx as int].pin_count_of(),
    ensures
        final(buffers)@.len() == old(buffers)@.len(),
        forall|k: int|
            0 <= k < final(buffers)@.len() && k != idx ==> final(buffers)@[k] == old(
                buffers,
            )@[k],
        final(buffers)@[idx as int].spec_tag() == old(buffers)@[idx as int].spec_tag(),
        final(buffers)@[idx as int].pin_count_of() == old(buffers)@[idx as int].pin_count_of()
            - 1,
        final(buffers)@[idx as int].dirty_of() == old(buffers)@[idx as int].dirty_of(),
{
    let d = &mut buffers[idx];
    d.unpin();
}

/// Replaces the tag of the frame at `idx` and zeroes its state.
fn set_desc_tag(buffers: &mut Vec<BufferDesc>, idx: usize, page_id: PageId)
    requires
        idx < old(buffers)@.len(),
    ensures
        final(buffers)@.len() == old(buffers)@.len(),
        forall|k: int|
            0 <= k < final(buffers)@.len() && k != idx ==> final(buffers)@[k] == old(
                buffers,
            )@[k],
        final(buffers)@[idx as int].spec_tag().page_id == page_id,
        final(buffers)@[idx as int].pin_count_of() == 0,
        !final(buffers)@[idx as int].dirty_of(),
{
    let mut d = BufferDesc::new();
    d.buf_tag = BufferTag::new(page_id);
    buffers[idx] = d;
}

/// Replaces the page image of the frame at `idx`.
fn set_page_image(pages: &mut Vec<Vec<u8>>, idx: usize, image: Vec<u8>)
    requires
        idx < old(pages)@.len(),
        image@.len() == PAGE_SIZE,
    ensures
        final(pages)@.len() == old(pages)@.len(),
        forall|k: int|
            0 <= k < final(pages)@.len() && k != idx ==> final(pages)@[k] == old(pages)@[k],
        final(pages)@[idx as int]@ == image@,
{
    pages[idx] = image;
}

} // verus!
