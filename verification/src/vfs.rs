//! Virtual filesystem: the error taxonomy and an in-memory filesystem with
//! positional reads and writes over a path namespace.

use vstd::prelude::*;

verus! {

/// VFS error types.
#[derive(Debug)]
pub enum VfsError {
    /// Permission denied.
    PermissionDenied(String),
    /// File or directory not found.
    NotFound(String),
    /// File or directory already exists.
    AlreadyExists(String),
    /// Invalid argument.
    InvalidArgument(String),
    /// I/O error.
    IoError(String),
    /// System call error with error code.
    SystemError(i32, String),
}

/// Result type for VFS operations.
pub type VfsResult<T> = Result<T, VfsError>;

/// One file: its path and its contents.
pub struct MemFile {
    /// Path bytes naming the file.
    pub name: Vec<u8>,
    /// File contents.
    pub data: Vec<u8>,
}

/// The first file from position `i` on with the given name.
pub open spec fn find_file(files: Seq<MemFile>, name: Seq<u8>, i: int) -> Option<int>
    decreases files.len() - i,
{
    if i < 0 || i >= files.len() {
        None
    } else if files[i].name@ == name {
        Some(i)
    } else {
        find_file(files, name, i + 1)
    }
}

/// An in-memory filesystem: a flat namespace of files addressed by path
/// bytes. Directories are accepted and ignored; positional reads and writes
/// do not share any file pointer.
pub struct MemFs {
    files: Vec<MemFile>,
}

/// Whether two byte slices are equal.
pub fn bytes_eq(a: &[u8], b: &[u8]) -> (r: bool)
    ensures
        r == (a@ == b@),
{
    if a.len() != b.len() {
        proof {
            assert(a@ != b@);
        }
        return false;
    }
    let n = a.len();
    let mut i: usize = 0;
    while i < n
        invariant
            0 <= i <= n,
            n == a@.len() == b@.len(),
            forall|k: int| 0 <= k < i ==> a@[k] == b@[k],
        decreases n - i,
    {
        if a[i] != b[i] {
            return false;
        }
        i = i + 1;
    }
    proof {
        assert(a@ =~= b@);
    }
    true
}

impl MemFs {
    /// The files, in creation order.
    pub closed spec fn spec_files(self) -> Seq<MemFile> {
        self.files@
    }

    /// Filesystem invariant: paths are unique.
    pub open spec fn wf(self) -> bool {
        forall|i: int, j: int|
            0 <= i < j < self.spec_files().len() ==> (#[trigger] self.spec_files()[i]).name@ != (
            #[trigger] self.spec_files()[j]).name@
    }

    /// Whether a file with the given path exists.
    pub open spec fn spec_has_file(self, name: Seq<u8>) -> bool {
        find_file(self.spec_files(), name, 0) is Some
    }

    /// The contents of the file at the given path.
    pub open spec fn spec_file_data(self, name: Seq<u8>) -> Seq<u8> {
        match find_file(self.spec_files(), name, 0) {
            Some(i) => self.spec_files()[i].data@,
            None => Seq::empty(),
        }
    }

    /// Creates an empty filesystem.
    pub fn new() -> (r: Self)
        ensures
            r.wf(),
            r.spec_files().len() == 0,
    {
        Self { files: Vec::new() }
    }

    /// Creates a directory. The namespace is flat, so this only succeeds.
    pub fn create_dir(&mut self, _path: &[u8]) -> (r: VfsResult<()>)
        requires
            old(self).wf(),
        ensures
            *final(self) == *old(self),
            r is Ok,
    {
        Ok(())
    }

    /// Removes a directory. The namespace is flat, so this only succeeds.
    pub fn remove_dir(&mut self, _path: &[u8]) -> (r: VfsResult<()>)
        requires
            old(self).wf(),
        ensures
            *final(self) == *old(self),
            r is Ok,
    {
        Ok(())
    }

    /// Looks a file up by path, returning its position.
    fn find(&self, path: &[u8]) -> (r: Option<usize>)
        ensures
            r matches Some(i) ==> find_file(self.spec_files(), path@, 0) == Some(i as int) && i
                < self.spec_files().len() && self.spec_files()[i as int].name@ == path@,
            r is None ==> find_file(self.spec_files(), path@, 0) is None,
    {
        let n = self.files.len();
        let mut i: usize = 0;
        while i < n
            invariant
                0 <= i <= n,
                n == self.spec_files().len(),
                find_file(self.spec_files(), path@, 0) == find_file(
                    self.spec_files(),
                    path@,
                    i as int,
                ),
            decreases n - i,
        {
            if bytes_eq(self.files[i].name.as_slice(), path) {
                proof {
                    assert(find_file(self.spec_files(), path@, i as int) == Some(i as int));
                }
                return Some(i);
            }
            i = i + 1;
        }
        None
    }

    /// Whether a file with the given path exists.
    pub fn file_exists(&self, path: &[u8]) -> (r: bool)
        ensures
            r == self.spec_has_file(path@),
    {
        match self.find(path) {
            Some(_) => true,
            None => false,
        }
    }

    /// Creates a file, truncating it when it already exists.
    pub fn create_file(&mut self, path: &[u8]) -> (r: VfsResult<()>)
        requires
            old(self).wf(),
        ensures
            final(self).wf(),
            r is Ok,
            final(self).spec_has_file(path@),
            final(self).spec_file_data(path@) == Seq::<u8>::empty(),
            forall|other: Seq<u8>|
                other != path@ ==> (#[trigger] final(self).spec_has_file(other) == old(
                    self,
                ).spec_has_file(other) && final(self).spec_file_data(other) == old(
                    self,
                ).spec_file_data(other)),
    {
        match self.find(path) {
            Some(i) => {
                let ghost pre = self.spec_files();
                set_file_data(&mut self.files, i, Vec::new());
                proof {
                    lemma_find_file_update_data(pre, self.spec_files(), i as int);
                    assert forall|other: Seq<u8>| other != path@ implies (#[trigger] self.spec_has_file(
                        other,
                    ) == old(self).spec_has_file(other) && self.spec_file_data(other) == old(
                        self,
                    ).spec_file_data(other)) by {
                        assert(find_file(self.spec_files(), other, 0) == find_file(
                            pre,
                            other,
                            0,
                        ));
                        assert(file_data_of(self.spec_files(), other) == file_data_of(
                            pre,
                            other,
                        ));
                    }
                }
                Ok(())
            },
            None => {
                let ghost pre = self.spec_files();
                self.files.push(MemFile { name: vstd::slice::slice_to_vec(path), data: Vec::new() });
                proof {
                    lemma_find_file_push(pre, self.spec_files()[pre.len() as int]);
                    assert forall|other: Seq<u8>| other != path@ implies (#[trigger] self.spec_has_file(
                        other,
                    ) == old(self).spec_has_file(other) && self.spec_file_data(other) == old(
                        self,
                    ).spec_file_data(other)) by {
                        assert(find_file(self.spec_files(), other, 0) == find_file(
                            pre,
                            other,
                            0,
                        ));
                        assert(file_data_of(self.spec_files(), other) == file_data_of(
                            pre,
                            other,
                        ));
                    }
                }
                Ok(())
            },
        }
    }

    /// Removes a file; `NotFound` exactly when no file has the path.
    pub fn remove_file(&mut self, path: &[u8]) -> (r: VfsResult<()>)
        requires
            old(self).wf(),
        ensures
            final(self).wf(),
            r is Ok <==> old(self).spec_has_file(path@),
            r matches Err(e) ==> (e matches VfsError::NotFound(_) && *final(self) == *old(self)),
            r is Ok ==> !final(self).spec_has_file(path@),
            forall|other: Seq<u8>|
                other != path@ ==> #[trigger] final(self).spec_has_file(other) == old(
                    self,
                ).spec_has_file(other),
            forall|other: Seq<u8>|
                other != path@ ==> #[trigger] final(self).spec_file_data(other) == old(
                    self,
                ).spec_file_data(other),
    {
        match self.find(path) {
            Some(i) => {
                let ghost pre = self.spec_files();
                self.files.remove(i);
                proof {
                    lemma_find_file_remove(pre, self.spec_files(), i as int);
                    assert forall|other: Seq<u8>| other != path@ implies #[trigger] self.spec_has_file(
                        other,
                    ) == old(self).spec_has_file(other) by {
                        assert(file_data_of(self.spec_files(), other) == file_data_of(
                            pre,
                            other,
                        ));
                        assert(find_file(self.spec_files(), other, 0) is Some <==> find_file(
                            pre,
                            other,
                            0,
                        ) is Some);
                    }
                    assert forall|other: Seq<u8>| other != path@ implies #[trigger] self.spec_file_data(
                        other,
                    ) == old(self).spec_file_data(other) by {
                        assert(file_data_of(self.spec_files(), other) == file_data_of(
                            pre,
                            other,
                        ));
                    }
                }
                Ok(())
            },
            None => Err(VfsError::NotFound("no such file".to_owned())),
        }
    }

    /// Resizes a file: cut at `length` or extended with zero bytes.
    pub fn truncate(&mut self, path: &[u8], length: u64) -> (r: VfsResult<()>)
        requires
            old(self).wf(),
            length <= usize::MAX,
        ensures
            final(self).wf(),
            r is Ok <==> old(self).spec_has_file(path@),
            r matches Err(e) ==> (e matches VfsError::NotFound(_) && *final(self) == *old(self)),
            r is Ok ==> {
                let pre = old(self).spec_file_data(path@);
                let post = final(self).spec_file_data(path@);
                &&& final(self).spec_has_file(path@)
                &&& post.len() == length
                &&& forall|k: int|
                    0 <= k < length ==> post[k] == (if k < pre.len() {
                        pre[k]
                    } else {
                        0u8
                    })
            },
            forall|other: Seq<u8>|
                other != path@ ==> (#[trigger] final(self).spec_has_file(other) == old(
                    self,
                ).spec_has_file(other) && final(self).spec_file_data(other) == old(
                    self,
                ).spec_file_data(other)),
    {
        match self.find(path) {
            Some(i) => {
                let ghost pre = self.spec_files();
                let ghost predata = old(self).spec_file_data(path@);
                let mut data = take_file_data(&mut self.files, i);
                let target = length as usize;
                if data.len() > target {
                    data.truncate(target);
                } else {
                    while data.len() < target
                        invariant
                            data@.len() <= target,
                            predata.len() <= data@.len(),
                            forall|k: int|
                                0 <= k < data@.len() ==> data@[k] == (if k < predata.len() {
                                    predata[k]
                                } else {
                                    0u8
                                }),
                        decreases target - data@.len(),
                    {
                        data.push(0);
                    }
                }
                set_file_data(&mut self.files, i, data);
                proof {
                    lemma_find_file_update_data(pre, self.spec_files(), i as int);
                    assert forall|other: Seq<u8>| other != path@ implies (#[trigger] self.spec_has_file(
                        other,
                    ) == old(self).spec_has_file(other) && self.spec_file_data(other) == old(
                        self,
                    ).spec_file_data(other)) by {
                        assert(find_file(self.spec_files(), other, 0) == find_file(
                            pre,
                            other,
                            0,
                        ));
                        assert(file_data_of(self.spec_files(), other) == file_data_of(
                            pre,
                            other,
                        ));
                    }
                }
                Ok(())
            },
            None => Err(VfsError::NotFound("no such file".to_owned())),
        }
    }

    /// Reads up to `len` bytes at `offset`; a read past the end is short.
    /// `NotFound` exactly when no file has the path.
    pub fn pread(&self, path: &[u8], len: usize, offset: u64) -> (r: VfsResult<Vec<u8>>)
        ensures
            r is Ok <==> self.spec_has_file(path@),
            r matches Err(e) ==> e matches VfsError::NotFound(_),
            r matches Ok(out) ==> {
                let data = self.spec_file_data(path@);
                let start = if offset <= data.len() {
                    offset as int
                } else {
                    data.len() as int
                };
                let end = if offset + len <= data.len() {
                    offset + len
                } else {
                    data.len() as int
                };
                out@ == data.subrange(start, end)
            },
    {
        match self.find(path) {
            Some(i) => {
                let data = &self.files[i].data;
                let flen = data.len();
                let start: usize = if offset <= flen as u64 {
                    offset as usize
                } else {
                    flen
                };
                let avail = flen - start;
                let take = if len <= avail {
                    len
                } else {
                    avail
                };
                let end = start + take;
                let out = vstd::slice::slice_to_vec(
                    vstd::slice::slice_subrange(data.as_slice(), start, end),
                );
                Ok(out)
            },
            None => Err(VfsError::NotFound("no such file".to_owned())),
        }
    }

    /// Writes `buf` at `offset`, zero-filling any gap past the old end.
    /// `NotFound` exactly when no file has the path.
    pub fn pwrite(&mut self, path: &[u8], buf: &[u8], offset: u64) -> (r: VfsResult<usize>)
        requires
            old(self).wf(),
            offset + buf@.len() <= usize::MAX,
        ensures
            final(self).wf(),
            r is Ok <==> old(self).spec_has_file(path@),
            r matches Err(e) ==> (e matches VfsError::NotFound(_) && *final(self) == *old(self)),
            forall|other: Seq<u8>|
                other != path@ ==> (#[trigger] final(self).spec_has_file(other) == old(
                    self,
                ).spec_has_file(other) && final(self).spec_file_data(other) == old(
                    self,
                ).spec_file_data(other)),
            r matches Ok(n) ==> {
                let pre = old(self).spec_file_data(path@);
                let post = final(self).spec_file_data(path@);
                &&& n == buf@.len()
                &&& final(self).spec_has_file(path@)
                &&& post.len() == (if offset + buf@.len() > pre.len() {
                    offset + buf@.len()
                } else {
                    pre.len() as int
                })
                &&& forall|k: int|
                    0 <= k < post.len() ==> post[k] == (if offset <= k < offset + buf@.len() {
                        buf@[k - offset]
                    } else if k < pre.len() {
                        pre[k]
                    } else {
                        0u8
                    })
            },
    {
        match self.find(path) {
            Some(i) => {
                let ghost pre = self.spec_files();
                let ghost predata = old(self).spec_file_data(path@);
                let mut data = take_file_data(&mut self.files, i);
                let end = offset as usize + buf.len();
                while data.len() < end
                    invariant
                        predata.len() <= data@.len(),
                        data@.len() <= end || data@.len() == predata.len(),
                        forall|k: int|
                            0 <= k < data@.len() ==> data@[k] == (if k < predata.len() {
                                predata[k]
                            } else {
                                0u8
                            }),
                    decreases end - data@.len(),
                {
                    data.push(0);
                }
                crate::codec::write_bytes_at(&mut data, offset as usize, buf);
                set_file_data(&mut self.files, i, data);
                proof {
                    lemma_find_file_update_data(pre, self.spec_files(), i as int);
                    assert forall|other: Seq<u8>| other != path@ implies (#[trigger] self.spec_has_file(
                        other,
                    ) == old(self).spec_has_file(other) && self.spec_file_data(other) == old(
                        self,
                    ).spec_file_data(other)) by {
                        assert(find_file(self.spec_files(), other, 0) == find_file(
                            pre,
                            other,
                            0,
                        ));
                        assert(file_data_of(self.spec_files(), other) == file_data_of(
                            pre,
                            other,
                        ));
                    }
                }
                Ok(buf.len())
            },
            None => Err(VfsError::NotFound("no such file".to_owned())),
        }
    }

    /// The size in bytes of the file at the given path.
    pub fn file_size(&self, path: &[u8]) -> (r: VfsResult<u64>)
        ensures
            r is Ok <==> self.spec_has_file(path@),
            r matches Ok(n) ==> n == self.spec_file_data(path@).len(),
            r matches Err(e) ==> e matches VfsError::NotFound(_),
    {
        match self.find(path) {
            Some(i) => Ok(self.files[i].data.len() as u64),
            None => Err(VfsError::NotFound("no such file".to_owned())),
        }
    }
}

/// Replaces the contents of the file at position `i`.
fn set_file_data(files: &mut Vec<MemFile>, i: usize, data: Vec<u8>)
    requires
        i < old(files)@.len(),
    ensures
        final(files)@.len() == old(files)@.len(),
        forall|k: int| 0 <= k < final(files)@.len() && k != i ==> final(files)@[k] == old(
            files,
        )@[k],
        final(files)@[i as int].name@ == old(files)@[i as int].name@,
        final(files)@[i as int].data@ == data@,
{
    let f = &mut files[i];
    f.data = data;
}

/// Takes the contents of the file at position `i`, leaving it empty.
fn take_file_data(files: &mut Vec<MemFile>, i: usize) -> (r: Vec<u8>)
    requires
        i < old(files)@.len(),
    ensures
        final(files)@.len() == old(files)@.len(),
        forall|k: int| 0 <= k < final(files)@.len() && k != i ==> final(files)@[k] == old(
            files,
        )@[k],
        final(files)@[i as int].name@ == old(files)@[i as int].name@,
        r@ == old(files)@[i as int].data@,
{
    let f = &mut files[i];
    let mut data = Vec::new();
    core::mem::swap(&mut f.data, &mut data);
    data
}

/// The contents of the file found under `name`, or empty.
pub open spec fn file_data_of(files: Seq<MemFile>, name: Seq<u8>) -> Seq<u8> {
    match find_file(files, name, 0) {
        Some(i) => files[i].data@,
        None => Seq::empty(),
    }
}

/// A found index carries the looked-up name and lies in range.
proof fn lemma_find_file_found(files: Seq<MemFile>, name: Seq<u8>, j: int)
    requires
        0 <= j <= files.len(),
    ensures
        find_file(files, name, j) matches Some(k) ==> j <= k < files.len() && files[k].name@
            == name,
    decreases files.len() - j,
{
    if j < files.len() {
        lemma_find_file_found(files, name, j + 1);
    }
}

/// With unique names, the file at `i` is exactly what its name finds.
proof fn lemma_find_unique(files: Seq<MemFile>, i: int, j: int)
    requires
        forall|a: int, b: int|
            0 <= a < b < files.len() ==> (#[trigger] files[a]).name@ != (
            #[trigger] files[b]).name@,
        0 <= j <= i < files.len(),
    ensures
        find_file(files, files[i].name@, j) == Some(i),
    decreases files.len() - j,
{
    if j < i {
        assert(files[j].name@ != files[i].name@);
        lemma_find_unique(files, i, j + 1);
    }
}

/// Lookups agree on sequences whose names agree pointwise.
proof fn lemma_find_file_same(pre: Seq<MemFile>, post: Seq<MemFile>, name: Seq<u8>, j: int)
    requires
        post.len() == pre.len(),
        forall|k: int| 0 <= k < pre.len() ==> (#[trigger] post[k]).name@ == pre[k].name@,
        0 <= j <= pre.len(),
    ensures
        find_file(post, name, j) == find_file(pre, name, j),
    decreases pre.len() - j,
{
    if j < pre.len() {
        lemma_find_file_same(pre, post, name, j + 1);
    }
}

/// Replacing the contents of the file at `i` changes only its own name's
/// contents, and its name now finds the new contents.
proof fn lemma_find_file_update_data(pre: Seq<MemFile>, post: Seq<MemFile>, i: int)
    requires
        0 <= i < pre.len(),
        post.len() == pre.len(),
        forall|k: int| 0 <= k < post.len() && k != i ==> post[k] == pre[k],
        post[i].name@ == pre[i].name@,
        forall|a: int, b: int|
            0 <= a < b < pre.len() ==> (#[trigger] pre[a]).name@ != (#[trigger] pre[b]).name@,
    ensures
        forall|name: Seq<u8>| #[trigger] find_file(post, name, 0) == find_file(pre, name, 0),
        forall|name: Seq<u8>|
            name != pre[i].name@ ==> #[trigger] file_data_of(post, name) == file_data_of(
                pre,
                name,
            ),
        file_data_of(post, pre[i].name@) == post[i].data@,
        forall|a: int, b: int|
            0 <= a < b < post.len() ==> (#[trigger] post[a]).name@ != (#[trigger] post[b]).name@,
{
    assert forall|name: Seq<u8>| #[trigger] find_file(post, name, 0) == find_file(
        pre,
        name,
        0,
    ) by {
        lemma_find_file_same(pre, post, name, 0);
    }
    assert forall|name: Seq<u8>| name != pre[i].name@ implies #[trigger] file_data_of(post, name)
        == file_data_of(pre, name) by {
        lemma_find_file_found(pre, name, 0);
        match find_file(pre, name, 0) {
            Some(j) => {
                assert(pre[j].name@ == name);
                assert(j != i);
            },
            None => {},
        }
    }
    lemma_find_unique(pre, i, 0);
    assert forall|a: int, b: int| 0 <= a < b < post.len() implies (#[trigger] post[a]).name@ != (
    #[trigger] post[b]).name@ by {
        assert(post[a].name@ == pre[a].name@);
        assert(post[b].name@ == pre[b].name@);
    }
}

/// Appending a file with a fresh name: other lookups unchanged, the new
/// name found with the new contents.
proof fn lemma_find_file_push(pre: Seq<MemFile>, newf: MemFile)
    requires
        find_file(pre, newf.name@, 0) is None,
        forall|a: int, b: int|
            0 <= a < b < pre.len() ==> (#[trigger] pre[a]).name@ != (#[trigger] pre[b]).name@,
    ensures
        forall|name: Seq<u8>|
            name != newf.name@ ==> #[trigger] find_file(pre.push(newf), name, 0) == find_file(
                pre,
                name,
                0,
            ) && file_data_of(pre.push(newf), name) == file_data_of(pre, name),
        find_file(pre.push(newf), newf.name@, 0) is Some,
        file_data_of(pre.push(newf), newf.name@) == newf.data@,
        forall|a: int, b: int|
            0 <= a < b < pre.push(newf).len() ==> (#[trigger] pre.push(newf)[a]).name@ != (
            #[trigger] pre.push(newf)[b]).name@,
{
    let post = pre.push(newf);
    assert forall|name: Seq<u8>| name != newf.name@ implies #[trigger] find_file(post, name, 0)
        == find_file(pre, name, 0) && file_data_of(post, name) == file_data_of(pre, name) by {
        lemma_find_file_push_rec(pre, newf, name, 0);
        lemma_find_file_found(pre, name, 0);
        match find_file(pre, name, 0) {
            Some(j) => {
                assert(post[j] == pre[j]);
            },
            None => {},
        }
    }
    lemma_find_file_push_some(pre, newf, 0);
    lemma_find_file_found(post, newf.name@, 0);
    match find_file(post, newf.name@, 0) {
        Some(j) => {
            if j < pre.len() {
                assert(pre[j].name@ == newf.name@);
                lemma_find_some_contradiction(pre, newf.name@, 0, j);
            }
        },
        None => {},
    }
    assert forall|a: int, b: int| 0 <= a < b < post.len() implies (#[trigger] post[a]).name@ != (
    #[trigger] post[b]).name@ by {
        if b < pre.len() {
            assert(post[a] == pre[a] && post[b] == pre[b]);
        } else {
            assert(post[b].name@ == newf.name@);
            assert(post[a] == pre[a]);
            lemma_find_some_contradiction_if_eq(pre, newf.name@, a);
        }
    }
}

/// Helper: lookups of other names ignore a pushed file.
proof fn lemma_find_file_push_rec(pre: Seq<MemFile>, newf: MemFile, name: Seq<u8>, j: int)
    requires
        0 <= j <= pre.len(),
        name != newf.name@,
    ensures
        find_file(pre.push(newf), name, j) == find_file(pre, name, j),
    decreases pre.len() - j,
{
    if j < pre.len() {
        assert(pre.push(newf)[j] == pre[j]);
        lemma_find_file_push_rec(pre, newf, name, j + 1);
    } else {
        assert(pre.push(newf)[j].name@ == newf.name@);
        assert(find_file(pre.push(newf), name, j + 1) is None);
        assert(find_file(pre, name, j) is None);
    }
}

/// Helper: the pushed file's own name is found.
proof fn lemma_find_file_push_some(pre: Seq<MemFile>, newf: MemFile, j: int)
    requires
        0 <= j <= pre.len(),
    ensures
        find_file(pre.push(newf), newf.name@, j) is Some,
    decreases pre.len() - j,
{
    let post = pre.push(newf);
    if j < pre.len() {
        if post[j].name@ == newf.name@ {
        } else {
            lemma_find_file_push_some(pre, newf, j + 1);
        }
    } else {
        assert(post[j].name@ == newf.name@);
    }
}

/// Helper: a name present at position `j` cannot be unfound from `i <= j`.
proof fn lemma_find_some_contradiction(files: Seq<MemFile>, name: Seq<u8>, i: int, j: int)
    requires
        0 <= i <= j < files.len(),
        files[j].name@ == name,
    ensures
        find_file(files, name, i) is Some,
    decreases j - i,
{
    if i < j && files[i].name@ != name {
        lemma_find_some_contradiction(files, name, i + 1, j);
    }
}

/// Helper: a file whose name is unfound cannot sit in the sequence.
proof fn lemma_find_some_contradiction_if_eq(files: Seq<MemFile>, name: Seq<u8>, a: int)
    requires
        0 <= a < files.len(),
        find_file(files, name, 0) is None,
    ensures
        files[a].name@ != name,
{
    if files[a].name@ == name {
        lemma_find_some_contradiction(files, name, 0, a);
    }
}

/// Removing a file leaves every other name's lookup success and contents
/// unchanged; the removed name is no longer found.
proof fn lemma_find_file_remove(pre: Seq<MemFile>, post: Seq<MemFile>, i: int)
    requires
        0 <= i < pre.len(),
        post == pre.remove(i),
        forall|a: int, b: int|
            0 <= a < b < pre.len() ==> (#[trigger] pre[a]).name@ != (#[trigger] pre[b]).name@,
    ensures
        find_file(post, pre[i].name@, 0) is None,
        forall|name: Seq<u8>|
            name != pre[i].name@ ==> #[trigger] file_data_of(post, name) == file_data_of(
                pre,
                name,
            ) && (find_file(post, name, 0) is Some <==> find_file(pre, name, 0) is Some),
        forall|a: int, b: int|
            0 <= a < b < post.len() ==> (#[trigger] post[a]).name@ != (#[trigger] post[b]).name@,
{
    lemma_find_none(post, pre[i].name@, 0, pre, i);
    assert forall|name: Seq<u8>| name != pre[i].name@ implies #[trigger] file_data_of(post, name)
        == file_data_of(pre, name) && (find_file(post, name, 0) is Some <==> find_file(
        pre,
        name,
        0,
    ) is Some) by {
        lemma_find_file_remove_other(pre, post, i, name, 0, 0);
    }
    assert forall|a: int, b: int| 0 <= a < b < post.len() implies (#[trigger] post[a]).name@ != (
    #[trigger] post[b]).name@ by {
        let pa = if a < i {
            a
        } else {
            a + 1
        };
        let pb = if b < i {
            b
        } else {
            b + 1
        };
        assert(post[a] == pre[pa]);
        assert(post[b] == pre[pb]);
    }
}

/// Helper: a name unique to the removed file is not found afterwards.
proof fn lemma_find_none(post: Seq<MemFile>, name: Seq<u8>, j: int, pre: Seq<MemFile>, i: int)
    requires
        0 <= i < pre.len(),
        post == pre.remove(i),
        name == pre[i].name@,
        forall|a: int, b: int|
            0 <= a < b < pre.len() ==> (#[trigger] pre[a]).name@ != (#[trigger] pre[b]).name@,
        0 <= j <= post.len(),
    ensures
        find_file(post, name, j) is None,
    decreases post.len() - j,
{
    if j < post.len() {
        if j < i {
            assert(post[j] == pre[j]);
        } else {
            assert(post[j] == pre[j + 1]);
        }
        lemma_find_none(post, name, j + 1, pre, i);
    }
}

/// Helper: finding any other name before and after the removal agrees on
/// success and on the contents found.
proof fn lemma_find_file_remove_other(
    pre: Seq<MemFile>,
    post: Seq<MemFile>,
    i: int,
    name: Seq<u8>,
    jpre: int,
    jpost: int,
)
    requires
        0 <= i < pre.len(),
        post == pre.remove(i),
        name != pre[i].name@,
        0 <= jpre <= pre.len(),
        0 <= jpost <= post.len(),
        jpost == (if jpre <= i {
            jpre
        } else {
            jpre - 1
        }),
    ensures
        match (find_file(pre, name, jpre), find_file(post, name, jpost)) {
            (Some(a), Some(b)) => pre[a].data@ == post[b].data@,
            (None, None) => true,
            _ => false,
        },
    decreases pre.len() - jpre,
{
    if jpre < pre.len() {
        if jpre == i {
            lemma_find_file_remove_other(pre, post, i, name, jpre + 1, jpost);
        } else {
            let pj = if jpre < i {
                jpre
            } else {
                jpre - 1
            };
            assert(post[pj] == pre[jpre]);
            if pre[jpre].name@ == name {
            } else {
                lemma_find_file_remove_other(pre, post, i, name, jpre + 1, pj + 1);
            }
        }
    }
}

impl MemFs {
    /// The number of files.
    pub fn file_count(&self) -> (r: usize)
        ensures
            r == self.spec_files().len(),
    {
        self.files.len()
    }

    /// A copy of the path of the file at position `i`.
    pub fn file_name_at(&self, i: usize) -> (r: Vec<u8>)
        requires
            i < self.spec_files().len(),
        ensures
            r@ == self.spec_files()[i as int].name@,
    {
        vstd::slice::slice_to_vec(self.files[i].name.as_slice())
    }

    /// A copy of the contents of the file at position `i`.
    pub fn file_data_at(&self, i: usize) -> (r: Vec<u8>)
        requires
            i < self.spec_files().len(),
        ensures
            r@ == self.spec_files()[i as int].data@,
    {
        vstd::slice::slice_to_vec(self.files[i].data.as_slice())
    }

    /// A copy of the whole filesystem.
    pub fn clone_fs(&self) -> (r: MemFs)
        ensures
            r.spec_files().len() == self.spec_files().len(),
            forall|i: int|
                0 <= i < r.spec_files().len() ==> (#[trigger] r.spec_files()[i]).name@
                    == self.spec_files()[i].name@ && r.spec_files()[i].data@
                    == self.spec_files()[i].data@,
            self.wf() ==> r.wf(),
            forall|name: Seq<u8>|
                #[trigger] r.spec_has_file(name) == self.spec_has_file(name)
                    && r.spec_file_data(name) == self.spec_file_data(name),
    {
        let mut files: Vec<MemFile> = Vec::new();
        let n = self.files.len();
        let mut i: usize = 0;
        while i < n
            invariant
                0 <= i <= n,
                n == self.spec_files().len(),
                files@.len() == i,
                forall|k: int|
                    0 <= k < i ==> (#[trigger] files@[k]).name@ == self.spec_files()[k].name@
                        && files@[k].data@ == self.spec_files()[k].data@,
            decreases n - i,
        {
            files.push(
                MemFile {
                    name: vstd::slice::slice_to_vec(self.files[i].name.as_slice()),
                    data: vstd::slice::slice_to_vec(self.files[i].data.as_slice()),
                },
            );
            i = i + 1;
        }
        let r = MemFs { files };
        proof {
            assert forall|name: Seq<u8>|
                #[trigger] r.spec_has_file(name) == self.spec_has_file(name)
                    && r.spec_file_data(name) == self.spec_file_data(name) by {
                lemma_find_file_names_agree(self.spec_files(), r.spec_files(), name, 0);
            }
        }
        r
    }
}

/// Lookups and contents agree on file sequences whose names and contents
/// agree pointwise.
proof fn lemma_find_file_names_agree(
    pre: Seq<MemFile>,
    post: Seq<MemFile>,
    name: Seq<u8>,
    j: int,
)
    requires
        post.len() == pre.len(),
        forall|k: int|
            0 <= k < pre.len() ==> (#[trigger] post[k]).name@ == pre[k].name@ && post[k].data@
                == pre[k].data@,
        0 <= j <= pre.len(),
    ensures
        find_file(post, name, j) == find_file(pre, name, j),
        find_file(pre, name, j) matches Some(x) ==> post[x].data@ == pre[x].data@,
    decreases pre.len() - j,
{
    if j < pre.len() {
        lemma_find_file_names_agree(pre, post, name, j + 1);
    }
}

} // verus!
