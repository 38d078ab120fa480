//! Host-owned file session: one read-only map and the metadata shared by every viewer.

use memmap2::Mmap;
use std::path::PathBuf;
use std::sync::Arc;
use vstd::prelude::*;
use crate::file_info::FileInfo;
use crate::text_slice::min_int;

verus! {

/// `memmap2::Mmap`, held opaquely; its bytes are read through `mapped_slice`.
#[verifier::external_type_specification]
#[verifier::external_body]
pub struct ExMmap(Mmap);

/// The bytes that a memory map exposes.
pub uninterp spec fn mapped_bytes(m: Mmap) -> Seq<u8>;

/// Wraps `<Mmap as Deref>::deref`: the mapped bytes as a slice. The contract only
/// ties the slice to the map's contents; it states nothing about the file on disk.
#[verifier::external_body]
fn mapped_slice(m: &Mmap) -> (b: &[u8])
    ensures
        b@ == mapped_bytes(*m),
{
    &m[..]
}

/// Read-only map of a file on disk.
#[derive(Debug)]
pub struct FileBacking {
    path: PathBuf,
    mmap: Mmap,
    size: u64,
}

impl View for FileBacking {
    type V = Seq<u8>;

    /// The mapped bytes.
    closed spec fn view(&self) -> Seq<u8> {
        mapped_bytes(self.mmap)
    }
}

/// `data[min(offset, size) .. min(offset, size) + len]`, clamped to the data.
pub open spec fn spec_clamped_slice(data: Seq<u8>, size: int, offset: int, len: int) -> Seq<u8> {
    let start = min_int(offset, size);
    let end = min_int(start + len, data.len() as int);
    if start >= end {
        Seq::empty()
    } else {
        data.subrange(start, end)
    }
}

impl FileBacking {
    /// The recorded size is the length of the map.
    #[verifier::type_invariant]
    spec fn size_matches_map(self) -> bool {
        self.size == mapped_bytes(self.mmap).len()
    }

    /// Size recorded when the file was mapped.
    pub closed spec fn spec_size(&self) -> u64 {
        self.size
    }

    /// Path of the mapped file.
    pub closed spec fn spec_path(&self) -> PathBuf {
        self.path
    }

    /// Wrap a map that was made of the file at `path`, whose size was `size` (the
    /// map's length).
    pub fn new(path: PathBuf, mmap: Mmap, size: u64) -> (b: Self)
        requires
            mapped_bytes(mmap).len() == size,
        ensures
            b@ == mapped_bytes(mmap),
            b.spec_size() == size,
            b.spec_path() == path,
    {
        FileBacking { path, mmap, size }
    }

    /// Wrap a map of the file at `path` whose size was found to be `size`, when the
    /// map holds exactly that many bytes; `None` when the file changed size
    /// between the two.
    pub fn checked_new(path: PathBuf, mmap: Mmap, size: u64) -> (b: Option<Self>)
        ensures
            b is Some <==> mapped_bytes(mmap).len() == size,
            b matches Some(fb) ==> fb@ == mapped_bytes(mmap) && fb.spec_size() == size
                && fb.spec_path() == path,
    {
        let n = mapped_slice(&mmap).len();
        if n as u64 == size {
            Some(FileBacking::new(path, mmap, size))
        } else {
            None
        }
    }

    /// Path of the mapped file.
    pub fn path(&self) -> (p: &PathBuf)
        ensures
            *p == self.spec_path(),
    {
        &self.path
    }

    /// Size of the mapped file: the length of its bytes.
    pub fn size(&self) -> (s: u64)
        ensures
            s == self.spec_size(),
            s == self@.len(),
    {
        proof {
            use_type_invariant(self);
        }
        self.size
    }

    /// Full file contents.
    pub fn bytes(&self) -> (b: &[u8])
        ensures
            b@ == self@,
    {
        mapped_slice(&self.mmap)
    }

    /// Slice from `offset` for at most `len` bytes (clamped to the end).
    pub fn slice(&self, offset: u64, len: usize) -> (b: &[u8])
        ensures
            b@ == spec_clamped_slice(self@, self.spec_size() as int, offset as int, len as int),
    {
        let data = mapped_slice(&self.mmap);
        clamped_slice(data, self.size, offset, len)
    }
}

/// `data` from `min(offset, size)` for at most `len` bytes, clamped to `data`.
pub fn clamped_slice(data: &[u8], size: u64, offset: u64, len: usize) -> (b: &[u8])
    ensures
        b@ == spec_clamped_slice(data@, size as int, offset as int, len as int),
{
    let start = if offset < size {
        offset
    } else {
        size
    };
    let n = data.len() as u64;
    if start >= n {
        return &[];
    }
    let s = start as usize;
    let end = if len < data.len() - s {
        s + len
    } else {
        data.len()
    };
    if s >= end {
        &[]
    } else {
        &data[s..end]
    }
}

/// A single open file as seen by the host: its metadata and its map.
#[derive(Debug)]
pub struct FileSession {
    info: FileInfo,
}

impl FileSession {
    #[verifier::type_invariant]
    spec fn has_backing(self) -> bool {
        self.info.backing is Some
    }

    /// The file's metadata.
    pub closed spec fn spec_info(&self) -> FileInfo {
        self.info
    }

    /// The mapped bytes of the file.
    pub closed spec fn data(&self) -> Seq<u8> {
        self.info.backing->0@
    }

    /// A session over `info`, provided that a map is attached to it.
    pub fn from_info(info: FileInfo) -> (r: Option<Self>)
        ensures
            r is Some <==> info.backing is Some,
            r matches Some(s) ==> s.spec_info() == info && s.data() == info.backing->0@,
    {
        if info.backing.is_some() {
            Some(FileSession { info })
        } else {
            None
        }
    }

    /// File metadata (detection, size, paths).
    pub fn info(&self) -> (i: &FileInfo)
        ensures
            *i == self.spec_info(),
    {
        &self.info
    }

    pub fn size(&self) -> (s: u64)
        ensures
            s == self.spec_info().size,
    {
        self.info.size
    }

    pub fn path(&self) -> (p: &PathBuf)
        ensures
            *p == self.spec_info().path,
    {
        &self.info.path
    }

    /// The map attached to the session's file.
    pub fn backing(&self) -> (b: &Arc<FileBacking>)
        ensures
            self.spec_info().backing == Some(*b),
            (**b)@ == self.data(),
    {
        proof {
            use_type_invariant(self);
        }
        self.info.backing.as_ref().unwrap()
    }

    /// Full file as bytes (zero-copy).
    pub fn bytes(&self) -> (b: &[u8])
        ensures
            b@ == self.data(),
    {
        self.backing().bytes()
    }

    /// Byte slice from `offset` for at most `len` bytes (clamped to the end).
    pub fn slice(&self, offset: u64, len: usize) -> (b: &[u8])
        ensures
            b@ == spec_clamped_slice(
                self.data(),
                self.spec_info().backing->0.spec_size() as int,
                offset as int,
                len as int,
            ),
    {
        self.backing().slice(offset, len)
    }
}

} // verus!
