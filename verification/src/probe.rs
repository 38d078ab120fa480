//! Controlled access to a file's first bytes while viewers decide whether they
//! can handle it.

use std::io;
use vstd::prelude::*;
use crate::file_info::{ContentKind, FileInfo, PreliminaryDetection};
use crate::text_slice::min_int;

verus! {

/// `std::io::Error`, carried opaquely.
#[verifier::external_type_specification]
#[verifier::external_body]
pub struct ExIoError(io::Error);

/// Maximum number of bytes handed to viewers during detection.
pub const DETECTION_READ_LIMIT: usize = 16384;

/// Access to file content during viewer selection.
pub trait FileProbe {
    /// Total size of the file in bytes.
    fn file_size(&self) -> u64;

    /// Up to `len` bytes starting at `offset`.
    fn read_bytes(&self, offset: u64, len: usize) -> io::Result<&[u8]>;

    /// The first-pass detection of the file.
    fn preliminary(&self) -> &PreliminaryDetection;
}

/// Bytes that a probe holding `data` (of a file of `file_size` bytes) serves for a request.
pub open spec fn spec_prefix_read(data: Seq<u8>, file_size: int, offset: int, len: int) -> Seq<u8> {
    if offset >= file_size || offset >= data.len() {
        Seq::empty()
    } else {
        let take = min_int(len, data.len() - offset);
        data.subrange(offset, offset + take)
    }
}

/// A probe that serves all requests from a prefix of the file read once.
pub struct PrefixProbe {
    data: Vec<u8>,
    file_size: u64,
    unknown: PreliminaryDetection,
}

impl PrefixProbe {
    pub closed spec fn spec_data(&self) -> Seq<u8> {
        self.data@
    }

    pub closed spec fn spec_file_size(&self) -> u64 {
        self.file_size
    }

    /// The detection a bare probe reports: nothing known, content binary.
    pub closed spec fn spec_unknown(&self) -> PreliminaryDetection {
        self.unknown
    }

    /// A probe over an already-read prefix of a file of `file_size` bytes.
    pub fn from_prefix(data: Vec<u8>, file_size: u64) -> (p: Self)
        ensures
            p.spec_data() == data@,
            p.spec_file_size() == file_size,
            p.spec_unknown().mime_type is None,
            p.spec_unknown().extension is None,
            p.spec_unknown().format is None,
            p.spec_unknown().kind == ContentKind::Binary,
    {
        PrefixProbe {
            data,
            file_size,
            unknown: PreliminaryDetection {
                mime_type: None,
                extension: None,
                format: None,
                kind: ContentKind::Binary,
            },
        }
    }

    /// The bytes served for a request (nothing past the prefix or the file).
    pub fn prefix_bytes(&self, offset: u64, len: usize) -> (b: &[u8])
        ensures
            b@ == spec_prefix_read(self.spec_data(), self.spec_file_size() as int, offset as int, len as int),
    {
        if offset >= self.file_size || offset >= self.data.len() as u64 {
            return &[];
        }
        let start = offset as usize;
        let available = self.data.len() - start;
        let take = if len < available {
            len
        } else {
            available
        };
        if take == 0 {
            return &[];
        }
        proof {
            assert(self.data@.subrange(start as int, start + take) =~= spec_prefix_read(
                self.data@,
                self.file_size as int,
                offset as int,
                len as int,
            ));
        }
        slice_range(self.data.as_slice(), start, start + take)
    }
}

/// `data[lo..hi]`.
pub fn slice_range(data: &[u8], lo: usize, hi: usize) -> (b: &[u8])
    requires
        lo <= hi <= data@.len(),
    ensures
        b@ == data@.subrange(lo as int, hi as int),
{
    &data[lo..hi]
}

/// A vector holding the bytes of `s`.
pub fn bytes_to_vec(s: &[u8]) -> (r: Vec<u8>)
    ensures
        r@ == s@,
{
    let mut r: Vec<u8> = Vec::new();
    let mut i: usize = 0;
    while i < s.len()
        invariant
            i <= s@.len(),
            r@ == s@.take(i as int),
        decreases s@.len() - i,
    {
        r.push(s[i]);
        i = i + 1;
        proof {
            assert(r@ =~= s@.take(i as int));
        }
    }
    proof {
        assert(s@.take(s@.len() as int) =~= s@);
    }
    r
}

impl FileProbe for PrefixProbe {
    fn file_size(&self) -> (n: u64)
        ensures
            n == self.spec_file_size(),
    {
        self.file_size
    }

    fn read_bytes(&self, offset: u64, len: usize) -> (r: io::Result<&[u8]>)
        ensures
            r matches Ok(b) && b@ == spec_prefix_read(
                self.spec_data(),
                self.spec_file_size() as int,
                offset as int,
                len as int,
            ),
    {
        Ok(self.prefix_bytes(offset, len))
    }

    fn preliminary(&self) -> (d: &PreliminaryDetection)
        ensures
            *d == self.spec_unknown(),
    {
        &self.unknown
    }
}

/// A probe that reports a file's detection and serves its prefix bytes.
pub struct FileProbeWithInfo<'a> {
    pub info: &'a FileInfo,
    probe: PrefixProbe,
}

impl<'a> FileProbeWithInfo<'a> {
    pub closed spec fn spec_probe(&self) -> PrefixProbe {
        self.probe
    }

    pub closed spec fn spec_info(&self) -> FileInfo {
        *self.info
    }

    pub fn new(info: &'a FileInfo, prefix_probe: PrefixProbe) -> (p: Self)
        ensures
            p.spec_info() == *info,
            p.spec_probe() == prefix_probe,
    {
        FileProbeWithInfo { info, probe: prefix_probe }
    }
}

impl FileProbe for FileProbeWithInfo<'_> {
    fn file_size(&self) -> (n: u64)
        ensures
            n == self.spec_probe().spec_file_size(),
    {
        self.probe.file_size
    }

    fn read_bytes(&self, offset: u64, len: usize) -> (r: io::Result<&[u8]>)
        ensures
            r matches Ok(b) && b@ == spec_prefix_read(
                self.spec_probe().spec_data(),
                self.spec_probe().spec_file_size() as int,
                offset as int,
                len as int,
            ),
    {
        Ok(self.probe.prefix_bytes(offset, len))
    }

    fn preliminary(&self) -> (d: &PreliminaryDetection)
        ensures
            *d == self.spec_info().detected,
    {
        &self.info.detected
    }
}

} // verus!
