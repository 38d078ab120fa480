//! Content classification (text, binary or empty) from samples of a file.

use vstd::prelude::*;
use vstd::utf8::valid_utf8;
use crate::file_info::{ContentKind, PreliminaryDetection, ascii_lowercase, spec_ascii_lowercase};
use crate::probe::slice_range;

verus! {

/// Bytes examined at the start of the file.
pub const HEAD_SAMPLE: usize = 4096;

/// Bytes examined in the middle of a large file.
pub const MID_SAMPLE: usize = 2048;

/// Files larger than this are also sampled in the middle.
pub const MID_SAMPLE_THRESHOLD: u64 = 8192;

/// Wraps `std::str::from_utf8`: its documentation says it succeeds exactly on
/// well-formed UTF-8, which the contract states with vstd's definition.
#[verifier::external_body]
fn is_utf8(bytes: &[u8]) -> (r: bool)
    ensures
        r == valid_utf8(bytes@),
{
    std::str::from_utf8(bytes).is_ok()
}

/// Whether `bytes` holds a zero byte.
pub fn contains_null(bytes: &[u8]) -> (r: bool)
    ensures
        r == bytes@.contains(0u8),
{
    let mut i: usize = 0;
    while i < bytes.len()
        invariant
            i <= bytes@.len(),
            forall|j: int| 0 <= j < i ==> bytes@[j] != 0u8,
        decreases bytes@.len() - i,
    {
        if bytes[i] == 0u8 {
            return true;
        }
        i = i + 1;
    }
    false
}

/// Where the middle sample starts: 1 KiB before the middle of the file.
pub open spec fn spec_mid_offset(size: u64) -> int {
    if size / 2 >= 1024 {
        size / 2 - 1024
    } else {
        0
    }
}

/// The classification from the samples taken: empty for a size of 0; binary
/// when the head holds a zero byte or is not UTF-8, or when the middle sample
/// (taken for files above 8 KiB) is not UTF-8; text otherwise.
pub open spec fn spec_classify(size: u64, head: Seq<u8>, mid: Seq<u8>) -> ContentKind {
    if size == 0 {
        ContentKind::Empty
    } else if head.contains(0u8) {
        ContentKind::Binary
    } else if !valid_utf8(head) {
        ContentKind::Binary
    } else if size > MID_SAMPLE_THRESHOLD && !valid_utf8(mid) {
        ContentKind::Binary
    } else {
        ContentKind::Text
    }
}

/// Classifies a file of `size` bytes from its head sample and, for a file above
/// 8 KiB, its middle sample.
pub fn classify_samples(size: u64, head: &[u8], mid: &[u8]) -> (k: ContentKind)
    ensures
        k == spec_classify(size, head@, mid@),
{
    if size == 0 {
        return ContentKind::Empty;
    }
    if contains_null(head) {
        return ContentKind::Binary;
    }
    if is_utf8(head) {
        if size > MID_SAMPLE_THRESHOLD && !is_utf8(mid) {
            return ContentKind::Binary;
        }
        return ContentKind::Text;
    }
    ContentKind::Binary
}

/// The head sample of a file's bytes.
pub open spec fn head_sample(data: Seq<u8>) -> Seq<u8> {
    data.take(if data.len() < HEAD_SAMPLE { data.len() as int } else { HEAD_SAMPLE as int })
}

/// The middle sample of a file's bytes.
pub open spec fn mid_sample(data: Seq<u8>) -> Seq<u8> {
    let lo = spec_mid_offset(data.len() as u64);
    if lo >= data.len() {
        Seq::empty()
    } else {
        data.subrange(
            lo,
            if data.len() - lo < MID_SAMPLE { data.len() as int } else { lo + MID_SAMPLE },
        )
    }
}

/// Quick classification of a file from its bytes, sampled as above.
pub fn quick_classify(data: &[u8]) -> (k: ContentKind)
    ensures
        k == spec_classify(data@.len() as u64, head_sample(data@), mid_sample(data@)),
{
    let n = data.len();
    let head_len = if n < HEAD_SAMPLE {
        n
    } else {
        HEAD_SAMPLE
    };
    let head = slice_range(data, 0, head_len);
    let half = n as u64 / 2;
    let lo: u64 = if half >= 1024 {
        half - 1024
    } else {
        0
    };
    let mid: &[u8] = if lo >= n as u64 {
        &[]
    } else {
        let l = lo as usize;
        let hi = if n - l < MID_SAMPLE {
            n
        } else {
            l + MID_SAMPLE
        };
        slice_range(data, l, hi)
    };
    proof {
        assert(head@ =~= head_sample(data@));
        assert(mid@ =~= mid_sample(data@));
    }
    classify_samples(n as u64, head, mid)
}

/// First-pass detection of a file from the extension of its name and its bytes:
/// the extension in lower case, the kind by sampling the bytes; no MIME type or
/// format is known at this stage.
pub fn detect_file(raw_extension: Option<&str>, data: &[u8]) -> (d: PreliminaryDetection)
    ensures
        d.mime_type is None,
        d.format is None,
        d.extension is Some <==> raw_extension is Some,
        raw_extension matches Some(e) ==> d.extension->0@ == spec_ascii_lowercase(e@),
        d.kind == spec_classify(data@.len() as u64, head_sample(data@), mid_sample(data@)),
{
    let extension = match raw_extension {
        Some(e) => Some(ascii_lowercase(e)),
        None => None,
    };
    PreliminaryDetection { mime_type: None, extension, format: None, kind: quick_classify(data) }
}

} // verus!
