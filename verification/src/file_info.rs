//! File information and metadata shared by every viewer and the dump path.

use std::path::PathBuf;
use std::sync::Arc;
use vstd::prelude::*;
use crate::session::FileBacking;
use crate::strings::{chars_of, push_char};

verus! {

/// `std::path::PathBuf`, carried through the library as an opaque value.
#[verifier::external_type_specification]
#[verifier::external_body]
pub struct ExPathBuf(PathBuf);

/// Specifies `<PathBuf as Clone>::clone`: a clone holds the same path.
pub assume_specification[ <PathBuf as Clone>::clone ](p: &PathBuf) -> (r: PathBuf)
    ensures
        r == *p,
;

/// High-level classification of the file content.
#[derive(Debug, Clone, Copy, PartialEq, Eq, Structural)]
pub enum ContentKind {
    /// Likely human-readable text (UTF-8).
    Text,
    /// Binary data (null bytes, invalid UTF-8 in the sampled bytes).
    Binary,
    /// Empty file.
    Empty,
}

impl Default for ContentKind {
    fn default() -> (k: Self)
        ensures
            k == ContentKind::Text,
    {
        ContentKind::Text
    }
}

/// First-pass detection stored with the file so that viewers need not repeat it.
#[derive(Debug, Clone)]
pub struct PreliminaryDetection {
    pub mime_type: Option<String>,
    pub extension: Option<String>,
    pub format: Option<String>,
    pub kind: ContentKind,
}

impl Default for PreliminaryDetection {
    fn default() -> (d: Self)
        ensures
            d.mime_type is None,
            d.extension is None,
            d.format is None,
            d.kind == ContentKind::Text,
    {
        PreliminaryDetection { mime_type: None, extension: None, format: None, kind: ContentKind::Text }
    }
}

/// Information about a file we are about to view or dump.
#[derive(Debug, Clone)]
pub struct FileInfo {
    /// Path as given by the user (may be relative).
    pub path: PathBuf,
    /// Canonical absolute path (best effort).
    pub absolute_path: Option<PathBuf>,
    /// File size in bytes.
    pub size: u64,
    /// Best guess at the kind of content.
    pub kind: ContentKind,
    /// Human-friendly type description (e.g. "text file", "JSON").
    pub type_description: String,
    /// Extension (without the dot), lower-cased, if any.
    pub extension: Option<String>,
    /// First-pass detection.
    pub detected: PreliminaryDetection,
    /// Read-only map of the file, once attached.
    pub backing: Option<Arc<FileBacking>>,
}

/// Description shown for a file: the detected format, else a phrase for its kind.
pub open spec fn spec_type_description(detected: PreliminaryDetection) -> Seq<char> {
    match detected.format {
        Some(f) => f@,
        None => match detected.kind {
            ContentKind::Empty => "empty file"@,
            ContentKind::Text => "text file"@,
            ContentKind::Binary => "binary data"@,
        },
    }
}

/// ASCII lower-case of one character (`char::to_ascii_lowercase`).
pub open spec fn ascii_lower(c: char) -> char {
    if 'A' <= c && c <= 'Z' {
        ((c as u32) + 32) as char
    } else {
        c
    }
}

/// ASCII lower-case of a string (`str::to_ascii_lowercase`).
pub open spec fn spec_ascii_lowercase(s: Seq<char>) -> Seq<char> {
    Seq::new(s.len(), |i: int| ascii_lower(s[i]))
}

/// `s` with ASCII letters lower-cased.
pub fn ascii_lowercase(s: &str) -> (r: String)
    ensures
        r@ == spec_ascii_lowercase(s@),
{
    let cs = chars_of(s);
    let mut r = String::new();
    let mut i: usize = 0;
    while i < cs.len()
        invariant
            i <= cs@.len(),
            cs@ == s@,
            r@ == spec_ascii_lowercase(s@).take(i as int),
        decreases cs@.len() - i,
    {
        let c = cs[i];
        let l = if 'A' <= c && c <= 'Z' {
            let v = (c as u32) + 32;
            (v as u8) as char
        } else {
            c
        };
        push_char(&mut r, l);
        i = i + 1;
        proof {
            assert(r@ =~= spec_ascii_lowercase(s@).take(i as int));
        }
    }
    proof {
        assert(spec_ascii_lowercase(s@).take(cs@.len() as int) =~= spec_ascii_lowercase(s@));
    }
    r
}

/// The description shown for a file with this detection.
pub fn type_description_for(detected: &PreliminaryDetection) -> (r: String)
    ensures
        r@ == spec_type_description(*detected),
{
    match &detected.format {
        Some(f) => f.clone(),
        None => match detected.kind {
            ContentKind::Empty => "empty file".to_owned(),
            ContentKind::Text => "text file".to_owned(),
            ContentKind::Binary => "binary data".to_owned(),
        },
    }
}

impl FileInfo {
    /// Assemble the description of a file from what was read off disk: its path,
    /// size, raw extension (before lower-casing) and first-pass detection.
    pub fn from_parts(
        path: PathBuf,
        absolute_path: Option<PathBuf>,
        size: u64,
        raw_extension: Option<&str>,
        detected: PreliminaryDetection,
    ) -> (info: Self)
        ensures
            info.path == path,
            info.absolute_path == absolute_path,
            info.size == size,
            info.kind == detected.kind,
            info.type_description@ == spec_type_description(detected),
            info.extension is Some <==> raw_extension is Some,
            raw_extension matches Some(e) ==> info.extension->0@ == spec_ascii_lowercase(e@),
            info.detected == detected,
            info.backing is None,
    {
        let extension = match raw_extension {
            Some(e) => Some(ascii_lowercase(e)),
            None => None,
        };
        let type_description = type_description_for(&detected);
        FileInfo {
            path,
            absolute_path,
            size,
            kind: detected.kind,
            type_description,
            extension,
            detected,
            backing: None,
        }
    }

    /// Returns true if this file should be treated as text by default.
    pub fn is_text(&self) -> (r: bool)
        ensures
            r == (self.kind == ContentKind::Text || self.kind == ContentKind::Empty),
    {
        match self.kind {
            ContentKind::Text | ContentKind::Empty => true,
            ContentKind::Binary => false,
        }
    }

    /// The same file with `backing` attached.
    pub fn with_backing(self, backing: Arc<FileBacking>) -> (r: Self)
        ensures
            r == (FileInfo { backing: Some(backing), ..self }),
    {
        FileInfo { backing: Some(backing), ..self }
    }
}

} // verus!
