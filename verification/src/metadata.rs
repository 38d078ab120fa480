//! What the metadata sidebar and the header say about a file and a position.

use vstd::prelude::*;
use crate::file_info::{ContentKind, FileInfo};
use crate::hex_view::{hex_join, push_hex_join_of};
use crate::probe::slice_range;
use crate::strings::{decimal, push_decimal};
use crate::view::PositionKind;

verus! {

/// Bytes shown in the magic preview.
pub const MAGIC_PREVIEW_LEN: usize = 16;

/// `part` as a percentage of `whole`, rounded down and capped at 100; 0 when
/// `whole` is 0. `part * 100` saturates at `u64::MAX`.
pub open spec fn spec_percent(part: u64, whole: u64) -> u8 {
    if whole == 0 {
        0
    } else {
        let scaled: int = if part * 100 > u64::MAX { u64::MAX as int } else { part * 100 };
        let p = scaled / whole as int;
        if p > 100 { 100 } else { p as u8 }
    }
}

fn percent(part: u64, whole: u64) -> (r: u8)
    ensures
        r == spec_percent(part, whole),
{
    if whole == 0 {
        return 0;
    }
    let scaled: u64 = if part > u64::MAX / 100 {
        u64::MAX
    } else {
        part * 100
    };
    let p = scaled / whole;
    if p > 100 {
        100
    } else {
        p as u8
    }
}

/// Scroll position as 0–100% through the file, by byte offset.
pub fn position_percent(offset: u64, size: u64) -> (r: u8)
    ensures
        r == spec_percent(offset, size),
{
    percent(offset, size)
}

/// Scroll position as 0–100% within a viewer's extent (e.g. display lines).
pub fn position_percent_in_extent(anchor: u64, extent: u64) -> (r: u8)
    ensures
        r == spec_percent(anchor, extent),
{
    percent(anchor, extent)
}

/// The header's position label: a byte of the file, a display line (counted
/// from 1) or a frame, with its percentage.
pub open spec fn spec_header_position(kind: PositionKind, anchor_raw: u64, file_size: u64, extent: u64) -> Seq<char> {
    match kind {
        PositionKind::Byte => "byte "@ + decimal(anchor_raw as nat) + " / "@ + decimal(
            file_size as nat,
        ) + " B ("@ + decimal(spec_percent(anchor_raw, file_size) as nat) + "%)"@,
        PositionKind::DisplayLine => "line "@ + decimal((anchor_raw + 1) as nat) + " ("@ + decimal(
            spec_percent(anchor_raw, extent) as nat,
        ) + "%)"@,
        PositionKind::Frame => "frame "@ + decimal(anchor_raw as nat) + " ("@ + decimal(
            spec_percent(anchor_raw, extent) as nat,
        ) + "%)"@,
    }
}

/// See [`spec_header_position`]. A display line past `u64::MAX - 1` cannot be
/// numbered from 1.
pub fn format_header_position(kind: PositionKind, anchor_raw: u64, file_size: u64, scroll_extent: u64) -> (s: String)
    requires
        kind == PositionKind::DisplayLine ==> anchor_raw < u64::MAX,
    ensures
        s@ == spec_header_position(kind, anchor_raw, file_size, scroll_extent),
{
    match kind {
        PositionKind::Byte => {
            let pct = position_percent(anchor_raw, file_size);
            let mut s = "byte ".to_owned();
            push_decimal(&mut s, anchor_raw);
            s.append(" / ");
            push_decimal(&mut s, file_size);
            s.append(" B (");
            push_decimal(&mut s, pct as u64);
            s.append("%)");
            s
        },
        PositionKind::DisplayLine => {
            let pct = position_percent_in_extent(anchor_raw, scroll_extent);
            let mut s = "line ".to_owned();
            push_decimal(&mut s, anchor_raw + 1);
            s.append(" (");
            push_decimal(&mut s, pct as u64);
            s.append("%)");
            s
        },
        PositionKind::Frame => {
            let pct = position_percent_in_extent(anchor_raw, scroll_extent);
            let mut s = "frame ".to_owned();
            push_decimal(&mut s, anchor_raw);
            s.append(" (");
            push_decimal(&mut s, pct as u64);
            s.append("%)");
            s
        },
    }
}

/// The sidebar's name for a content kind.
pub open spec fn spec_kind_label(kind: ContentKind) -> Seq<char> {
    match kind {
        ContentKind::Text => "Text"@,
        ContentKind::Binary => "Binary"@,
        ContentKind::Empty => "Empty"@,
    }
}

/// See [`spec_kind_label`].
pub fn kind_label(kind: ContentKind) -> (s: &'static str)
    ensures
        s@ == spec_kind_label(kind),
{
    match kind {
        ContentKind::Text => "Text",
        ContentKind::Binary => "Binary",
        ContentKind::Empty => "Empty",
    }
}

/// The magic preview of a file's first bytes: up to 16 of them in hex,
/// separated by blanks; `(empty)` when there are none.
pub open spec fn spec_magic_preview(head: Seq<u8>) -> Seq<char> {
    if head.len() == 0 {
        "(empty)"@
    } else {
        hex_join(head.take(if head.len() < 16 { head.len() as int } else { 16 }))
    }
}

/// See [`spec_magic_preview`].
pub fn magic_hex_preview(head: &[u8]) -> (s: String)
    ensures
        s@ == spec_magic_preview(head@),
{
    if head.len() == 0 {
        return "(empty)".to_owned();
    }
    let n = if head.len() < MAGIC_PREVIEW_LEN {
        head.len()
    } else {
        MAGIC_PREVIEW_LEN
    };
    let shown = slice_range(head, 0, n);
    let mut s = String::new();
    push_hex_join_of(&mut s, shown);
    proof {
        assert(shown@ =~= head@.take(n as int));
        assert(s@ =~= spec_magic_preview(head@));
    }
    s
}

/// A labelled sidebar field.
#[derive(Debug, Clone)]
pub struct MetadataField {
    pub label: String,
    pub value: String,
}

/// Whether the detected format is shown besides the type description: when
/// there is one and it differs from it.
pub open spec fn shows_format(info: FileInfo) -> bool {
    info.detected.format matches Some(f) && f@ != info.type_description@
}

/// The sidebar fields after the title, as (label, value): size, kind and type;
/// then the extension, the MIME type and the detected format where known (the
/// format only where it differs from the type); then the magic preview.
pub open spec fn spec_metadata_fields(info: FileInfo, size_text: Seq<char>, magic: Seq<char>) -> Seq<
    (Seq<char>, Seq<char>),
> {
    seq![
        ("Size"@, size_text),
        ("Kind"@, spec_kind_label(info.kind)),
        ("Type"@, info.type_description@),
    ] + (match info.extension {
        Some(e) => seq![("Ext"@, e@)],
        None => seq![],
    }) + (match info.detected.mime_type {
        Some(m) => seq![("MIME"@, m@)],
        None => seq![],
    }) + (match info.detected.format {
        Some(f) => if shows_format(info) {
            seq![("Format"@, f@)]
        } else {
            seq![]
        },
        None => seq![],
    }) + seq![("Magic"@, magic)]
}

/// The sidebar fields, with `size_text` for the size and `magic` for the magic
/// preview (both rendered by the caller).
pub fn metadata_fields(info: &FileInfo, size_text: String, magic: String) -> (r: Vec<MetadataField>)
    ensures
        r@.map_values(|f: MetadataField| (f.label@, f.value@)) == spec_metadata_fields(
            *info,
            size_text@,
            magic@,
        ),
{
    let mut r: Vec<MetadataField> = Vec::new();
    let ghost st = size_text@;
    let ghost mg = magic@;
    r.push(MetadataField { label: "Size".to_owned(), value: size_text });
    r.push(MetadataField { label: "Kind".to_owned(), value: kind_label(info.kind).to_owned() });
    r.push(MetadataField { label: "Type".to_owned(), value: info.type_description.clone() });
    match &info.extension {
        Some(ext) => {
            r.push(MetadataField { label: "Ext".to_owned(), value: ext.clone() });
        },
        None => {},
    }
    match &info.detected.mime_type {
        Some(mime) => {
            r.push(MetadataField { label: "MIME".to_owned(), value: mime.clone() });
        },
        None => {},
    }
    match &info.detected.format {
        Some(fmt) => {
            if *fmt != info.type_description {
                r.push(MetadataField { label: "Format".to_owned(), value: fmt.clone() });
            }
        },
        None => {},
    }
    r.push(MetadataField { label: "Magic".to_owned(), value: magic });
    proof {
        assert(r@.map_values(|f: MetadataField| (f.label@, f.value@)) =~= spec_metadata_fields(
            *info,
            st,
            mg,
        ));
    }
    r
}

} // verus!
