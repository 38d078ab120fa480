//! Viewport types shared by built-in viewers and external plugins.

use vstd::prelude::*;
use crate::file_info::FileInfo;
use crate::session::FileSession;
use crate::strings::{decimal, push_decimal};

verus! {

/// How a viewer interprets its scroll position (`anchor`).
#[derive(Clone, Copy, Debug, PartialEq, Eq, Structural)]
pub enum PositionKind {
    /// Anchor is a byte offset into the file (hex, raw text).
    Byte,
    /// Anchor is a 0-based index into the viewer's display lines.
    DisplayLine,
    /// Anchor is a frame index.
    Frame,
}

impl Default for PositionKind {
    fn default() -> (k: Self)
        ensures
            k == PositionKind::Byte,
    {
        PositionKind::Byte
    }
}

/// Scroll position for the active viewer.
#[derive(Clone, Copy, Debug, PartialEq, Eq, Structural)]
pub enum ViewAnchor {
    Byte(u64),
    DisplayLine(u64),
    Frame(u64),
}

impl ViewAnchor {
    pub open spec fn spec_kind(self) -> PositionKind {
        match self {
            ViewAnchor::Byte(_) => PositionKind::Byte,
            ViewAnchor::DisplayLine(_) => PositionKind::DisplayLine,
            ViewAnchor::Frame(_) => PositionKind::Frame,
        }
    }

    pub open spec fn spec_raw(self) -> u64 {
        match self {
            ViewAnchor::Byte(v) => v,
            ViewAnchor::DisplayLine(v) => v,
            ViewAnchor::Frame(v) => v,
        }
    }

    pub open spec fn spec_from_raw(kind: PositionKind, value: u64) -> ViewAnchor {
        match kind {
            PositionKind::Byte => ViewAnchor::Byte(value),
            PositionKind::DisplayLine => ViewAnchor::DisplayLine(value),
            PositionKind::Frame => ViewAnchor::Frame(value),
        }
    }

    pub fn kind(&self) -> (k: PositionKind)
        ensures
            k == self.spec_kind(),
    {
        match self {
            ViewAnchor::Byte(_) => PositionKind::Byte,
            ViewAnchor::DisplayLine(_) => PositionKind::DisplayLine,
            ViewAnchor::Frame(_) => PositionKind::Frame,
        }
    }

    pub fn raw(&self) -> (v: u64)
        ensures
            v == self.spec_raw(),
    {
        match self {
            ViewAnchor::Byte(v) => *v,
            ViewAnchor::DisplayLine(v) => *v,
            ViewAnchor::Frame(v) => *v,
        }
    }

    pub fn from_raw(kind: PositionKind, value: u64) -> (a: Self)
        ensures
            a == Self::spec_from_raw(kind, value),
    {
        match kind {
            PositionKind::Byte => ViewAnchor::Byte(value),
            PositionKind::DisplayLine => ViewAnchor::DisplayLine(value),
            PositionKind::Frame => ViewAnchor::Frame(value),
        }
    }
}

/// An anchor built from a kind and a value gives back that kind and that value,
/// and an anchor rebuilt from its own kind and value is the same anchor.
pub proof fn lemma_anchor_round_trip(kind: PositionKind, value: u64, a: ViewAnchor)
    ensures
        ViewAnchor::spec_from_raw(kind, value).spec_kind() == kind,
        ViewAnchor::spec_from_raw(kind, value).spec_raw() == value,
        ViewAnchor::spec_from_raw(a.spec_kind(), a.spec_raw()) == a,
{
}

/// Inputs for rendering one TUI viewport.
pub struct ViewContext<'a> {
    pub session: &'a FileSession,
    pub anchor: ViewAnchor,
    pub content_width: u16,
    pub max_rows: u16,
}

impl<'a> ViewContext<'a> {
    pub fn new(session: &'a FileSession, anchor: ViewAnchor, content_width: u16, max_rows: u16) -> (c:
        Self)
        ensures
            c.session == session,
            c.anchor == anchor,
            c.content_width == content_width,
            c.max_rows == max_rows,
    {
        ViewContext { session, anchor, content_width, max_rows }
    }

    /// Context for viewers that use byte offsets (hex, text).
    pub fn at_byte(session: &'a FileSession, offset: u64, content_width: u16, max_rows: u16) -> (c:
        Self)
        ensures
            c.session == session,
            c.anchor == ViewAnchor::Byte(offset),
            c.content_width == content_width,
            c.max_rows == max_rows,
    {
        Self::new(session, ViewAnchor::Byte(offset), content_width, max_rows)
    }

    pub fn info(&self) -> (i: &FileInfo)
        ensures
            *i == self.session.spec_info(),
    {
        self.session.info()
    }

    pub fn anchor_raw(&self) -> (v: u64)
        ensures
            v == self.anchor.spec_raw(),
    {
        self.anchor.raw()
    }
}

/// Output of one viewport render (lines + status in one call).
#[derive(Clone, Debug)]
pub struct ViewportResult {
    pub lines: Vec<String>,
    pub status: String,
    pub anchor: ViewAnchor,
    /// Source file byte offset for cross-viewer sync (when known).
    pub source_byte: Option<u64>,
}

/// `"[{name} viewer] {what} not implemented"`.
pub open spec fn not_implemented_line(name: Seq<char>, what: Seq<char>) -> Seq<char> {
    "["@ + name + " viewer] "@ + what + " not implemented"@
}

/// `"{name} @ {pos}"`.
pub open spec fn name_at_position(name: Seq<char>, pos: u64) -> Seq<char> {
    name + " @ "@ + decimal(pos as nat)
}

/// `"[{name} viewer] {what} not implemented"`.
pub fn not_implemented_message(name: &str, what: &str) -> (s: String)
    ensures
        s@ == not_implemented_line(name@, what@),
{
    let mut s = "[".to_owned();
    s.append(name);
    s.append(" viewer] ");
    s.append(what);
    s.append(" not implemented");
    s
}

/// `"{name} @ {pos}"`.
pub fn name_at(name: &str, pos: u64) -> (s: String)
    ensures
        s@ == name_at_position(name@, pos),
{
    let mut s = name.to_owned();
    s.append(" @ ");
    push_decimal(&mut s, pos);
    s
}

impl ViewportResult {
    /// Placeholder viewport for a viewer that cannot render.
    pub fn empty_placeholder(viewer_name: &str, anchor: ViewAnchor) -> (r: Self)
        ensures
            r.lines.deep_view() == seq![not_implemented_line(viewer_name@, "render_viewport"@)],
            r.status@ == name_at_position(viewer_name@, anchor.spec_raw()),
            r.anchor == anchor,
            r.source_byte is None,
    {
        let mut lines: Vec<String> = Vec::new();
        lines.push(not_implemented_message(viewer_name, "render_viewport"));
        let status = name_at(viewer_name, anchor.raw());
        proof {
            assert(lines.deep_view() =~= seq![not_implemented_line(viewer_name@, "render_viewport"@)]);
        }
        ViewportResult { lines, status, anchor, source_byte: None }
    }
}

} // verus!
