//! The viewer trait: the extension point through which file formats are supported.

use vstd::prelude::*;
use crate::dump::DumpOptions;
use crate::file_info::FileInfo;
use crate::probe::FileProbe;
use crate::view::{
    PositionKind, ViewAnchor, ViewContext, ViewportResult, name_at, name_at_position,
    not_implemented_line, not_implemented_message,
};

verus! {

/// How strongly a viewer wants to handle a particular file.
///
/// Specialized viewers may answer `Preferred`; the generic text and hex viewers
/// never answer above `Normal`, so that specialized viewers win.
#[derive(Clone, Copy, Debug, PartialEq, Eq, Structural, PartialOrd, Ord)]
pub enum ViewerPriority {
    /// This viewer cannot handle the file at all.
    NoMatch,
    /// Weak interest (fallback).
    Low,
    /// Normal interest.
    Normal,
    /// This viewer is the best choice for the file.
    Preferred,
}

/// The rank of a priority: `NoMatch < Low < Normal < Preferred`.
pub open spec fn priority_rank(p: ViewerPriority) -> nat {
    match p {
        ViewerPriority::NoMatch => 0,
        ViewerPriority::Low => 1,
        ViewerPriority::Normal => 2,
        ViewerPriority::Preferred => 3,
    }
}

impl ViewerPriority {
    /// The rank of this priority, the order in which priorities compare.
    pub fn rank(&self) -> (r: u8)
        ensures
            r == priority_rank(*self),
    {
        match self {
            ViewerPriority::NoMatch => 0,
            ViewerPriority::Low => 1,
            ViewerPriority::Normal => 2,
            ViewerPriority::Preferred => 3,
        }
    }
}

/// Largest meaningful anchor value for a viewer of the given position kind,
/// unless the viewer says otherwise.
pub open spec fn spec_default_scroll_extent(kind: PositionKind, size: u64) -> u64 {
    match kind {
        PositionKind::DisplayLine => 1,
        _ => if size == 0 { 0 } else { (size - 1) as u64 },
    }
}

/// See [`spec_default_scroll_extent`].
pub fn default_scroll_extent(kind: PositionKind, size: u64) -> (r: u64)
    ensures
        r == spec_default_scroll_extent(kind, size),
{
    match kind {
        PositionKind::DisplayLine => 1,
        _ => size.saturating_sub(1),
    }
}

/// Source byte of an anchor, unless the viewer says otherwise: a byte anchor
/// clamped to the last byte of the file; no byte for other anchors.
pub open spec fn spec_default_source_byte(size: u64, anchor: ViewAnchor) -> Option<u64> {
    match anchor {
        ViewAnchor::Byte(b) => Some(
            if b <= spec_default_scroll_extent(PositionKind::Byte, size) {
                b
            } else {
                spec_default_scroll_extent(PositionKind::Byte, size)
            },
        ),
        _ => None,
    }
}

/// See [`spec_default_source_byte`].
pub fn default_source_byte(size: u64, anchor: ViewAnchor) -> (r: Option<u64>)
    ensures
        r == spec_default_source_byte(size, anchor),
{
    match anchor {
        ViewAnchor::Byte(b) => {
            let last = size.saturating_sub(1);
            Some(if b <= last { b } else { last })
        },
        _ => None,
    }
}

/// Default scrolling: 16 bytes per row, saturating at both ends of `u64`.
pub open spec fn spec_default_advance(current: u64, delta: i64) -> u64 {
    let target = current + 16 * delta;
    if target < 0 {
        0
    } else if target > u64::MAX {
        u64::MAX
    } else {
        target as u64
    }
}

/// Default scrolling back by the same number of rows returns to the same
/// position, as long as the first move did not saturate.
pub proof fn lemma_default_scroll_undo(current: u64, delta: i64)
    requires
        i64::MIN < delta,
        0 <= current + 16 * delta <= u64::MAX,
    ensures
        spec_default_advance(spec_default_advance(current, delta), -delta as i64) == current,
{
}

/// See [`spec_default_advance`].
pub fn default_advance(current: u64, delta: i64) -> (r: u64)
    ensures
        r == spec_default_advance(current, delta),
{
    if delta >= 0 {
        let d = delta as u64;
        if d > u64::MAX / 16 {
            u64::MAX
        } else {
            current.saturating_add(d * 16)
        }
    } else {
        let d: u64 = if delta == i64::MIN {
            (i64::MAX as u64) + 1
        } else {
            (-delta) as u64
        };
        if d > u64::MAX / 16 {
            0
        } else {
            current.saturating_sub(d * 16)
        }
    }
}

/// The viewport that a viewer without its own rendering produces from its rows
/// and its status line.
pub fn compose_viewport(lines: Vec<String>, status: String, anchor: ViewAnchor) -> (r:
    ViewportResult)
    ensures
        r.lines == lines,
        r.status == status,
        r.anchor == anchor,
        r.source_byte == (match anchor {
            ViewAnchor::Byte(b) => Some(b),
            _ => None,
        }),
{
    let source_byte = match anchor {
        ViewAnchor::Byte(b) => Some(b),
        _ => None,
    };
    ViewportResult { lines, status, anchor, source_byte }
}

/// Core trait that every viewer (built in or plugin) implements.
pub trait FileViewer: Send + Sync {
    /// Human-readable name of this viewer (e.g. "Text", "Hex").
    fn name(&self) -> &'static str;

    /// How suitable this viewer is for the file behind `probe`.
    fn can_handle(&self, probe: &dyn FileProbe) -> ViewerPriority;

    /// Appends the file content to `out` in this viewer's format.
    fn dump(&self, info: &FileInfo, out: &mut Vec<u8>, opts: &DumpOptions) -> std::io::Result<()>;

    /// How this viewer interprets its anchor.
    fn position_kind(&self) -> (k: PositionKind)
        default_ensures
            k == PositionKind::Byte,
    {
        PositionKind::Byte
    }

    /// Largest meaningful anchor value for scroll-percent math.
    fn scroll_extent(&self, info: &FileInfo) -> (r: u64)
        default_ensures
            exists|k: PositionKind|
                call_ensures(Self::position_kind, (self,), k) && r == spec_default_scroll_extent(
                    k,
                    info.size,
                ),
    {
        default_scroll_extent(self.position_kind(), info.size)
    }

    /// Renders one viewport; by default from `render_lines` and `status`.
    fn render_viewport(&self, ctx: &ViewContext) -> (r: ViewportResult)
        default_ensures
            exists|lines: Vec<String>, status: String|
                call_ensures(
                    Self::render_lines,
                    (self, &ctx.session.spec_info(), ctx.anchor.spec_raw(), ctx.max_rows, ctx.content_width),
                    lines,
                ) && call_ensures(Self::status, (self, &ctx.session.spec_info(), ctx.anchor.spec_raw()), status)
                    && r.lines == lines && r.status == status,
            r.anchor == ctx.anchor,
            r.source_byte == (match ctx.anchor {
                ViewAnchor::Byte(b) => Some(b),
                _ => None,
            }),
    {
        let raw = ctx.anchor_raw();
        let lines = self.render_lines(ctx.info(), raw, ctx.max_rows, ctx.content_width);
        let status = self.status(ctx.info(), raw);
        compose_viewport(lines, status, ctx.anchor)
    }

    /// Source file byte offset for an anchor (for cross-viewer sync). A byte
    /// anchor names its own byte, clamped to the last byte of the file: every
    /// viewer keeps this, so that switching between byte viewers keeps the offset.
    fn source_byte_for_anchor(&self, info: &FileInfo, anchor: ViewAnchor) -> (r: Option<u64>)
        ensures
            anchor is Byte ==> r == spec_default_source_byte(info.size, anchor),
    {
        default_source_byte(info.size, anchor)
    }

    /// Display-line anchor for a source byte (display-line viewers only).
    fn display_line_for_byte(&self, info: &FileInfo, byte: u64) -> (r: Option<u64>)
        default_ensures
            r is None,
    {
        None
    }

    /// Moves the anchor by `delta` display rows.
    fn advance_anchor(&self, ctx: &ViewContext, delta: i64) -> (r: ViewAnchor)
        default_ensures
            exists|raw: u64, k: PositionKind|
                call_ensures(
                    Self::advance_lines,
                    (self, &ctx.session.spec_info(), ctx.anchor.spec_raw(), delta, ctx.content_width),
                    raw,
                ) && call_ensures(Self::position_kind, (self,), k) && r == ViewAnchor::spec_from_raw(
                    k,
                    raw,
                ),
    {
        let raw = self.advance_lines(ctx.info(), ctx.anchor_raw(), delta, ctx.content_width);
        ViewAnchor::from_raw(self.position_kind(), raw)
    }

    /// Up to `max_rows` display rows from `start_offset`, `width` columns wide.
    fn render_lines(&self, info: &FileInfo, start_offset: u64, max_rows: u16, width: u16) -> (r: Vec<
        String,
    >)
        default_ensures
            exists|n: &'static str|
                call_ensures(Self::name, (self,), n) && r.deep_view() == seq![
                    not_implemented_line(n@, "render_lines"@),
                ],
    {
        let mut v: Vec<String> = Vec::new();
        v.push(not_implemented_message(self.name(), "render_lines"));
        v
    }

    /// Moves a position by `delta` display rows; by default 16 bytes per row.
    fn advance_lines(&self, info: &FileInfo, current: u64, delta: i64, width: u16) -> (r: u64)
        default_ensures
            r == spec_default_advance(current, delta),
    {
        default_advance(current, delta)
    }

    /// Human-readable description of a position, for the status line.
    fn status(&self, info: &FileInfo, pos: u64) -> (s: String)
        default_ensures
            exists|n: &'static str|
                call_ensures(Self::name, (self,), n) && s@ == name_at_position(n@, pos),
    {
        name_at(self.name(), pos)
    }
}

/// `a` is an anchor that viewer `v` may give back when asked to move the anchor
/// of `ctx` by `delta` display rows.
pub open spec fn advances<V: FileViewer + ?Sized>(v: &V, ctx: &ViewContext, delta: i64, a: ViewAnchor) -> bool {
    call_ensures(V::advance_anchor, (v, ctx, delta), a)
}

/// Asks viewer `v` to move the anchor of `ctx` by `delta` display rows.
pub fn advance_by<V: FileViewer + ?Sized>(v: &V, ctx: &ViewContext, delta: i64) -> (a: ViewAnchor)
    ensures
        advances(v, ctx, delta, a),
{
    v.advance_anchor(ctx, delta)
}

/// `sb` is a source byte that viewer `v` may give for `anchor` in the file `info`.
pub open spec fn gives_source_byte<V: FileViewer + ?Sized>(v: &V, info: &FileInfo, anchor: ViewAnchor, sb: Option<u64>) -> bool {
    call_ensures(V::source_byte_for_anchor, (v, info, anchor), sb)
}

/// Asks viewer `v` for the source byte of `anchor`.
pub fn source_byte_of<V: FileViewer + ?Sized>(v: &V, info: &FileInfo, anchor: ViewAnchor) -> (sb: Option<u64>)
    ensures
        gives_source_byte(v, info, anchor, sb),
{
    v.source_byte_for_anchor(info, anchor)
}

/// `l` is a display line that viewer `v` may give for source byte `byte` of `info`.
pub open spec fn gives_display_line<V: FileViewer + ?Sized>(v: &V, info: &FileInfo, byte: u64, l: Option<u64>) -> bool {
    call_ensures(V::display_line_for_byte, (v, info, byte), l)
}

/// Asks viewer `v` for the display line holding source byte `byte`.
pub fn display_line_of<V: FileViewer + ?Sized>(v: &V, info: &FileInfo, byte: u64) -> (l: Option<u64>)
    ensures
        gives_display_line(v, info, byte, l),
{
    v.display_line_for_byte(info, byte)
}

/// `e` is a scroll extent that viewer `v` may give for `info`.
pub open spec fn gives_scroll_extent<V: FileViewer + ?Sized>(v: &V, info: &FileInfo, e: u64) -> bool {
    call_ensures(V::scroll_extent, (v, info), e)
}

/// Asks viewer `v` for its scroll extent over `info`.
pub fn scroll_extent_of<V: FileViewer + ?Sized>(v: &V, info: &FileInfo) -> (e: u64)
    ensures
        gives_scroll_extent(v, info, e),
{
    v.scroll_extent(info)
}

/// `r` is a viewport that viewer `v` may render for `ctx`.
pub open spec fn renders<V: FileViewer + ?Sized>(v: &V, ctx: &ViewContext, r: ViewportResult) -> bool {
    call_ensures(V::render_viewport, (v, ctx), r)
}

/// Asks viewer `v` to render the viewport of `ctx`.
pub fn render_by<V: FileViewer + ?Sized>(v: &V, ctx: &ViewContext) -> (r: ViewportResult)
    ensures
        renders(v, ctx, r),
{
    v.render_viewport(ctx)
}

} // verus!
