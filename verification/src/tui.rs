//! The interactive viewer's state machine: the state it keeps, what each action
//! does to it, which key gives which action, and the texts around the viewport.
//! Drawing and the terminal are the caller's.

use vstd::prelude::*;
use crate::session::FileSession;
use crate::strings::{decimal, push_decimal};
use crate::view::{PositionKind, ViewAnchor, ViewContext, ViewportResult};
use crate::file_info::FileInfo;
use crate::viewer::{
    FileViewer, advance_by, advances, display_line_of, gives_display_line, gives_scroll_extent,
    gives_source_byte, render_by, renders, scroll_extent_of, source_byte_of,
};
use crate::viewport_cache::{ViewportCache, ViewportCacheKey};

verus! {

/// Width of the metadata sidebar when it is shown.
pub const SIDEBAR_WIDTH: u16 = 28;

/// What the user can ask of the viewer.
#[derive(Debug, Clone, Copy, PartialEq, Eq, Structural)]
pub enum TuiAction {
    Quit,
    ScrollDown(u16),
    ScrollUp(u16),
    PageDown(u16),
    PageUp(u16),
    GoToStart,
    GoToEnd,
    ToggleHelp,
    /// Cycle to the next registered viewer.
    ToggleViewer,
    /// Show or hide the metadata sidebar.
    ToggleMetadata,
}

/// A display-line anchor that the caller must compute by scroll fraction: the
/// byte `byte` of a file whose last byte is `byte_extent`, mapped onto
/// `[0, line_extent]`. `previous` is the anchor before the action.
#[derive(Debug, Clone, Copy, PartialEq, Eq, Structural)]
pub struct FractionRequest {
    pub byte: u64,
    pub byte_extent: u64,
    pub line_extent: u64,
    pub previous: ViewAnchor,
}

/// The anchor for a byte in a viewer: exact, or to be computed by fraction.
#[derive(Debug, Clone, Copy, PartialEq, Eq, Structural)]
pub enum AnchorTarget {
    Exact(ViewAnchor),
    Fraction { byte: u64, byte_extent: u64, line_extent: u64 },
}

/// `byte`, clamped to the last byte of a file of `size` bytes.
pub open spec fn clamp_to_last(byte: u64, size: u64) -> u64 {
    if size == 0 {
        0
    } else if byte < size - 1 {
        byte
    } else {
        (size - 1) as u64
    }
}

/// `a` is what the active viewer of `app` answers when asked to move the anchor
/// `from` by `delta` display rows, `width` columns wide.
pub open spec fn moved_by_active_viewer(app: App, from: ViewAnchor, width: u16, delta: i64, a: ViewAnchor) -> bool {
    advances(
        &*app.spec_viewers()[app.spec_viewer_index()],
        &(ViewContext { session: &app.spec_session(), anchor: from, content_width: width, max_rows: 1 }),
        delta,
        a,
    )
}

/// Where `GoToEnd` starts from before backing up: the file size for a byte
/// viewer, far past any end for the others.
pub open spec fn end_jump(kind: PositionKind, size: u64) -> u64 {
    match kind {
        PositionKind::Byte => size,
        _ => (u64::MAX / 2) as u64,
    }
}

/// `t` is where viewer `v`, whose anchors are of kind `kind`, puts source byte
/// `byte` of the file `info`: the byte clamped to the last one for byte and frame
/// viewers; for a display-line viewer the line it answers for the clamped byte,
/// or else a request to place it by fraction, with the extent the viewer answers.
pub open spec fn target_for_byte<V: FileViewer + ?Sized>(
    v: &V,
    kind: PositionKind,
    info: FileInfo,
    byte: u64,
    t: AnchorTarget,
) -> bool {
    let b = clamp_to_last(byte, info.size);
    if kind != PositionKind::DisplayLine {
        t == AnchorTarget::Exact(ViewAnchor::spec_from_raw(kind, b))
    } else {
        exists|l: Option<u64>|
            #[trigger] gives_display_line(v, &info, b, l) && match l {
                Some(line) => t == AnchorTarget::Exact(ViewAnchor::DisplayLine(line)),
                None => exists|e: u64|
                    #[trigger] gives_scroll_extent(v, &info, e) && t == (AnchorTarget::Fraction {
                        byte: b,
                        byte_extent: clamp_to_last(u64::MAX, info.size),
                        line_extent: e,
                    }),
            }
    }
}

/// The source byte a viewer gave, or `kept` when it gave none.
pub open spec fn byte_or(sb: Option<u64>, kept: u64) -> u64 {
    match sb {
        Some(b) => b,
        None => kept,
    }
}

/// The shared byte position `bp` after the anchor went from `before` to `after`
/// in viewer `v`, from the position `kept`: what the viewer gives as the source
/// byte of the new anchor (`kept` when it gives none), or `kept` when the anchor
/// did not change.
pub open spec fn synced_position<V: FileViewer + ?Sized>(
    v: &V,
    info: FileInfo,
    before: ViewAnchor,
    after: ViewAnchor,
    kept: u64,
    bp: u64,
) -> bool {
    if after != before {
        exists|sb: Option<u64>| #[trigger] gives_source_byte(v, &info, after, sb) && bp == byte_or(sb, kept)
    } else {
        bp == kept
    }
}

/// Switching `app` to its next viewer gave the anchor `anchor`, the pending
/// request `pending` and the byte position `bp` as its viewers answer: the
/// current viewer gives a source byte for the current anchor (or none, and the
/// kept byte position is used), the next viewer's target for that byte is taken
/// exactly, or by fraction with the anchor left as it was, and the byte position
/// then follows the new anchor in the next viewer.
pub open spec fn switched_as_viewers_answer(app: App, anchor: ViewAnchor, pending: Option<FractionRequest>, bp: u64) -> bool {
    let info = app.spec_session().spec_info();
    let next = (app.spec_viewer_index() + 1) % app.spec_viewer_count();
    exists|sb: Option<u64>|
        #[trigger] gives_source_byte(
            &*app.spec_viewers()[app.spec_viewer_index()],
            &info,
            app.spec_anchor(),
            sb,
        ) && exists|t: AnchorTarget|
            #[trigger] target_for_byte(
                &*app.spec_viewers()[next],
                app.spec_kinds()[next],
                info,
                byte_or(sb, app.spec_byte_position()),
                t,
            ) && match t {
                AnchorTarget::Exact(a) => pending is None && anchor == a,
                AnchorTarget::Fraction { byte, byte_extent, line_extent } => anchor
                    == app.spec_anchor() && pending == Some(
                    FractionRequest { byte, byte_extent, line_extent, previous: app.spec_anchor() },
                ),
            } && synced_position(
                &*app.spec_viewers()[next],
                info,
                app.spec_anchor(),
                anchor,
                byte_or(sb, app.spec_byte_position()),
                bp,
            )
}

/// The interactive viewer's state.
pub struct App {
    session: FileSession,
    viewers: Vec<Box<dyn FileViewer>>,
    /// How each viewer interprets its anchor, as it said when the state was made.
    kinds: Vec<PositionKind>,
    /// Each viewer's name, as it said when the state was made.
    names: Vec<&'static str>,
    viewer_index: usize,
    anchor: ViewAnchor,
    /// Source byte position shared by viewers when switching.
    byte_position: u64,
    show_help: bool,
    show_metadata: bool,
    /// Last terminal size seen.
    last_term_size: (u16, u16),
    /// The screen must be drawn again.
    needs_redraw: bool,
    viewport_cache: ViewportCache,
}

impl App {
    #[verifier::type_invariant]
    spec fn well_formed(self) -> bool {
        &&& self.viewers@.len() > 0
        &&& self.viewer_index < self.viewers@.len()
        &&& self.kinds@.len() == self.viewers@.len()
        &&& self.names@.len() == self.viewers@.len()
    }

    /// Each viewer's name.
    pub closed spec fn spec_names(&self) -> Seq<Seq<char>> {
        self.names@.map_values(|n: &'static str| n@)
    }

    /// How each viewer interprets its anchor.
    pub closed spec fn spec_kinds(&self) -> Seq<PositionKind> {
        self.kinds@
    }

    /// The file size the viewers see.
    pub closed spec fn spec_file_size(&self) -> u64 {
        self.session.spec_info().size
    }

    pub closed spec fn spec_viewer_index(&self) -> int {
        self.viewer_index as int
    }

    /// The viewers, in order.
    pub closed spec fn spec_viewers(&self) -> Seq<Box<dyn FileViewer>> {
        self.viewers@
    }

    pub closed spec fn spec_viewer_count(&self) -> int {
        self.viewers@.len() as int
    }

    pub closed spec fn spec_anchor(&self) -> ViewAnchor {
        self.anchor
    }

    pub closed spec fn spec_byte_position(&self) -> u64 {
        self.byte_position
    }

    pub closed spec fn spec_show_help(&self) -> bool {
        self.show_help
    }

    pub closed spec fn spec_show_metadata(&self) -> bool {
        self.show_metadata
    }

    pub closed spec fn spec_needs_redraw(&self) -> bool {
        self.needs_redraw
    }

    pub closed spec fn spec_term_size(&self) -> (u16, u16) {
        self.last_term_size
    }

    pub closed spec fn spec_session(&self) -> FileSession {
        self.session
    }

    /// The viewport kept for a key.
    pub closed spec fn cached(&self, key: ViewportCacheKey) -> Option<ViewportResult> {
        self.viewport_cache.lookup(key)
    }

    /// No viewport is kept.
    pub open spec fn cache_empty(&self) -> bool {
        forall|k: ViewportCacheKey| (#[trigger] self.cached(k)) is None
    }

    /// A viewer over `session` with `viewers` (at least one), starting with viewer
    /// `viewer_index` (clamped to the last one) at position `offset` in that
    /// viewer's terms. The shared byte position is the offset for a byte viewer,
    /// 0 otherwise.
    pub fn new(session: FileSession, viewers: Vec<Box<dyn FileViewer>>, viewer_index: usize, offset: u64) -> (a: Self)
        requires
            viewers@.len() > 0,
        ensures
            a.spec_viewers() == viewers@,
            a.spec_viewer_count() == viewers@.len(),
            a.spec_viewer_index() == if viewer_index < viewers@.len() {
                viewer_index as int
            } else {
                viewers@.len() - 1
            },
            a.spec_kinds().len() == viewers@.len(),
            a.spec_names().len() == viewers@.len(),
            a.spec_anchor() == ViewAnchor::spec_from_raw(a.spec_kinds()[a.spec_viewer_index()], offset),
            a.spec_anchor().spec_raw() == offset,
            a.spec_anchor() is Byte ==> a.spec_byte_position() == offset,
            !(a.spec_anchor() is Byte) ==> a.spec_byte_position() == 0,
            !a.spec_show_help(),
            !a.spec_show_metadata(),
            a.spec_needs_redraw(),
            a.spec_term_size() == (0u16, 0u16),
            a.cache_empty(),
            a.spec_session() == session,
    {
        let last = viewers.len() - 1;
        let index = if viewer_index < last {
            viewer_index
        } else {
            last
        };
        let mut kinds: Vec<PositionKind> = Vec::new();
        let mut names: Vec<&'static str> = Vec::new();
        let mut i: usize = 0;
        while i < viewers.len()
            invariant
                i <= viewers@.len(),
                kinds@.len() == i,
                names@.len() == i,
            decreases viewers@.len() - i,
        {
            kinds.push(viewers[i].position_kind());
            names.push(viewers[i].name());
            i = i + 1;
        }
        let kind = kinds[index];
        let anchor = ViewAnchor::from_raw(kind, offset);
        let byte_position = match kind {
            PositionKind::Byte => offset,
            _ => 0,
        };
        App {
            session,
            viewers,
            kinds,
            names,
            viewer_index: index,
            anchor,
            byte_position,
            show_help: false,
            show_metadata: false,
            last_term_size: (0, 0),
            needs_redraw: true,
            viewport_cache: ViewportCache::new(),
        }
    }

    /// The current position, in the active viewer's terms.
    pub fn offset(&self) -> (r: u64)
        ensures
            r == self.spec_anchor().spec_raw(),
    {
        self.anchor.raw()
    }

    /// The current anchor.
    pub fn anchor(&self) -> (r: ViewAnchor)
        ensures
            r == self.spec_anchor(),
    {
        self.anchor
    }

    /// Index of the active viewer.
    pub fn viewer_index(&self) -> (r: usize)
        ensures
            r == self.spec_viewer_index(),
    {
        self.viewer_index
    }

    /// Number of viewers.
    pub fn viewer_count(&self) -> (r: usize)
        ensures
            r == self.spec_viewer_count(),
    {
        self.viewers.len()
    }

    /// The shared source byte position.
    pub fn byte_position(&self) -> (r: u64)
        ensures
            r == self.spec_byte_position(),
    {
        self.byte_position
    }

    /// Whether the help overlay is shown.
    pub fn show_help(&self) -> (r: bool)
        ensures
            r == self.spec_show_help(),
    {
        self.show_help
    }

    /// Whether the metadata sidebar is shown.
    pub fn show_metadata(&self) -> (r: bool)
        ensures
            r == self.spec_show_metadata(),
    {
        self.show_metadata
    }

    /// Whether the screen must be drawn again.
    pub fn needs_redraw(&self) -> (r: bool)
        ensures
            r == self.spec_needs_redraw(),
    {
        self.needs_redraw
    }

    /// The session being viewed.
    pub fn session(&self) -> (s: &FileSession)
        ensures
            *s == self.spec_session(),
    {
        &self.session
    }

    /// All viewers, in order.
    pub fn viewers(&self) -> (v: &[Box<dyn FileViewer>])
        ensures
            v@ == self.spec_viewers(),
            v@.len() == self.spec_viewer_count(),
    {
        self.viewers.as_slice()
    }

    /// The active viewer.
    pub fn active_viewer(&self) -> (v: &Box<dyn FileViewer>)
        ensures
            *v == self.spec_viewers()[self.spec_viewer_index()],
    {
        proof {
            use_type_invariant(self);
        }
        &self.viewers[self.viewer_index]
    }

    /// The name of the active viewer.
    pub fn active_viewer_name(&self) -> (n: &'static str)
        ensures
            n@ == self.spec_names()[self.spec_viewer_index()],
    {
        proof {
            use_type_invariant(self);
        }
        self.names[self.viewer_index]
    }

    /// Notes that the screen was drawn.
    pub fn mark_drawn(&mut self)
        ensures
            !final(self).spec_needs_redraw(),
            final(self).spec_anchor() == old(self).spec_anchor(),
            final(self).spec_viewer_index() == old(self).spec_viewer_index(),
            final(self).spec_kinds() == old(self).spec_kinds(),
            final(self).spec_names() == old(self).spec_names(),
            final(self).spec_show_help() == old(self).spec_show_help(),
            final(self).spec_show_metadata() == old(self).spec_show_metadata(),
            forall|k: ViewportCacheKey| #[trigger] final(self).cached(k) == old(self).cached(k),
    {
        proof {
            use_type_invariant(&*self);
        }
        self.needs_redraw = false;
    }

    /// Closes the help overlay (any key does while it is shown).
    pub fn close_help(&mut self)
        ensures
            !final(self).spec_show_help(),
            final(self).spec_needs_redraw(),
            final(self).spec_anchor() == old(self).spec_anchor(),
            final(self).spec_viewer_index() == old(self).spec_viewer_index(),
            final(self).spec_kinds() == old(self).spec_kinds(),
            final(self).spec_names() == old(self).spec_names(),
            final(self).spec_show_metadata() == old(self).spec_show_metadata(),
            forall|k: ViewportCacheKey| #[trigger] final(self).cached(k) == old(self).cached(k),
    {
        proof {
            use_type_invariant(&*self);
        }
        self.show_help = false;
        self.needs_redraw = true;
    }

    /// Records the terminal size; a new size drops the kept viewport and asks for
    /// a redraw.
    pub fn observe_terminal_size(&mut self, width: u16, height: u16)
        ensures
            final(self).spec_term_size() == (width, height),
            old(self).spec_term_size() != (width, height) ==> final(self).cache_empty()
                && final(self).spec_needs_redraw(),
            old(self).spec_term_size() == (width, height) ==> (forall|k: ViewportCacheKey|
                #[trigger] final(self).cached(k) == old(self).cached(k)) && final(self).spec_needs_redraw() == old(self).spec_needs_redraw(),
            final(self).spec_anchor() == old(self).spec_anchor(),
            final(self).spec_viewer_index() == old(self).spec_viewer_index(),
            final(self).spec_kinds() == old(self).spec_kinds(),
            final(self).spec_names() == old(self).spec_names(),
    {
        proof {
            use_type_invariant(&*self);
        }
        if width != self.last_term_size.0 || height != self.last_term_size.1 {
            self.last_term_size = (width, height);
            self.viewport_cache.invalidate();
            self.needs_redraw = true;
        }
    }

    /// Takes the source byte a viewport reported as the shared byte position.
    pub fn note_source_byte(&mut self, source_byte: Option<u64>)
        ensures
            final(self).spec_byte_position() == match source_byte {
                Some(b) => b,
                None => old(self).spec_byte_position(),
            },
            final(self).spec_anchor() == old(self).spec_anchor(),
            final(self).spec_viewer_index() == old(self).spec_viewer_index(),
            final(self).spec_kinds() == old(self).spec_kinds(),
            final(self).spec_names() == old(self).spec_names(),
            forall|k: ViewportCacheKey| #[trigger] final(self).cached(k) == old(self).cached(k),
    {
        proof {
            use_type_invariant(&*self);
        }
        match source_byte {
            Some(b) => {
                self.byte_position = b;
            },
            None => {},
        }
    }

    /// The viewport for the current state: the kept one when it was rendered for
    /// the same viewer, position and size; else rendered by the active viewer and
    /// kept.
    pub fn cached_viewport(&mut self, content_width: u16, max_rows: u16) -> (v: &ViewportResult)
        ensures
            ({
                let key = ViewportCacheKey {
                    viewer_index: old(self).spec_viewer_index() as usize,
                    anchor_raw: old(self).spec_anchor().spec_raw(),
                    content_width,
                    max_rows,
                };
                &&& old(self).cached(key) matches Some(c) ==> *v == c && forall|k: ViewportCacheKey|
                    #[trigger] final(self).cached(k) == old(self).cached(k)
                &&& old(self).cached(key) is None ==> renders(
                    &*old(self).spec_viewers()[old(self).spec_viewer_index()],
                    &(ViewContext {
                        session: &old(self).spec_session(),
                        anchor: old(self).spec_anchor(),
                        content_width,
                        max_rows,
                    }),
                    *v,
                ) && forall|k: ViewportCacheKey| k != key ==> (#[trigger] final(self).cached(k)) is None
                &&& final(self).cached(key) == Some(*v)
            }),
            final(self).spec_viewers() == old(self).spec_viewers(),
            final(self).spec_session() == old(self).spec_session(),
            final(self).spec_anchor() == old(self).spec_anchor(),
            final(self).spec_viewer_index() == old(self).spec_viewer_index(),
            final(self).spec_kinds() == old(self).spec_kinds(),
            final(self).spec_names() == old(self).spec_names(),
            final(self).spec_byte_position() == old(self).spec_byte_position(),
            final(self).spec_show_help() == old(self).spec_show_help(),
            final(self).spec_show_metadata() == old(self).spec_show_metadata(),
            final(self).spec_needs_redraw() == old(self).spec_needs_redraw(),
    {
        proof {
            use_type_invariant(&*self);
        }
        let key = ViewportCacheKey {
            viewer_index: self.viewer_index,
            anchor_raw: self.anchor.raw(),
            content_width,
            max_rows,
        };
        if self.viewport_cache.get(key).is_none() {
            let ctx = ViewContext::new(&self.session, self.anchor, content_width, max_rows);
            let v: &Box<dyn FileViewer> = &self.viewers[self.viewer_index];
            let viewport = render_by(&**v, &ctx);
            self.viewport_cache.store(key, viewport);
        }
        self.viewport_cache.get(key).unwrap()
    }

    /// Takes the active viewer's source byte for the current anchor, where it has
    /// one; returns what the viewer answered.
    fn sync_byte_position(&mut self) -> (sb: Option<u64>)
        ensures
            gives_source_byte(
                &*old(self).spec_viewers()[old(self).spec_viewer_index()],
                &old(self).spec_session().spec_info(),
                old(self).spec_anchor(),
                sb,
            ),
            final(self).spec_byte_position() == match sb {
                Some(b) => b,
                None => old(self).spec_byte_position(),
            },
            final(self).spec_viewers() == old(self).spec_viewers(),
            final(self).spec_anchor() == old(self).spec_anchor(),
            final(self).spec_viewer_index() == old(self).spec_viewer_index(),
            final(self).spec_kinds() == old(self).spec_kinds(),
            final(self).spec_names() == old(self).spec_names(),
            final(self).spec_viewer_count() == old(self).spec_viewer_count(),
            final(self).spec_show_help() == old(self).spec_show_help(),
            final(self).spec_show_metadata() == old(self).spec_show_metadata(),
            final(self).spec_needs_redraw() == old(self).spec_needs_redraw(),
            final(self).spec_term_size() == old(self).spec_term_size(),
            final(self).spec_session() == old(self).spec_session(),
            forall|k: ViewportCacheKey| #[trigger] final(self).cached(k) == old(self).cached(k),
            old(self).spec_anchor() is Byte ==> final(self).spec_byte_position() == clamp_to_last(
                old(self).spec_anchor().spec_raw(),
                old(self).spec_file_size(),
            ),
    {
        proof {
            use_type_invariant(&*self);
        }
        let v: &Box<dyn FileViewer> = &self.viewers[self.viewer_index];
        let sb = source_byte_of(&**v, self.session.info(), self.anchor);
        match sb {
            Some(b) => {
                self.byte_position = b;
            },
            None => {},
        }
        sb
    }

    /// The anchor for source byte `byte` in viewer `viewer_index`: the byte itself
    /// (clamped to the last byte) for byte and frame viewers; for a display-line
    /// viewer the line it names, or else a fraction request.
    pub fn anchor_for_byte_in_viewer(&self, viewer_index: usize, byte: u64) -> (t: AnchorTarget)
        requires
            viewer_index < self.spec_viewer_count(),
        ensures
            self.spec_kinds()[viewer_index as int] != PositionKind::DisplayLine ==> t == AnchorTarget::Exact(
                ViewAnchor::spec_from_raw(
                    self.spec_kinds()[viewer_index as int],
                    clamp_to_last(byte, self.spec_file_size()),
                ),
            ),
            self.spec_kinds()[viewer_index as int] == PositionKind::DisplayLine ==> match t {
                AnchorTarget::Exact(a) => a is DisplayLine,
                AnchorTarget::Fraction { byte: b, byte_extent, .. } => b == clamp_to_last(
                    byte,
                    self.spec_file_size(),
                ) && byte_extent == clamp_to_last(u64::MAX, self.spec_file_size()),
            },
            target_for_byte(
                &*self.spec_viewers()[viewer_index as int],
                self.spec_kinds()[viewer_index as int],
                self.spec_session().spec_info(),
                byte,
                t,
            ),
    {
        proof {
            use_type_invariant(self);
        }
        let viewer: &Box<dyn FileViewer> = &self.viewers[viewer_index];
        let info = self.session.info();
        let last = if self.session.size() == 0 {
            0
        } else {
            self.session.size() - 1
        };
        let byte = if byte < last {
            byte
        } else {
            last
        };
        let kind = self.kinds[viewer_index];
        match kind {
            PositionKind::DisplayLine => {
                let l = display_line_of(&**viewer, info, byte);
                match l {
                    Some(line) => AnchorTarget::Exact(ViewAnchor::DisplayLine(line)),
                    None => {
                        let extent = scroll_extent_of(&**viewer, info);
                        let t = AnchorTarget::Fraction { byte, byte_extent: last, line_extent: extent };
                        assert(gives_scroll_extent(&**viewer, info, extent));
                        t
                    },
                }
            },
            _ => AnchorTarget::Exact(ViewAnchor::from_raw(kind, byte)),
        }
    }

    /// Applies an action. Scrolling, jumping, switching viewers and the sidebar
    /// drop the kept viewport; the help overlay keeps it; every action but `Quit`
    /// asks for a redraw. When switching to a display-line viewer needs a position
    /// by scroll fraction, the request is returned and the switch is finished by
    /// [`App::complete_fraction`].
    pub fn apply(&mut self, action: TuiAction, width: u16) -> (pending: Option<FractionRequest>)
        ensures
            final(self).spec_viewers() == old(self).spec_viewers(),
            final(self).spec_viewer_count() == old(self).spec_viewer_count(),
            final(self).spec_session() == old(self).spec_session(),
            action != TuiAction::Quit ==> final(self).spec_needs_redraw(),
            action == TuiAction::Quit ==> final(self).spec_needs_redraw() == old(self).spec_needs_redraw()
                && final(self).spec_anchor() == old(self).spec_anchor(),
            action == TuiAction::ToggleHelp ==> final(self).spec_show_help() == !old(self).spec_show_help()
                && final(self).spec_anchor() == old(self).spec_anchor() && forall|k: ViewportCacheKey|
                #[trigger] final(self).cached(k) == old(self).cached(k),
            action == TuiAction::ToggleMetadata ==> final(self).spec_show_metadata() == !old(self).spec_show_metadata() && final(self).spec_anchor() == old(self).spec_anchor(),
            action != TuiAction::ToggleHelp ==> final(self).spec_show_help() == old(self).spec_show_help(),
            action != TuiAction::ToggleMetadata ==> final(self).spec_show_metadata() == old(self).spec_show_metadata(),
            action != TuiAction::Quit && action != TuiAction::ToggleHelp ==> final(self).cache_empty(),
            action == TuiAction::ToggleViewer ==> final(self).spec_viewer_index() == if old(self).spec_viewer_count() > 1 {
                (old(self).spec_viewer_index() + 1) % old(self).spec_viewer_count()
            } else {
                old(self).spec_viewer_index()
            },
            action != TuiAction::ToggleViewer ==> final(self).spec_viewer_index() == old(self).spec_viewer_index(),
            action == TuiAction::GoToStart ==> final(self).spec_anchor().spec_raw() == 0,
            action == TuiAction::ToggleViewer && old(self).spec_viewer_count() > 1
                ==> switched_as_viewers_answer(
                *old(self),
                final(self).spec_anchor(),
                pending,
                final(self).spec_byte_position(),
            ),
            action == TuiAction::ToggleViewer && old(self).spec_viewer_count() <= 1
                ==> final(self).spec_anchor() == old(self).spec_anchor()
                && final(self).spec_byte_position() == old(self).spec_byte_position(),
            (action is ScrollDown || action is ScrollUp || action is PageDown || action is PageUp
                || action == TuiAction::GoToEnd) ==> synced_position(
                &*old(self).spec_viewers()[old(self).spec_viewer_index()],
                old(self).spec_session().spec_info(),
                old(self).spec_anchor(),
                final(self).spec_anchor(),
                old(self).spec_byte_position(),
                final(self).spec_byte_position(),
            ),
            action == TuiAction::GoToStart ==> synced_position(
                &*old(self).spec_viewers()[old(self).spec_viewer_index()],
                old(self).spec_session().spec_info(),
                old(self).spec_anchor(),
                final(self).spec_anchor(),
                0,
                final(self).spec_byte_position(),
            ),
            (action == TuiAction::Quit || action == TuiAction::ToggleHelp || action
                == TuiAction::ToggleMetadata)
                ==> final(self).spec_byte_position() == old(self).spec_byte_position(),
            action matches TuiAction::ScrollDown(n) ==> moved_by_active_viewer(
                *old(self),
                old(self).spec_anchor(),
                width,
                n as i64,
                final(self).spec_anchor(),
            ),
            action matches TuiAction::PageDown(n) ==> moved_by_active_viewer(
                *old(self),
                old(self).spec_anchor(),
                width,
                n as i64,
                final(self).spec_anchor(),
            ),
            action matches TuiAction::ScrollUp(n) ==> moved_by_active_viewer(
                *old(self),
                old(self).spec_anchor(),
                width,
                (-(n as i64)) as i64,
                final(self).spec_anchor(),
            ),
            action matches TuiAction::PageUp(n) ==> moved_by_active_viewer(
                *old(self),
                old(self).spec_anchor(),
                width,
                (-(n as i64)) as i64,
                final(self).spec_anchor(),
            ),
            action == TuiAction::GoToEnd ==> moved_by_active_viewer(
                *old(self),
                ViewAnchor::spec_from_raw(
                    old(self).spec_kinds()[old(self).spec_viewer_index()],
                    end_jump(old(self).spec_kinds()[old(self).spec_viewer_index()], old(self).spec_file_size()),
                ),
                width,
                -8i64,
                final(self).spec_anchor(),
            ),
            pending is Some ==> action == TuiAction::ToggleViewer,
            pending matches Some(p) ==> p.previous == old(self).spec_anchor(),
            final(self).spec_kinds() == old(self).spec_kinds(),
            final(self).spec_names() == old(self).spec_names(),
            action == TuiAction::GoToStart ==> final(self).spec_anchor() == ViewAnchor::spec_from_raw(
                old(self).spec_kinds()[old(self).spec_viewer_index()],
                0,
            ),
            action == TuiAction::GoToStart && old(self).spec_kinds()[old(self).spec_viewer_index()]
                == PositionKind::Byte ==> final(self).spec_byte_position() == 0,
            ({
                let next = (old(self).spec_viewer_index() + 1) % old(self).spec_viewer_count();
                let kept = clamp_to_last(old(self).spec_anchor().spec_raw(), old(self).spec_file_size());
                action == TuiAction::ToggleViewer && old(self).spec_viewer_count() > 1 && old(
                    self,
                ).spec_anchor() is Byte && old(self).spec_kinds()[next] != PositionKind::DisplayLine
                    ==> pending is None && final(self).spec_anchor() == ViewAnchor::spec_from_raw(
                    old(self).spec_kinds()[next],
                    kept,
                ) && (old(self).spec_kinds()[next] == PositionKind::Byte
                    ==> final(self).spec_byte_position() == kept)
            }),
    {
        proof {
            use_type_invariant(&*self);
        }
        let old_anchor = self.anchor;
        let ghost mut g_sb: Option<u64> = None;
        let ghost mut g_t: AnchorTarget = AnchorTarget::Exact(old_anchor);
        let mut invalidate = false;
        let mut pending: Option<FractionRequest> = None;
        match action {
            TuiAction::Quit => {},
            TuiAction::ScrollDown(n) | TuiAction::PageDown(n) => {
                invalidate = true;
                let ctx = ViewContext::new(&self.session, self.anchor, width, 1);
                let v: &Box<dyn FileViewer> = &self.viewers[self.viewer_index];
                let a = advance_by(&**v, &ctx, n as i64);
                self.anchor = a;
            },
            TuiAction::ScrollUp(n) | TuiAction::PageUp(n) => {
                invalidate = true;
                let ctx = ViewContext::new(&self.session, self.anchor, width, 1);
                let v: &Box<dyn FileViewer> = &self.viewers[self.viewer_index];
                let a = advance_by(&**v, &ctx, -(n as i64));
                self.anchor = a;
            },
            TuiAction::GoToStart => {
                invalidate = true;
                let kind = self.kinds[self.viewer_index];
                self.anchor = ViewAnchor::from_raw(kind, 0);
                self.byte_position = 0;
            },
            TuiAction::GoToEnd => {
                invalidate = true;
                let kind = self.kinds[self.viewer_index];
                let jump = match kind {
                    PositionKind::Byte => self.session.size(),
                    _ => u64::MAX / 2,
                };
                let ctx = ViewContext::new(&self.session, ViewAnchor::from_raw(kind, jump), width, 1);
                let v: &Box<dyn FileViewer> = &self.viewers[self.viewer_index];
                let a = advance_by(&**v, &ctx, -8);
                self.anchor = a;
            },
            TuiAction::ToggleHelp => {
                self.show_help = !self.show_help;
            },
            TuiAction::ToggleViewer => {
                invalidate = true;
                if self.viewers.len() > 1 {
                    let ghost before = *self;
                    let sb = self.sync_byte_position();
                    proof {
                        use_type_invariant(&*self);
                    }
                    let new_index = (self.viewer_index + 1) % self.viewers.len();
                    let target = self.anchor_for_byte_in_viewer(new_index, self.byte_position);
                    self.viewer_index = new_index;
                    match target {
                        AnchorTarget::Exact(a) => {
                            self.anchor = a;
                        },
                        AnchorTarget::Fraction { byte, byte_extent, line_extent } => {
                            pending = Some(
                                FractionRequest { byte, byte_extent, line_extent, previous: old_anchor },
                            );
                        },
                    }
                    proof {
                        assert(target_for_byte(
                            &*before.spec_viewers()[new_index as int],
                            before.spec_kinds()[new_index as int],
                            before.spec_session().spec_info(),
                            byte_or(sb, before.spec_byte_position()),
                            target,
                        ));
                        g_sb = sb;
                        g_t = target;
                    }
                }
            },
            TuiAction::ToggleMetadata => {
                invalidate = true;
                self.show_metadata = !self.show_metadata;
            },
        }
        if invalidate {
            self.viewport_cache.invalidate();
        }
        if action != TuiAction::Quit {
            self.needs_redraw = true;
        }
        let ghost kept = self.byte_position;
        let ghost mid = *self;
        if pending.is_none() && self.anchor != old_anchor {
            let sb2 = self.sync_byte_position();
            proof {
                assert(gives_source_byte(
                    &*mid.spec_viewers()[mid.spec_viewer_index()],
                    &mid.spec_session().spec_info(),
                    mid.spec_anchor(),
                    sb2,
                ));
            }
        }
        proof {
            assert(synced_position(
                &*mid.spec_viewers()[mid.spec_viewer_index()],
                mid.spec_session().spec_info(),
                old_anchor,
                mid.spec_anchor(),
                kept,
                self.byte_position,
            ));
            if action == TuiAction::ToggleViewer && old(self).spec_viewer_count() > 1 {
                assert(gives_source_byte(
                    &*old(self).spec_viewers()[old(self).spec_viewer_index()],
                    &old(self).spec_session().spec_info(),
                    old(self).spec_anchor(),
                    g_sb,
                ));
                assert(target_for_byte(
                    &*old(self).spec_viewers()[mid.spec_viewer_index()],
                    old(self).spec_kinds()[mid.spec_viewer_index()],
                    old(self).spec_session().spec_info(),
                    byte_or(g_sb, old(self).spec_byte_position()),
                    g_t,
                ));
            }
        }
        pending
    }

    /// Finishes a viewer switch that needed a position by scroll fraction: the
    /// display line the caller computed becomes the anchor.
    pub fn complete_fraction(&mut self, request: FractionRequest, line: u64)
        ensures
            final(self).spec_anchor() == ViewAnchor::DisplayLine(line),
            final(self).spec_viewer_index() == old(self).spec_viewer_index(),
            final(self).spec_kinds() == old(self).spec_kinds(),
            final(self).spec_names() == old(self).spec_names(),
            final(self).spec_viewer_count() == old(self).spec_viewer_count(),
            final(self).spec_show_help() == old(self).spec_show_help(),
            final(self).spec_show_metadata() == old(self).spec_show_metadata(),
            final(self).spec_needs_redraw() == old(self).spec_needs_redraw(),
            forall|k: ViewportCacheKey| #[trigger] final(self).cached(k) == old(self).cached(k),
    {
        proof {
            use_type_invariant(&*self);
        }
        self.anchor = ViewAnchor::DisplayLine(line);
        if self.anchor != request.previous {
            self.sync_byte_position();
        }
    }
}

/// A key as the viewer reads it.
#[derive(Debug, Clone, Copy, PartialEq, Eq, Structural)]
pub enum Key {
    Char(char),
    Esc,
    Down,
    Up,
    PageDown,
    PageUp,
    Home,
    End,
    Tab,
    Other,
}

/// What a key press does.
#[derive(Debug, Clone, Copy, PartialEq, Eq, Structural)]
pub enum KeyOutcome {
    /// Leave the viewer.
    Quit,
    /// Close the help overlay.
    CloseHelp,
    /// Nothing.
    Ignore,
    /// Apply this action.
    Apply(TuiAction),
}

/// What a key does: while help is shown, `q` quits and any other key closes the
/// help; otherwise the key map (`q`/Esc quit, `j`/Down and `k`/Up scroll, PgDn,
/// PgUp, Ctrl-d and Ctrl-u page by `page_size`, `g`/Home and `G`/End jump,
/// `?` help, Tab/`h` switch viewer, `m` sidebar).
pub open spec fn spec_key_outcome(key: Key, ctrl: bool, show_help: bool, page_size: u16) -> KeyOutcome {
    if show_help {
        if key == Key::Char('q') {
            KeyOutcome::Quit
        } else {
            KeyOutcome::CloseHelp
        }
    } else {
        match key {
            Key::Char('q') | Key::Esc => KeyOutcome::Quit,
            Key::Char('j') | Key::Down => KeyOutcome::Apply(TuiAction::ScrollDown(1)),
            Key::Char('k') | Key::Up => KeyOutcome::Apply(TuiAction::ScrollUp(1)),
            Key::PageDown => KeyOutcome::Apply(TuiAction::PageDown(page_size)),
            Key::PageUp => KeyOutcome::Apply(TuiAction::PageUp(page_size)),
            Key::Char('d') => if ctrl {
                KeyOutcome::Apply(TuiAction::PageDown(page_size))
            } else {
                KeyOutcome::Ignore
            },
            Key::Char('u') => if ctrl {
                KeyOutcome::Apply(TuiAction::PageUp(page_size))
            } else {
                KeyOutcome::Ignore
            },
            Key::Char('g') | Key::Home => KeyOutcome::Apply(TuiAction::GoToStart),
            Key::Char('G') | Key::End => KeyOutcome::Apply(TuiAction::GoToEnd),
            Key::Char('?') => KeyOutcome::Apply(TuiAction::ToggleHelp),
            Key::Tab | Key::Char('h') => KeyOutcome::Apply(TuiAction::ToggleViewer),
            Key::Char('m') => KeyOutcome::Apply(TuiAction::ToggleMetadata),
            _ => KeyOutcome::Ignore,
        }
    }
}

/// See [`spec_key_outcome`].
pub fn key_outcome(key: Key, ctrl: bool, show_help: bool, page_size: u16) -> (o: KeyOutcome)
    ensures
        o == spec_key_outcome(key, ctrl, show_help, page_size),
{
    if show_help {
        return if key == Key::Char('q') {
            KeyOutcome::Quit
        } else {
            KeyOutcome::CloseHelp
        };
    }
    match key {
        Key::Char('q') | Key::Esc => KeyOutcome::Quit,
        Key::Char('j') | Key::Down => KeyOutcome::Apply(TuiAction::ScrollDown(1)),
        Key::Char('k') | Key::Up => KeyOutcome::Apply(TuiAction::ScrollUp(1)),
        Key::PageDown => KeyOutcome::Apply(TuiAction::PageDown(page_size)),
        Key::PageUp => KeyOutcome::Apply(TuiAction::PageUp(page_size)),
        Key::Char('d') => if ctrl {
            KeyOutcome::Apply(TuiAction::PageDown(page_size))
        } else {
            KeyOutcome::Ignore
        },
        Key::Char('u') => if ctrl {
            KeyOutcome::Apply(TuiAction::PageUp(page_size))
        } else {
            KeyOutcome::Ignore
        },
        Key::Char('g') | Key::Home => KeyOutcome::Apply(TuiAction::GoToStart),
        Key::Char('G') | Key::End => KeyOutcome::Apply(TuiAction::GoToEnd),
        Key::Char('?') => KeyOutcome::Apply(TuiAction::ToggleHelp),
        Key::Tab | Key::Char('h') => KeyOutcome::Apply(TuiAction::ToggleViewer),
        Key::Char('m') => KeyOutcome::Apply(TuiAction::ToggleMetadata),
        _ => KeyOutcome::Ignore,
    }
}

/// `max(a - b, lo)`, the subtraction stopping at 0.
pub open spec fn sub_at_least(a: u16, b: u16, lo: u16) -> u16 {
    let d: int = if a > b { a - b } else { 0 };
    if d < lo { lo } else { d as u16 }
}

/// Width left for content in a terminal of `width` columns (at least 20).
pub fn usable_width(width: u16) -> (r: u16)
    ensures
        r == sub_at_least(width, 4, 20),
{
    let d = if width > 4 {
        width - 4
    } else {
        0
    };
    if d < 20 {
        20
    } else {
        d
    }
}

/// Rows moved by a page in a terminal of `height` rows (at least 5).
pub fn page_size(height: u16) -> (r: u16)
    ensures
        r == sub_at_least(height, 7, 5),
{
    let d = if height > 7 {
        height - 7
    } else {
        0
    };
    if d < 5 {
        5
    } else {
        d
    }
}

/// Content width for an area `area_width` columns wide: its inside (at least 8),
/// no wider than the usable width.
pub fn content_width(area_width: u16, usable: u16) -> (r: u16)
    ensures
        r == if sub_at_least(area_width, 4, 8) < usable { sub_at_least(area_width, 4, 8) } else { usable },
{
    let d = if area_width > 4 {
        area_width - 4
    } else {
        0
    };
    let w = if d < 8 {
        8
    } else {
        d
    };
    if w < usable {
        w
    } else {
        usable
    }
}

/// Content rows in an area `height` rows high (at least 1).
pub fn content_rows(height: u16) -> (r: u16)
    ensures
        r == sub_at_least(height, 1, 1),
{
    let d = if height > 1 {
        height - 1
    } else {
        0
    };
    if d < 1 {
        1
    } else {
        d
    }
}

/// The header's viewer label: the name, with `(index/count)` when there are several.
pub open spec fn spec_viewer_label(name: Seq<char>, index: usize, count: usize) -> Seq<char> {
    if count > 1 {
        name + " ("@ + decimal((index + 1) as nat) + "/"@ + decimal(count as nat) + ")"@
    } else {
        name
    }
}

/// See [`spec_viewer_label`].
pub fn viewer_label(name: &str, index: usize, count: usize) -> (s: String)
    requires
        index < count,
    ensures
        s@ == spec_viewer_label(name@, index, count),
{
    let mut s = name.to_owned();
    if count > 1 {
        s.append(" (");
        push_decimal(&mut s, (index + 1) as u64);
        s.append("/");
        push_decimal(&mut s, count as u64);
        s.append(")");
    }
    s
}

/// ` {path}  ·  {size}  ·  {viewer}  ·  {position}`.
pub fn header_text(path: &str, size_text: &str, label: &str, position: &str) -> (s: String)
    ensures
        s@ == " "@ + path@ + "  ·  "@ + size_text@ + "  ·  "@ + label@ + "  ·  "@ + position@,
{
    let mut s = " ".to_owned();
    s.append(path);
    s.append("  ·  ");
    s.append(size_text);
    s.append("  ·  ");
    s.append(label);
    s.append("  ·  ");
    s.append(position);
    s
}

/// The footer: the viewer's status, then the key hints (the viewer switch only
/// when there are several viewers).
pub open spec fn spec_footer(status: Seq<char>, several: bool) -> Seq<char> {
    " "@ + status + "  │  "@ + (if several {
        "q quit  Tab/h viewer  m meta  ? help"@
    } else {
        "q quit  m meta  ? help"@
    })
}

/// See [`spec_footer`].
pub fn footer_text(status: &str, several: bool) -> (s: String)
    ensures
        s@ == spec_footer(status@, several),
{
    let mut s = " ".to_owned();
    s.append(status);
    s.append("  │  ");
    if several {
        s.append("q quit  Tab/h viewer  m meta  ? help");
    } else {
        s.append("q quit  m meta  ? help");
    }
    s
}

/// The fixed lines at the top of the help overlay.
pub open spec fn help_head() -> Seq<Seq<char>> {
    seq![
        "rcat — Keyboard Shortcuts"@,
        Seq::empty(),
        "q / Esc     Quit"@,
        "j / ↓       Scroll down"@,
        "k / ↑       Scroll up"@,
        "Ctrl-d      Page down"@,
        "Ctrl-u      Page up"@,
        "PgUp/PgDn   Page up / down"@,
        "g / Home    Go to start"@,
        "G / End     Go to end"@,
        "m           Toggle metadata sidebar"@,
    ]
}

/// The fixed lines at the bottom of the help overlay.
pub open spec fn help_tail() -> Seq<Seq<char>> {
    seq!["?           Toggle this help"@, Seq::empty(), "Esc / ?     Close help"@]
}

/// The viewer names joined by arrows.
pub open spec fn joined_names(names: Seq<&str>) -> Seq<char>
    decreases names.len(),
{
    if names.len() == 0 {
        Seq::empty()
    } else if names.len() == 1 {
        names[0]@
    } else {
        joined_names(names.drop_last()) + " → "@ + names.last()@
    }
}

/// The help overlay: the fixed lines, with a line listing the viewers in
/// order when there are several.
pub open spec fn spec_help_lines(names: Seq<&str>) -> Seq<Seq<char>> {
    help_head() + (if names.len() > 1 {
        seq!["Tab / h     Cycle viewer ("@ + joined_names(names) + ")"@]
    } else {
        Seq::empty()
    }) + help_tail()
}

/// See [`spec_help_lines`].
pub fn help_lines(names: &Vec<&str>) -> (r: Vec<String>)
    ensures
        r.deep_view() == spec_help_lines(names@),
{
    let mut r: Vec<String> = Vec::new();
    r.push("rcat — Keyboard Shortcuts".to_owned());
    r.push(String::new());
    r.push("q / Esc     Quit".to_owned());
    r.push("j / ↓       Scroll down".to_owned());
    r.push("k / ↑       Scroll up".to_owned());
    r.push("Ctrl-d      Page down".to_owned());
    r.push("Ctrl-u      Page up".to_owned());
    r.push("PgUp/PgDn   Page up / down".to_owned());
    r.push("g / Home    Go to start".to_owned());
    r.push("G / End     Go to end".to_owned());
    r.push("m           Toggle metadata sidebar".to_owned());
    proof {
        assert(r.deep_view() =~= help_head());
    }
    let ghost head = r.deep_view();
    if names.len() > 1 {
        let mut s = "Tab / h     Cycle viewer (".to_owned();
        let ghost prefix = s@;
        proof {
            assert(s@ =~= prefix + joined_names(names@.take(0)));
        }
        let mut i: usize = 0;
        while i < names.len()
            invariant
                i <= names@.len(),
                r.deep_view() == head,
                s@ == prefix + joined_names(names@.take(i as int)),
            decreases names@.len() - i,
        {
            if i > 0 {
                s.append(" → ");
            }
            s.append(names[i]);
            proof {
                let t = names@.take(i + 1);
                assert(t.drop_last() =~= names@.take(i as int));
                assert(t.last() == names@[i as int]);
                if i == 0 {
                    assert(s@ =~= prefix + joined_names(t));
                } else {
                    assert(s@ =~= prefix + joined_names(t));
                }
            }
            i = i + 1;
        }
        s.append(")");
        proof {
            assert(names@.take(names@.len() as int) =~= names@);
        }
        r.push(s);
    }
    r.push("?           Toggle this help".to_owned());
    r.push(String::new());
    r.push("Esc / ?     Close help".to_owned());
    proof {
        assert(r.deep_view() =~= spec_help_lines(names@));
    }
    r
}

} // verus!
