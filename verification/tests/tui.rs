use std::path::PathBuf;
use std::sync::atomic::{AtomicUsize, Ordering};
use std::sync::Arc;

use rcat::dump::DumpOptions;
use rcat::file_info::{ContentKind, FileInfo, PreliminaryDetection};
use rcat::metadata::{
    format_header_position, kind_label, magic_hex_preview, metadata_fields, position_percent,
    position_percent_in_extent,
};
use rcat::probe::FileProbe;
use rcat::session::{FileBacking, FileSession};
use rcat::styling::{
    cell_class, content_style, hex_row_parts, json_row_style, text_class, ByteClass, ContentStyle,
    JsonRowStyle, TextClass,
};
use rcat::tui::{
    content_rows, content_width, footer_text, header_text, help_lines, key_outcome, page_size,
    usable_width, viewer_label, App, Key, KeyOutcome, TuiAction,
};
use rcat::view::{PositionKind, ViewAnchor, ViewContext, ViewportResult};
use rcat::viewer::{FileViewer, ViewerPriority};
use rcat::viewport_cache::{ViewportCache, ViewportCacheKey};

fn scroll_fraction(anchor: u64, extent: u64) -> f64 {
    if extent == 0 {
        0.0
    } else {
        (anchor as f64 / extent as f64).clamp(0.0, 1.0)
    }
}

fn anchor_from_fraction(fraction: f64, extent: u64) -> u64 {
    if extent == 0 {
        return 0;
    }
    let f = fraction.clamp(0.0, 1.0);
    ((f * extent as f64).round() as u64).min(extent)
}

fn session_of(bytes: &[u8]) -> FileSession {
    let mut m = memmap2::MmapMut::map_anon(bytes.len()).unwrap();
    m[..bytes.len()].copy_from_slice(bytes);
    let ro = m.make_read_only().unwrap();
    let backing = FileBacking::new(PathBuf::from("t.txt"), ro, bytes.len() as u64);
    let detected = PreliminaryDetection { mime_type: None, extension: None, format: None, kind: ContentKind::Text };
    let info = FileInfo::from_parts(PathBuf::from("t.txt"), None, bytes.len() as u64, Some("txt"), detected);
    FileSession::from_info(info.with_backing(Arc::new(backing))).unwrap()
}

fn make_test_session() -> FileSession {
    session_of(b"hello world\n")
}

/// A viewer with a predictable grid of display lines.
struct TestViewer {
    name: &'static str,
    total_lines: usize,
    render_calls: Arc<AtomicUsize>,
}

impl TestViewer {
    fn new(name: &'static str, total_lines: usize) -> Self {
        Self { name, total_lines, render_calls: Arc::new(AtomicUsize::new(0)) }
    }

    fn render_calls_handle(&self) -> Arc<AtomicUsize> {
        Arc::clone(&self.render_calls)
    }
}

impl Default for TestViewer {
    fn default() -> Self {
        Self::new("Test", 100)
    }
}

impl FileViewer for TestViewer {
    fn position_kind(&self) -> PositionKind {
        PositionKind::DisplayLine
    }

    fn scroll_extent(&self, _info: &FileInfo) -> u64 {
        self.total_lines.saturating_sub(1).max(1) as u64
    }

    fn source_byte_for_anchor(&self, info: &FileInfo, anchor: ViewAnchor) -> Option<u64> {
        match anchor {
            ViewAnchor::Byte(b) => Some(b.min(info.size.saturating_sub(1))),
            ViewAnchor::DisplayLine(line) => {
                let extent = self.scroll_extent(info);
                Some(anchor_from_fraction(scroll_fraction(line, extent), info.size.saturating_sub(1)))
            }
            ViewAnchor::Frame(_) => None,
        }
    }

    fn display_line_for_byte(&self, info: &FileInfo, byte: u64) -> Option<u64> {
        let extent = self.scroll_extent(info);
        let file_extent = info.size.saturating_sub(1).max(1);
        Some(anchor_from_fraction(scroll_fraction(byte.min(file_extent), file_extent), extent))
    }

    fn name(&self) -> &'static str {
        self.name
    }

    fn can_handle(&self, _probe: &dyn FileProbe) -> ViewerPriority {
        ViewerPriority::Normal
    }

    fn dump(&self, _info: &FileInfo, _out: &mut Vec<u8>, _opts: &DumpOptions) -> std::io::Result<()> {
        Ok(())
    }

    fn render_lines(&self, _info: &FileInfo, start_offset: u64, max_rows: u16, _width: u16) -> Vec<String> {
        let start = start_offset as usize;
        (0..max_rows as usize)
            .map(|i| {
                let line_num = start + i;
                if line_num < self.total_lines {
                    format!("LINE {:03}", line_num)
                } else {
                    "(end)".to_string()
                }
            })
            .collect()
    }

    fn advance_lines(&self, _info: &FileInfo, current: u64, delta: i64, _width: u16) -> u64 {
        let new_pos = (current as i64 + delta).max(0) as u64;
        new_pos.min((self.total_lines - 1) as u64)
    }

    fn status(&self, _info: &FileInfo, pos: u64) -> String {
        format!("Test @ {}", pos)
    }

    fn render_viewport(&self, ctx: &ViewContext) -> ViewportResult {
        self.render_calls.fetch_add(1, Ordering::Relaxed);
        let anchor = ctx.anchor;
        let raw = ctx.anchor_raw();
        let lines = self.render_lines(ctx.info(), raw, ctx.max_rows, ctx.content_width);
        let status = self.status(ctx.info(), raw);
        ViewportResult { lines, status, anchor, source_byte: None }
    }
}

/// A byte-position viewer with the trait's default behaviour.
struct ByteViewer;

impl FileViewer for ByteViewer {
    fn name(&self) -> &'static str {
        "Bytes"
    }

    fn can_handle(&self, _probe: &dyn FileProbe) -> ViewerPriority {
        ViewerPriority::Low
    }

    fn dump(&self, _info: &FileInfo, _out: &mut Vec<u8>, _opts: &DumpOptions) -> std::io::Result<()> {
        Ok(())
    }
}

fn key(viewer_index: usize, anchor_raw: u64) -> ViewportCacheKey {
    ViewportCacheKey { viewer_index, anchor_raw, content_width: 80, max_rows: 10 }
}

fn sample_viewport() -> ViewportResult {
    ViewportResult {
        lines: vec!["line".to_string()],
        status: "ok".to_string(),
        anchor: ViewAnchor::Byte(0),
        source_byte: Some(0),
    }
}

#[test]
fn position_percent_edges() {
    assert_eq!(position_percent(0, 0), 0);
    assert_eq!(position_percent(0, 100), 0);
    assert_eq!(position_percent(50, 100), 50);
    assert_eq!(position_percent(100, 100), 100);
    assert_eq!(position_percent(500, 100), 100);
    assert_eq!(position_percent(u64::MAX, u64::MAX), 1);
}

#[test]
fn position_percent_in_extent_works() {
    assert_eq!(position_percent_in_extent(221, 438), 50);
}

#[test]
fn header_position_display_line() {
    let s = format_header_position(PositionKind::DisplayLine, 220, 10_000, 438);
    assert!(s.contains("line 221"));
    assert!(s.contains("50%"));
    assert_eq!(format_header_position(PositionKind::Byte, 5, 10, 0), "byte 5 / 10 B (50%)");
    assert_eq!(format_header_position(PositionKind::Frame, 3, 0, 6), "frame 3 (50%)");
}

#[test]
fn invalidate_clears_entry() {
    let mut cache = ViewportCache::default();
    let k = key(0, 0);
    cache.store(k, sample_viewport());
    assert!(cache.get(k).is_some());
    cache.invalidate();
    assert!(cache.get(k).is_none());
}

#[test]
fn different_key_is_cache_miss() {
    let mut cache = ViewportCache::default();
    cache.store(key(0, 0), sample_viewport());
    assert!(cache.get(key(0, 1)).is_none());
    assert_eq!(cache.get(key(0, 0)).unwrap().status, "ok");
}

#[test]
fn magic_hex_preview_reads_bytes() {
    let hex = magic_hex_preview(b"\x7fELF");
    assert!(hex.starts_with("7f 45 4c 46"));
    assert_eq!(magic_hex_preview(b""), "(empty)");
    assert_eq!(magic_hex_preview(&[0xabu8; 20]).len(), 16 * 3 - 1);
}

#[test]
fn build_metadata_includes_mime_when_present() {
    let detected = PreliminaryDetection {
        mime_type: Some("application/json".into()),
        extension: Some("json".into()),
        format: Some("JSON".into()),
        kind: ContentKind::Text,
    };
    let mut info = FileInfo::from_parts(PathBuf::from("x.json"), None, 2, Some("json"), detected);
    info.type_description = "JSON".into();
    let fields = metadata_fields(&info, "2 B".to_string(), magic_hex_preview(b"{}"));
    let labels: Vec<&str> = fields.iter().map(|f| f.label.as_str()).collect();
    assert_eq!(labels, vec!["Size", "Kind", "Type", "Ext", "MIME", "Magic"]);
    let text: String = fields.iter().map(|f| format!("{}{}", f.label, f.value)).collect();
    assert!(text.contains("MIME"));
    assert!(text.contains("application/json"));
    assert_eq!(kind_label(ContentKind::Binary), "Binary");
}

#[test]
fn hex_styling_preserves_line_count() {
    let line = "00000000: 00 01 02 03 04 05 06 07  08 09 0a 0b 0c 0d 0e 0f |................|";
    let parts = hex_row_parts(line).unwrap();
    assert_eq!(parts.address, "00000000");
    assert_eq!(parts.cells.len(), 16);
    assert_eq!(parts.cells[0].1, ByteClass::Null);
    assert_eq!(parts.ascii, "................|");
    assert!(hex_row_parts("(end of file)").is_none());
    assert_eq!(cell_class("41"), ByteClass::Printable);
    assert_eq!(cell_class("ff"), ByteClass::NonPrintable);
    assert_eq!(cell_class("zz"), ByteClass::Null);
}

#[test]
fn json_bracket_line_gets_bracket_style() {
    assert_eq!(json_row_style("  {"), JsonRowStyle::Bracket);
    assert_eq!(json_row_style("(end of JSON view)"), JsonRowStyle::System);
}

#[test]
fn json_key_value_line_splits_key_and_value_spans() {
    match json_row_style(r#"  "name": 42,"#) {
        JsonRowStyle::KeyValue(k, v) => {
            assert_eq!(k, r#"  "name":"#);
            assert_eq!(v, " 42,");
        }
        other => panic!("expected key/value, got {other:?}"),
    }
    assert_eq!(json_row_style("plain"), JsonRowStyle::Body);
}

#[test]
fn text_and_viewer_styles() {
    assert_eq!(text_class("  (empty file)"), TextClass::System);
    assert_eq!(text_class("# heading"), TextClass::Comment);
    assert_eq!(text_class("-- sql"), TextClass::Comment);
    assert_eq!(text_class("code"), TextClass::Body);
    assert_eq!(content_style("Hex"), ContentStyle::Hex);
    assert_eq!(content_style("JSON"), ContentStyle::Json);
    assert_eq!(content_style("Text"), ContentStyle::Text);
}

#[test]
fn viewport_cache_reuses_render_on_identical_request() {
    let viewer = TestViewer::default();
    let calls = viewer.render_calls_handle();
    let mut app = App::new(make_test_session(), vec![Box::new(viewer)], 0, 0);
    let _ = app.cached_viewport(80, 10);
    assert_eq!(calls.load(Ordering::Relaxed), 1);
    let _ = app.cached_viewport(80, 10);
    assert_eq!(calls.load(Ordering::Relaxed), 1, "second identical request must hit cache");
}

#[test]
fn viewport_cache_miss_after_scroll() {
    let viewer = TestViewer::default();
    let calls = viewer.render_calls_handle();
    let mut app = App::new(make_test_session(), vec![Box::new(viewer)], 0, 0);
    let _ = app.cached_viewport(80, 10);
    assert_eq!(calls.load(Ordering::Relaxed), 1);
    let _ = app.apply(TuiAction::ScrollDown(1), 80);
    let _ = app.cached_viewport(80, 10);
    assert_eq!(calls.load(Ordering::Relaxed), 2, "scroll must invalidate cache");
}

#[test]
fn toggle_help_redraws_without_extra_viewport_render() {
    let viewer = TestViewer::default();
    let calls = viewer.render_calls_handle();
    let mut app = App::new(make_test_session(), vec![Box::new(viewer)], 0, 0);
    let _ = app.cached_viewport(80, 10);
    assert_eq!(calls.load(Ordering::Relaxed), 1);
    app.mark_drawn();
    let _ = app.apply(TuiAction::ToggleHelp, 80);
    assert!(app.needs_redraw());
    let _ = app.cached_viewport(80, 10);
    assert_eq!(calls.load(Ordering::Relaxed), 1, "help toggle should not invalidate viewport cache");
}

#[test]
fn app_new_and_offset() {
    let app = App::new(make_test_session(), vec![Box::new(TestViewer::default())], 0, 42);
    assert_eq!(app.offset(), 42);
}

#[test]
fn apply_scroll_changes_offset() {
    let mut app = App::new(make_test_session(), vec![Box::new(TestViewer::default())], 0, 5);
    let _ = app.apply(TuiAction::ScrollDown(3), 80);
    assert_eq!(app.offset(), 8);
    let _ = app.apply(TuiAction::ScrollUp(2), 80);
    assert_eq!(app.offset(), 6);
}

#[test]
fn toggle_viewer_maps_display_line_fraction_to_byte_offset() {
    let session = session_of(&vec![0u8; 1000]);
    let mut app = App::new(
        session,
        vec![Box::new(TestViewer::new("Line", 100)), Box::new(ByteViewer)],
        0,
        50,
    );
    let pending = app.apply(TuiAction::ToggleViewer, 80);
    assert!(pending.is_none());
    let byte_pos = app.offset();
    assert!((450..=550).contains(&byte_pos), "expected ~50% byte offset, got {byte_pos}");
}

#[test]
fn toggle_viewer_cycles_and_preserves_offset() {
    let mut app = App::new(
        make_test_session(),
        vec![Box::new(TestViewer::new("A", 10)), Box::new(TestViewer::new("B", 10))],
        0,
        7,
    );
    assert_eq!(app.active_viewer_name(), "A");
    assert_eq!(app.offset(), 7);
    let _ = app.apply(TuiAction::ToggleViewer, 80);
    assert_eq!(app.active_viewer_name(), "B");
    assert_eq!(app.offset(), 7);
    let _ = app.apply(TuiAction::ToggleViewer, 80);
    assert_eq!(app.active_viewer_name(), "A");
}

#[test]
fn go_to_end_and_start() {
    let mut app = App::new(make_test_session(), vec![Box::new(TestViewer::new("Test", 50))], 0, 10);
    let _ = app.apply(TuiAction::GoToEnd, 80);
    assert_eq!(app.offset(), 49);
    let _ = app.apply(TuiAction::GoToStart, 80);
    assert_eq!(app.offset(), 0);
}

#[test]
fn multiple_actions_sequence() {
    let mut app = App::new(make_test_session(), vec![Box::new(TestViewer::new("Test", 100))], 0, 50);
    let _ = app.apply(TuiAction::ScrollDown(10), 80);
    let _ = app.apply(TuiAction::PageUp(20), 80);
    let _ = app.apply(TuiAction::ScrollUp(5), 80);
    assert!(app.offset() < 60);
}

#[test]
fn scroll_down_and_up_work() {
    let mut app = App::new(make_test_session(), vec![Box::new(TestViewer::new("Test", 100))], 0, 10);
    let _ = app.apply(TuiAction::ScrollDown(5), 80);
    assert_eq!(app.offset(), 15);
    let _ = app.apply(TuiAction::ScrollUp(3), 80);
    assert_eq!(app.offset(), 12);
}

#[test]
fn page_down_and_page_up_use_the_provided_size() {
    let mut app = App::new(make_test_session(), vec![Box::new(TestViewer::new("Test", 200))], 0, 10);
    let _ = app.apply(TuiAction::PageDown(30), 80);
    assert_eq!(app.offset(), 40);
    let _ = app.apply(TuiAction::PageUp(30), 80);
    assert_eq!(app.offset(), 10);
}

#[test]
fn go_to_start_and_go_to_end() {
    let mut app = App::new(make_test_session(), vec![Box::new(TestViewer::new("Test", 80))], 0, 35);
    let _ = app.apply(TuiAction::GoToStart, 80);
    assert_eq!(app.offset(), 0);
    let _ = app.apply(TuiAction::GoToEnd, 80);
    assert_eq!(app.offset(), 79);
}

#[test]
fn navigation_clamps_at_boundaries() {
    let mut app = App::new(make_test_session(), vec![Box::new(TestViewer::new("Test", 30))], 0, 5);
    let _ = app.apply(TuiAction::ScrollUp(20), 80);
    assert_eq!(app.offset(), 0);
    let _ = app.apply(TuiAction::PageUp(50), 80);
    assert_eq!(app.offset(), 0);
    let _ = app.apply(TuiAction::GoToEnd, 80);
    let end = app.offset();
    let _ = app.apply(TuiAction::ScrollDown(100), 80);
    assert_eq!(app.offset(), end);
    let _ = app.apply(TuiAction::PageDown(50), 80);
    assert_eq!(app.offset(), end);
}

#[test]
fn large_page_down_from_near_start() {
    let mut app = App::new(make_test_session(), vec![Box::new(TestViewer::new("Test", 1000))], 0, 3);
    let _ = app.apply(TuiAction::PageDown(100), 80);
    assert_eq!(app.offset(), 103);
}

#[test]
fn toggle_metadata_flips_sidebar_flag() {
    let mut app = App::new(make_test_session(), vec![Box::new(TestViewer::default())], 0, 0);
    assert!(!app.show_metadata());
    let _ = app.apply(TuiAction::ToggleMetadata, 80);
    assert!(app.show_metadata());
    let _ = app.apply(TuiAction::ToggleMetadata, 80);
    assert!(!app.show_metadata());
}

#[test]
fn keys_map_to_actions() {
    assert_eq!(key_outcome(Key::Char('j'), false, false, 9), KeyOutcome::Apply(TuiAction::ScrollDown(1)));
    assert_eq!(key_outcome(Key::Char('d'), true, false, 9), KeyOutcome::Apply(TuiAction::PageDown(9)));
    assert_eq!(key_outcome(Key::Char('d'), false, false, 9), KeyOutcome::Ignore);
    assert_eq!(key_outcome(Key::Esc, false, false, 9), KeyOutcome::Quit);
    assert_eq!(key_outcome(Key::Esc, false, true, 9), KeyOutcome::CloseHelp);
    assert_eq!(key_outcome(Key::Char('q'), false, true, 9), KeyOutcome::Quit);
    assert_eq!(key_outcome(Key::Tab, false, false, 9), KeyOutcome::Apply(TuiAction::ToggleViewer));
}

#[test]
fn layout_numbers_and_texts() {
    assert_eq!(usable_width(10), 20);
    assert_eq!(usable_width(100), 96);
    assert_eq!(page_size(3), 5);
    assert_eq!(page_size(40), 33);
    assert_eq!(content_width(100, 60), 60);
    assert_eq!(content_width(5, 60), 8);
    assert_eq!(content_rows(0), 1);
    assert_eq!(viewer_label("Hex", 1, 3), "Hex (2/3)");
    assert_eq!(viewer_label("Hex", 0, 1), "Hex");
    assert_eq!(header_text("a.txt", "5 B", "Text", "byte 0"), " a.txt  ·  5 B  ·  Text  ·  byte 0");
    assert_eq!(footer_text("st", true), " st  │  q quit  Tab/h viewer  m meta  ? help");
    let help = help_lines(&vec!["Text", "Hex"]);
    assert_eq!(help.len(), 15);
    assert_eq!(help[11], "Tab / h     Cycle viewer (Text → Hex)");
}

/// A byte-position viewer under a given name, with the trait's default behaviour.
struct NamedByteViewer(&'static str);

impl FileViewer for NamedByteViewer {
    fn name(&self) -> &'static str {
        self.0
    }

    fn can_handle(&self, _probe: &dyn FileProbe) -> ViewerPriority {
        ViewerPriority::Normal
    }

    fn dump(&self, _info: &FileInfo, _out: &mut Vec<u8>, _opts: &DumpOptions) -> std::io::Result<()> {
        Ok(())
    }
}

fn multi_line_json() -> Vec<u8> {
    let mut obj = String::from("{");
    for i in 0..40 {
        if i > 0 {
            obj.push(',');
        }
        obj.push_str(&format!("\n  \"entry{i:02}\": {i}"));
    }
    obj.push_str("\n}\n");
    obj.into_bytes()
}

#[test]
fn toggle_text_to_json_preserves_mid_file_position() {
    let raw = multi_line_json();
    let mid_byte = (raw.len() / 2) as u64;
    let mut app = App::new(
        session_of(&raw),
        vec![Box::new(NamedByteViewer("Text")), Box::new(NamedByteViewer("JSON"))],
        0,
        mid_byte,
    );
    assert_eq!(app.offset(), mid_byte);
    assert!(app.apply(TuiAction::ToggleViewer, 80).is_none());
    assert_eq!(app.active_viewer_name(), "JSON");
    assert_eq!(app.offset(), mid_byte, "JSON raw view must keep the same byte offset as Text");
}

#[test]
fn toggle_hex_to_json_preserves_mid_file_position() {
    let raw = multi_line_json();
    let mid_byte = (raw.len() / 2) as u64;
    let mut app = App::new(
        session_of(&raw),
        vec![Box::new(NamedByteViewer("Hex")), Box::new(NamedByteViewer("JSON"))],
        0,
        mid_byte,
    );
    assert!(app.apply(TuiAction::ToggleViewer, 80).is_none());
    assert_eq!(app.active_viewer_name(), "JSON");
    assert_eq!(app.offset(), mid_byte, "JSON raw view must keep the same byte offset as Hex");
}

#[test]
fn toggle_between_byte_viewers_clamps_past_the_end() {
    let mut app = App::new(
        session_of(b"0123456789"),
        vec![Box::new(NamedByteViewer("Text")), Box::new(NamedByteViewer("Hex"))],
        0,
        500,
    );
    assert!(app.apply(TuiAction::ToggleViewer, 80).is_none());
    assert_eq!(app.offset(), 9);
    assert_eq!(app.byte_position(), 9);
    assert!(app.apply(TuiAction::ToggleViewer, 80).is_none());
    assert_eq!(app.active_viewer_name(), "Text");
    assert_eq!(app.offset(), 9);
}

#[test]
fn help_lists_all_lines() {
    let help = help_lines(&vec!["Text", "Hex", "JSON"]);
    assert_eq!(help[0], "rcat — Keyboard Shortcuts");
    assert_eq!(help[1], "");
    assert_eq!(help[10], "m           Toggle metadata sidebar");
    assert_eq!(help[11], "Tab / h     Cycle viewer (Text → Hex → JSON)");
    assert_eq!(help[14], "Esc / ?     Close help");
    let single = help_lines(&vec!["Text"]);
    assert_eq!(single.len(), 14);
    assert_eq!(single[11], "?           Toggle this help");
}
