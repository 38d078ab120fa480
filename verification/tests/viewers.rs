use rcat::dump::{dump_hex, dump_text, DumpOptions};
use rcat::file_info::ContentKind;
use rcat::hex_view::{hex_advance, hex_lines_from_bytes, hex_priority, hex_status};
use rcat::text_slice::{
    advance_lines_bytes, advance_one_visual_row, byte_offset_of_visual_row, previous_line_start,
    read_logical_line, render_display_rows, retreat_one_visual_row, snap_line_start,
    strip_trailing_cr, text_priority, text_status, visual_row_index_for_byte, wrap_to_width,
};
use rcat::viewer::ViewerPriority;

#[test]
fn snap_finds_the_start_of_a_long_line() {
    let long = vec![b'a'; 10000];
    assert_eq!(snap_line_start(&long, 9000), 0);
    let mut data = b"head\n".to_vec();
    data.extend_from_slice(&long);
    assert_eq!(snap_line_start(&data, 9500), 5);
    assert_eq!(snap_line_start(&data, 20000), 5);
    assert_eq!(snap_line_start(&data, 5), 5);
    assert_eq!(snap_line_start(&data, 4), 0);
}

#[test]
fn snap_and_read_line_from_slice() {
    let data = b"ab\ncde\n";
    assert_eq!(snap_line_start(data, 3), 3);
    let (s, len) = read_logical_line(data, 0);
    assert_eq!(s, "ab");
    assert_eq!(len, 3);
}

#[test]
fn wrap_to_width_splits_long_line() {
    assert_eq!(wrap_to_width("hello world", 5), vec!["hello", " worl", "d"]);
}

#[test]
fn wrap_to_width_basic() {
    assert_eq!(wrap_to_width("hello", 10), vec!["hello"]);
    assert_eq!(wrap_to_width("hello", 5), vec!["hello"]);
    assert_eq!(wrap_to_width("hello world", 5), vec!["hello", " worl", "d"]);
    assert_eq!(wrap_to_width("", 10), vec![""]);
}

#[test]
fn wrapped_rows_concatenate_to_the_line() {
    let line = "a fairly long line of text to wrap";
    for w in 1..12u16 {
        let rows = wrap_to_width(line, w);
        assert_eq!(rows.concat(), line);
        assert!(rows.iter().all(|r| r.chars().count() <= w as usize));
    }
}

#[test]
fn line_helpers() {
    let data = b"one\r\ntwo\nthree";
    let (s, len) = read_logical_line(data, 0);
    assert_eq!(s, "one");
    assert_eq!(len, 5);
    assert_eq!(strip_trailing_cr("x\r".to_string()), "x");
    assert_eq!(previous_line_start(data, 9), 5);
    assert_eq!(previous_line_start(data, 5), 0);
    assert_eq!(previous_line_start(data, 0), 0);
    assert_eq!(snap_line_start(data, 7), 5);
    assert_eq!(visual_row_index_for_byte("abcdefgh", 5, 4), 1);
    assert_eq!(byte_offset_of_visual_row("abcdefgh", 1, 4), 4);
}

#[test]
fn render_lines_empty_file_shows_placeholder() {
    let lines = render_display_rows(b"", 0, 0, 5, 80);
    assert_eq!(lines, vec!["(empty file)".to_string()]);
}

#[test]
fn render_viewport_uses_session_bytes_without_reopen() {
    let data = b"line0\nline1\nline2\n";
    let lines = render_display_rows(data, data.len() as u64, 0, 3, 80);
    assert!(lines.iter().any(|l| l.contains("line0")));
    let status = text_status(data.len() as u64, 0, 0);
    assert!(status.starts_with("Text  "));
    assert_eq!(status, "Text  0 / 18 B (0%)");
}

#[test]
fn text_viewer_prefers_text_files() {
    assert_eq!(text_priority(ContentKind::Text), ViewerPriority::Normal);
    assert_eq!(text_priority(ContentKind::Empty), ViewerPriority::Normal);
    assert_eq!(text_priority(ContentKind::Binary), ViewerPriority::Low);
}

#[test]
fn text_viewer_dumps_with_lossy_utf8_correctly() {
    let data = b"hello\xff\xfe world\n";
    let s = dump_text(data, &DumpOptions::default());
    assert!(s.contains("hello"));
    assert!(s.contains("world"));
    assert!(s.contains('\u{fffd}'));
}

#[test]
fn render_lines_respects_width_and_wrapping() {
    let content = b"1234567890\nshort\nvery long line that should wrap when width is small";
    let size = content.len() as u64;
    let lines = render_display_rows(content, size, 0, 10, 80);
    assert_eq!(lines.len(), 3);
    assert_eq!(lines[0], "1234567890");

    let lines = render_display_rows(content, size, 0, 20, 3);
    assert!(lines.len() > 3);
    assert_eq!(lines[0].chars().count(), 3);
}

#[test]
fn advance_lines_respects_width_for_wrapped_content() {
    let content = b"abcdefghij\n";
    let size = content.len() as u64;
    assert_eq!(advance_lines_bytes(content, size, 0, 1, 4), 4);
    assert_eq!(advance_lines_bytes(content, size, 0, 2, 4), 8);
    assert_eq!(advance_lines_bytes(content, size, 8, -2, 4), 0);
    assert_eq!(advance_one_visual_row(content, size, 8, 4), 11);
    assert_eq!(retreat_one_visual_row(content, 4, 4), 0);
}

#[test]
fn render_lines_starts_mid_wrapped_line() {
    let content = b"0123456789\n";
    let lines = render_display_rows(content, content.len() as u64, 5, 5, 4);
    assert!(!lines.is_empty());
    assert_eq!(lines[0].chars().count(), 4);
}

#[test]
fn advance_anchor_uses_session_slice() {
    let data = b"aaaa\nbbbb\n";
    assert_eq!(advance_lines_bytes(data, data.len() as u64, 0, 1, 4), 5);
}

#[test]
fn hex_viewer_prefers_binary_files() {
    assert_eq!(hex_priority(ContentKind::Binary), ViewerPriority::Normal);
    assert_eq!(hex_priority(ContentKind::Empty), ViewerPriority::Normal);
    assert_eq!(hex_priority(ContentKind::Text), ViewerPriority::Low);
}

#[test]
fn hex_viewer_produces_correct_padded_output() {
    let data: Vec<u8> = (0u8..=16).collect();
    let s = dump_hex(&data, &DumpOptions::default());
    assert_eq!(s.lines().count(), 2);
    assert!(s.contains("10"));
    assert!(s.contains("|."));
}

#[test]
fn hex_render_viewport_uses_session_slice() {
    let data: Vec<u8> = (0u8..=100).collect();
    let lines = hex_lines_from_bytes(&data, data.len() as u64, 16, 3);
    assert_eq!(lines.len(), 3);
    assert!(lines[0].starts_with("00000010:"));
    let status = hex_status(101, 16, 15);
    assert!(status.contains("Hex"));
    assert_eq!(status, "Hex  0x00000010 · 16 / 101 B (15%)");
}

#[test]
fn hex_render_lines_uses_backing_once() {
    let data: Vec<u8> = (0u8..=100).collect();
    let lines = hex_lines_from_bytes(&data, data.len() as u64, 0, 5);
    assert_eq!(lines.len(), 5);
    assert_eq!(hex_advance(data.len() as u64, 0, 3), 48);
}

#[test]
fn hex_rows_are_padded_and_bounded() {
    let data = b"AB\x00";
    let lines = hex_lines_from_bytes(data, 3, 0, 4);
    assert_eq!(lines, vec![format!("00000000: {:<48} |AB.", "41 42 00")]);
    assert_eq!(hex_lines_from_bytes(b"", 0, 0, 4), vec!["(empty file)".to_string()]);
    assert_eq!(hex_lines_from_bytes(data, 3, 3, 4), vec!["(end of file)".to_string()]);
    assert_eq!(hex_advance(100, 90, 5), 99);
    assert_eq!(hex_advance(100, 20, -5), 0);
}

#[test]
fn hex_scroll_back_undoes_scroll() {
    let size = 1000;
    let down = rcat::hex_view::hex_advance(size, 32, 5);
    assert_eq!(down, 112);
    assert_eq!(rcat::hex_view::hex_advance(size, down, -5), 32);
    let up = rcat::hex_view::hex_advance(size, 500, -3);
    assert_eq!(up, 452);
    assert_eq!(rcat::hex_view::hex_advance(size, up, 3), 500);
    assert_eq!(rcat::hex_view::hex_advance(size, 990, 5), 999);
}

/// A viewer that answers `can_handle` with one of the library's priority rules.
struct RuleViewer(&'static str, fn(&rcat::file_info::PreliminaryDetection) -> ViewerPriority);

impl rcat::viewer::FileViewer for RuleViewer {
    fn name(&self) -> &'static str {
        self.0
    }

    fn can_handle(&self, probe: &dyn rcat::probe::FileProbe) -> ViewerPriority {
        (self.1)(probe.preliminary())
    }

    fn dump(&self, _info: &rcat::file_info::FileInfo, _out: &mut Vec<u8>, _opts: &DumpOptions) -> std::io::Result<()> {
        Ok(())
    }
}

fn builtin_like_registry() -> rcat::viewer_registry::ViewerRegistry {
    let mut registry = rcat::viewer_registry::ViewerRegistry::new();
    registry.register(Box::new(RuleViewer("Text", |d| text_priority(d.kind))));
    registry.register(Box::new(RuleViewer("Hex", |d| hex_priority(d.kind))));
    registry.register(Box::new(RuleViewer("JSON", rcat::json_view::json_priority)));
    registry
}

fn probe_for(name_ext: Option<&str>, data: &[u8]) -> (rcat::file_info::FileInfo, rcat::probe::PrefixProbe) {
    let detected = rcat::detection::detect_file(name_ext, data);
    assert!(detected.mime_type.is_none());
    let info = rcat::file_info::FileInfo::from_parts(
        std::path::PathBuf::from("data"),
        None,
        data.len() as u64,
        name_ext,
        detected,
    );
    (info, rcat::probe::PrefixProbe::from_prefix(data.to_vec(), data.len() as u64))
}

#[test]
fn find_best_selects_json_for_json_file() {
    let (info, prefix) = probe_for(Some("JSON"), br#"{"x":1}"#);
    assert_eq!(info.detected.extension.as_deref(), Some("json"));
    let probe = rcat::probe::FileProbeWithInfo::new(&info, prefix);
    let reg = builtin_like_registry();
    assert_eq!(reg.find_best(&probe).unwrap().name(), "JSON");
}

#[test]
fn find_best_selects_hex_for_binary_and_text_for_text() {
    let (bin, prefix) = probe_for(Some("bin"), b"\x00\x01\x02");
    assert_eq!(bin.detected.kind, ContentKind::Binary);
    let probe = rcat::probe::FileProbeWithInfo::new(&bin, prefix);
    assert_eq!(builtin_like_registry().find_best(&probe).unwrap().name(), "Hex");
    let (txt, prefix) = probe_for(None, b"hello\n");
    assert_eq!(txt.detected.kind, ContentKind::Text);
    let probe = rcat::probe::FileProbeWithInfo::new(&txt, prefix);
    assert_eq!(builtin_like_registry().find_best(&probe).unwrap().name(), "Text");
}

#[test]
fn row_start_maps_back_to_its_row() {
    let line = "héllo wörld, ünïcode ròws";
    let n = line.chars().count();
    for width in [1u16, 3, 4, 7] {
        let mut row = 0usize;
        while row * (width as usize) < n {
            let b = byte_offset_of_visual_row(line, row, width);
            assert_eq!(visual_row_index_for_byte(line, b, width), row);
            row += 1;
        }
    }
}

#[test]
fn scrolling_stays_in_the_file_and_moves_strictly() {
    let data = "première ligne\nzwei\n\nlast line here\n".as_bytes();
    let size = data.len() as u64;
    for width in [0u16, 3, 5, 80] {
        for cur in 0..=size {
            for delta in [-100i64, -3, -1, 1, 3, 100] {
                let r = advance_lines_bytes(data, size, cur, delta, width);
                assert!(r <= size);
                if delta < 0 && cur > 0 {
                    assert!(r < cur, "up from {cur} by {delta} at width {width} gave {r}");
                }
                if delta > 0 && cur < size {
                    assert!(r > cur);
                }
            }
        }
    }
    assert_eq!(advance_lines_bytes(data, size, size, -100, 5), 0);
    assert_eq!(advance_lines_bytes(data, size, 0, 100, 5), size);
}

#[test]
fn scrolling_down_then_up_returns_to_the_row_start() {
    let text = "première ligne assez longue\nzwei\n\nünïcode row wrap test\n";
    let data = text.as_bytes();
    let size = data.len() as u64;
    for width in [1u16, 3, 5, 80] {
        let mut ls = 0u64;
        while ls < size {
            let (line, span) = read_logical_line(data, ls);
            let rows = wrap_to_width(&line, width).len();
            for r in 0..rows {
                let p = ls + byte_offset_of_visual_row(&line, r, width);
                let down = advance_one_visual_row(data, size, p, width);
                assert_eq!(retreat_one_visual_row(data, down, width), p, "width {width}, line at {ls}, row {r}");
            }
            ls += span;
        }
    }
}

#[test]
fn rendered_rows_are_never_wider_than_the_width() {
    let data = "a fairly long first line that wraps several times\nshort\n\nünïcode wraps too here\n".as_bytes();
    let size = data.len() as u64;
    for width in [1u16, 4, 7, 30] {
        for start in 0..=size {
            for row in render_display_rows(data, size, start, 50, width) {
                assert!(row.chars().count() <= width as usize || row == "(end of file)", "{row:?} at width {width}");
            }
        }
    }
}
