use std::path::PathBuf;
use std::sync::Arc;

use rcat::detection::{classify_samples, contains_null, quick_classify};
use rcat::dump::{dump, dump_hex, dump_text, DumpOptions};
use rcat::file_info::{ContentKind, FileInfo, PreliminaryDetection};
use rcat::plugin::{
    supports_protocol_v2, PluginCapability, PluginDefaultPriority, PluginHandles, PluginInfo,
    PROTOCOL_VERSION_V2,
};
use rcat::probe::{FileProbe, FileProbeWithInfo, PrefixProbe};
use rcat::scroll::parse_display_line_extent_from_status;
use rcat::session::{FileBacking, FileSession};
use rcat::view::{PositionKind, ViewAnchor, ViewContext, ViewportResult};
use rcat::viewer::{FileViewer, ViewerPriority};
use rcat::viewer_registry::{best_index, ViewerRegistry};

fn detection(kind: ContentKind) -> PreliminaryDetection {
    PreliminaryDetection { mime_type: None, extension: None, format: None, kind }
}

fn backing_of(bytes: &[u8]) -> FileBacking {
    let mut m = memmap2::MmapMut::map_anon(bytes.len()).unwrap();
    m[..bytes.len()].copy_from_slice(bytes);
    let ro = m.make_read_only().unwrap();
    FileBacking::new(PathBuf::from("test.bin"), ro, bytes.len() as u64)
}

fn session_of(bytes: &[u8]) -> FileSession {
    let kind = quick_classify(bytes);
    let info = FileInfo::from_parts(
        PathBuf::from("test.bin"),
        None,
        bytes.len() as u64,
        Some("bin"),
        detection(kind),
    );
    let info = info.with_backing(Arc::new(backing_of(bytes)));
    FileSession::from_info(info).unwrap()
}

struct TestViewer {
    name: &'static str,
    priority: ViewerPriority,
}

impl FileViewer for TestViewer {
    fn name(&self) -> &'static str {
        self.name
    }

    fn can_handle(&self, _probe: &dyn FileProbe) -> ViewerPriority {
        self.priority
    }

    fn dump(&self, _info: &FileInfo, _out: &mut Vec<u8>, _opts: &DumpOptions) -> std::io::Result<()> {
        Ok(())
    }
}

struct DummyViewer;

impl FileViewer for DummyViewer {
    fn name(&self) -> &'static str {
        "Dummy"
    }

    fn can_handle(&self, _probe: &dyn FileProbe) -> ViewerPriority {
        ViewerPriority::Normal
    }

    fn dump(&self, _info: &FileInfo, _out: &mut Vec<u8>, _opts: &DumpOptions) -> std::io::Result<()> {
        Ok(())
    }
}

fn dummy_probe() -> PrefixProbe {
    PrefixProbe::from_prefix(b"hello".to_vec(), 5)
}

#[test]
fn detects_null_as_binary() {
    let data = b"hello\x00world";
    assert!(contains_null(data));
}

#[test]
fn pure_ascii_is_not_null() {
    assert!(!contains_null(b"just normal text"));
}

#[test]
fn classify_empty_text_and_binary() {
    assert_eq!(classify_samples(0, b"", b""), ContentKind::Empty);
    assert_eq!(classify_samples(5, b"hello", b""), ContentKind::Text);
    assert_eq!(classify_samples(3, b"a\x00b", b""), ContentKind::Binary);
    assert_eq!(classify_samples(2, b"\xff\xfe", b""), ContentKind::Binary);
    assert_eq!(classify_samples(10_000, b"ok", b"\xff"), ContentKind::Binary);
    assert_eq!(classify_samples(8192, b"ok", b"\xff"), ContentKind::Text);
}

#[test]
fn quick_classify_samples_the_middle_of_large_files() {
    let mut data = vec![b'a'; 20_000];
    assert_eq!(quick_classify(&data), ContentKind::Text);
    data[10_000] = 0xff;
    assert_eq!(quick_classify(&data), ContentKind::Binary);
    data[10_000] = b'a';
    data[19_000] = 0xff;
    assert_eq!(quick_classify(&data), ContentKind::Text);
}

#[test]
fn supports_v2_by_protocol_version_or_capability() {
    let mut info = PluginInfo {
        name: "T".into(),
        version: "0".into(),
        protocol_version: "1".into(),
        capabilities: vec![PluginCapability::CanHandle],
        handles: PluginHandles::default(),
        default_priority: PluginDefaultPriority::default(),
        position_kind: None,
    };
    assert!(!supports_protocol_v2(&info));
    info.protocol_version = PROTOCOL_VERSION_V2.to_string();
    assert!(supports_protocol_v2(&info));
    info.protocol_version = "1".into();
    info.capabilities.push(PluginCapability::SessionV2);
    assert!(supports_protocol_v2(&info));
}

#[test]
fn parses_json_style_status() {
    let extent = parse_display_line_extent_from_status("JSON  line 221/439 (50%)").unwrap();
    assert_eq!(extent, 438);
}

#[test]
fn status_extent_edge_cases() {
    assert_eq!(parse_display_line_extent_from_status("no totals here"), None);
    assert_eq!(parse_display_line_extent_from_status("line 1/1"), Some(1));
    assert_eq!(parse_display_line_extent_from_status("a/x b/7"), Some(6));
    assert_eq!(parse_display_line_extent_from_status("a/99999999999999999999 b/3"), Some(2));
}

#[test]
fn view_anchor_round_trip() {
    let anchor = ViewAnchor::from_raw(PositionKind::Byte, 42);
    assert_eq!(anchor.kind(), PositionKind::Byte);
    assert_eq!(anchor.raw(), 42);
}

#[test]
fn view_context_at_byte_exposes_session_info() {
    let session = session_of(b"hello");
    let ctx = ViewContext::at_byte(&session, 0, 80, 10);
    assert_eq!(ctx.anchor_raw(), 0);
    assert_eq!(ctx.info().size, 5);
}

#[test]
fn viewport_result_empty_placeholder() {
    let r = ViewportResult::empty_placeholder("Test", ViewAnchor::Byte(0));
    assert!(r.lines[0].contains("Test"));
    assert_eq!(r.source_byte, None);
}

#[test]
fn maps_file_and_slices() {
    let backing = backing_of(b"hello");
    assert_eq!(backing.size(), 5);
    assert_eq!(backing.bytes(), b"hello");
    assert_eq!(backing.slice(2, 2), b"ll");
}

#[test]
fn session_maps_and_slices() {
    let session = session_of(b"hello");
    assert_eq!(session.size(), 5);
    assert_eq!(session.bytes(), b"hello");
    assert_eq!(session.slice(1, 3), b"ell");
    assert!(session.info().backing.is_some());
}

#[test]
fn prefix_probe_serves_only_its_prefix() {
    let probe = PrefixProbe::from_prefix(b"abcdef".to_vec(), 100);
    assert_eq!(probe.file_size(), 100);
    assert_eq!(probe.read_bytes(2, 3).unwrap(), b"cde");
    assert_eq!(probe.read_bytes(4, 10).unwrap(), b"ef");
    assert_eq!(probe.read_bytes(6, 10).unwrap(), b"");
    assert_eq!(probe.read_bytes(200, 10).unwrap(), b"");
    assert_eq!(probe.preliminary().kind, ContentKind::Binary);
}

#[test]
fn probe_with_info_reports_detection() {
    let info = FileInfo::from_parts(PathBuf::from("a.json"), None, 2, Some("JSON"), detection(ContentKind::Text));
    assert_eq!(info.extension.as_deref(), Some("json"));
    assert_eq!(info.type_description, "text file");
    let probe = FileProbeWithInfo::new(&info, PrefixProbe::from_prefix(b"{}".to_vec(), 2));
    assert_eq!(probe.preliminary().kind, ContentKind::Text);
    assert_eq!(probe.read_bytes(0, 10).unwrap(), b"{}");
}

#[test]
fn default_render_lines_and_advance_are_used() {
    let viewer = DummyViewer;
    let session = session_of(b"x");

    let lines = viewer.render_lines(session.info(), 0, 10, 80);
    assert!(lines[0].contains("Dummy viewer"));

    let new_pos = viewer.advance_lines(session.info(), 10, 5, 80);
    assert_eq!(new_pos, 10 + 5 * 16);

    let ctx = ViewContext::at_byte(&session, 0, 80, 10);
    let vp = viewer.render_viewport(&ctx);
    assert!(vp.lines[0].contains("Dummy viewer"));
    assert!(vp.status.contains("Dummy"));

    let ctx2 = ViewContext::at_byte(&session, 10, 80, 1);
    assert_eq!(viewer.advance_anchor(&ctx2, 5).raw(), 10 + 5 * 16);
}

#[test]
fn default_advance_saturates_at_both_ends() {
    let viewer = DummyViewer;
    let session = session_of(b"x");
    assert_eq!(viewer.advance_lines(session.info(), 20, -5, 80), 0);
    assert_eq!(viewer.advance_lines(session.info(), u64::MAX - 3, 1, 80), u64::MAX);
    assert_eq!(viewer.scroll_extent(session.info()), 0);
    assert_eq!(viewer.source_byte_for_anchor(session.info(), ViewAnchor::Byte(9)), Some(0));
    assert_eq!(viewer.source_byte_for_anchor(session.info(), ViewAnchor::DisplayLine(9)), None);
    assert_eq!(viewer.status(session.info(), 7), "Dummy @ 7");
}

#[test]
fn empty_registry_returns_none() {
    let reg = ViewerRegistry::new();
    let probe = dummy_probe();
    assert!(reg.find_best(&probe).is_none());
    assert!(reg.is_empty());
    assert_eq!(reg.len(), 0);
}

#[test]
fn registers_and_finds_highest_priority() {
    let mut reg = ViewerRegistry::new();
    reg.register(Box::new(TestViewer { name: "Low", priority: ViewerPriority::Low }));
    reg.register(Box::new(TestViewer { name: "Normal", priority: ViewerPriority::Normal }));
    reg.register(Box::new(TestViewer { name: "Preferred", priority: ViewerPriority::Preferred }));
    let probe = dummy_probe();
    let best = reg.find_best(&probe).unwrap();
    assert_eq!(best.name(), "Preferred");
}

#[test]
fn find_best_returns_some_even_when_all_none() {
    let mut reg = ViewerRegistry::new();
    reg.register(Box::new(TestViewer { name: "None1", priority: ViewerPriority::NoMatch }));
    reg.register(Box::new(TestViewer { name: "None2", priority: ViewerPriority::NoMatch }));
    let probe = dummy_probe();
    let best = reg.find_best(&probe);
    assert!(best.is_some());
    assert!(best.unwrap().name().starts_with("None"));
}

#[test]
fn ties_go_to_the_viewer_registered_first() {
    assert_eq!(best_index(&[]), None);
    assert_eq!(
        best_index(&[ViewerPriority::Normal, ViewerPriority::Low, ViewerPriority::Normal]),
        Some(0)
    );
    assert_eq!(
        best_index(&[ViewerPriority::Low, ViewerPriority::Normal, ViewerPriority::Normal]),
        Some(1)
    );
    assert_eq!(
        best_index(&[ViewerPriority::Preferred, ViewerPriority::Normal, ViewerPriority::Low]),
        Some(0)
    );
}

#[test]
fn find_best_picks_the_first_of_equal_viewers() {
    let mut reg = ViewerRegistry::new();
    reg.register(Box::new(TestViewer { name: "None1", priority: ViewerPriority::NoMatch }));
    reg.register(Box::new(TestViewer { name: "None2", priority: ViewerPriority::NoMatch }));
    let probe = dummy_probe();
    assert_eq!(reg.find_best(&probe).unwrap().name(), "None1");
    assert_eq!(reg.best_viewer_index(&probe), Some(0));
}

#[test]
fn all_viewers_returns_registered_in_order() {
    let mut reg = ViewerRegistry::new();
    reg.register(Box::new(TestViewer { name: "A", priority: ViewerPriority::Normal }));
    reg.register(Box::new(TestViewer { name: "B", priority: ViewerPriority::Low }));
    let all = reg.all_viewers();
    assert_eq!(all.len(), 2);
    assert_eq!(all[0].name(), "A");
    assert_eq!(all[1].name(), "B");
    assert_eq!(reg.index_of("B"), Some(1));
    assert_eq!(reg.index_of("C"), None);
}

#[test]
fn default_registry_is_empty() {
    let reg: ViewerRegistry = Default::default();
    assert!(reg.is_empty());
}

#[test]
fn hex_dump_produces_correct_format_and_padding() {
    let data = b"\x00\x01\x02\x03\x04\x05\x06\x07\x08\x09\x0a\x0b\x0c\x0d\x0e\x0f\x10";
    let s = dump_hex(data, &DumpOptions::default());
    assert_eq!(s.lines().count(), 2);
    assert!(s.contains("00 01 02 03 04 05 06 07  08 09 0a 0b 0c 0d 0e 0f"));
    assert!(s.contains("10"));
}

#[test]
fn text_dump_is_lossy_but_never_panics_on_binary() {
    let data = b"hello\xFF\xFEworld\n";
    let s = dump_text(data, &DumpOptions::default());
    assert!(s.contains("hello"));
    assert!(s.contains("world"));
}

#[test]
fn dump_respects_offset_and_length() {
    let data = b"0123456789ABCDEF";
    let s = dump_hex(data, &DumpOptions { offset: 4, length: Some(6) });
    assert!(s.contains("00000004:"));
    assert!(s.contains("04"));
    assert!(!s.contains("00000000:"));
}

#[test]
fn hex_dump_snapshot() {
    let data = b"\x00\x01\x02\x03\x04\x05\x06\x07\x08\x09\x0a\x0b\x0c\x0d\x0e\x0f\x10";
    let s = dump_hex(data, &DumpOptions::default());
    let expected = format!(
        "00000000: 00 01 02 03 04 05 06 07  08 09 0a 0b 0c 0d 0e 0f |................|\n00000010: 10{}|.|\n",
        " ".repeat(47)
    );
    assert_eq!(s, expected);
}

#[test]
fn hex_dump_ascii_column_lines_up_on_short_rows() {
    for n in [1usize, 7, 8, 9, 15, 16, 17, 31, 33] {
        let data: Vec<u8> = (0..n as u8).collect();
        let s = dump_hex(&data, &DumpOptions::default());
        for line in s.lines() {
            assert_eq!(line.chars().nth(59), Some('|'), "{n} bytes: {line:?}");
            assert_eq!(line.chars().nth(58), Some(' '));
        }
    }
    assert_eq!(
        dump_hex(b"A", &DumpOptions::default()),
        format!("00000000: 41{}|A|\n", " ".repeat(47))
    );
}

#[test]
fn dump_text_adds_trailing_newline_when_needed() {
    let s = dump_text(b"no newline at end", &DumpOptions::default());
    assert!(s.ends_with('\n'));
    assert_eq!(dump_text(b"done\n", &DumpOptions::default()), "done\n");
    assert_eq!(dump_text(b"", &DumpOptions::default()), "");
}

#[test]
fn dump_picks_hex_for_binary_files() {
    let text = FileInfo::from_parts(PathBuf::from("t"), None, 2, None, detection(ContentKind::Text));
    let bin = FileInfo::from_parts(PathBuf::from("b"), None, 2, None, detection(ContentKind::Binary));
    let opts = DumpOptions::default();
    assert_eq!(dump(&text, b"hi", false, &opts), "hi\n");
    assert!(dump(&text, b"hi", true, &opts).starts_with("00000000: 68 69"));
    assert!(dump(&bin, b"hi", false, &opts).starts_with("00000000: 68 69"));
    assert_eq!(dump_hex(b"abc", &DumpOptions { offset: 10, length: None }), "");
}

#[test]
fn registration_order_holds_over_many_registrations() {
    let names = ["V0", "V1", "V2", "V3", "V4"];
    let mut reg = ViewerRegistry::new();
    for (i, n) in names.iter().enumerate() {
        reg.register(Box::new(TestViewer { name: *n, priority: ViewerPriority::Low }));
        assert_eq!(reg.len(), i + 1);
        for (j, m) in names[..=i].iter().enumerate() {
            assert_eq!(reg.all_viewers()[j].name(), *m);
            assert_eq!(reg.viewer_name(j), *m);
        }
    }
}

#[test]
fn backing_is_refused_when_the_size_differs_from_the_map() {
    let mut m = memmap2::MmapMut::map_anon(4).unwrap();
    m[..4].copy_from_slice(b"abcd");
    let ro = m.make_read_only().unwrap();
    assert!(FileBacking::checked_new(PathBuf::from("x"), ro, 5).is_none());
    let mut m = memmap2::MmapMut::map_anon(4).unwrap();
    m[..4].copy_from_slice(b"abcd");
    let ro = m.make_read_only().unwrap();
    let b = FileBacking::checked_new(PathBuf::from("x"), ro, 4).unwrap();
    assert_eq!(b.size(), 4);
    assert_eq!(b.bytes(), b"abcd");
}
