use rcat::external_plugin::{
    can_handle_request, display_line_from_response, display_line_request, dump_step, has_capability,
    missing_render_lines, open_outcome, open_request, plugin_position_kind, plugin_scroll_extent,
    plugin_usable, position_from_response, priority_from_response, read_bytes_reply, rows_from_response,
    session_open_action, skip_duplicate_json, source_byte_from_response, status_from_response, DumpStep,
    OpenAction, OpenOutcome,
};
use rcat::file_info::{ContentKind, PreliminaryDetection};
use rcat::plugin::{
    PluginCapability, PluginDefaultPriority, PluginHandles, PluginInfo, PluginRequest, PluginResponse,
};
use rcat::view::PositionKind;
use rcat::viewer::ViewerPriority;

fn info(caps: Vec<PluginCapability>, kind: Option<PositionKind>) -> PluginInfo {
    PluginInfo {
        name: "Demo".to_string(),
        version: "1.0".to_string(),
        protocol_version: "1".to_string(),
        capabilities: caps,
        handles: PluginHandles::default(),
        default_priority: PluginDefaultPriority::default(),
        position_kind: kind,
    }
}

fn prelim() -> PreliminaryDetection {
    PreliminaryDetection { mime_type: None, extension: Some("bin".into()), format: None, kind: ContentKind::Binary }
}

#[test]
fn capabilities_decide_usability_and_kind() {
    let caps = vec![PluginCapability::CanHandle, PluginCapability::Dump];
    assert!(has_capability(&caps, PluginCapability::Dump));
    assert!(!has_capability(&caps, PluginCapability::RenderLines));
    assert!(plugin_usable(&info(caps, None)));
    assert!(plugin_usable(&info(vec![PluginCapability::CanHandle, PluginCapability::RenderLines], None)));
    assert!(!plugin_usable(&info(vec![PluginCapability::Dump, PluginCapability::RenderLines], None)));
    assert!(!plugin_usable(&info(vec![PluginCapability::CanHandle], None)));
    assert_eq!(plugin_position_kind(&info(vec![], None)), PositionKind::Byte);
    assert_eq!(plugin_position_kind(&info(vec![], Some(PositionKind::DisplayLine))), PositionKind::DisplayLine);
}

#[test]
fn can_handle_answers_become_priorities() {
    let req = can_handle_request(7, prelim(), vec![1, 2, 3]);
    assert!(matches!(req, PluginRequest::CanHandle { file_size: 7, ref initial_data, .. } if initial_data == &vec![1, 2, 3]));
    let ok = Ok(PluginResponse::CanHandleResult { priority: ViewerPriority::Preferred });
    assert_eq!(priority_from_response(&ok), ViewerPriority::Preferred);
    let err = Ok(PluginResponse::Error { message: "no".into() });
    assert_eq!(priority_from_response(&err), ViewerPriority::NoMatch);
    assert_eq!(priority_from_response(&Ok(PluginResponse::CloseResult)), ViewerPriority::NoMatch);
    assert_eq!(priority_from_response(&Err("spawn failed".into())), ViewerPriority::NoMatch);
}

#[test]
fn dump_answers_choose_the_next_step() {
    let written = dump_step(Some(Ok(PluginResponse::DumpResult { output: "abc".into() })));
    assert!(matches!(written, DumpStep::Write(ref s) if s == "abc"));
    let failed = dump_step(Some(Ok(PluginResponse::Error { message: "bad".into() })));
    assert!(matches!(failed, DumpStep::Fail(ref s) if s == "bad"));
    assert!(matches!(dump_step(Some(Err("timeout".into()))), DumpStep::CliFallback));
    assert!(matches!(dump_step(Some(Ok(PluginResponse::OpenResult))), DumpStep::CliFallback));
    assert!(matches!(dump_step(None), DumpStep::CliFallback));
}

#[test]
fn scroll_extent_of_plugins() {
    assert_eq!(plugin_scroll_extent(PositionKind::Byte, true, "", 100), 99);
    assert_eq!(plugin_scroll_extent(PositionKind::Frame, false, "", 0), 0);
    assert_eq!(plugin_scroll_extent(PositionKind::DisplayLine, false, "JSON  line 1/40 (0%)", 10), 1);
    assert_eq!(plugin_scroll_extent(PositionKind::DisplayLine, true, "JSON  line 1/40 (0%)", 10), 39);
    assert_eq!(plugin_scroll_extent(PositionKind::DisplayLine, true, "nothing here", 10), 1);
}

#[test]
fn line_and_byte_answers_are_clamped_or_dropped() {
    let byte = Ok(PluginResponse::ByteAtDisplayLineResult { byte_offset: 500 });
    assert_eq!(source_byte_from_response(&byte, 100), Some(99));
    let small = Ok(PluginResponse::ByteAtDisplayLineResult { byte_offset: 5 });
    assert_eq!(source_byte_from_response(&small, 100), Some(5));
    assert_eq!(source_byte_from_response(&Err("x".into()), 100), None);
    let line = Ok(PluginResponse::DisplayLineAtByteResult { line: 12 });
    assert_eq!(display_line_from_response(&line), Some(12));
    assert_eq!(display_line_from_response(&Ok(PluginResponse::CloseResult)), None);
    assert!(matches!(
        display_line_request("f".into(), 1000, 10),
        PluginRequest::DisplayLineAtByte { byte: 9, ref file_path } if file_path == "f"
    ));
    assert!(matches!(display_line_request("f".into(), 3, 10), PluginRequest::DisplayLineAtByte { byte: 3, .. }));
}

#[test]
fn rendered_rows_status_and_positions() {
    assert_eq!(
        missing_render_lines("Demo"),
        vec!["[Demo viewer] render_lines not implemented (missing RenderLines capability)".to_string()]
    );
    let rows = Ok(PluginResponse::RenderLinesResult { lines: vec!["a".into(), "b".into()] });
    assert_eq!(rows_from_response("Demo", rows), vec!["a".to_string(), "b".to_string()]);
    assert_eq!(
        rows_from_response("Demo", Ok(PluginResponse::Error { message: "boom".into() })),
        vec!["(plugin error: boom)".to_string()]
    );
    assert_eq!(
        rows_from_response("Demo", Ok(PluginResponse::OpenResult)),
        vec!["(Demo viewer: unexpected render_lines response)".to_string()]
    );
    assert_eq!(rows_from_response("Demo", Err("gone".into())), vec!["(plugin error: gone)".to_string()]);

    let moved = Ok(PluginResponse::AdvanceLinesResult { position: 77 });
    assert_eq!(position_from_response(&moved, 5, 3), 77);
    assert_eq!(position_from_response(&Err("x".into()), 5, 3), 8);
    assert_eq!(position_from_response(&Err("x".into()), 5, -9), 0);
    assert_eq!(position_from_response(&Err("x".into()), u64::MAX, 5), 4);
    assert_eq!(position_from_response(&Err("x".into()), u64::MAX, -3), 0);
    assert_eq!(position_from_response(&moved, u64::MAX, i64::MAX), 77);

    let status = Ok(PluginResponse::StatusResult { status: "at 3".into() });
    assert_eq!(status_from_response("Demo", status, 3), "at 3");
    assert_eq!(status_from_response("Demo", Err("x".into()), 42), "Demo @ 42");
}

#[test]
fn json_plugin_is_skipped_when_json_viewer_exists() {
    assert!(skip_duplicate_json("JSON", true));
    assert!(!skip_duplicate_json("JSON", false));
    assert!(!skip_duplicate_json("Markdown", true));
}

#[test]
fn sessions_open_close_and_serve_bytes() {
    assert_eq!(session_open_action(Some("a.json"), "a.json"), OpenAction::AlreadyOpen);
    assert_eq!(session_open_action(Some("b.json"), "a.json"), OpenAction::CloseThenOpen);
    assert_eq!(session_open_action(None, "a.json"), OpenAction::Open);

    let data: Vec<u8> = (0..40_000u32).map(|i| (i % 251) as u8).collect();
    match open_request("a.bin".into(), data.len() as u64, prelim(), &data) {
        PluginRequest::Open { file_path, file_size, initial_data, .. } => {
            assert_eq!(file_path, "a.bin");
            assert_eq!(file_size, 40_000);
            assert_eq!(initial_data.len(), 16384);
            assert_eq!(&initial_data[..], &data[..16384]);
        }
        other => panic!("unexpected request {other:?}"),
    }

    assert_eq!(open_outcome(PluginResponse::OpenResult), OpenOutcome::Opened);
    assert_eq!(open_outcome(PluginResponse::Error { message: "no".into() }), OpenOutcome::Refused("no".into()));
    assert_eq!(open_outcome(PluginResponse::CloseResult), OpenOutcome::Unexpected);

    let need = PluginResponse::NeedReadBytes { offset: 39_990, length: 100 };
    match read_bytes_reply(&need, &data, data.len() as u64) {
        Some(PluginRequest::ReadBytes { offset, data: bytes }) => {
            assert_eq!(offset, 39_990);
            assert_eq!(bytes, data[39_990..].to_vec());
        }
        other => panic!("unexpected reply {other:?}"),
    }
    assert!(read_bytes_reply(&PluginResponse::CloseResult, &data, data.len() as u64).is_none());
}
