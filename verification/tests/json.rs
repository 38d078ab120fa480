use std::path::PathBuf;

use rcat::dump::DumpOptions;
use rcat::file_info::{ContentKind, FileInfo, PreliminaryDetection};
use rcat::json_plugin::{
    can_handle_priority, handle_request, handle_session_request, json_plugin_info,
    looks_like_json_data, PluginFailure,
};
use rcat::json_tiers::{
    build_cache, build_ndjson_cache, build_small_pretty_cache, detect_tier, line_starts_from_chunks,
    parse_error_message, split_lines, status_for_tier, tier_status, tier_status_byte,
    trim_bytes, JsonTier, JsonTierCache, SMALL_FILE_LIMIT,
};
use rcat::json_view::{extract_search_token, find_substring, json_dump, json_priority, JsonViewerLogic};
use rcat::plugin::{PluginCapability, PluginRequest, PluginResponse};
use rcat::view::PositionKind;
use rcat::viewer::ViewerPriority;

fn prelim(ext: Option<&str>, mime: Option<&str>) -> PreliminaryDetection {
    PreliminaryDetection {
        mime_type: mime.map(|s| s.to_string()),
        extension: ext.map(|s| s.to_string()),
        format: None,
        kind: ContentKind::Text,
    }
}

fn forty_keys() -> Vec<u8> {
    let mut obj = String::from("{");
    for i in 0..40 {
        if i > 0 {
            obj.push(',');
        }
        obj.push_str(&format!("\n  \"key{i:02}\": {i}"));
    }
    obj.push_str("\n}\n");
    obj.into_bytes()
}

#[test]
fn detect_large_tier_by_size() {
    assert_eq!(detect_tier(SMALL_FILE_LIMIT + 1, br#"{"a":1}"#), JsonTier::LargeRaw);
}

#[test]
fn detect_small_pretty_for_object() {
    assert_eq!(detect_tier(10, br#"{"a":1}"#), JsonTier::SmallPretty);
}

#[test]
fn detect_ndjson_for_multiple_lines() {
    let data = b"{\"a\":1}\n{\"b\":2}\n";
    assert_eq!(detect_tier(data.len() as u64, data), JsonTier::Ndjson);
}

#[test]
fn detect_invalid_for_garbage() {
    assert_eq!(detect_tier(5, b"not json"), JsonTier::InvalidRaw);
}

#[test]
fn ndjson_preserves_source_line_byte_starts() {
    let data = b"{\"x\":1}\n{\"y\":2}\n";
    let cache = build_ndjson_cache(data);
    assert_eq!(cache.tier, JsonTier::Ndjson);
    assert_eq!(cache.line_start_bytes, vec![0, 8]);
    assert!(cache.display_lines[0].contains('x'));
}

#[test]
fn small_pretty_produces_indented_lines() {
    let cache = build_small_pretty_cache(br#"{"k":1}"#).unwrap();
    assert_eq!(cache.tier, JsonTier::SmallPretty);
    assert!(cache.display_lines.len() > 1);
    assert!(cache.display_lines.iter().any(|l| l.contains("k")));
    assert!(build_small_pretty_cache(b"{oops").is_err());
}

#[test]
fn trims_and_splits() {
    assert_eq!(trim_bytes(b" \t{}\r\n "), b"{}");
    assert_eq!(trim_bytes(b"   "), b"");
    assert_eq!(split_lines("a\r\nb\n\nc"), vec!["a", "b", "", "c"]);
    assert_eq!(split_lines("a\n"), vec!["a"]);
    assert_eq!(split_lines("x\r"), vec!["x\r"]);
    assert!(split_lines("").is_empty());
    assert_eq!(line_starts_from_chunks(b"ab\ncd\n"), vec![0, 3]);
    assert_eq!(line_starts_from_chunks(b""), vec![0]);
}

#[test]
fn raw_and_invalid_caches_keep_lines() {
    let cache = build_cache(5, b"not\njson");
    assert_eq!(cache.tier, JsonTier::InvalidRaw);
    assert_eq!(cache.display_lines, vec!["not\n".to_string(), "json".to_string()]);
    assert_eq!(cache.line_start_bytes, vec![0, 4]);
    assert!(cache.parse_error.is_some());
    assert_eq!(cache.line_index_for_byte(5), 1);
    assert_eq!(cache.byte_for_line_index(1), 4);
    assert_eq!(cache.byte_for_line_index(9), 0);
    assert_eq!(cache.viewport_lines(1, 5), vec!["json".to_string()]);
    assert_eq!(cache.viewport_lines(7, 5), vec!["(end of JSON view)".to_string()]);
    assert_eq!(cache.advance_line(0, 5), 1);
    assert_eq!(cache.advance_line(1, -5), 0);
    assert!(!parse_error_message(b"{").is_empty());
    assert_eq!(parse_error_message(b"{}"), "invalid JSON");
}

#[test]
fn tier_status_lines() {
    assert_eq!(
        status_for_tier(JsonTier::SmallPretty, 100, 0, 3, 0, None, 0),
        "JSON pretty  line 1/3 @ 0 / 100 B (0%)"
    );
    assert_eq!(status_for_tier(JsonTier::LargeRaw, 10, 0, 0, 5, None, 50), "JSON raw  5 / 10 B (50%)");
    assert_eq!(
        status_for_tier(JsonTier::InvalidRaw, 10, 0, 0, 0, None, 0),
        "JSON invalid (invalid JSON)  0 / 10 B (0%)"
    );
    let data = b"{\"a\":1}\n{\"b\":2}\n";
    assert_eq!(tier_status_byte(data, 1), 8);
    assert!(tier_status(data, 1, 50).starts_with("JSON ndjson  line 2/2 @ 8 / 16 B"));
}

#[test]
fn tier_cache_keeps_the_first_model_per_path() {
    let mut cache = JsonTierCache::new();
    let first = cache.get_or_build("/a.json", 7, br#"{"a":1}"#);
    assert_eq!(first.tier, JsonTier::SmallPretty);
    let again = cache.get_or_build("/a.json", 8, b"garbage!");
    assert_eq!(again.tier, JsonTier::SmallPretty);
    assert_eq!(again.display_lines, first.display_lines);
    let other = cache.get_or_build("/b.json", 8, b"garbage!");
    assert_eq!(other.tier, JsonTier::InvalidRaw);
    cache.clear();
    let rebuilt = cache.get_or_build("/a.json", 8, b"garbage!");
    assert_eq!(rebuilt.tier, JsonTier::InvalidRaw);
}

#[test]
fn maps_display_line_to_source_byte() {
    let raw = br#"{"alpha":1,"beta":2,"gamma":3,"delta":4,"epsilon":5}"#;
    let lines = JsonViewerLogic.pretty_lines(raw);
    assert!(lines.len() > 3);
    let offsets = JsonViewerLogic.line_byte_offsets(raw);
    let byte_at_first = offsets[0];
    let byte_later = JsonViewerLogic.byte_at_display_line(raw, 2);
    assert!(byte_later >= byte_at_first);
    assert!(byte_later < raw.len() as u64);
}

#[test]
fn display_line_at_byte_start_is_zero() {
    let raw = br#"{"a":1,"b":2,"c":3}"#;
    assert_eq!(JsonViewerLogic.display_line_at_byte(raw, 0), 0);
}

#[test]
fn display_line_at_byte_mid_file_is_not_zero() {
    let raw = forty_keys();
    let mid_byte = (raw.len() / 2) as u64;
    let offsets = JsonViewerLogic.line_byte_offsets(&raw);
    assert!(offsets.windows(2).any(|w| w[1] > w[0]));
    assert!(JsonViewerLogic.display_line_at_byte(&raw, mid_byte) > 0);
}

#[test]
fn byte_round_trip_is_consistent() {
    let raw = br#"{"first":1,"second":2,"third":3,"fourth":4}"#;
    let target_line = 3u64;
    let byte = JsonViewerLogic.byte_at_display_line(raw, target_line);
    let back = JsonViewerLogic.display_line_at_byte(raw, byte);
    assert_eq!(back, target_line);
}

#[test]
fn search_tokens_and_substrings() {
    assert_eq!(extract_search_token(r#"  "name": 42,"#), r#""name""#);
    assert_eq!(extract_search_token("   "), "");
    assert_eq!(extract_search_token("  42,"), "42,");
    assert_eq!(find_substring(b"hello world", b"world"), Some(6));
    assert_eq!(find_substring(b"hello", b""), None);
    assert_eq!(find_substring(b"hi", b"hello"), None);
}

#[test]
fn pretty_view_lines_and_dump() {
    assert_eq!(JsonViewerLogic.pretty_lines(b""), vec!["(empty file)".to_string()]);
    let bad = JsonViewerLogic.pretty_lines(b"nope");
    assert_eq!(bad[0], "(not valid JSON — showing raw)");
    assert_eq!(bad[1], "nope");
    let raw = br#"{"k":1}"#;
    assert_eq!(JsonViewerLogic.line_count(raw), 3);
    assert_eq!(JsonViewerLogic.render_lines_at(raw, 1, 1), vec!["  \"k\": 1".to_string()]);
    assert_eq!(JsonViewerLogic.render_lines_at(raw, 9, 1), vec!["(end of file)".to_string()]);
    assert_eq!(json_dump(raw, &DumpOptions { offset: 0, length: Some(1) }), Some("{\n".to_string()));
    assert_eq!(json_dump(raw, &DumpOptions { offset: 9, length: None }), None);
}

#[test]
fn json_priority_by_detection_or_content() {
    assert_eq!(json_priority(&prelim(Some("json"), None)), ViewerPriority::Preferred);
    assert_eq!(json_priority(&prelim(None, Some("application/json"))), ViewerPriority::Preferred);
    assert_eq!(json_priority(&prelim(Some("txt"), None)), ViewerPriority::NoMatch);
    assert!(looks_like_json_data(b"  \n[1,2]"));
    assert!(!looks_like_json_data(b"x{"));
    assert!(!looks_like_json_data(b""));
    assert_eq!(can_handle_priority(&prelim(None, None), b"{\"a\":1}"), ViewerPriority::Preferred);
    assert_eq!(can_handle_priority(&prelim(None, None), b"plain"), ViewerPriority::NoMatch);
}

#[test]
fn plugin_info_advertises_protocol_v2() {
    let info = json_plugin_info();
    assert_eq!(info.protocol_version, "2");
    assert!(info.capabilities.contains(&PluginCapability::SessionV2));
    assert_eq!(info.position_kind, Some(PositionKind::Byte));
}

#[test]
fn one_shot_requests_are_answered_from_the_tiers() {
    let data = br#"{"hello":"world"}"#;
    let req = PluginRequest::RenderLines { file_path: "x".into(), start_offset: 0, max_rows: 10, width: 80 };
    match handle_request(&req, Some(data), 0).unwrap() {
        PluginResponse::RenderLinesResult { lines } => assert!(lines.iter().any(|l| l.contains("hello"))),
        other => panic!("unexpected {other:?}"),
    }
    assert_eq!(handle_request(&req, None, 0).unwrap_err(), PluginFailure::FileUnreadable);
    let adv = PluginRequest::AdvanceLines { file_path: "x".into(), current: 0, delta: 1, width: 80 };
    assert!(matches!(handle_request(&adv, Some(data), 0), Ok(PluginResponse::AdvanceLinesResult { position: 1 })));
    let st = PluginRequest::Status { file_path: "x".into(), position: 0 };
    match handle_request(&st, Some(data), 0).unwrap() {
        PluginResponse::StatusResult { status } => assert!(status.contains("pretty")),
        other => panic!("unexpected {other:?}"),
    }
    let dump = PluginRequest::Dump { file_path: "x".into(), offset: 0, length: None };
    match handle_request(&dump, Some(data), 0).unwrap() {
        PluginResponse::DumpResult { output } => assert_eq!(output, "{\n  \"hello\": \"world\"\n}\n"),
        other => panic!("unexpected {other:?}"),
    }
    let tail = PluginRequest::Dump { file_path: "x".into(), offset: 1, length: Some(1) };
    match handle_request(&tail, Some(data), 0).unwrap() {
        PluginResponse::DumpResult { output } => assert_eq!(output, "  \"hello\": \"world\"\n"),
        other => panic!("unexpected {other:?}"),
    }
    let past = PluginRequest::Dump { file_path: "x".into(), offset: 4, length: None };
    assert_eq!(handle_request(&past, Some(data), 0).unwrap_err(), PluginFailure::DumpOutOfRange);
    let can = PluginRequest::CanHandle { file_size: 10, preliminary: prelim(None, None), initial_data: vec![123, 34] };
    assert!(matches!(
        handle_request(&can, None, 0),
        Ok(PluginResponse::CanHandleResult { priority: ViewerPriority::Preferred })
    ));
    match handle_request(&PluginRequest::Close, None, 0).unwrap() {
        PluginResponse::Error { message } => assert!(message.contains("--session")),
        other => panic!("unexpected {other:?}"),
    }
}

#[test]
fn large_files_render_raw_in_file_order() {
    let mut data = br#"{"z_key":1,"a_key":2}"#.to_vec();
    data.resize(2 * 1024 * 1024 + 1, b'\n');
    let req = PluginRequest::RenderLines { file_path: "x".into(), start_offset: 0, max_rows: 5, width: 120 };
    match handle_request(&req, Some(&data), 0).unwrap() {
        PluginResponse::RenderLinesResult { lines } => {
            let joined = lines.join("");
            assert!(joined.find("z_key").unwrap() < joined.find("a_key").unwrap());
        }
        other => panic!("unexpected {other:?}"),
    }
}

#[test]
fn session_open_read_render_close() {
    let data = br#"{"z":1,"a":2}"#;
    let info = FileInfo::from_parts(PathBuf::from("d.json"), None, data.len() as u64, Some("json"), prelim(Some("json"), None));
    let mut state = None;
    let render = PluginRequest::RenderViewport { start_offset: 0, max_rows: 5, width: 120 };
    assert_eq!(
        handle_session_request(&mut state, &render, None, Some(data), 0).unwrap_err(),
        PluginFailure::NoOpenFile
    );
    let open = PluginRequest::Open {
        file_path: "d.json".into(),
        file_size: data.len() as u64,
        preliminary: prelim(Some("json"), None),
        initial_data: vec![1, 2, 3],
    };
    assert!(matches!(handle_session_request(&mut state, &open, Some(info), None, 0), Ok(PluginResponse::OpenResult)));
    let read = PluginRequest::ReadBytes { offset: 5, data: vec![9, 9] };
    assert!(matches!(handle_session_request(&mut state, &read, None, None, 0), Ok(PluginResponse::ReadBytesResult)));
    assert_eq!(state.as_ref().unwrap().host_bytes, vec![1, 2, 3, 0, 0, 9, 9]);
    match handle_session_request(&mut state, &render, None, Some(data), 0).unwrap() {
        PluginResponse::RenderViewportResult { lines, status, source_byte } => {
            let joined = lines.join("");
            assert!(joined.find('z').unwrap() < joined.find('a').unwrap());
            assert!(status.contains("JSON"));
            assert_eq!(status, "JSON  line 1/4 (0%)");
            assert_eq!(source_byte, Some(0));
        }
        other => panic!("unexpected {other:?}"),
    }
    let later = PluginRequest::RenderViewport { start_offset: 2, max_rows: 1, width: 120 };
    match handle_session_request(&mut state, &later, None, Some(data), 50).unwrap() {
        PluginResponse::RenderViewportResult { status, source_byte, .. } => {
            assert_eq!(status, "JSON  line 3/4 (50%)");
            assert_eq!(source_byte, Some(2));
        }
        other => panic!("unexpected {other:?}"),
    }
    let far = PluginRequest::RenderViewport { start_offset: u64::MAX, max_rows: 1, width: 120 };
    assert_eq!(
        handle_session_request(&mut state, &far, None, Some(data), 0).unwrap_err(),
        PluginFailure::OutOfRange
    );
    assert!(matches!(handle_session_request(&mut state, &PluginRequest::Close, None, None, 0), Ok(PluginResponse::CloseResult)));
    assert!(state.is_none());
}

#[test]
fn status_line_gives_back_the_extent() {
    let raw = br#"{"a":1,"b":2,"c":3}"#;
    let count = JsonViewerLogic.line_count(raw) as u64;
    assert_eq!(count, 5);
    let status = JsonViewerLogic.status_at(raw, 2, 40);
    assert_eq!(status, "JSON  line 3/5 (40%)");
    assert_eq!(rcat::scroll::parse_display_line_extent_from_status(&status), Some(4));
    let one = JsonViewerLogic.status_at(b"", 0, 0);
    assert_eq!(rcat::scroll::parse_display_line_extent_from_status(&one), Some(1));
}

#[test]
fn pretty_text_becomes_lines_with_spread_offsets() {
    let c = rcat::json_tiers::pretty_cache_from_text("{\n  \"a\": 1\n}", 10);
    assert_eq!(c.display_lines, vec!["{".to_string(), "  \"a\": 1".to_string(), "}".to_string()]);
    assert_eq!(c.line_start_bytes, vec![0, 3, 6]);
    assert!(c.parse_error.is_none());
    let raw = JsonViewerLogic::lines_from_reformatted(b"xx\nyy", &Err("bad".to_string()));
    assert_eq!(raw, vec!["(not valid JSON — showing raw)".to_string(), "xx".to_string(), "yy".to_string()]);
    let ok = JsonViewerLogic::lines_from_reformatted(b"ignored", &Ok("[\n  1\n]".to_string()));
    assert_eq!(ok, vec!["[".to_string(), "  1".to_string(), "]".to_string()]);
}

#[test]
fn status_at_the_last_position_is_refused_only_where_lines_are_numbered() {
    let far = |path: &str| PluginRequest::Status { file_path: path.into(), position: u64::MAX };
    let invalid: &[u8] = b"not json {";
    match handle_request(&far("x"), Some(invalid), 0).unwrap() {
        PluginResponse::StatusResult { status } => assert!(status.starts_with("JSON invalid (")),
        other => panic!("unexpected {other:?}"),
    }
    assert_eq!(status_for_tier(JsonTier::LargeRaw, 10, u64::MAX, 0, 5, None, 50), "JSON raw  5 / 10 B (50%)");
    let ndjson: &[u8] = b"{\"a\":1}\n{\"b\":2}\n";
    assert_eq!(handle_request(&far("x"), Some(ndjson), 0).unwrap_err(), PluginFailure::OutOfRange);
    let pretty: &[u8] = b"{\"a\":1}";
    assert_eq!(handle_request(&far("x"), Some(pretty), 0).unwrap_err(), PluginFailure::OutOfRange);
}

#[test]
fn display_line_moves_read_the_position_as_signed() {
    let raw = br#"{"a":1,"b":2}"#;
    assert_eq!(JsonViewerLogic.advance_lines_at(raw, 0, 2), 2);
    assert_eq!(JsonViewerLogic.advance_lines_at(raw, 1, 100), 3);
    assert_eq!(JsonViewerLogic.advance_lines_at(raw, u64::MAX, 2), 1);
    assert_eq!(JsonViewerLogic.advance_lines_at(raw, u64::MAX, -5), 0);
}

#[test]
fn raw_lines_keep_every_byte_of_the_file() {
    let data: &[u8] = b"{\"a\":1}\n\nzz\r\nlast";
    let cache = build_cache(SMALL_FILE_LIMIT + 1, data);
    assert_eq!(cache.tier, JsonTier::LargeRaw);
    let joined: String = cache.display_lines.concat();
    assert_eq!(joined.as_bytes(), data);
    assert_eq!(cache.line_start_bytes, vec![0, 8, 9, 13]);
}
