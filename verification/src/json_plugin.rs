//! The JSON viewer as a plugin process: what it answers to each protocol request,
//! one at a time or within a session.

use vstd::prelude::*;
use crate::dump::DumpOptions;
use crate::probe::bytes_to_vec;
use crate::file_info::FileInfo;
use crate::external_plugin::last_byte;
use crate::json_tiers::{
    JsonTier, detect_tier, numbers_lines, spec_detect_tier, spec_tier_advance, spec_tier_status,
    spec_tier_viewport, tier_advance, tier_numbers_lines, tier_status, tier_viewport,
};
use crate::json_view::{
    JsonViewerLogic, json_dump, json_priority, spec_json_dump, spec_json_line_status, spec_json_priority,
    spec_line_count, spec_pretty_lines,
};
use crate::text_slice::{render_display_rows, spec_render_rows};
use crate::plugin::{
    PluginCapability, PluginDefaultPriority, PluginHandles, PluginInfo, PluginRequest,
    PluginResponse,
};
use crate::scroll::{is_space, is_space_char};
use crate::strings::{chars_of, lossy_string, utf8_lossy};
use crate::view::PositionKind;
use crate::viewer::ViewerPriority;

verus! {

/// Why the plugin could not answer a request.
#[derive(Debug, Clone, Copy, PartialEq, Eq, Structural)]
pub enum PluginFailure {
    /// The request's file could not be read.
    FileUnreadable,
    /// A session request came with no file open.
    NoOpenFile,
    /// A dump range starts past the display lines.
    DumpOutOfRange,
    /// A position or byte range does not fit the machine's integers.
    OutOfRange,
}

/// First character of `s` that is not whitespace, if any.
pub open spec fn first_non_space(s: Seq<char>, i: int) -> Option<char>
    decreases s.len() - i,
{
    if i < 0 || i >= s.len() {
        None
    } else if !is_space(s[i]) {
        Some(s[i])
    } else {
        first_non_space(s, i + 1)
    }
}

/// Bytes look like JSON: not empty, and the decoded text starts (after
/// whitespace) with `{` or `[`.
pub open spec fn spec_looks_like_json(data: Seq<u8>) -> bool {
    data.len() > 0 && (first_non_space(utf8_lossy(data), 0) == Some('{') || first_non_space(
        utf8_lossy(data),
        0,
    ) == Some('['))
}

/// See [`spec_looks_like_json`].
pub fn looks_like_json_data(data: &[u8]) -> (r: bool)
    ensures
        r == spec_looks_like_json(data@),
{
    if data.len() == 0 {
        return false;
    }
    let text = lossy_string(data);
    let cs = chars_of(text.as_str());
    let mut i: usize = 0;
    while i < cs.len() && is_space_char(cs[i])
        invariant
            i <= cs@.len(),
            cs@ == utf8_lossy(data@),
            first_non_space(cs@, i as int) == first_non_space(cs@, 0),
        decreases cs@.len() - i,
    {
        i = i + 1;
    }
    i < cs.len() && (cs[i] == '{' || cs[i] == '[')
}

/// How much the plugin wants a file: preferred when the detection says JSON (MIME
/// type or extension) or the first bytes look like JSON, not at all otherwise.
pub open spec fn spec_can_handle_priority(prelim: crate::file_info::PreliminaryDetection, initial: Seq<u8>) -> ViewerPriority {
    if spec_json_priority(prelim) == ViewerPriority::Preferred || spec_looks_like_json(initial) {
        ViewerPriority::Preferred
    } else {
        ViewerPriority::NoMatch
    }
}

/// See [`spec_can_handle_priority`].
pub fn can_handle_priority(prelim: &crate::file_info::PreliminaryDetection, initial_data: &[u8]) -> (p: ViewerPriority)
    ensures
        p == spec_can_handle_priority(*prelim, initial_data@),
{
    if json_priority(prelim) == ViewerPriority::Preferred || looks_like_json_data(initial_data) {
        ViewerPriority::Preferred
    } else {
        ViewerPriority::NoMatch
    }
}

/// What the JSON plugin says of itself: session protocol, byte anchors, JSON files.
pub fn json_plugin_info() -> (i: PluginInfo)
    ensures
        i.name@ == "JSON"@,
        i.version@ == "0.4.0"@,
        i.protocol_version@ == "2"@,
        i.capabilities@ == seq![
            PluginCapability::CanHandle,
            PluginCapability::Dump,
            PluginCapability::RenderLines,
            PluginCapability::SessionV2,
        ],
        i.handles.extensions.deep_view() == seq!["json"@],
        i.handles.mime_types.deep_view() == seq!["application/json"@],
        i.handles.magic@.len() == 0,
        i.default_priority == PluginDefaultPriority::Preferred,
        i.position_kind == Some(PositionKind::Byte),
{
    let mut capabilities: Vec<PluginCapability> = Vec::new();
    capabilities.push(PluginCapability::CanHandle);
    capabilities.push(PluginCapability::Dump);
    capabilities.push(PluginCapability::RenderLines);
    capabilities.push(PluginCapability::SessionV2);
    let mut extensions: Vec<String> = Vec::new();
    extensions.push("json".to_owned());
    let mut mime_types: Vec<String> = Vec::new();
    mime_types.push("application/json".to_owned());
    proof {
        assert(capabilities@ =~= seq![
            PluginCapability::CanHandle,
            PluginCapability::Dump,
            PluginCapability::RenderLines,
            PluginCapability::SessionV2,
        ]);
        assert(extensions.deep_view() =~= seq!["json"@]);
        assert(mime_types.deep_view() =~= seq!["application/json"@]);
    }
    PluginInfo {
        name: "JSON".to_owned(),
        version: "0.4.0".to_owned(),
        protocol_version: "2".to_owned(),
        capabilities,
        handles: PluginHandles { extensions, mime_types, magic: Vec::new() },
        default_priority: PluginDefaultPriority::Preferred,
        position_kind: Some(PositionKind::Byte),
    }
}

/// The message for requests that belong to the other protocol mode.
pub open spec fn session_only_message() -> Seq<char> {
    "request not valid in one-shot mode (use --session)"@
}

/// The message for sync requests, which this viewer does not answer.
pub open spec fn byte_offsets_only_message() -> Seq<char> {
    "JSON viewer uses byte offsets only (raw file view)"@
}

/// The message for `ReadBytes` outside a session.
pub open spec fn read_bytes_unsupported_message() -> Seq<char> {
    "ReadBytes not supported by rcat-viewer-json"@
}

/// `r` answers a request about the file whose bytes are `d`: rows, moves and
/// status of the file's tier model, and the JSON viewer's display lines for a dump. `pct` is the
/// percentage shown in a status line.
pub open spec fn answers_file_request(request: PluginRequest, d: Seq<u8>, pct: u32, r: Result<PluginResponse, PluginFailure>) -> bool {
    match request {
        PluginRequest::RenderLines { start_offset, max_rows, .. } => r matches Ok(
            PluginResponse::RenderLinesResult { lines },
        ) && lines.deep_view() == spec_tier_viewport(d, start_offset, max_rows),
        PluginRequest::AdvanceLines { current, delta, .. } => r == Ok::<
            PluginResponse,
            PluginFailure,
        >(PluginResponse::AdvanceLinesResult { position: spec_tier_advance(d, current, delta) }),
        PluginRequest::Status { position, .. } => if position < u64::MAX || !numbers_lines(
            spec_detect_tier(d.len() as u64, d),
        ) {
            r matches Ok(PluginResponse::StatusResult { status }) && status@ == spec_tier_status(
                d,
                position,
                pct,
            )
        } else {
            r == Err::<PluginResponse, PluginFailure>(PluginFailure::OutOfRange)
        },
        PluginRequest::Dump { offset, length, .. } => if offset <= spec_pretty_lines(d).len() && (
        length matches Some(l) ==> offset + l <= usize::MAX) {
            r matches Ok(PluginResponse::DumpResult { output }) && output@ == spec_json_dump(
                spec_pretty_lines(d),
                DumpOptions { offset, length },
            )
        } else {
            r == Err::<PluginResponse, PluginFailure>(PluginFailure::DumpOutOfRange)
        },
        _ => false,
    }
}

/// A request about the file it names.
pub open spec fn is_file_request(request: PluginRequest) -> bool {
    request is RenderLines || request is AdvanceLines || request is Status || request is Dump
}

/// See [`answers_file_request`].
fn answer_file_request(request: &PluginRequest, d: &[u8], pct: u32) -> (r: Result<PluginResponse, PluginFailure>)
    requires
        is_file_request(*request),
    ensures
        answers_file_request(*request, d@, pct, r),
{
    match request {
        PluginRequest::RenderLines { start_offset, max_rows, .. } => Ok(
            PluginResponse::RenderLinesResult { lines: tier_viewport(d, *start_offset, *max_rows) },
        ),
        PluginRequest::AdvanceLines { current, delta, .. } => Ok(
            PluginResponse::AdvanceLinesResult { position: tier_advance(d, *current, *delta) },
        ),
        PluginRequest::Status { position, .. } => {
            if *position == u64::MAX && tier_numbers_lines(detect_tier(d.len() as u64, d)) {
                Err(PluginFailure::OutOfRange)
            } else {
                Ok(PluginResponse::StatusResult { status: tier_status(d, *position, pct) })
            }
        },
        PluginRequest::Dump { offset, length, .. } => {
            let opts = DumpOptions { offset: *offset, length: *length };
            match json_dump(d, &opts) {
                Some(output) => Ok(PluginResponse::DumpResult { output }),
                None => Err(PluginFailure::DumpOutOfRange),
            }
        },
        _ => Err(PluginFailure::OutOfRange),
    }
}

/// `r` answers a one-shot `request`; `file` holds the bytes of the request's file
/// when it names one and the file could be read.
pub open spec fn answers_request(request: PluginRequest, file: Option<Seq<u8>>, pct: u32, r: Result<PluginResponse, PluginFailure>) -> bool {
    if is_file_request(request) {
        match file {
            None => r == Err::<PluginResponse, PluginFailure>(PluginFailure::FileUnreadable),
            Some(d) => answers_file_request(request, d, pct, r),
        }
    } else {
        match request {
            PluginRequest::CanHandle { preliminary, initial_data, .. } => r == Ok::<
                PluginResponse,
                PluginFailure,
            >(PluginResponse::CanHandleResult {
                priority: spec_can_handle_priority(preliminary, initial_data@),
            }),
            PluginRequest::ByteAtDisplayLine { .. } | PluginRequest::DisplayLineAtByte { .. } => r matches Ok(
                PluginResponse::Error { message },
            ) && message@ == byte_offsets_only_message(),
            PluginRequest::ReadBytes { .. } => r matches Ok(PluginResponse::Error { message })
                && message@ == read_bytes_unsupported_message(),
            _ => r matches Ok(PluginResponse::Error { message }) && message@ == session_only_message(),
        }
    }
}

/// The JSON plugin's answer to one request in one-shot mode; `pct` is the
/// percentage for a status line.
pub fn handle_request(request: &PluginRequest, file: Option<&[u8]>, pct: u32) -> (r: Result<PluginResponse, PluginFailure>)
    ensures
        answers_request(
            *request,
            match file {
                Some(d) => Some(d@),
                None => None,
            },
            pct,
            r,
        ),
{
    match request {
        PluginRequest::RenderLines { .. } | PluginRequest::AdvanceLines { .. } | PluginRequest::Status {
            ..
        } | PluginRequest::Dump { .. } => match file {
            None => Err(PluginFailure::FileUnreadable),
            Some(d) => answer_file_request(request, d, pct),
        },
        PluginRequest::CanHandle { preliminary, initial_data, .. } => {
            let priority = can_handle_priority(preliminary, initial_data.as_slice());
            Ok(PluginResponse::CanHandleResult { priority })
        },
        PluginRequest::ByteAtDisplayLine { .. } | PluginRequest::DisplayLineAtByte { .. } => Ok(
            PluginResponse::Error {
                message: "JSON viewer uses byte offsets only (raw file view)".to_owned(),
            },
        ),
        PluginRequest::ReadBytes { .. } => Ok(
            PluginResponse::Error { message: "ReadBytes not supported by rcat-viewer-json".to_owned() },
        ),
        _ => Ok(
            PluginResponse::Error {
                message: "request not valid in one-shot mode (use --session)".to_owned(),
            },
        ),
    }
}

/// The file a session has open.
pub struct PluginSessionState {
    /// The path the host opened.
    pub file_path: String,
    /// The file's metadata.
    pub info: FileInfo,
    /// Bytes the host has supplied so far (from `Open`, extended by `ReadBytes`).
    pub host_bytes: Vec<u8>,
}

/// `host` after the host supplied `data` at `offset`: grown with zeros to reach
/// the end of the data where needed, and overwritten there.
pub open spec fn spec_write_bytes(host: Seq<u8>, offset: int, data: Seq<u8>) -> Seq<u8> {
    let end = offset + data.len();
    let grown = if end > host.len() {
        host + Seq::new((end - host.len()) as nat, |i: int| 0u8)
    } else {
        host
    };
    grown.subrange(0, offset) + data + grown.subrange(end, grown.len() as int)
}

/// What the host supplied reads back as written; the bytes before it stay, and the
/// buffer is as long as before or as the end of the write.
pub proof fn lemma_write_bytes_read_back(host: Seq<u8>, offset: int, data: Seq<u8>)
    requires
        0 <= offset,
    ensures
        spec_write_bytes(host, offset, data).subrange(offset, offset + data.len()) == data,
        spec_write_bytes(host, offset, data).len() == if offset + data.len() > host.len() {
            offset + data.len()
        } else {
            host.len() as int
        },
        forall|i: int|
            0 <= i < offset && i < host.len() ==> #[trigger] spec_write_bytes(host, offset, data)[i]
                == host[i],
        forall|i: int|
            offset + data.len() <= i < host.len() ==> #[trigger] spec_write_bytes(host, offset, data)[i]
                == host[i],
{
    let w = spec_write_bytes(host, offset, data);
    assert(w.subrange(offset, offset + data.len()) =~= data);
}

/// Writes `data` into `host` at `offset` (see [`spec_write_bytes`]).
pub fn write_host_bytes(host: &mut Vec<u8>, offset: usize, data: &[u8])
    requires
        offset + data@.len() <= usize::MAX,
    ensures
        final(host)@ == spec_write_bytes(old(host)@, offset as int, data@),
{
    let end = offset + data.len();
    let ghost h0 = host@;
    while host.len() < end
        invariant
            end == offset + data@.len(),
            h0.len() <= host@.len() <= if end > h0.len() { end as int } else { h0.len() as int },
            host@ == h0 + Seq::new((host@.len() - h0.len()) as nat, |i: int| 0u8),
        decreases end - host@.len(),
    {
        host.push(0u8);
        proof {
            assert(host@ =~= h0 + Seq::new((host@.len() - h0.len()) as nat, |i: int| 0u8));
        }
    }
    let ghost grown = host@;
    proof {
        assert(grown =~= (if end > h0.len() {
            h0 + Seq::new((end - h0.len()) as nat, |i: int| 0u8)
        } else {
            h0
        }));
    }
    let mut k: usize = 0;
    while k < data.len()
        invariant
            k <= data@.len(),
            end == offset + data@.len(),
            host@.len() == grown.len(),
            grown.len() >= end,
            host@ == grown.subrange(0, offset as int) + data@.take(k as int) + grown.subrange(
                offset + k,
                grown.len() as int,
            ),
        decreases data@.len() - k,
    {
        host.set(offset + k, data[k]);
        k = k + 1;
        proof {
            assert(host@ =~= grown.subrange(0, offset as int) + data@.take(k as int) + grown.subrange(
                offset + k,
                grown.len() as int,
            ));
        }
    }
    proof {
        assert(data@.take(data@.len() as int) =~= data@);
    }
}

/// The message for one-shot requests inside a session.
pub open spec fn one_shot_only_message() -> Seq<char> {
    "request not valid in --session mode (use one-shot process)"@
}

/// The JSON plugin's answer to one request in session mode, and the session's
/// next state. `opened` is the metadata of the file an `Open` names (when it
/// could be read); `file` holds the bytes of the open file (when they could be
/// read); `pct` is the percentage for a status line. The viewport of a session is
/// the raw text of the file from a byte offset, under the JSON viewer's line
/// status for that position.
pub fn handle_session_request(
    state: &mut Option<PluginSessionState>,
    request: &PluginRequest,
    opened: Option<FileInfo>,
    file: Option<&[u8]>,
    pct: u32,
) -> (r: Result<PluginResponse, PluginFailure>)
    ensures
        match *request {
            PluginRequest::Open { file_path, initial_data, .. } => match opened {
                None => r == Err::<PluginResponse, PluginFailure>(PluginFailure::FileUnreadable)
                    && *final(state) == *old(state),
                Some(info) => r == Ok::<PluginResponse, PluginFailure>(PluginResponse::OpenResult)
                    && (*final(state) matches Some(st) && st.file_path@ == file_path@ && st.info
                    == info && st.host_bytes@ == initial_data@),
            },
            PluginRequest::Close => r == Ok::<PluginResponse, PluginFailure>(
                PluginResponse::CloseResult,
            ) && *final(state) is None,
            PluginRequest::ReadBytes { offset, data } => match *old(state) {
                None => r == Err::<PluginResponse, PluginFailure>(PluginFailure::NoOpenFile)
                    && *final(state) is None,
                Some(st) => if offset + data@.len() <= usize::MAX {
                    r == Ok::<PluginResponse, PluginFailure>(PluginResponse::ReadBytesResult)
                        && (*final(state) matches Some(st2) && st2.file_path == st.file_path
                        && st2.info == st.info && st2.host_bytes@ == spec_write_bytes(
                        st.host_bytes@,
                        offset as int,
                        data@,
                    ))
                } else {
                    r == Err::<PluginResponse, PluginFailure>(PluginFailure::OutOfRange)
                        && *final(state) == *old(state)
                },
            },
            PluginRequest::RenderViewport { start_offset, max_rows, width } => *final(state) == *old(
                state,
            ) && match *old(state) {
                None => r == Err::<PluginResponse, PluginFailure>(PluginFailure::NoOpenFile),
                Some(st) => match file {
                    None => r == Err::<PluginResponse, PluginFailure>(
                        PluginFailure::FileUnreadable,
                    ),
                    Some(d) => if start_offset == u64::MAX {
                        r == Err::<PluginResponse, PluginFailure>(PluginFailure::OutOfRange)
                    } else {
                        r matches Ok(
                        PluginResponse::RenderViewportResult { lines, status, source_byte },
                    ) && lines.deep_view() == spec_render_rows(
                        d@,
                        st.info.size as int,
                        start_offset as int,
                        max_rows as nat,
                        width as nat,
                    ) && status@ == spec_json_line_status(start_offset, spec_line_count(d@), pct)
                        && source_byte == Some(
                        if start_offset < last_byte(st.info.size) {
                            start_offset
                        } else {
                            last_byte(st.info.size)
                        },
                    )
                    },
                },
            },
            PluginRequest::RenderLines { .. } | PluginRequest::AdvanceLines { .. }
            | PluginRequest::Status { .. } | PluginRequest::Dump { .. } => *final(state) == *old(
                state,
            ) && match *old(state) {
                None => r == Err::<PluginResponse, PluginFailure>(PluginFailure::NoOpenFile),
                Some(_) => match file {
                    None => r == Err::<PluginResponse, PluginFailure>(
                        PluginFailure::FileUnreadable,
                    ),
                    Some(d) => answers_file_request(*request, d@, pct, r),
                },
            },
            _ => *final(state) == *old(state) && (r matches Ok(PluginResponse::Error { message })
                && message@ == one_shot_only_message()),
        },
{
    match request {
        PluginRequest::Open { file_path, initial_data, .. } => match opened {
            None => Err(PluginFailure::FileUnreadable),
            Some(info) => {
                *state = Some(
                    PluginSessionState {
                        file_path: file_path.clone(),
                        info,
                        host_bytes: bytes_to_vec(initial_data.as_slice()),
                    },
                );
                Ok(PluginResponse::OpenResult)
            },
        },
        PluginRequest::Close => {
            *state = None;
            Ok(PluginResponse::CloseResult)
        },
        PluginRequest::ReadBytes { offset, data } => {
            match state {
                None => Err(PluginFailure::NoOpenFile),
                Some(st) => {
                    if *offset > (usize::MAX - data.len()) as u64 {
                        return Err(PluginFailure::OutOfRange);
                    }
                    write_host_bytes(&mut st.host_bytes, *offset as usize, data.as_slice());
                    Ok(PluginResponse::ReadBytesResult)
                },
            }
        },
        PluginRequest::RenderViewport { start_offset, max_rows, width } => match state {
            None => Err(PluginFailure::NoOpenFile),
            Some(st) => match file {
                None => Err(PluginFailure::FileUnreadable),
                Some(d) => {
                    if *start_offset == u64::MAX {
                        return Err(PluginFailure::OutOfRange);
                    }
                    let size = st.info.size;
                    let lines = render_display_rows(d, size, *start_offset, *max_rows, *width);
                    let status = JsonViewerLogic.status_at(d, *start_offset, pct);
                    let last = if size == 0 {
                        0
                    } else {
                        size - 1
                    };
                    let source_byte = Some(if *start_offset < last { *start_offset } else { last });
                    Ok(PluginResponse::RenderViewportResult { lines, status, source_byte })
                },
            },
        },
        PluginRequest::RenderLines { .. } | PluginRequest::AdvanceLines { .. } | PluginRequest::Status {
            ..
        } | PluginRequest::Dump { .. } => match state {
            None => Err(PluginFailure::NoOpenFile),
            Some(_) => match file {
                None => Err(PluginFailure::FileUnreadable),
                Some(d) => answer_file_request(request, d, pct),
            },
        },
        _ => Ok(
            PluginResponse::Error {
                message: "request not valid in --session mode (use one-shot process)".to_owned(),
            },
        ),
    }
}

} // verus!
