//! The host's side of external plugins: the requests it sends for each viewer
//! operation and what it makes of each answer (the processes themselves are run
//! by the caller).

use vstd::prelude::*;
use crate::file_info::PreliminaryDetection;
use crate::plugin::{PluginCapability, PluginInfo, PluginRequest, PluginResponse};
use crate::probe::{DETECTION_READ_LIMIT, bytes_to_vec};
use crate::number::{signed_from, signed_of};
use crate::scroll::{parse_display_line_extent_from_status, spec_extent_from_status};
use crate::session::{clamped_slice, spec_clamped_slice};
use crate::strings::{decimal, push_decimal, str_equal};
use crate::view::{PositionKind, name_at, name_at_position};
use crate::viewer::{ViewerPriority, default_advance, spec_default_advance};

verus! {

/// Whether `caps` holds `cap`.
pub fn has_capability(caps: &Vec<PluginCapability>, cap: PluginCapability) -> (r: bool)
    ensures
        r == caps@.contains(cap),
{
    let mut i: usize = 0;
    while i < caps.len()
        invariant
            i <= caps@.len(),
            forall|j: int| 0 <= j < i ==> caps@[j] != cap,
        decreases caps@.len() - i,
    {
        if caps[i] == cap {
            return true;
        }
        i = i + 1;
    }
    false
}

/// How a plugin interprets anchors: as it says, bytes when it says nothing.
pub fn plugin_position_kind(info: &PluginInfo) -> (k: PositionKind)
    ensures
        k == (match info.position_kind {
            Some(k) => k,
            None => PositionKind::Byte,
        }),
{
    match info.position_kind {
        Some(k) => k,
        None => PositionKind::Byte,
    }
}

/// A plugin is registered when it can answer `CanHandle` and can either dump or
/// render lines.
pub open spec fn spec_plugin_usable(caps: Seq<PluginCapability>) -> bool {
    caps.contains(PluginCapability::CanHandle) && (caps.contains(PluginCapability::Dump)
        || caps.contains(PluginCapability::RenderLines))
}

/// See [`spec_plugin_usable`].
pub fn plugin_usable(info: &PluginInfo) -> (r: bool)
    ensures
        r == spec_plugin_usable(info.capabilities@),
{
    has_capability(&info.capabilities, PluginCapability::CanHandle) && (has_capability(
        &info.capabilities,
        PluginCapability::Dump,
    ) || has_capability(&info.capabilities, PluginCapability::RenderLines))
}

/// The request asking a plugin whether it handles a file.
pub fn can_handle_request(file_size: u64, preliminary: PreliminaryDetection, initial_data: Vec<u8>) -> (r:
    PluginRequest)
    ensures
        r == (PluginRequest::CanHandle { file_size, preliminary, initial_data }),
{
    PluginRequest::CanHandle { file_size, preliminary, initial_data }
}

/// The priority a plugin's answer to `CanHandle` gives: the one it names, and no
/// match for an error, another answer or a failed request.
pub fn priority_from_response(resp: &Result<PluginResponse, String>) -> (p: ViewerPriority)
    ensures
        p == (match resp {
            Ok(PluginResponse::CanHandleResult { priority }) => *priority,
            _ => ViewerPriority::NoMatch,
        }),
{
    match resp {
        Ok(PluginResponse::CanHandleResult { priority }) => *priority,
        _ => ViewerPriority::NoMatch,
    }
}

/// What to do after a plugin's answer to `Dump`.
#[derive(Debug)]
pub enum DumpStep {
    /// Write this output.
    Write(String),
    /// Fail with this message.
    Fail(String),
    /// Run the plugin's `dump <path>` command instead.
    CliFallback,
}

/// The step after the protocol dump: its output, its error, or the command-line
/// dump for any other answer, a failed request, or a plugin without the dump
/// capability (which is not asked at all: `resp` is then `None`).
pub fn dump_step(resp: Option<Result<PluginResponse, String>>) -> (s: DumpStep)
    ensures
        match resp {
            Some(Ok(PluginResponse::DumpResult { output })) => s == DumpStep::Write(output),
            Some(Ok(PluginResponse::Error { message })) => s == DumpStep::Fail(message),
            _ => s is CliFallback,
        },
{
    match resp {
        Some(Ok(PluginResponse::DumpResult { output })) => DumpStep::Write(output),
        Some(Ok(PluginResponse::Error { message })) => DumpStep::Fail(message),
        _ => DumpStep::CliFallback,
    }
}

/// The scroll extent of a plugin viewer: for display lines, what its status for
/// line 0 says (1 when it says nothing usable, or when the plugin cannot render);
/// the last byte otherwise.
pub open spec fn spec_plugin_scroll_extent(
    kind: PositionKind,
    can_render: bool,
    status0: Seq<char>,
    size: u64,
) -> u64 {
    match kind {
        PositionKind::DisplayLine => if can_render {
            match spec_extent_from_status(status0) {
                Some(e) => e,
                None => 1,
            }
        } else {
            1
        },
        _ => if size == 0 { 0 } else { (size - 1) as u64 },
    }
}

/// See [`spec_plugin_scroll_extent`]; `status0` is the plugin's status for position 0.
pub fn plugin_scroll_extent(kind: PositionKind, can_render: bool, status0: &str, size: u64) -> (r: u64)
    ensures
        r == spec_plugin_scroll_extent(kind, can_render, status0@, size),
{
    match kind {
        PositionKind::DisplayLine => {
            if can_render {
                match parse_display_line_extent_from_status(status0) {
                    Some(e) => e,
                    None => 1,
                }
            } else {
                1
            }
        },
        _ => if size == 0 {
            0
        } else {
            size - 1
        },
    }
}

/// The last byte of a file (0 for an empty one).
pub open spec fn last_byte(size: u64) -> u64 {
    if size == 0 { 0 } else { (size - 1) as u64 }
}

/// The source byte from a plugin's answer to `ByteAtDisplayLine`, clamped to the
/// last byte; none for any other answer or a failed request.
pub fn source_byte_from_response(resp: &Result<PluginResponse, String>, size: u64) -> (r: Option<u64>)
    ensures
        r == (match resp {
            Ok(PluginResponse::ByteAtDisplayLineResult { byte_offset }) => Some(
                if *byte_offset < last_byte(size) { *byte_offset } else { last_byte(size) },
            ),
            _ => None,
        }),
{
    let last = if size == 0 {
        0
    } else {
        size - 1
    };
    match resp {
        Ok(PluginResponse::ByteAtDisplayLineResult { byte_offset }) => Some(
            if *byte_offset < last { *byte_offset } else { last },
        ),
        _ => None,
    }
}

/// The request asking a plugin for the display line of `byte`, clamped to the
/// last byte of a file of `size` bytes.
pub fn display_line_request(file_path: String, byte: u64, size: u64) -> (r: PluginRequest)
    ensures
        r == (PluginRequest::DisplayLineAtByte {
            file_path,
            byte: if byte < last_byte(size) { byte } else { last_byte(size) },
        }),
{
    let last = if size == 0 {
        0
    } else {
        size - 1
    };
    PluginRequest::DisplayLineAtByte { file_path, byte: if byte < last { byte } else { last } }
}

/// The display line from a plugin's answer to `DisplayLineAtByte`.
pub fn display_line_from_response(resp: &Result<PluginResponse, String>) -> (r: Option<u64>)
    ensures
        r == (match resp {
            Ok(PluginResponse::DisplayLineAtByteResult { line }) => Some(*line),
            _ => None,
        }),
{
    match resp {
        Ok(PluginResponse::DisplayLineAtByteResult { line }) => Some(*line),
        _ => None,
    }
}

/// The rows a plugin viewer shows without the render capability.
pub open spec fn missing_render_rows(name: Seq<char>) -> Seq<Seq<char>> {
    seq!["["@ + name + " viewer] render_lines not implemented (missing RenderLines capability)"@]
}

/// The rows for a plugin's answer to `RenderLines`: its rows, or one row saying
/// what went wrong.
pub open spec fn spec_rows_from_response(name: Seq<char>, resp: Result<PluginResponse, String>) -> Seq<Seq<char>> {
    match resp {
        Ok(PluginResponse::RenderLinesResult { lines }) => lines.deep_view(),
        Ok(PluginResponse::Error { message }) => seq!["(plugin error: "@ + message@ + ")"@],
        Ok(_) => seq!["("@ + name + " viewer: unexpected render_lines response)"@],
        Err(e) => seq!["(plugin error: "@ + e@ + ")"@],
    }
}

/// The rows of a plugin viewer without the render capability.
pub fn missing_render_lines(name: &str) -> (r: Vec<String>)
    ensures
        r.deep_view() == missing_render_rows(name@),
{
    let mut s = "[".to_owned();
    s.append(name);
    s.append(" viewer] render_lines not implemented (missing RenderLines capability)");
    let mut r: Vec<String> = Vec::new();
    r.push(s);
    proof {
        assert(r.deep_view() =~= missing_render_rows(name@));
    }
    r
}

/// See [`spec_rows_from_response`].
pub fn rows_from_response(name: &str, resp: Result<PluginResponse, String>) -> (r: Vec<String>)
    ensures
        r.deep_view() == spec_rows_from_response(name@, resp),
{
    let one = |s: String| -> (v: Vec<String>)
        ensures
            v.deep_view() == seq![s@],
        {
            let mut v: Vec<String> = Vec::new();
            v.push(s);
            proof {
                assert(v.deep_view() =~= seq![s@]);
            }
            v
        };
    match resp {
        Ok(PluginResponse::RenderLinesResult { lines }) => lines,
        Ok(PluginResponse::Error { message }) => {
            let mut s = "(plugin error: ".to_owned();
            s.append(message.as_str());
            s.append(")");
            one(s)
        },
        Ok(_) => {
            let mut s = "(".to_owned();
            s.append(name);
            s.append(" viewer: unexpected render_lines response)");
            one(s)
        },
        Err(e) => {
            let mut s = "(plugin error: ".to_owned();
            s.append(e.as_str());
            s.append(")");
            one(s)
        },
    }
}

/// Where a plugin viewer moves when its `AdvanceLines` answer is missing: the
/// position plus `delta`, not below 0.
pub open spec fn spec_fallback_position(current: u64, delta: i64) -> u64 {
    if signed_of(current) + delta < 0 {
        0
    } else {
        (signed_of(current) + delta) as u64
    }
}

/// The position from a plugin's answer to `AdvanceLines`, or the fallback. For
/// the fallback the position is read as a signed number, and its sum with `delta`
/// must fit in `i64`.
pub fn position_from_response(resp: &Result<PluginResponse, String>, current: u64, delta: i64) -> (r: u64)
    requires
        resp matches Ok(PluginResponse::AdvanceLinesResult { .. }) || i64::MIN <= signed_of(current)
            + delta <= i64::MAX,
    ensures
        r == (match resp {
            Ok(PluginResponse::AdvanceLinesResult { position }) => *position,
            _ => spec_fallback_position(current, delta),
        }),
{
    match resp {
        Ok(PluginResponse::AdvanceLinesResult { position }) => *position,
        _ => {
            let t: i64 = signed_from(current) + delta;
            if t < 0 {
                0
            } else {
                t as u64
            }
        },
    }
}

/// The status from a plugin's answer to `Status`, or `{name} @ {pos}`.
pub fn status_from_response(name: &str, resp: Result<PluginResponse, String>, pos: u64) -> (s: String)
    ensures
        s@ == (match resp {
            Ok(PluginResponse::StatusResult { status }) => status@,
            _ => name_at_position(name@, pos),
        }),
{
    match resp {
        Ok(PluginResponse::StatusResult { status }) => status,
        _ => name_at(name, pos),
    }
}

/// Whether the plugin named `name` is left out because a viewer of that name
/// (the in-process JSON viewer) is already registered.
pub fn skip_duplicate_json(name: &str, json_registered: bool) -> (r: bool)
    ensures
        r == (name@ == "JSON"@ && json_registered),
{
    str_equal(name, "JSON") && json_registered
}

/// What the host does when a session is asked to open a file.
#[derive(Debug, Clone, Copy, PartialEq, Eq, Structural)]
pub enum OpenAction {
    /// The file is already open: nothing to send.
    AlreadyOpen,
    /// Another file is open: close it, then open this one.
    CloseThenOpen,
    /// Nothing is open: open this one.
    Open,
}

/// See [`OpenAction`].
pub fn session_open_action(open_path: Option<&str>, path: &str) -> (a: OpenAction)
    ensures
        a == (match open_path {
            Some(p) => if p@ == path@ { OpenAction::AlreadyOpen } else { OpenAction::CloseThenOpen },
            None => OpenAction::Open,
        }),
{
    match open_path {
        Some(p) => if str_equal(p, path) {
            OpenAction::AlreadyOpen
        } else {
            OpenAction::CloseThenOpen
        },
        None => OpenAction::Open,
    }
}

/// The bytes sent with `Open`: the file's first bytes, at most the detection limit.
pub open spec fn open_prefix(data: Seq<u8>, size: u64) -> Seq<u8> {
    spec_clamped_slice(
        data,
        size as int,
        0,
        if size < DETECTION_READ_LIMIT { size as int } else { DETECTION_READ_LIMIT as int },
    )
}

/// The request opening a file in a session, with its first bytes from the map.
pub fn open_request(file_path: String, size: u64, preliminary: PreliminaryDetection, data: &[u8]) -> (r:
    PluginRequest)
    ensures
        r matches PluginRequest::Open { file_path: p, file_size, preliminary: d, initial_data }
            && p == file_path && file_size == size && d == preliminary && initial_data@ == open_prefix(
            data@,
            size,
        ),
{
    let n: usize = if size < DETECTION_READ_LIMIT as u64 {
        size as usize
    } else {
        DETECTION_READ_LIMIT
    };
    let prefix = clamped_slice(data, size, 0, n);
    let initial_data = bytes_to_vec(prefix);
    PluginRequest::Open { file_path, file_size: size, preliminary, initial_data }
}

/// How a session's answer to `Open` ends.
#[derive(Debug, PartialEq, Eq)]
pub enum OpenOutcome {
    /// The file is open.
    Opened,
    /// The plugin refused, with this message.
    Refused(String),
    /// The plugin answered something else.
    Unexpected,
}

/// See [`OpenOutcome`].
pub fn open_outcome(resp: PluginResponse) -> (o: OpenOutcome)
    ensures
        match resp {
            PluginResponse::OpenResult => o == OpenOutcome::Opened,
            PluginResponse::Error { message } => o == OpenOutcome::Refused(message),
            _ => o == OpenOutcome::Unexpected,
        },
{
    match resp {
        PluginResponse::OpenResult => OpenOutcome::Opened,
        PluginResponse::Error { message } => OpenOutcome::Refused(message),
        _ => OpenOutcome::Unexpected,
    }
}

/// The host's reply when a session plugin asks for bytes: the requested range of
/// the map (clamped to the file); nothing for any other answer.
pub fn read_bytes_reply(resp: &PluginResponse, data: &[u8], size: u64) -> (r: Option<PluginRequest>)
    ensures
        match *resp {
            PluginResponse::NeedReadBytes { offset, length } => r matches Some(
                PluginRequest::ReadBytes { offset: o, data: d },
            ) && o == offset && d@ == spec_clamped_slice(data@, size as int, offset as int, length as int),
            _ => r is None,
        },
{
    match resp {
        PluginResponse::NeedReadBytes { offset, length } => {
            let bytes = bytes_to_vec(clamped_slice(data, size, *offset, *length));
            Some(PluginRequest::ReadBytes { offset: *offset, data: bytes })
        },
        _ => None,
    }
}

} // verus!
