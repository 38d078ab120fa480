//! The protocol between the host and external viewer plugins: the messages
//! that go each way, and what the host reads from a plugin's self-description.

use vstd::prelude::*;
use crate::file_info::PreliminaryDetection;
use crate::view::PositionKind;
use crate::viewer::ViewerPriority;

verus! {

/// A plugin's answer to `--plugin-info`.
#[derive(Debug, Clone)]
pub struct PluginInfo {
    /// Human-readable name (e.g. "Markdown", "ELF").
    pub name: String,
    /// Plugin version.
    pub version: String,
    /// Protocol version ("1", or "2" for sessions).
    pub protocol_version: String,
    /// What this plugin can do.
    pub capabilities: Vec<PluginCapability>,
    /// Hints for pre-filtering before the plugin is started.
    pub handles: PluginHandles,
    /// Suggested priority when this plugin matches.
    pub default_priority: PluginDefaultPriority,
    /// How scroll positions are interpreted in viewport requests.
    pub position_kind: Option<PositionKind>,
}

/// One capability a plugin advertises.
#[derive(Debug, Clone, Copy, PartialEq, Eq, Structural)]
pub enum PluginCapability {
    CanHandle,
    Dump,
    RenderLines,
    /// Long-lived `--session` process; the host serves bytes on request.
    SessionV2,
}

/// Pre-filtering hints.
#[derive(Debug, Clone)]
pub struct PluginHandles {
    /// File extensions (without the dot).
    pub extensions: Vec<String>,
    /// MIME types.
    pub mime_types: Vec<String>,
    /// Magic byte prefixes, as hex strings.
    pub magic: Vec<String>,
}

impl Default for PluginHandles {
    fn default() -> (h: Self)
        ensures
            h.extensions@.len() == 0,
            h.mime_types@.len() == 0,
            h.magic@.len() == 0,
    {
        PluginHandles { extensions: Vec::new(), mime_types: Vec::new(), magic: Vec::new() }
    }
}

/// Suggested priority of a matching plugin.
#[derive(Debug, Clone, Copy, PartialEq, Eq, Structural)]
pub enum PluginDefaultPriority {
    Low,
    Normal,
    Preferred,
}

impl Default for PluginDefaultPriority {
    fn default() -> (p: Self)
        ensures
            p == PluginDefaultPriority::Normal,
    {
        PluginDefaultPriority::Normal
    }
}

/// A request from the host to a plugin.
#[derive(Debug, Clone)]
pub enum PluginRequest {
    /// Can the plugin handle the file? With the first bytes of the file.
    CanHandle { file_size: u64, preliminary: PreliminaryDetection, initial_data: Vec<u8> },
    /// File bytes the plugin asked for (session protocol).
    ReadBytes { offset: u64, data: Vec<u8> },
    /// Rows for the viewport from `start_offset` (meaning private to the plugin).
    RenderLines { file_path: String, start_offset: u64, max_rows: u16, width: u16 },
    /// Move a position by display rows.
    AdvanceLines { file_path: String, current: u64, delta: i64, width: u16 },
    /// Status text for a position.
    Status { file_path: String, position: u64 },
    /// Non-interactive dump of a range.
    Dump { file_path: String, offset: u64, length: Option<u64> },
    /// Source byte of a display line.
    ByteAtDisplayLine { file_path: String, line: u64 },
    /// Display line holding a source byte.
    DisplayLineAtByte { file_path: String, byte: u64 },
    /// Open a file in a session process.
    Open {
        file_path: String,
        file_size: u64,
        preliminary: PreliminaryDetection,
        initial_data: Vec<u8>,
    },
    /// Close the session's file.
    Close,
    /// Rows and status for a viewport (session protocol).
    RenderViewport { start_offset: u64, max_rows: u16, width: u16 },
}

/// A response from a plugin to the host.
#[derive(Debug, Clone)]
pub enum PluginResponse {
    CanHandleResult { priority: ViewerPriority },
    ReadBytesResult,
    /// The plugin needs more bytes; the host answers with `ReadBytes`.
    NeedReadBytes { offset: u64, length: usize },
    RenderLinesResult { lines: Vec<String> },
    AdvanceLinesResult { position: u64 },
    StatusResult { status: String },
    DumpResult { output: String },
    ByteAtDisplayLineResult { byte_offset: u64 },
    DisplayLineAtByteResult { line: u64 },
    Error { message: String },
    OpenResult,
    CloseResult,
    RenderViewportResult { lines: Vec<String>, status: String, source_byte: Option<u64> },
}

/// Protocol version of the session protocol.
pub const PROTOCOL_VERSION_V2: &'static str = "2";

/// Default time limit for a plugin process, in seconds.
pub const DEFAULT_PLUGIN_TIMEOUT_SECS: u64 = 5;

/// Whether a plugin speaks the session protocol: it says so by its protocol
/// version or by a capability.
pub open spec fn spec_supports_v2(info: PluginInfo) -> bool {
    info.protocol_version@ == seq!['2'] || info.capabilities@.contains(PluginCapability::SessionV2)
}

/// Whether the plugin advertises the session protocol.
pub fn supports_protocol_v2(info: &PluginInfo) -> (r: bool)
    ensures
        r == spec_supports_v2(*info),
{
    let v2 = PROTOCOL_VERSION_V2.to_owned();
    proof {
        reveal_strlit("2");
        assert(v2@ =~= seq!['2']);
    }
    if info.protocol_version == v2 {
        return true;
    }
    let mut i: usize = 0;
    while i < info.capabilities.len()
        invariant
            i <= info.capabilities@.len(),
            forall|j: int| 0 <= j < i ==> info.capabilities@[j] != PluginCapability::SessionV2,
        decreases info.capabilities@.len() - i,
    {
        if info.capabilities[i] == PluginCapability::SessionV2 {
            return true;
        }
        i = i + 1;
    }
    false
}

} // verus!
