use vstd::prelude::*;

pub mod strings;
pub mod text_slice;
pub mod file_info;
pub mod session;
pub mod view;
pub mod probe;
pub mod dump;
pub mod viewer;
pub mod viewer_registry;
pub mod hex_view;
pub mod number;
pub mod offset;
pub mod plugin;
pub mod config;
pub mod plugin_discovery;
pub mod scroll;
pub mod detection;
pub mod viewport_cache;
pub mod metadata;
pub mod json_tiers;
pub mod json_view;
pub mod json_plugin;
pub mod external_plugin;
pub mod tui;
pub mod styling;
pub mod cli;

verus! {
} // verus!
