//! Which files in the plugin directories are plugins.

use vstd::prelude::*;
use crate::strings::{has_prefix, starts_with};

verus! {

/// A plugin executable is named `rcat-viewer-*` or `rcat-plugin-*`.
pub open spec fn spec_is_potential_plugin(file_name: Seq<char>) -> bool {
    has_prefix(file_name, "rcat-viewer-"@) || has_prefix(file_name, "rcat-plugin-"@)
}

/// Whether a file of this name may be a plugin.
pub fn is_potential_plugin(file_name: &str) -> (r: bool)
    ensures
        r == spec_is_potential_plugin(file_name@),
{
    starts_with(file_name, "rcat-viewer-") || starts_with(file_name, "rcat-plugin-")
}

/// Whether a Unix permission mode lets someone execute the file.
pub fn is_executable_mode(mode: u32) -> (r: bool)
    ensures
        r == (mode & 0o111u32 != 0),
{
    mode & 0o111u32 != 0
}

/// Whether a directory entry is taken as a plugin: a regular file with a plugin's
/// name that, where permissions are known, someone may execute.
pub open spec fn spec_is_plugin_entry(is_file: bool, file_name: Option<Seq<char>>, mode: Option<u32>) -> bool {
    &&& is_file
    &&& file_name matches Some(n) && spec_is_potential_plugin(n)
    &&& mode matches Some(m) ==> m & 0o111u32 != 0
}

/// See [`spec_is_plugin_entry`]; `mode` is `None` where the platform has no
/// permission bits.
pub fn is_plugin_entry(is_file: bool, file_name: Option<&str>, mode: Option<u32>) -> (r: bool)
    ensures
        r == spec_is_plugin_entry(
            is_file,
            match file_name {
                Some(n) => Some(n@),
                None => None,
            },
            mode,
        ),
{
    if !is_file {
        return false;
    }
    let named = match file_name {
        Some(n) => is_potential_plugin(n),
        None => false,
    };
    if !named {
        return false;
    }
    match mode {
        Some(m) => is_executable_mode(m),
        None => true,
    }
}

} // verus!
