//! Decisions of the command-line front end: the view mode, the viewer to start
//! with, where the output goes, and the logging filter.

use vstd::prelude::*;
use crate::probe::FileProbe;
use crate::viewer_registry::{ViewerRegistry, is_best_for, spec_index_of};

verus! {

/// Which viewer the user asked for.
#[derive(Debug, Clone, Copy, PartialEq, Eq, Structural)]
pub enum ViewMode {
    Auto,
    Text,
    Hex,
}

/// `--hex` forces hex, `--text` forces text, neither lets the file decide.
pub fn view_mode(hex: bool, text: bool) -> (m: ViewMode)
    ensures
        m == if hex {
            ViewMode::Hex
        } else if text {
            ViewMode::Text
        } else {
            ViewMode::Auto
        },
{
    if hex {
        ViewMode::Hex
    } else if text {
        ViewMode::Text
    } else {
        ViewMode::Auto
    }
}

/// Output goes to stdout (no interactive viewer) when asked for or when stdout
/// is not a terminal.
pub fn use_stdout(stdout_flag: bool, stdout_is_terminal: bool) -> (r: bool)
    ensures
        r == (stdout_flag || !stdout_is_terminal),
{
    stdout_flag || !stdout_is_terminal
}

/// An index found by name, or the first viewer.
pub open spec fn found_or_first(found: Option<int>) -> int {
    match found {
        Some(k) => k,
        None => 0,
    }
}

/// The viewer to start with: the first one named `Hex` or `Text` when forced
/// (the first viewer if there is none of that name); else the first viewer
/// registered under the name of the best one for the file.
pub fn initial_viewer_index(mode: ViewMode, registry: &ViewerRegistry, probe: &dyn FileProbe) -> (i: usize)
    requires
        registry.spec_viewers().len() > 0,
    ensures
        i < registry.spec_viewers().len(),
        mode == ViewMode::Hex ==> i == found_or_first(spec_index_of(registry.spec_names(), "Hex"@)),
        mode == ViewMode::Text ==> i == found_or_first(spec_index_of(registry.spec_names(), "Text"@)),
        mode == ViewMode::Auto ==> exists|b: int|
            #![trigger is_best_for(registry, probe, b)]
            is_best_for(registry, probe, b) && i == found_or_first(
                spec_index_of(registry.spec_names(), registry.spec_names()[b]),
            ),
{
    let found = match mode {
        ViewMode::Hex => registry.index_of("Hex"),
        ViewMode::Text => registry.index_of("Text"),
        ViewMode::Auto => {
            match registry.best_viewer_index(probe) {
                Some(b) => {
                    proof {
                        assert(is_best_for(registry, probe, b as int));
                    }
                    registry.index_of(registry.viewer_name(b))
                },
                None => None,
            }
        },
    };
    match found {
        Some(i) => i,
        None => 0,
    }
}

/// The level of the default log filter for a verbosity count.
pub open spec fn spec_log_level(verbose: u8) -> Seq<char> {
    if verbose == 0 {
        "info"@
    } else if verbose == 1 {
        "debug"@
    } else {
        "trace"@
    }
}

/// See [`spec_log_level`].
pub fn log_level(verbose: u8) -> (s: &'static str)
    ensures
        s@ == spec_log_level(verbose),
{
    if verbose == 0 {
        "info"
    } else if verbose == 1 {
        "debug"
    } else {
        "trace"
    }
}

/// The default log filter: every crate of the viewer at the verbosity's level.
pub open spec fn spec_log_directives(verbose: u8) -> Seq<char> {
    "rcat="@ + spec_log_level(verbose) + ",rcat_core="@ + spec_log_level(verbose) + ",rcat_cli="@
        + spec_log_level(verbose) + ",rcat_tui="@ + spec_log_level(verbose) + ",rcat_viewers_text="@
        + spec_log_level(verbose) + ",rcat_viewers_hex="@ + spec_log_level(verbose)
        + ",rcat_viewers_json="@ + spec_log_level(verbose)
}

/// See [`spec_log_directives`].
pub fn log_directives(verbose: u8) -> (s: String)
    ensures
        s@ == spec_log_directives(verbose),
{
    let l = log_level(verbose);
    let mut s = "rcat=".to_owned();
    s.append(l);
    s.append(",rcat_core=");
    s.append(l);
    s.append(",rcat_cli=");
    s.append(l);
    s.append(",rcat_tui=");
    s.append(l);
    s.append(",rcat_viewers_text=");
    s.append(l);
    s.append(",rcat_viewers_hex=");
    s.append(l);
    s.append(",rcat_viewers_json=");
    s.append(l);
    s
}

/// The log filter in force: `RCAT_LOG` when set, else `RUST_LOG` when set, else
/// the default.
pub open spec fn spec_log_filter(rcat_log: Option<Seq<char>>, rust_log: Option<Seq<char>>, default: Seq<
    char,
>) -> Seq<char> {
    match rcat_log {
        Some(v) => v,
        None => match rust_log {
            Some(v) => v,
            None => default,
        },
    }
}

/// See [`spec_log_filter`]; the first two arguments are the variables' values,
/// if set.
pub fn log_filter(rcat_log: Option<String>, rust_log: Option<String>, default: String) -> (s: String)
    ensures
        s@ == spec_log_filter(
            match rcat_log {
                Some(v) => Some(v@),
                None => None,
            },
            match rust_log {
                Some(v) => Some(v@),
                None => None,
            },
            default@,
        ),
{
    match rcat_log {
        Some(v) => v,
        None => match rust_log {
            Some(v) => v,
            None => default,
        },
    }
}

} // verus!
