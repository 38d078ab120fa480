//! User configuration (from a TOML file), with its defaults.

use std::time::Duration;
use vstd::prelude::*;
use crate::plugin::DEFAULT_PLUGIN_TIMEOUT_SECS;

verus! {

/// The duration of `secs` whole seconds, as `Duration::from_secs` builds it.
pub uninterp spec fn seconds(secs: u64) -> Duration;

/// Wraps `Duration::from_secs`; the contract names the result.
#[verifier::external_body]
fn duration_from_secs(secs: u64) -> (d: Duration)
    ensures
        d == seconds(secs),
{
    Duration::from_secs(secs)
}

/// User-facing configuration.
#[derive(Debug, Clone)]
pub struct RcatConfig {
    /// Seconds to wait for an external plugin process before killing it.
    pub plugin_timeout_secs: u64,
}

impl Default for RcatConfig {
    fn default() -> (c: Self)
        ensures
            c.plugin_timeout_secs == DEFAULT_PLUGIN_TIMEOUT_SECS,
    {
        RcatConfig { plugin_timeout_secs: DEFAULT_PLUGIN_TIMEOUT_SECS }
    }
}

impl RcatConfig {
    /// The plugin time limit: the configured seconds, at least one.
    pub fn plugin_timeout(&self) -> (d: Duration)
        ensures
            d == seconds(if self.plugin_timeout_secs >= 1 { self.plugin_timeout_secs } else { 1 }),
    {
        let secs = if self.plugin_timeout_secs >= 1 {
            self.plugin_timeout_secs
        } else {
            1
        };
        duration_from_secs(secs)
    }

    /// The configuration in effect: the one read from a file if there is one,
    /// the defaults otherwise.
    pub fn or_default(loaded: Option<RcatConfig>) -> (c: Self)
        ensures
            c == (match loaded {
                Some(l) => l,
                None => RcatConfig { plugin_timeout_secs: DEFAULT_PLUGIN_TIMEOUT_SECS },
            }),
    {
        match loaded {
            Some(l) => l,
            None => RcatConfig::default(),
        }
    }
}

} // verus!
