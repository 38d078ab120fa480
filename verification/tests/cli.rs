use rcat::cli::{initial_viewer_index, log_directives, use_stdout, view_mode, ViewMode};
use rcat::viewer::ViewerPriority;
use rcat::config::RcatConfig;
use rcat::offset::{parse_offset, OffsetError};
use rcat::plugin::DEFAULT_PLUGIN_TIMEOUT_SECS;
use rcat::plugin_discovery::{is_executable_mode, is_plugin_entry, is_potential_plugin};

#[test]
fn default_timeout_matches_core() {
    assert_eq!(RcatConfig::default().plugin_timeout_secs, DEFAULT_PLUGIN_TIMEOUT_SECS);
}

#[test]
fn plugin_timeout_is_at_least_one_second() {
    let zero = RcatConfig { plugin_timeout_secs: 0 };
    assert_eq!(zero.plugin_timeout(), std::time::Duration::from_secs(1));
    let ten = RcatConfig { plugin_timeout_secs: 10 };
    assert_eq!(ten.plugin_timeout(), std::time::Duration::from_secs(10));
    assert_eq!(RcatConfig::or_default(None).plugin_timeout_secs, 5);
    assert_eq!(RcatConfig::or_default(Some(ten)).plugin_timeout_secs, 10);
}

#[test]
fn parses_decimal() {
    assert_eq!(parse_offset("42").unwrap(), 42);
}

#[test]
fn parses_hex_prefix() {
    assert_eq!(parse_offset("0x10").unwrap(), 16);
    assert_eq!(parse_offset("0Xff").unwrap(), 255);
}

#[test]
fn rejects_invalid() {
    assert!(parse_offset("nope").is_err());
    assert!(parse_offset("0xzz").is_err());
}

#[test]
fn offset_errors_say_which_form_failed() {
    assert!(matches!(parse_offset("0x"), Err(OffsetError::InvalidHex(_))));
    assert!(matches!(parse_offset("12a"), Err(OffsetError::InvalidDecimal(_))));
    assert!(matches!(parse_offset(""), Err(OffsetError::InvalidDecimal(_))));
    assert!(matches!(parse_offset("18446744073709551616"), Err(OffsetError::InvalidDecimal(_))));
    assert_eq!(parse_offset("18446744073709551615").unwrap(), u64::MAX);
    assert_eq!(parse_offset("+7").unwrap(), 7);
    assert_eq!(parse_offset("0xFFFFFFFFFFFFFFFF").unwrap(), u64::MAX);
}

#[test]
fn detects_potential_plugins_by_name() {
    assert!(is_potential_plugin("rcat-viewer-elf"));
    assert!(is_potential_plugin("rcat-plugin-png"));
    assert!(!is_potential_plugin("some-random-binary"));
}

#[test]
fn plugin_entries_must_be_executable_files() {
    assert!(is_executable_mode(0o755));
    assert!(!is_executable_mode(0o644));
    assert!(is_plugin_entry(true, Some("rcat-viewer-x"), Some(0o700)));
    assert!(!is_plugin_entry(true, Some("rcat-viewer-x"), Some(0o600)));
    assert!(!is_plugin_entry(false, Some("rcat-viewer-x"), Some(0o700)));
    assert!(!is_plugin_entry(true, None, Some(0o700)));
    assert!(is_plugin_entry(true, Some("rcat-plugin-y"), None));
}

#[test]
fn view_mode_and_output_choice() {
    assert_eq!(view_mode(true, false), ViewMode::Hex);
    assert_eq!(view_mode(false, true), ViewMode::Text);
    assert_eq!(view_mode(false, false), ViewMode::Auto);
    assert!(use_stdout(true, true));
    assert!(use_stdout(false, false));
    assert!(!use_stdout(false, true));
}

#[test]
fn log_filter_names_every_crate_at_the_level() {
    assert_eq!(
        log_directives(1),
        "rcat=debug,rcat_core=debug,rcat_cli=debug,rcat_tui=debug,rcat_viewers_text=debug,rcat_viewers_hex=debug,rcat_viewers_json=debug"
    );
    assert!(log_directives(0).starts_with("rcat=info,"));
    assert!(log_directives(5).starts_with("rcat=trace,"));
}

/// A viewer that answers a fixed priority.
struct Fixed(&'static str, ViewerPriority);

impl rcat::viewer::FileViewer for Fixed {
    fn name(&self) -> &'static str {
        self.0
    }

    fn can_handle(&self, _probe: &dyn rcat::probe::FileProbe) -> ViewerPriority {
        self.1
    }

    fn dump(
        &self,
        _info: &rcat::file_info::FileInfo,
        _out: &mut Vec<u8>,
        _opts: &rcat::dump::DumpOptions,
    ) -> std::io::Result<()> {
        Ok(())
    }
}

#[test]
fn initial_viewer_follows_the_mode() {
    let mut reg = rcat::viewer_registry::ViewerRegistry::new();
    reg.register(Box::new(Fixed("Text", ViewerPriority::Low)));
    reg.register(Box::new(Fixed("Hex", ViewerPriority::Normal)));
    reg.register(Box::new(Fixed("JSON", ViewerPriority::Preferred)));
    let probe = rcat::probe::PrefixProbe::from_prefix(b"{}".to_vec(), 2);
    assert_eq!(initial_viewer_index(ViewMode::Hex, &reg, &probe), 1);
    assert_eq!(initial_viewer_index(ViewMode::Text, &reg, &probe), 0);
    assert_eq!(initial_viewer_index(ViewMode::Auto, &reg, &probe), 2);
    assert_eq!(reg.viewer_name(2), "JSON");

    let mut no_hex = rcat::viewer_registry::ViewerRegistry::new();
    no_hex.register(Box::new(Fixed("Text", ViewerPriority::Low)));
    no_hex.register(Box::new(Fixed("Other", ViewerPriority::Normal)));
    assert_eq!(initial_viewer_index(ViewMode::Hex, &no_hex, &probe), 0);
    assert_eq!(initial_viewer_index(ViewMode::Auto, &no_hex, &probe), 1);
}

#[test]
fn auto_choice_goes_to_first_viewer_of_the_best_name() {
    let mut reg = rcat::viewer_registry::ViewerRegistry::new();
    reg.register(Box::new(Fixed("JSON", ViewerPriority::Low)));
    reg.register(Box::new(Fixed("Text", ViewerPriority::Normal)));
    reg.register(Box::new(Fixed("JSON", ViewerPriority::Preferred)));
    let probe = rcat::probe::PrefixProbe::from_prefix(Vec::new(), 0);
    assert_eq!(reg.best_viewer_index(&probe), Some(2));
    assert_eq!(initial_viewer_index(ViewMode::Auto, &reg, &probe), 0);
    assert_eq!(reg.index_of("JSON"), Some(0));
}

#[test]
fn log_filter_prefers_the_environment() {
    let default = || log_directives(0);
    assert_eq!(rcat::cli::log_filter(Some("a=debug".into()), Some("b".into()), default()), "a=debug");
    assert_eq!(rcat::cli::log_filter(None, Some("b=trace".into()), default()), "b=trace");
    assert_eq!(rcat::cli::log_filter(None, None, default()), log_directives(0));
}

#[test]
fn printed_offsets_read_back() {
    for n in [0u64, 7, 10, 4096, 123_456_789, u64::MAX] {
        assert_eq!(parse_offset(&n.to_string()).unwrap(), n);
    }
}
