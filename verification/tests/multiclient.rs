use ggo_launcher::multiclient::{
    disabled_diagnostics, require_enabled, restore_all_failure_text, six_window_failure_text,
    stage0_enabled_from_value,
};

#[test]
fn feature_flag_requires_exact_value_one() {
    assert!(stage0_enabled_from_value(Some("1")));
    assert!(!stage0_enabled_from_value(None));
    assert!(!stage0_enabled_from_value(Some("0")));
    assert!(!stage0_enabled_from_value(Some("true")));
    assert!(!stage0_enabled_from_value(Some(" 1")));
}

#[test]
fn disabled_diagnostics_do_not_enumerate_or_expose_runtime_state() {
    let diagnostics = disabled_diagnostics();

    assert!(!diagnostics.enabled);
    assert!(diagnostics.registry.is_none());
    assert!(diagnostics.session_windows.is_empty());
    assert!(diagnostics.monitors.is_empty());
    assert!(diagnostics.monitor_error.is_none());
    assert!(require_enabled(false).is_err());
    assert!(require_enabled(true).is_ok());
}
