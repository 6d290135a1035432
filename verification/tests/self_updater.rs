use ggo_launcher::self_updater::{
    all_sources_failed, is_newer, parse_u32, require_https, self_update_check, updater_script,
    verify_launcher_download, LauncherManifest,
};

const ABC_SHA256: &str = "ba7816bf8f01cfea414140de5dae2223b00361a396177a9cb410ff61f20015ad";

fn manifest(version: &str) -> LauncherManifest {
    LauncherManifest {
        version: version.to_string(),
        released: String::new(),
        notes: String::new(),
        url: "https://example.com/launcher.exe".to_string(),
        size: 3,
        sha256: ABC_SHA256.to_string(),
    }
}

#[test]
fn numbers_parse_as_str_parse_does() {
    assert_eq!(parse_u32("42"), Some(42));
    assert_eq!(parse_u32("+7"), Some(7));
    assert_eq!(parse_u32("007"), Some(7));
    assert_eq!(parse_u32("4294967295"), Some(u32::MAX));
    assert_eq!(parse_u32("4294967296"), None);
    assert_eq!(parse_u32(""), None);
    assert_eq!(parse_u32("+"), None);
    assert_eq!(parse_u32("-1"), None);
    assert_eq!(parse_u32("1a"), None);
}

#[test]
fn versions_compare_numerically_part_by_part() {
    assert!(is_newer("1.10.0", "1.9.9"));
    assert!(!is_newer("1.9.9", "1.10.0"));
    assert!(is_newer("1.2.1", "1.2"));
    assert!(!is_newer("1.2", "1.2"));
    assert!(!is_newer("1.2", "1.2.0"));
    // A non-numeric part falls back to comparing the texts.
    assert!(is_newer("1.2b", "1.2a"));
    assert!(!is_newer("1.10b", "1.9"));
}

#[test]
fn update_check_keeps_the_manifest_only_when_newer() {
    let c = self_update_check(manifest("0.3.0"), "0.2.9");
    assert!(c.update_available);
    assert!(c.manifest.is_some());
    assert_eq!(c.remote_version, "0.3.0");
    let d = self_update_check(manifest("0.2.9"), "0.2.9");
    assert!(!d.update_available);
    assert!(d.manifest.is_none());
}

#[test]
fn launcher_download_needs_https_and_matching_hash() {
    assert!(require_https("HTTPS://example.com/x").is_ok());
    assert_eq!(require_https("http://example.com/x").unwrap_err(), "런처 manifest url은 https://여야 합니다");
    assert!(verify_launcher_download(&manifest("1"), b"abc").is_ok());
    assert!(verify_launcher_download(&manifest("1"), b"abd").unwrap_err().starts_with("해시 불일치 (expected="));
}

#[test]
fn failed_sources_are_listed_with_bars() {
    let msg = all_sources_failed(&vec!["a: 404".to_string(), "b: timeout".to_string()]);
    assert!(msg.ends_with("a: 404 | b: timeout"));
}

#[test]
fn updater_script_swaps_and_restarts_the_launcher() {
    let s = updater_script("C:\\L\\launcher.exe", "launcher.exe", "C:\\T\\new.exe");
    assert!(s.starts_with("@echo off\r\n"));
    assert!(s.contains("move /y \"C:\\T\\new.exe\" \"C:\\L\\launcher.exe\" >nul"));
    assert!(s.contains("ren \"C:\\L\\launcher.exe\" \"launcher.exe.old\""));
    assert!(s.contains("start \"\" \"C:\\L\\launcher.exe\""));
    assert!(s.ends_with("(goto) 2>nul & del \"%~f0\"\r\n"));
}
