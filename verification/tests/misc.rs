use ggo_launcher::crypto::{
    classify_stored_password, encrypted_text, read_stored_password, sealed_text, unsealed_password, PasswordRead,
    StoredPassword,
};
use ggo_launcher::cuo_profiles::{build_candidates, character_list};
use ggo_launcher::paths::{
    choose_ggoce_version, format_file_version, is_default_version, path_info, version_from_file,
};
use ggo_launcher::plugins::{alternate_dir_name, choose_plugin_dll, compact_timestamp, is_dll_extension};
use ggo_launcher::server_status::{
    clamp_timeout, status_from_probe, status_precheck, validate_endpoint, ProbeOutcome, ServerEndpoint,
    ServerStatus,
};
use ggo_launcher::time::{millis_or_zero, saturate_millis, secs_or_zero, unix_time_ms, unix_time_secs};
use ggo_launcher::text::{i64_to_decimal, split_text, str_lt, u64_to_decimal, u64_to_hex};

#[test]
fn stored_passwords_are_classified_by_prefix() {
    assert_eq!(classify_stored_password(""), StoredPassword::Empty);
    assert_eq!(classify_stored_password("hunter2"), StoredPassword::Plain("hunter2".to_string()));
    assert_eq!(classify_stored_password("dpapi:AQID"), StoredPassword::Sealed(vec![1, 2, 3]));
    assert_eq!(classify_stored_password("dpapi:!!"), StoredPassword::Undecodable);
}

#[test]
fn sealed_text_reads_back_as_the_same_sealed_bytes() {
    let blob = vec![0u8, 255, 16, 32, 7];
    let text = sealed_text(&blob);
    assert!(text.starts_with("dpapi:"));
    assert_eq!(classify_stored_password(&text), StoredPassword::Sealed(blob));
    assert_eq!(sealed_text(&[1, 2, 3]), "dpapi:AQID");
}

#[test]
fn passwords_are_never_stored_in_plain_text() {
    assert_eq!(encrypted_text("", Err("no".to_string())), Ok(String::new()));
    assert_eq!(encrypted_text("pw", Ok(vec![1, 2, 3])), Ok("dpapi:AQID".to_string()));
    assert_eq!(encrypted_text("pw", Err("seal failed".to_string())), Err("seal failed".to_string()));
    assert_eq!(unsealed_password(Ok(b"pw".to_vec())), "pw");
    assert_eq!(unsealed_password(Err("x".to_string())), "");
}

#[test]
fn path_info_needs_a_folder_with_a_marker() {
    let p = path_info(true, true, false, &[false, true], &[false, false]);
    assert!(p.valid_uo);
    assert!(!p.valid_cuo);
    let f = path_info(true, false, true, &[true], &[true]);
    assert!(!f.valid_uo && !f.valid_cuo);
}

#[test]
fn client_versions_are_read_by_priority() {
    assert!(is_default_version("0.0.0.0"));
    assert!(!is_default_version("1.0"));
    assert_eq!(format_file_version(0, 0), None);
    assert_eq!(format_file_version((1 << 16) | 2, (3 << 16) | 4), Some("1.2.3.4".to_string()));
    assert_eq!(version_from_file("  1.4.2 \r\nnext"), Some("1.4.2".to_string()));
    assert_eq!(version_from_file(" \n1.0"), None);
    assert_eq!(
        choose_ggoce_version(Some("\n".to_string()), &vec![Some("0.0.0.0".to_string()), Some("2.1".to_string())], None),
        Some("2.1".to_string())
    );
    assert_eq!(
        choose_ggoce_version(Some("3.0\n".to_string()), &vec![Some("2.1".to_string())], None),
        Some("3.0".to_string())
    );
    assert_eq!(
        choose_ggoce_version(None, &vec![None], Some(Some("9.9".to_string()))),
        Some("9.9".to_string())
    );
    assert_eq!(choose_ggoce_version(None, &vec![], None), None);
}

#[test]
fn plugin_entry_dll_prefers_the_folder_name() {
    let dlls = vec![
        ("x/Other.dll".to_string(), Some("Other".to_string())),
        ("x/MyPlugin.dll".to_string(), Some("myplugin".to_string())),
    ];
    assert_eq!(choose_plugin_dll(&dlls, "MyPlugin"), Ok("x/MyPlugin.dll".to_string()));
    assert_eq!(choose_plugin_dll(&dlls, "none"), Ok("x/Other.dll".to_string()));
    assert_eq!(
        choose_plugin_dll(&vec![], "none"),
        Err("ZIP 안에 .dll 파일을 찾지 못했습니다".to_string())
    );
    assert!(is_dll_extension("DlL"));
    assert!(!is_dll_extension("dl"));
    assert_eq!(alternate_dir_name("plug", "123"), "plug_123");
    assert_eq!(compact_timestamp(1700000000), "1700000000");
}

#[test]
fn server_status_texts() {
    assert_eq!(clamp_timeout(10), 500);
    assert_eq!(clamp_timeout(20000), 10000);
    assert_eq!(clamp_timeout(700), 700);
    assert_eq!(
        status_precheck("  ", 2593),
        Some(ServerStatus::Offline { reason: "주소가 비어 있습니다".to_string() })
    );
    assert_eq!(status_precheck("host", 2593), None);
    assert_eq!(
        status_from_probe(ProbeOutcome::TimedOut, 1500),
        ServerStatus::Offline { reason: "타임아웃 (1500ms)".to_string() }
    );
    assert_eq!(
        status_from_probe(ProbeOutcome::Connected { latency_ms: 42 }, 1500),
        ServerStatus::Online { latency_ms: 42 }
    );
    let e = ServerEndpoint { host: " ".to_string(), port: 1, label: String::new() };
    assert!(validate_endpoint(e).is_err());
    let ok = ServerEndpoint { host: "h".to_string(), port: 1, label: "L".to_string() };
    assert_eq!(validate_endpoint(ok.clone()), Ok(ok));
}

#[test]
fn character_lists_are_trimmed_sorted_and_deduplicated_ignoring_case() {
    let raw = vec![" bob ".to_string(), "Alice".to_string(), "".to_string(), "BOB".to_string(), "carl".to_string()];
    assert_eq!(character_list(&raw), vec!["Alice", "bob", "carl"]);
    let c = build_candidates(vec![
        ("zed".to_string(), vec!["x".to_string()]),
        (" ".to_string(), vec![]),
        ("Amy".to_string(), vec!["b".to_string(), "A".to_string()]),
    ]);
    assert_eq!(c.len(), 2);
    assert_eq!(c[0].account, "Amy");
    assert_eq!(c[1].account, "zed");
}

#[test]
fn number_texts() {
    assert_eq!(u64_to_decimal(0), "0");
    assert_eq!(u64_to_decimal(u64::MAX), "18446744073709551615");
    assert_eq!(i64_to_decimal(i64::MIN), "-9223372036854775808");
    assert_eq!(u64_to_hex(255, true), "FF");
    assert_eq!(u64_to_hex(0xab, false), "ab");
    assert_eq!(split_text("a.b..c", '.'), vec!["a", "b", "", "c"]);
    assert_eq!(split_text("", '.'), vec![""]);
    assert!(str_lt("abc", "abd"));
    assert!(str_lt("ab", "abc"));
    assert!(!str_lt("b", "abc"));
}

#[test]
fn clock_readings_before_the_epoch_give_zero_and_large_ones_saturate() {
    assert_eq!(millis_or_zero(None), 0);
    assert_eq!(millis_or_zero(Some(1_700_000_000_123)), 1_700_000_000_123);
    assert_eq!(millis_or_zero(Some(u128::from(u64::MAX) + 1)), u64::MAX);
    assert_eq!(saturate_millis(u128::MAX), u64::MAX);
    assert_eq!(secs_or_zero(None), 0);
    assert_eq!(secs_or_zero(Some(42)), 42);
    let ms = unix_time_ms();
    let secs = unix_time_secs();
    assert!(secs >= ms / 1000 && secs - ms / 1000 <= 2);
}

#[test]
fn stored_passwords_are_read_up_to_unsealing() {
    assert_eq!(read_stored_password(""), PasswordRead::Known(String::new()));
    assert_eq!(read_stored_password("hunter2"), PasswordRead::Known("hunter2".to_string()));
    assert_eq!(read_stored_password("dpapi:!!"), PasswordRead::Known(String::new()));
    assert_eq!(read_stored_password("dpapi:AQID"), PasswordRead::Unseal(vec![1, 2, 3]));
}

#[test]
fn sealed_passwords_use_canonical_padded_base64() {
    assert_eq!(sealed_text(&[]), "dpapi:");
    assert_eq!(sealed_text(&[0]), "dpapi:AA==");
    assert_eq!(sealed_text(&[0xFB, 0xFF]), "dpapi:+/8=");
    assert_eq!(sealed_text(b"Man"), "dpapi:TWFu");
    assert_eq!(classify_stored_password("dpapi:+/8="), StoredPassword::Sealed(vec![0xFB, 0xFF]));
    assert_eq!(classify_stored_password("dpapi:AA="), StoredPassword::Undecodable);
    assert_eq!(classify_stored_password("dpapi:QR=="), StoredPassword::Undecodable);
    assert_eq!(classify_stored_password("dpapi:QQ"), StoredPassword::Undecodable);
}
