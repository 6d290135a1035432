use ggo_launcher::updater::{
    build_manifest_file_url, check_file, check_manifest_base, expected_hash, hash_text_matches,
    install_check, plan_update_check, sanitize_manifest_path, sha256_hex, verify_download,
    ChangeReason, ManifestFile, UpdateManifest,
};

const ABC_SHA256: &str = "ba7816bf8f01cfea414140de5dae2223b00361a396177a9cb410ff61f20015ad";

fn file(path: &str, size: u64, sha256: &str) -> ManifestFile {
    ManifestFile { path: path.to_string(), size, sha256: sha256.to_string() }
}

fn manifest(files: Vec<ManifestFile>) -> UpdateManifest {
    UpdateManifest {
        version: "1.2.3".to_string(),
        released: "2025-01-01".to_string(),
        notes: String::new(),
        base_url: "https://example.com/ggo/".to_string(),
        files,
    }
}

#[test]
fn safe_manifest_paths_keep_their_segments() {
    let p = sanitize_manifest_path("Data/Client/file-1.bin").unwrap();
    assert_eq!(p.segments, vec!["Data", "Client", "file-1.bin"]);
    assert_eq!(p.url_path, "Data/Client/file-1.bin");
    let q = sanitize_manifest_path("./a\\b/c").unwrap();
    assert_eq!(q.segments, vec!["a", "b", "c"]);
    assert_eq!(q.url_path, "a/b/c");
}

#[test]
fn unsafe_manifest_paths_are_refused() {
    assert_eq!(sanitize_manifest_path("").unwrap_err(), "manifest path가 비어있음");
    assert!(sanitize_manifest_path("/etc/passwd").unwrap_err().contains("절대경로"));
    assert!(sanitize_manifest_path("\\x").unwrap_err().contains("절대경로"));
    assert!(sanitize_manifest_path("a/../b").unwrap_err().contains("'..'"));
    assert!(sanitize_manifest_path("C:/x").unwrap_err().contains("root/prefix"));
    assert!(sanitize_manifest_path("a/C:/x").unwrap_err().contains("drive prefix"));
    assert!(sanitize_manifest_path("a b").unwrap_err().contains("허용되지 않는 문자"));
    assert!(sanitize_manifest_path("./.").unwrap_err().contains("유효 세그먼트 없음"));
    assert_eq!(
        sanitize_manifest_path("a//b").unwrap_err(),
        "manifest path 빈 세그먼트 금지: a//b"
    );
    assert!(sanitize_manifest_path("a/").unwrap_err().contains("빈 세그먼트"));
    assert!(sanitize_manifest_path("a\\\\b").unwrap_err().contains("빈 세그먼트"));
}

#[test]
fn sha256_is_lowercase_hex() {
    assert_eq!(sha256_hex(b"abc"), ABC_SHA256);
    assert!(hash_text_matches(&ABC_SHA256.to_uppercase(), ABC_SHA256));
    assert!(!hash_text_matches("ab", "abc"));
}

#[test]
fn local_files_are_compared_by_presence_size_and_hash() {
    let m = file("a.bin", 3, ABC_SHA256);
    assert_eq!(check_file(false, Ok(0), Ok(Vec::new()), &m), Ok(Some(ChangeReason::Missing)));
    assert_eq!(check_file(true, Ok(4), Ok(Vec::new()), &m), Ok(Some(ChangeReason::SizeMismatch)));
    assert_eq!(check_file(true, Ok(3), Ok(b"abd".to_vec()), &m), Ok(Some(ChangeReason::HashMismatch)));
    assert_eq!(check_file(true, Ok(3), Ok(b"abc".to_vec()), &m), Ok(None));
    assert_eq!(check_file(true, Err("denied".to_string()), Ok(Vec::new()), &m), Err("denied".to_string()));
}

#[test]
fn update_plan_lists_changed_files_and_their_total_size() {
    let m = manifest(vec![file("a.bin", 3, ABC_SHA256), file("b.bin", 10, "00"), file("c.bin", 5, "11")]);
    let outcomes = vec![Ok(None), Ok(Some(ChangeReason::SizeMismatch)), Ok(Some(ChangeReason::Missing))];
    let check = plan_update_check(m, Some("1.2.2".to_string()), &outcomes).unwrap();
    assert_eq!(check.remote_version, "1.2.3");
    assert_eq!(check.local_version.as_deref(), Some("1.2.2"));
    assert_eq!(check.changed.len(), 2);
    assert_eq!(check.changed[0].path, "b.bin");
    assert_eq!(check.changed[0].reason, ChangeReason::SizeMismatch);
    assert_eq!(check.changed[1].path, "c.bin");
    assert_eq!(check.total_bytes, 15);
}

#[test]
fn update_plan_refuses_an_unsafe_path() {
    let m = manifest(vec![file("../x", 1, "00")]);
    assert!(plan_update_check(m, None, &vec![Ok(None)]).unwrap_err().contains("'..'"));
}

#[test]
fn install_check_downloads_everything() {
    let check = install_check(manifest(vec![file("a", 1, "00"), file("b/c", 2, "11")])).unwrap();
    assert_eq!(check.changed.len(), 2);
    assert!(check.changed.iter().all(|c| c.reason == ChangeReason::Missing));
    assert_eq!(check.total_bytes, 3);
    assert!(check.local_version.is_none());
}

#[test]
fn downloads_are_checked_against_the_manifest_hash() {
    let files = vec![file("a.bin", 3, &ABC_SHA256.to_uppercase())];
    assert_eq!(expected_hash(&files, "a.bin"), ABC_SHA256.to_uppercase());
    assert_eq!(expected_hash(&files, "none"), "");
    assert!(verify_download(&files, "a.bin", b"abc").is_ok());
    let err = verify_download(&files, "a.bin", b"abd").unwrap_err();
    assert!(err.starts_with("해시 불일치: a.bin (expected="));
}

#[test]
fn manifest_base_url_must_be_https_with_a_host() {
    assert_eq!(
        check_manifest_base(Ok(("https".to_string(), Some("h".to_string()), "/a".to_string()))),
        Ok(Some("/a/".to_string()))
    );
    assert_eq!(
        check_manifest_base(Ok(("https".to_string(), Some("h".to_string()), "/a/".to_string()))),
        Ok(None)
    );
    assert_eq!(
        check_manifest_base(Ok(("http".to_string(), Some("h".to_string()), "/".to_string()))),
        Err("manifest base_url은 https://여야 합니다".to_string())
    );
    assert_eq!(
        check_manifest_base(Ok(("https".to_string(), None, "/".to_string()))),
        Err("manifest base_url에는 host가 필요합니다".to_string())
    );
    assert_eq!(
        check_manifest_base(Err("bad".to_string())),
        Err("manifest base_url 오류: bad".to_string())
    );
}

#[test]
fn manifest_file_urls_resolve_under_the_base_path() {
    let path = sanitize_manifest_path("Data/x.bin").unwrap();
    assert_eq!(
        build_manifest_file_url("https://example.com/ggo", &path).unwrap(),
        "https://example.com/ggo/Data/x.bin"
    );
    assert_eq!(
        build_manifest_file_url("https://example.com/ggo/", &path).unwrap(),
        "https://example.com/ggo/Data/x.bin"
    );
    assert!(build_manifest_file_url("http://example.com/", &path).is_err());
    assert!(build_manifest_file_url("not a url", &path).unwrap_err().starts_with("manifest base_url 오류: "));
}
