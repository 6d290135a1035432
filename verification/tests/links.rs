use ggo_launcher::links::{check_parsed_external_url, validate_external_url};

#[test]
fn links_open_only_for_allowed_schemes() {
    assert!(validate_external_url("https://example.com/a").is_ok());
    assert!(validate_external_url("mailto:me@example.com").is_ok());
    assert_eq!(validate_external_url("").unwrap_err(), "URL이 비어있습니다");
    assert_eq!(validate_external_url(" https://x.y").unwrap_err(), "URL 앞뒤 공백은 허용되지 않습니다");
    assert_eq!(validate_external_url("https://x.y/\u{7}").unwrap_err(), "URL에 허용되지 않는 문자가 포함됨");
    assert_eq!(validate_external_url("file:///c:/x").unwrap_err(), "허용되지 않는 URL scheme: file");
    assert!(validate_external_url("no scheme").unwrap_err().starts_with("URL 형식 오류: "));
}

#[test]
fn parsed_links_are_checked_by_scheme() {
    let p = |s: &str, h: Option<&str>, path: &str| Ok((s.to_string(), h.map(|x| x.to_string()), path.to_string()));
    assert_eq!(check_parsed_external_url(p("http", None, "/")), Err("http/https URL에는 host가 필요합니다".to_string()));
    assert_eq!(check_parsed_external_url(p("tel", None, "")), Err("tel URL 값이 비어있습니다".to_string()));
    assert_eq!(check_parsed_external_url(p("tel", None, "123")), Ok(()));
    assert_eq!(check_parsed_external_url(Err("x".to_string())), Err("URL 형식 오류: x".to_string()));
}
