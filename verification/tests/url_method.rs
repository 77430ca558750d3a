use httpie::error::HttpieError;
use httpie::method::{is_method, method_from_str, resolve_method, Method};
use httpie::url::normalize_url;

#[test]
fn port_shorthand_expands_to_localhost() {
    assert_eq!(normalize_url(":8080/x"), "http://localhost:8080/x");
}

#[test]
fn schemeless_url_gets_http() {
    assert_eq!(normalize_url("example.com"), "http://example.com");
}

#[test]
fn schemed_url_is_unchanged() {
    assert_eq!(normalize_url("https://a.com"), "https://a.com");
}

#[test]
fn bare_separator_gets_http_prefix() {
    assert_eq!(normalize_url("://x"), "http://x");
}

#[test]
fn empty_url_gets_http() {
    assert_eq!(normalize_url(""), "http://");
}

#[test]
fn normalization_is_idempotent() {
    for raw in [":8080/x", "example.com", "https://a.com", "://x", "a:b/c://d"] {
        let once = normalize_url(raw);
        assert_eq!(normalize_url(&once), once);
    }
}

#[test]
fn known_verbs_in_any_case() {
    assert!(is_method("get"));
    assert!(is_method("POST"));
    assert!(is_method("PoSt"));
    assert!(is_method("connect"));
    assert!(!is_method("FETCH"));
    assert!(!is_method(""));
    assert!(!is_method("GETS"));
}

#[test]
fn method_from_str_matches_verbs() {
    assert_eq!(method_from_str("delete"), Some(Method::Delete));
    assert_eq!(method_from_str("Options"), Some(Method::Options));
    assert_eq!(method_from_str("TRACE"), Some(Method::Trace));
    assert_eq!(method_from_str("head "), None);
}

#[test]
fn inference_without_explicit_method() {
    assert_eq!(resolve_method(None, false).unwrap(), Method::Get);
    assert_eq!(resolve_method(None, true).unwrap(), Method::Post);
}

#[test]
fn explicit_method_always_overrides_inference() {
    let put = String::from("put");
    assert_eq!(resolve_method(Some(&put), true).unwrap(), Method::Put);
    assert_eq!(resolve_method(Some(&put), false).unwrap(), Method::Put);
    let get = String::from("GET");
    assert_eq!(resolve_method(Some(&get), true).unwrap(), Method::Get);
}

#[test]
fn unknown_explicit_method_fails() {
    let bad = String::from("FETCH");
    let e = resolve_method(Some(&bad), false).unwrap_err();
    match &e {
        HttpieError::InvalidMethod(t) => assert_eq!(t, "FETCH"),
        other => panic!("unexpected error: {:?}", other),
    }
    assert_eq!(e.message(), "invalid HTTP method: FETCH");
}
