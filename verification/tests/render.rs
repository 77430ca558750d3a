use httpie::output::{format_version, is_json, render_response, u16_to_string, HttpVersion,
    ResponseView};

fn pair(k: &str, v: &str) -> (String, String) {
    (String::from(k), String::from(v))
}

fn view(version: HttpVersion, status: u16, reason: &str, headers: Vec<(String, String)>,
    body: &str) -> ResponseView {
    ResponseView { version, status, reason: String::from(reason), headers, body: String::from(body) }
}

#[test]
fn version_tags() {
    assert_eq!(format_version(HttpVersion::Http09), "HTTP/0.9");
    assert_eq!(format_version(HttpVersion::Http10), "HTTP/1.0");
    assert_eq!(format_version(HttpVersion::Http11), "HTTP/1.1");
    assert_eq!(format_version(HttpVersion::Http2), "HTTP/2");
    assert_eq!(format_version(HttpVersion::Http3), "HTTP/3");
    assert_eq!(format_version(HttpVersion::Other), "HTTP/?");
}

#[test]
fn json_content_types() {
    assert!(is_json("application/json"));
    assert!(is_json("application/vnd.api+json; charset=utf-8"));
    assert!(!is_json("text/html"));
    assert!(!is_json(""));
}

#[test]
fn status_codes_in_decimal() {
    assert_eq!(u16_to_string(0), "0");
    assert_eq!(u16_to_string(7), "7");
    assert_eq!(u16_to_string(200), "200");
    assert_eq!(u16_to_string(404), "404");
    assert_eq!(u16_to_string(65535), "65535");
}

#[test]
fn plain_text_response_without_terminal() {
    let v = view(
        HttpVersion::Http11,
        200,
        "OK",
        vec![pair("content-type", "text/plain"), pair("x", "y")],
        "hello",
    );
    assert_eq!(
        render_response(&v, false),
        "HTTP/1.1 200 OK\ncontent-type: text/plain\nx: y\n\nhello\n"
    );
}

#[test]
fn body_ending_in_newline_gets_no_extra_one() {
    let v = view(HttpVersion::Http11, 200, "OK", vec![pair("a", "b")], "hi\n");
    assert_eq!(render_response(&v, false), "HTTP/1.1 200 OK\na: b\n\nhi\n");
}

#[test]
fn empty_body_renders_nothing_after_the_blank_line() {
    let v = view(HttpVersion::Http11, 204, "No Content", Vec::new(), "");
    assert_eq!(render_response(&v, false), "HTTP/1.1 204 No Content\n\n");
}

#[test]
fn json_body_is_pretty_printed() {
    let v = view(
        HttpVersion::Http11,
        200,
        "OK",
        vec![pair("content-type", "application/json")],
        "{\"a\":1}",
    );
    assert_eq!(
        render_response(&v, false),
        "HTTP/1.1 200 OK\ncontent-type: application/json\n\n{\n  \"a\": 1\n}\n"
    );
}

#[test]
fn content_type_key_is_matched_case_insensitively() {
    let v = view(
        HttpVersion::Http11,
        200,
        "OK",
        vec![pair("Content-Type", "application/json")],
        "{\"a\":1}",
    );
    assert_eq!(
        render_response(&v, false),
        "HTTP/1.1 200 OK\nContent-Type: application/json\n\n{\n  \"a\": 1\n}\n"
    );
}

#[test]
fn malformed_json_body_is_still_rendered() {
    let v = view(
        HttpVersion::Http11,
        200,
        "OK",
        vec![pair("content-type", "application/json")],
        "{oops",
    );
    assert_eq!(
        render_response(&v, false),
        "HTTP/1.1 200 OK\ncontent-type: application/json\n\n{\n  oops\n"
    );
}

#[test]
fn terminal_mode_styles_status_and_header_keys() {
    let v = view(HttpVersion::Http2, 404, "Not Found", vec![pair("a", "b")], "");
    assert_eq!(
        render_response(&v, true),
        "\u{1b}[1;31mHTTP/2 404 Not Found\u{1b}[0m\n\u{1b}[2ma\u{1b}[0m: b\n\n"
    );
}

#[test]
fn terminal_mode_status_colors_follow_the_class() {
    let ok = view(HttpVersion::Http11, 204, "No Content", Vec::new(), "");
    assert!(render_response(&ok, true).starts_with("\u{1b}[1;32m"));
    let moved = view(HttpVersion::Http11, 301, "Moved Permanently", Vec::new(), "");
    assert!(render_response(&moved, true).starts_with("\u{1b}[1;33m"));
    let err = view(HttpVersion::Http11, 500, "Internal Server Error", Vec::new(), "");
    assert!(render_response(&err, true).starts_with("\u{1b}[1;31m"));
}

#[test]
fn terminal_mode_colorizes_a_json_body() {
    let v = view(
        HttpVersion::Http11,
        200,
        "OK",
        vec![pair("content-type", "application/json")],
        "[1]",
    );
    assert_eq!(
        render_response(&v, true),
        "\u{1b}[1;32mHTTP/1.1 200 OK\u{1b}[0m\n\u{1b}[2mcontent-type\u{1b}[0m: application/json\n\n[\n  \u{1b}[35m1\u{1b}[0m\n]\n"
    );
}

#[test]
fn non_json_body_is_never_colorized_even_on_a_terminal() {
    let v = view(HttpVersion::Http11, 200, "OK", vec![pair("content-type", "text/plain")], "[1]");
    assert_eq!(
        render_response(&v, true),
        "\u{1b}[1;32mHTTP/1.1 200 OK\u{1b}[0m\n\u{1b}[2mcontent-type\u{1b}[0m: text/plain\n\n[1]\n"
    );
}
