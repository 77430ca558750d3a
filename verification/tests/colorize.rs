use httpie::json_color::{colorize_json, plain_text, strip_styles, tokenize_json, TokenKind};

fn kinds_and_texts(src: &str) -> Vec<(TokenKind, String)> {
    tokenize_json(src).into_iter().map(|t| (t.kind, t.text)).collect()
}

#[test]
fn lexemes_of_a_small_object() {
    let got = kinds_and_texts("{\"k\": -1.5e+2, \"s\": \"v\"}");
    let want = vec![
        (TokenKind::Plain, String::from("{")),
        (TokenKind::Key, String::from("\"k\"")),
        (TokenKind::Plain, String::from(":")),
        (TokenKind::Plain, String::from(" ")),
        (TokenKind::Number, String::from("-1.5e+2")),
        (TokenKind::Plain, String::from(",")),
        (TokenKind::Plain, String::from(" ")),
        (TokenKind::Key, String::from("\"s\"")),
        (TokenKind::Plain, String::from(":")),
        (TokenKind::Plain, String::from(" ")),
        (TokenKind::StringValue, String::from("\"v\"")),
        (TokenKind::Plain, String::from("}")),
    ];
    assert_eq!(got, want);
}

#[test]
fn literal_lexemes() {
    let got = kinds_and_texts("true false null");
    let want = vec![
        (TokenKind::BooleanTrue, String::from("true")),
        (TokenKind::Plain, String::from(" ")),
        (TokenKind::BooleanFalse, String::from("false")),
        (TokenKind::Plain, String::from(" ")),
        (TokenKind::Null, String::from("null")),
    ];
    assert_eq!(got, want);
}

#[test]
fn escaped_quote_stays_inside_the_string() {
    let got = kinds_and_texts("\"a\\\"b\"");
    assert_eq!(got, vec![(TokenKind::StringValue, String::from("\"a\\\"b\""))]);
}

#[test]
fn key_lookahead_skips_whitespace() {
    let got = kinds_and_texts("\"k\"  :1");
    assert_eq!(got[0], (TokenKind::Key, String::from("\"k\"")));
}

#[test]
fn number_run_is_greedy_and_unvalidated() {
    let got = kinds_and_texts("1e5x");
    assert_eq!(
        got,
        vec![(TokenKind::Number, String::from("1e5")), (TokenKind::Plain, String::from("x"))]
    );
}

#[test]
fn lone_minus_is_structural() {
    let got = kinds_and_texts("- -5");
    assert_eq!(
        got,
        vec![
            (TokenKind::Plain, String::from("-")),
            (TokenKind::Plain, String::from(" ")),
            (TokenKind::Number, String::from("-5")),
        ]
    );
}

#[test]
fn stripping_markup_reproduces_the_input() {
    for src in [
        "{\"a\":1}",
        "  [1, 2, 3]  ",
        "{\n  \"name\": \"Ada\",\n  \"ok\": true,\n  \"x\": null\n}",
        "nonsense -x truE \"open",
        "",
        "\"a\\\\\"",
    ] {
        assert_eq!(plain_text(&tokenize_json(src)), src);
    }
}

#[test]
fn stripping_the_colorized_output_reproduces_the_input() {
    for src in [
        "{\"a\":1}",
        "{\n  \"name\": \"Ada\",\n  \"ok\": true,\n  \"n\": null,\n  \"no\": false\n}",
        "[-1.5e+2, \"x:y\", {}]",
        "malformed } anyway",
        "",
    ] {
        assert_eq!(strip_styles(&colorize_json(src)), src);
    }
}

#[test]
fn strip_styles_removes_any_ansi_sequence() {
    assert_eq!(strip_styles("\u{1b}[1;36mkey\u{1b}[0m rest"), "key rest");
    assert_eq!(strip_styles("plain"), "plain");
    assert_eq!(strip_styles("\u{1b}[x rest"), "");
    assert_eq!(strip_styles("a\u{1b}[0mb\u{1b}[2mc"), "abc");
}

#[test]
fn colorize_wraps_each_lexeme() {
    assert_eq!(colorize_json("1"), "\u{1b}[35m1\u{1b}[0m");
    assert_eq!(
        colorize_json("\"k\": 2"),
        "\u{1b}[1;36m\"k\"\u{1b}[0m: \u{1b}[35m2\u{1b}[0m"
    );
    assert_eq!(colorize_json("null"), "\u{1b}[31mnull\u{1b}[0m");
    assert_eq!(colorize_json("\"v\""), "\u{1b}[32m\"v\"\u{1b}[0m");
    assert_eq!(
        colorize_json("[true]"),
        "[\u{1b}[33mtrue\u{1b}[0m]"
    );
}
