use httpie::error::HttpieError;
use httpie::item::{parse_item, RequestItem};

fn s(x: &str) -> String {
    String::from(x)
}

#[test]
fn header_token() {
    assert_eq!(
        parse_item("Content-Type:application/json").unwrap(),
        RequestItem::Header(s("Content-Type"), s("application/json"))
    );
}

#[test]
fn data_field_token() {
    assert_eq!(parse_item("name=John").unwrap(), RequestItem::DataField(s("name"), s("John")));
}

#[test]
fn colon_before_equals_is_header() {
    assert_eq!(parse_item("a:b=c").unwrap(), RequestItem::Header(s("a"), s("b=c")));
}

#[test]
fn equals_before_colon_is_data_field() {
    assert_eq!(parse_item("a=b:c").unwrap(), RequestItem::DataField(s("a"), s("b:c")));
}

#[test]
fn no_delimiter_fails() {
    let e = parse_item("nodelimiter").unwrap_err();
    match &e {
        HttpieError::Classification(t) => assert_eq!(t, "nodelimiter"),
        other => panic!("unexpected error: {:?}", other),
    }
    assert_eq!(
        e.message(),
        "cannot parse request item 'nodelimiter'; valid forms are Header:Value, key=value, key==value"
    );
}

#[test]
fn double_equals_wins_over_everything() {
    assert_eq!(parse_item("q==a=b:c").unwrap(), RequestItem::QueryParam(s("q"), s("a=b:c")));
}

#[test]
fn double_equals_split_at_first_occurrence() {
    assert_eq!(parse_item("a==b==c").unwrap(), RequestItem::QueryParam(s("a"), s("b==c")));
}

#[test]
fn colon_after_double_equals_still_query() {
    assert_eq!(parse_item("x:y==z").unwrap(), RequestItem::QueryParam(s("x:y"), s("z")));
}

#[test]
fn empty_key_and_value_are_accepted() {
    assert_eq!(parse_item("=v").unwrap(), RequestItem::DataField(s(""), s("v")));
    assert_eq!(parse_item("k=").unwrap(), RequestItem::DataField(s("k"), s("")));
    assert_eq!(parse_item(":v").unwrap(), RequestItem::Header(s(""), s("v")));
    assert_eq!(parse_item("k:").unwrap(), RequestItem::Header(s("k"), s("")));
    assert_eq!(parse_item("==").unwrap(), RequestItem::QueryParam(s(""), s("")));
    assert_eq!(parse_item("a==").unwrap(), RequestItem::QueryParam(s("a"), s("")));
}

#[test]
fn multibyte_values_survive_the_split() {
    assert_eq!(
        parse_item("ключ=значение").unwrap(),
        RequestItem::DataField(s("ключ"), s("значение"))
    );
    assert_eq!(parse_item("note:déjà vu").unwrap(), RequestItem::Header(s("note"), s("déjà vu")));
}
