use httpie::cli::parse;
use httpie::error::HttpieError;
use httpie::method::Method;

fn tokens(ts: &[&str]) -> Vec<String> {
    ts.iter().map(|t| String::from(*t)).collect()
}

fn pair(k: &str, v: &str) -> (String, String) {
    (String::from(k), String::from(v))
}

#[test]
fn end_to_end_post_request() {
    let p = parse(&tokens(&[
        "POST",
        "api.example.com/users",
        "name=Ada",
        "Authorization:Bearer x",
        "active==true",
    ]))
    .unwrap();
    assert_eq!(p.method, Method::Post);
    assert_eq!(p.url, "http://api.example.com/users");
    assert_eq!(p.headers, vec![pair("Authorization", "Bearer x")]);
    assert_eq!(p.body, Some(vec![pair("name", "Ada")]));
    assert_eq!(p.query_params, vec![pair("active", "true")]);
}

#[test]
fn empty_token_list_is_missing_url() {
    let e = parse(&Vec::new()).unwrap_err();
    assert!(matches!(e, HttpieError::MissingUrl));
    assert_eq!(e.message(), "missing URL argument");
}

#[test]
fn single_token_is_the_url() {
    let p = parse(&tokens(&["example.com"])).unwrap();
    assert_eq!(p.method, Method::Get);
    assert_eq!(p.url, "http://example.com");
    assert!(p.headers.is_empty());
    assert_eq!(p.body, None);
    assert!(p.query_params.is_empty());
}

#[test]
fn single_verb_like_token_is_still_the_url() {
    let p = parse(&tokens(&["get"])).unwrap();
    assert_eq!(p.method, Method::Get);
    assert_eq!(p.url, "http://get");
}

#[test]
fn unrecognized_first_token_is_the_url() {
    let p = parse(&tokens(&["x.com", "a:b"])).unwrap();
    assert_eq!(p.method, Method::Get);
    assert_eq!(p.url, "http://x.com");
    assert_eq!(p.headers, vec![pair("a", "b")]);
}

#[test]
fn body_fields_make_it_post() {
    let p = parse(&tokens(&["x.com", "a=1"])).unwrap();
    assert_eq!(p.method, Method::Post);
    assert_eq!(p.body, Some(vec![pair("a", "1")]));
}

#[test]
fn headers_alone_keep_it_get() {
    let p = parse(&tokens(&["x.com", "a:1", "b==2"])).unwrap();
    assert_eq!(p.method, Method::Get);
    assert_eq!(p.body, None);
}

#[test]
fn explicit_method_wins_over_inference() {
    let p = parse(&tokens(&["delete", "x.com", "a=1"])).unwrap();
    assert_eq!(p.method, Method::Delete);
}

#[test]
fn duplicate_body_keys_keep_token_order() {
    let p = parse(&tokens(&["x.com", "a=1", "b=2", "a=3"])).unwrap();
    assert_eq!(p.body, Some(vec![pair("a", "1"), pair("b", "2"), pair("a", "3")]));
}

#[test]
fn relative_order_is_kept_within_each_list() {
    let p = parse(&tokens(&["x.com", "h1:a", "q1==x", "h2:b", "q2==y"])).unwrap();
    assert_eq!(p.headers, vec![pair("h1", "a"), pair("h2", "b")]);
    assert_eq!(p.query_params, vec![pair("q1", "x"), pair("q2", "y")]);
}

#[test]
fn the_first_of_several_bad_items_is_reported() {
    let e = parse(&tokens(&["x.com", "bad1", "bad2"])).unwrap_err();
    match &e {
        HttpieError::Classification(t) => assert_eq!(t, "bad1"),
        other => panic!("unexpected error: {:?}", other),
    }
}

#[test]
fn first_bad_item_aborts_the_parse() {
    let e = parse(&tokens(&["x.com", "a:b", "oops", "c=d"])).unwrap_err();
    match &e {
        HttpieError::Classification(t) => assert_eq!(t, "oops"),
        other => panic!("unexpected error: {:?}", other),
    }
}
