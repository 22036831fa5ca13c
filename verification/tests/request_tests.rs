use librustlet::request::{HttpMethod, HttpVersion, RustletRequest};

fn request(query: &str, headers: Vec<(&str, &[u8])>) -> RustletRequest {
    RustletRequest::new(
        "/myrustlet".to_string(),
        query.to_string(),
        b"body".to_vec(),
        HttpMethod::Post,
        HttpVersion::V11,
        headers.into_iter().map(|(k, v)| (k.as_bytes().to_vec(), v.to_vec())).collect(),
        false,
    )
}

#[test]
fn cookie_lookup() {
    let mut r = request("", vec![("Cookie", b"a=1; b=2 ;c=x=y; d")]);
    assert_eq!(r.get_cookie("a").unwrap(), Some("1".to_string()));
    assert_eq!(r.get_cookie("b").unwrap(), Some("2".to_string()));
    // the value is everything after the first '='
    assert_eq!(r.get_cookie("c").unwrap(), Some("x=y".to_string()));
    assert_eq!(r.get_cookie("d").unwrap(), None);
    assert_eq!(r.get_cookie("e").unwrap(), None);
}

#[test]
fn cookie_value_keeps_padding() {
    let mut r = request("", vec![("Cookie", b"tok=YWJj==")]);
    assert_eq!(r.get_cookie("tok").unwrap(), Some("YWJj==".to_string()));
}

#[test]
fn header_len_counts_repeated_names() {
    let mut r = request("", vec![("Accept", b"a"), ("Accept", b"b")]);
    assert_eq!(r.get_header_len().unwrap(), 2);
    assert_eq!(r.request_param("header_len"), Some("2".to_string()));
    assert_eq!(r.get_header_i_value(1).unwrap(), "b");
}

#[test]
fn cookie_without_header() {
    let mut r = request("", vec![("cookie", b"a=1")]);
    // header names compare exactly
    assert_eq!(r.get_cookie("a").unwrap(), None);
}

#[test]
fn cookie_session_id_example() {
    let mut r = request(
        "",
        vec![("Cookie", b"rustletsessionid=179034848365240461385689167936203491398;")],
    );
    assert_eq!(
        r.get_cookie("rustletsessionid").unwrap(),
        Some("179034848365240461385689167936203491398".to_string())
    );
}

#[test]
fn headers_by_name_and_index() {
    let invalid: &[u8] = &[0xff, 0xfe];
    let mut r = request(
        "",
        vec![("User-Agent", b"x"), ("Bad", invalid), ("User-Agent", b"y"), ("Host", b"h")],
    );
    assert_eq!(r.get_header("User-Agent").unwrap(), Some("y".to_string()));
    assert_eq!(r.get_header("Bad").unwrap(), None);
    assert_eq!(r.get_header("host").unwrap(), None);
    // every header sent counts, as the indices served below
    assert_eq!(r.get_header_len().unwrap(), 4);
    assert_eq!(r.get_header_i_name(1).unwrap(), "Bad");
    assert_eq!(r.get_header_i_value(1).unwrap(), "");
    assert_eq!(r.get_header_i_value(2).unwrap(), "y");
    assert_eq!(r.get_header_i_name(4).unwrap(), "");
    assert_eq!(r.get_headers().unwrap().len(), 4);
}

#[test]
fn query_parameters() {
    let mut r = request("a=b&b=c&something_else=another-thing&notright#&blank=&ignoreme!&a=z", vec![]);
    assert_eq!(r.get_query_parameter("a").unwrap(), Some("z".to_string()));
    assert_eq!(r.get_query_parameter("b").unwrap(), Some("c".to_string()));
    assert_eq!(r.get_query_parameter("something_else").unwrap(), Some("another-thing".to_string()));
    assert_eq!(r.get_query_parameter("blank").unwrap(), Some("".to_string()));
    assert_eq!(r.get_query_parameter("notright#").unwrap(), None);
    assert_eq!(r.get_query_parameter("ignoreme!").unwrap(), None);
}

#[test]
fn query_parameters_trailing_ampersand() {
    let mut r = request("foo=bar&baz=qux&", vec![]);
    assert_eq!(r.get_query_parameter("foo").unwrap(), Some("bar".to_string()));
    assert_eq!(r.get_query_parameter("baz").unwrap(), Some("qux".to_string()));
}

#[test]
fn request_getters() {
    let r = request("q=1", vec![]);
    assert_eq!(r.get_uri().unwrap(), "/myrustlet");
    assert_eq!(r.get_query().unwrap(), "q=1");
    assert_eq!(r.get_content().unwrap(), b"body".to_vec());
    assert_eq!(r.get_http_method().unwrap(), HttpMethod::Post);
    assert_eq!(r.get_http_version().unwrap(), HttpVersion::V11);
}

#[test]
fn request_params_by_field_name() {
    let mut r = request("name=joe", vec![("User-Agent", b"ua"), ("X", b"1")]);
    assert_eq!(r.request_param("QUERY"), Some("name=joe".to_string()));
    assert_eq!(r.request_param("method"), Some("POST".to_string()));
    assert_eq!(r.request_param("Version"), Some("V11".to_string()));
    assert_eq!(r.request_param("header_len"), Some("2".to_string()));
    assert_eq!(r.request_param("uri"), Some("/myrustlet".to_string()));
    assert_eq!(r.request_param("blah"), None);
    assert_eq!(r.request_param_arg("query", "name"), "joe");
    assert_eq!(r.request_param_arg("query", "none"), "");
    assert_eq!(r.request_param_arg("header", "User-Agent"), "ua");
    assert_eq!(r.request_param_arg("header_i_name", "1"), "X");
    assert_eq!(r.request_param_arg("header_i_value", "+0"), "ua");
    assert_eq!(r.request_param_arg("header_i_value", "abc"), "");
    assert_eq!(r.request_param_arg("other", "x"), "");
}
