use static_server::headers::Headers;
use static_server::request::{get_headers, parse_request, ParseError, Request};
use static_server::text::{find_colon, split_words};

fn lines(v: &[&str]) -> Vec<String> {
    v.iter().map(|s| s.to_string()).collect()
}

fn parsed(v: &[&str]) -> Request {
    match parse_request(lines(v)) {
        Ok(r) => r,
        Err(e) => panic!("expected a request, got {:?}", e),
    }
}

fn refused(v: &[&str]) -> ParseError {
    match parse_request(lines(v)) {
        Ok(r) => panic!("expected an error, got {:?}", r),
        Err(e) => e,
    }
}

#[test]
fn root_target_with_host_header() {
    let r = parsed(&["GET / HTTP/1.1", "Host: example.com", ""]);
    assert_eq!(r.method(), "GET");
    assert_eq!(r.uri(), "/index.html");
    assert_eq!(r.version(), "HTTP/1.1");
    assert_eq!(r.headers().len(), 1);
    // The stored value keeps the separating colon.
    assert_eq!(r.headers().get("Host").map(|s| s.as_str()), Some(": example.com"));
}

#[test]
fn post_is_invalid_method() {
    assert_eq!(refused(&["POST /foo HTTP/1.1", ""]), ParseError::InvalidMethod);
}

#[test]
fn http2_is_invalid_version() {
    assert_eq!(refused(&["GET /foo HTTP/2.0", ""]), ParseError::InvalidVersion);
}

#[test]
fn header_without_colon_is_invalid_header() {
    assert_eq!(
        refused(&["GET /foo HTTP/1.1", "BadHeaderNoColon", ""]),
        ParseError::InvalidHeader
    );
}

#[test]
fn lower_case_method_is_invalid_method() {
    assert_eq!(refused(&["get /foo HTTP/1.1", ""]), ParseError::InvalidMethod);
    assert_eq!(refused(&["HEAD /foo HTTP/1.1", ""]), ParseError::InvalidMethod);
}

#[test]
fn target_without_slash_is_invalid_uri() {
    assert_eq!(refused(&["GET foo HTTP/1.1", ""]), ParseError::InvalidURI);
    assert_eq!(refused(&["GET http://x/ HTTP/1.1", ""]), ParseError::InvalidURI);
}

#[test]
fn other_versions_are_invalid_version() {
    assert_eq!(refused(&["GET /a HTTP/0.9", ""]), ParseError::InvalidVersion);
    assert_eq!(refused(&["GET /a http/1.1", ""]), ParseError::InvalidVersion);
}

#[test]
fn http10_is_accepted() {
    let r = parsed(&["GET /a.txt HTTP/1.0", ""]);
    assert_eq!(r.version(), "HTTP/1.0");
    assert_eq!(r.uri(), "/a.txt");
    assert_eq!(r.headers().len(), 0);
}

#[test]
fn checks_run_in_order() {
    assert_eq!(refused(&["POST foo HTTP/2.0", ""]), ParseError::InvalidMethod);
    assert_eq!(refused(&["GET foo HTTP/2.0", ""]), ParseError::InvalidURI);
    assert_eq!(refused(&["GET /foo HTTP/2.0", "NoColon"]), ParseError::InvalidVersion);
    assert_eq!(refused(&["POST /foo HTTP/1.1"]), ParseError::InvalidMethod);
}

#[test]
fn too_few_words_is_invalid_request() {
    assert_eq!(refused(&["GET /foo", ""]), ParseError::InvalidRequest);
    assert_eq!(refused(&["", ""]), ParseError::InvalidRequest);
    assert_eq!(refused(&[]), ParseError::InvalidRequest);
}

#[test]
fn lone_request_line_is_invalid_request() {
    assert_eq!(refused(&["GET /foo HTTP/1.1"]), ParseError::InvalidRequest);
}

#[test]
fn extra_words_and_white_space() {
    let r = parsed(&["  GET\t/x   HTTP/1.1 extra  ", ""]);
    assert_eq!(r.method(), "GET");
    assert_eq!(r.uri(), "/x");
    assert_eq!(r.version(), "HTTP/1.1");
}

#[test]
fn header_split_at_first_colon() {
    let r = parsed(&["GET /x HTTP/1.1", "X-A:b:c", "Empty:", ":lead", ""]);
    let h = r.headers();
    assert_eq!(h.len(), 3);
    assert_eq!(h.get("X-A").map(|s| s.as_str()), Some(":b:c"));
    assert_eq!(h.get("Empty").map(|s| s.as_str()), Some(":"));
    assert_eq!(h.get("").map(|s| s.as_str()), Some(":lead"));
    assert_eq!(h.get("x-a"), None);
}

#[test]
fn later_header_overwrites_earlier() {
    let r = parsed(&["GET /x HTTP/1.1", "K: 1", "K: 2", ""]);
    assert_eq!(r.headers().len(), 1);
    assert_eq!(r.headers().get("K").map(|s| s.as_str()), Some(": 2"));
}

#[test]
fn empty_line_ends_headers() {
    let r = parsed(&["GET /x HTTP/1.1", "A: 1", "", "NoColon", "B: 2"]);
    assert_eq!(r.headers().len(), 1);
    assert_eq!(r.headers().get("B"), None);
}

#[test]
fn header_block_on_its_own() {
    let h = get_headers(&lines(&["A:1", "B:2"])).unwrap();
    assert_eq!(h.len(), 2);
    assert_eq!(h.get("B").map(|s| s.as_str()), Some(":2"));
    assert!(matches!(get_headers(&lines(&["A:1", "oops"])), Err(ParseError::InvalidHeader)));
    assert_eq!(get_headers(&lines(&[])).unwrap().len(), 0);
}

#[test]
fn header_table_insert_and_get() {
    let mut h = Headers::new();
    assert_eq!(h.len(), 0);
    h.insert("a".to_string(), "1".to_string());
    h.insert("b".to_string(), "2".to_string());
    h.insert("a".to_string(), "3".to_string());
    assert_eq!(h.len(), 2);
    assert_eq!(h.get("a").map(|s| s.as_str()), Some("3"));
    assert_eq!(h.get("c"), None);
}

#[test]
fn words_and_colons() {
    assert_eq!(split_words(" a\u{a0}b\n c "), vec!["a", "b", "c"]);
    assert_eq!(split_words(""), Vec::<String>::new());
    assert_eq!(find_colon("ab:c:"), Some(2));
    assert_eq!(find_colon("abc"), None);
    assert_eq!(find_colon("é:"), Some(1));
}
