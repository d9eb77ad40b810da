use static_server::connection::{
    failure_response, on_file, on_request, resolve_path, Action, Failure,
};
use static_server::request::ParseError;
use static_server::response::{bad_request, build_response, not_found};

fn lines(v: &[&str]) -> Vec<String> {
    v.iter().map(|s| s.to_string()).collect()
}

#[test]
fn response_carries_body_and_length() {
    let r = build_response(b"hello");
    assert_eq!(r, b"HTTP/1.1 200 OK\r\nContent-Length: 5\r\n\r\nhello".to_vec());
}

#[test]
fn empty_body_has_length_zero() {
    assert_eq!(build_response(b""), b"HTTP/1.1 200 OK\r\nContent-Length: 0\r\n\r\n".to_vec());
}

#[test]
fn length_counts_bytes() {
    let body = "héllo wörld!".as_bytes();
    assert_eq!(body.len(), 14);
    let r = build_response(body);
    let mut want = b"HTTP/1.1 200 OK\r\nContent-Length: 14\r\n\r\n".to_vec();
    want.extend_from_slice(body);
    assert_eq!(r, want);
}

#[test]
fn large_body_length() {
    let body = vec![b'x'; 1234567];
    let r = build_response(&body);
    let head = b"HTTP/1.1 200 OK\r\nContent-Length: 1234567\r\n\r\n";
    assert_eq!(&r[..head.len()], &head[..]);
    assert_eq!(r.len(), head.len() + body.len());
}

#[test]
fn failure_responses() {
    let bad = b"HTTP/1.1 400 Bad Request\r\nContent-Length: 0\r\n\r\n".to_vec();
    let missing = b"HTTP/1.1 404 Not Found\r\nContent-Length: 0\r\n\r\n".to_vec();
    assert_eq!(bad_request(), bad);
    assert_eq!(not_found(), missing);
    assert_eq!(failure_response(Failure::Parse(ParseError::InvalidHeader)), bad);
    assert_eq!(failure_response(Failure::Parse(ParseError::InvalidRequest)), bad);
    assert_eq!(failure_response(Failure::ResourceNotFound), missing);
}

#[test]
fn path_is_root_then_target() {
    assert_eq!(resolve_path("src/site", "/a/b.html"), "src/site/a/b.html");
    assert_eq!(resolve_path("", "/x"), "/x");
    assert_eq!(resolve_path("root", "/../etc"), "root/../etc");
}

#[test]
fn root_target_reads_index() {
    match on_request("src/site", lines(&["GET / HTTP/1.1", "Host: example.com", ""])) {
        Action::ReadFile(p) => assert_eq!(p, "src/site/index.html"),
        Action::Write(_) => panic!("expected a file read"),
    }
}

#[test]
fn refused_request_reads_no_file() {
    for v in [
        &["POST /foo HTTP/1.1", ""][..],
        &["GET /foo HTTP/2.0", ""][..],
        &["GET /foo HTTP/1.1", "BadHeaderNoColon", ""][..],
        &["GET foo HTTP/1.1", ""][..],
    ] {
        match on_request("src/site", lines(v)) {
            Action::ReadFile(p) => panic!("unexpected read of {}", p),
            Action::Write(b) => assert_eq!(b, bad_request()),
        }
    }
}

#[test]
fn missing_file_is_not_found() {
    assert_eq!(on_file(None), b"HTTP/1.1 404 Not Found\r\nContent-Length: 0\r\n\r\n".to_vec());
    // A later connection is served as usual.
    match on_request("src/site", lines(&["GET /ok.txt HTTP/1.1", ""])) {
        Action::ReadFile(p) => assert_eq!(p, "src/site/ok.txt"),
        Action::Write(_) => panic!("expected a file read"),
    }
    assert_eq!(on_file(Some(b"ok".to_vec())), build_response(b"ok"));
}
