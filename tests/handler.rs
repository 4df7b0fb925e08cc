use file_shover::files::{FileTree, OpenOutcome, PathError};
use file_shover::handler::{
    after_decode, after_open, bad_request_response, error_page, resolution_response, Step,
    DEFAULT_BAD_REQUEST_BODY, DEFAULT_INTERNAL_ERROR_BODY, DEFAULT_NOT_FOUND_BODY,
};
use file_shover::message::{HttpStatus, Request, Response};
use std::path::PathBuf;

fn wire(r: &Response) -> String {
    let mut out = Vec::new();
    r.write(&mut out);
    String::from_utf8(out).unwrap()
}

fn decide(raw: &[u8]) -> Step {
    let tree = FileTree::new(PathBuf::from("site"));
    after_decode(&tree, &Request::from_bytes(raw))
}

#[test]
fn index_is_served() {
    let raw = b"GET /index.html HTTP/1.1\r\nHost: x\r\n\r\n";
    let rel = match decide(raw) {
        Step::Open(rel) => rel,
        Step::Respond(_) => panic!("expected the file to be opened"),
    };
    assert_eq!(rel, "index.html");
    let content = b"<h1>Hello World</h1>";
    let r = after_open("/index.html", OpenOutcome::Opened(content.len() as u64));
    assert_eq!(r.status, HttpStatus::OK);
    assert_eq!(r.headers.get("Content-Type"), Some(&"text/html".to_string()));
    assert_eq!(r.headers.get("Content-Length"), Some(&"20".to_string()));
    assert!(r.body.is_none());
    let mut out = Vec::new();
    r.write(&mut out);
    out.extend_from_slice(content);
    let text = String::from_utf8(out).unwrap();
    assert!(text.starts_with("HTTP/1.1 200 OK\r\n"));
    assert!(text.contains("\r\nContent-Type: text/html\r\n"));
    assert!(text.ends_with("\r\n\r\n<h1>Hello World</h1>"));
}

#[test]
fn traversal_is_500() {
    match decide(b"GET /../secret.txt HTTP/1.1\r\n\r\n") {
        Step::Respond(r) => {
            assert_eq!(r.status, HttpStatus::InternalServerError);
            assert_eq!(r.body, Some(DEFAULT_INTERNAL_ERROR_BODY.as_bytes().to_vec()));
            assert!(wire(&r).starts_with("HTTP/1.1 500 Internal Server Error\r\n"));
        }
        Step::Open(_) => panic!("a traversal path must not be opened"),
    }
}

#[test]
fn missing_file_is_404() {
    match decide(b"GET /missing.txt HTTP/1.1\r\n\r\n") {
        Step::Open(rel) => assert_eq!(rel, "missing.txt"),
        Step::Respond(_) => panic!("expected the file to be opened"),
    }
    let r = after_open("/missing.txt", OpenOutcome::Missing);
    assert_eq!(r.status, HttpStatus::NotFound);
    assert_eq!(r.body, Some(DEFAULT_NOT_FOUND_BODY.as_bytes().to_vec()));
    assert_eq!(r.headers.get("Content-Type"), Some(&"text/html".to_string()));
    assert_eq!(
        r.headers.get("Content-Length"),
        Some(&DEFAULT_NOT_FOUND_BODY.len().to_string())
    );
}

#[test]
fn post_is_400() {
    match decide(b"POST / HTTP/1.1\r\n\r\n") {
        Step::Respond(r) => {
            assert_eq!(r.status, HttpStatus::BadRequest);
            assert_eq!(r.body, Some(DEFAULT_BAD_REQUEST_BODY.as_bytes().to_vec()));
            let text = wire(&r);
            assert!(text.starts_with("HTTP/1.1 400 Bad Request\r\n"));
            assert!(text.ends_with(DEFAULT_BAD_REQUEST_BODY));
        }
        Step::Open(_) => panic!("a malformed request must not be served"),
    }
}

#[test]
fn malformed_request_line_is_400() {
    match decide(b"GET\r\n\r\n") {
        Step::Respond(r) => assert_eq!(r.status, HttpStatus::BadRequest),
        Step::Open(_) => panic!("a malformed request must not be served"),
    }
}

#[test]
fn other_open_failure_is_500() {
    let r = after_open("/dir", OpenOutcome::Failed);
    assert_eq!(r.status, HttpStatus::InternalServerError);
    assert_eq!(r.body, Some(DEFAULT_INTERNAL_ERROR_BODY.as_bytes().to_vec()));
}

#[test]
fn resolution_statuses() {
    assert_eq!(resolution_response("/a.css", Ok(3)).status, HttpStatus::OK);
    assert_eq!(
        resolution_response("/a.css", Ok(3)).headers.get("Content-Type"),
        Some(&"text/css".to_string())
    );
    assert_eq!(resolution_response("/a", Err(PathError::NotFound)).status, HttpStatus::NotFound);
    assert_eq!(
        resolution_response("/a", Err(PathError::InvalidPath)).status,
        HttpStatus::InternalServerError
    );
    assert_eq!(resolution_response("/a", Err(PathError::Io)).status, HttpStatus::InternalServerError);
}

#[test]
fn error_page_shape() {
    let r = error_page(HttpStatus::Forbidden, "<p>no</p>");
    assert_eq!(r.status, HttpStatus::Forbidden);
    assert_eq!(r.headers.get("Content-Length"), Some(&"9".to_string()));
    assert_eq!(r.body, Some(b"<p>no</p>".to_vec()));
    let b = bad_request_response();
    assert_eq!(
        b.headers.get("Content-Length"),
        Some(&DEFAULT_BAD_REQUEST_BODY.len().to_string())
    );
}
