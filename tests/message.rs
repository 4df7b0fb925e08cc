use file_shover::message::{head_complete, HttpMethod, HttpStatus, Request, RequestError, Response};

#[test]
fn test_http_method_from_str_valid_cases() {
    assert_eq!(HttpMethod::from_str("GET").unwrap(), HttpMethod::GET);
    assert_eq!(HttpMethod::from_str("HEAD").unwrap(), HttpMethod::HEAD);
    assert_eq!(HttpMethod::from_str("OPTIONS").unwrap(), HttpMethod::OPTIONS);
}

#[test]
fn test_http_method_from_str_invalid_cases() {
    assert!(HttpMethod::from_str("POST").is_err());
    assert!(HttpMethod::from_str("PUT").is_err());
    assert!(HttpMethod::from_str("DELETE").is_err());
    assert!(HttpMethod::from_str("PATCH").is_err());
    assert!(HttpMethod::from_str("").is_err());
    assert!(HttpMethod::from_str("get").is_err());
    assert!(HttpMethod::from_str("Get").is_err());
    assert!(HttpMethod::from_str("INVALID").is_err());
}

#[test]
fn test_http_method_from_str_error_type() {
    match HttpMethod::from_str("POST") {
        Err(RequestError::InvalidFormat) => (),
        Err(other) => panic!("Expected InvalidFormat, got {:?}", other),
        Ok(method) => panic!("Expected error, got {:?}", method),
    }
}

#[test]
fn test_http_method_display() {
    assert_eq!(HttpMethod::GET.to_string(), "GET");
    assert_eq!(HttpMethod::HEAD.to_string(), "HEAD");
    assert_eq!(HttpMethod::OPTIONS.to_string(), "OPTIONS");
}

#[test]
fn test_http_status_display() {
    assert_eq!(HttpStatus::OK.to_string(), "200 OK");
    assert_eq!(HttpStatus::NotFound.to_string(), "404 Not Found");
    assert_eq!(HttpStatus::InternalServerError.to_string(), "500 Internal Server Error");
}

#[test]
fn test_response_builder() {
    let response = Response::new()
        .status(HttpStatus::OK)
        .content_type("text/html")
        .server("test-server")
        .body("Hello World".as_bytes().to_vec());

    assert_eq!(response.status, HttpStatus::OK);
    assert_eq!(response.headers.get("Content-Type"), Some(&"text/html".to_string()));
    assert_eq!(response.headers.get("Server"), Some(&"test-server".to_string()));
    assert_eq!(response.body, Some("Hello World".as_bytes().to_vec()));
}

#[test]
fn parse_method_through_trait() {
    let m: HttpMethod = "HEAD".parse().unwrap();
    assert_eq!(m, HttpMethod::HEAD);
    assert!("TRACE".parse::<HttpMethod>().is_err());
}

#[test]
fn status_codes() {
    assert_eq!(HttpStatus::OK.code(), 200);
    assert_eq!(HttpStatus::NotModified.code(), 304);
    assert_eq!(HttpStatus::Forbidden.code(), 403);
    assert_eq!(HttpStatus::MethodNotAllowed.code(), 405);
    assert_eq!(HttpStatus::MethodNotAllowed.as_str(), "405 Method Not Allowed");
}

#[test]
fn parse_full_request() {
    let req = Request::from_bytes(b"GET /index.html HTTP/1.1\r\nHost: x\r\nUser-Agent: t: u\r\n\r\n").unwrap();
    assert_eq!(req.method, HttpMethod::GET);
    assert_eq!(req.path, "/index.html");
    assert_eq!(req.http_version, "HTTP/1.1");
    assert_eq!(req.headers.len(), 2);
    assert_eq!(req.headers.get("Host"), Some(&"x".to_string()));
    assert_eq!(req.headers.get("User-Agent"), Some(&"t: u".to_string()));
    assert_eq!(req.headers.get("host"), None);
}

#[test]
fn duplicate_header_last_wins() {
    let req = Request::from_bytes(b"HEAD / HTTP/1.1\r\nA: 1\r\nB: 2\r\nA: 3\r\n\r\nA: 4\r\n").unwrap();
    assert_eq!(req.headers.len(), 2);
    assert_eq!(req.headers.get("A"), Some(&"3".to_string()));
}

#[test]
fn too_few_tokens_is_invalid_format() {
    for line in [&b""[..], b"\r\n", b"GET\r\n\r\n", b"GET /\r\n\r\n", b"   \t GET   \r\n"] {
        assert!(matches!(Request::from_bytes(line), Err(RequestError::InvalidFormat)));
    }
}

#[test]
fn extra_tokens_and_whitespace_are_tolerated() {
    let req = Request::from_bytes(b"  OPTIONS\t*  HTTP/1.0 extra\n\n").unwrap();
    assert_eq!(req.method, HttpMethod::OPTIONS);
    assert_eq!(req.path, "*");
    assert_eq!(req.http_version, "HTTP/1.0");
    assert_eq!(req.headers.len(), 0);
}

#[test]
fn unsupported_method_is_invalid_format() {
    assert!(matches!(
        Request::from_bytes(b"POST / HTTP/1.1\r\n\r\n"),
        Err(RequestError::InvalidFormat)
    ));
}

#[test]
fn header_without_separator_is_invalid_format() {
    assert!(matches!(
        Request::from_bytes(b"GET / HTTP/1.1\r\nHost:x\r\n\r\n"),
        Err(RequestError::InvalidFormat)
    ));
}

#[test]
fn invalid_utf8_request_line_is_io() {
    match Request::from_bytes(b"GET /\xff HTTP/1.1\r\n\r\n") {
        Err(RequestError::Io(e)) => assert_eq!(e.kind(), std::io::ErrorKind::InvalidData),
        other => panic!("unexpected {:?}", other),
    }
}

#[test]
fn invalid_utf8_header_line_is_io() {
    match Request::from_bytes(b"GET / HTTP/1.1\r\nA: 1\r\n\xff\xfe\r\nB: 2\r\n\r\n") {
        Err(RequestError::Io(e)) => assert_eq!(e.kind(), std::io::ErrorKind::InvalidData),
        other => panic!("unexpected {:?}", other),
    }
}

#[test]
fn end_of_input_before_blank_line_is_io() {
    for raw in [
        &b"GET / HTTP/1.1"[..],
        b"GET / HTTP/1.1\r\n",
        b"GET / HTTP/1.1\r\nHost: x\r\n",
        b"GET / HTTP/1.1\r\nHost: x",
    ] {
        match Request::from_bytes(raw) {
            Err(RequestError::Io(e)) => assert_eq!(e.kind(), std::io::ErrorKind::UnexpectedEof),
            other => panic!("unexpected {:?}", other),
        }
    }
}

#[test]
fn malformed_header_wins_over_end_of_input() {
    assert!(matches!(
        Request::from_bytes(b"GET / HTTP/1.1\r\nbroken\r\n"),
        Err(RequestError::InvalidFormat)
    ));
}

#[test]
fn unicode_path_is_kept() {
    let req = Request::from_bytes("GET /caf\u{e9}.html HTTP/1.1\r\n\r\n".as_bytes()).unwrap();
    assert_eq!(req.path, "/caf\u{e9}.html");
}

#[test]
fn default_response_headers() {
    let r = Response::new();
    assert_eq!(r.status, HttpStatus::OK);
    assert_eq!(r.headers.get("Server"), Some(&"file-shover/1.0".to_string()));
    assert_eq!(r.headers.get("Connection"), Some(&"close".to_string()));
    assert!(r.body.is_none());
}

#[test]
fn write_exact_bytes() {
    let r = Response::new()
        .status(HttpStatus::NotFound)
        .header("Connection", "keep-alive")
        .content_length(12)
        .body(b"hello".to_vec());
    let mut out = b"x".to_vec();
    r.write(&mut out);
    let expected = "xHTTP/1.1 404 Not Found\r\nServer: file-shover/1.0\r\nConnection: keep-alive\r\nContent-Length: 12\r\n\r\nhello";
    assert_eq!(out, expected.as_bytes().to_vec());
}

#[test]
fn write_without_body() {
    let r = Response::new().status(HttpStatus::NotModified);
    let mut out = Vec::new();
    r.write(&mut out);
    assert_eq!(
        String::from_utf8(out).unwrap(),
        "HTTP/1.1 304 Not Modified\r\nServer: file-shover/1.0\r\nConnection: close\r\n\r\n"
    );
}

#[test]
fn encode_then_read_back_status_and_headers() {
    let r = Response::new().status(HttpStatus::Forbidden).content_type("text/css").header("X-A", "1");
    let mut out = Vec::new();
    r.write(&mut out);
    let text = String::from_utf8(out).unwrap();
    let mut lines = text.split("\r\n");
    assert_eq!(lines.next(), Some("HTTP/1.1 403 Forbidden"));
    let mut seen = Vec::new();
    for line in lines.by_ref() {
        if line.is_empty() {
            break;
        }
        let (k, v) = line.split_once(": ").unwrap();
        seen.push((k.to_string(), v.to_string()));
    }
    seen.sort();
    assert_eq!(
        seen,
        vec![
            ("Connection".to_string(), "close".to_string()),
            ("Content-Type".to_string(), "text/css".to_string()),
            ("Server".to_string(), "file-shover/1.0".to_string()),
            ("X-A".to_string(), "1".to_string()),
        ]
    );
}

#[test]
fn content_length_is_decimal() {
    let r = Response::new().content_length(0).content_length(1234567890);
    assert_eq!(r.headers.get("Content-Length"), Some(&"1234567890".to_string()));
    let r = Response::new().content_length(u64::MAX);
    assert_eq!(r.headers.get("Content-Length"), Some(&"18446744073709551615".to_string()));
}

#[test]
fn request_error_describe() {
    assert_eq!(RequestError::InvalidFormat.describe(), "Invalid request format");
    assert_eq!(
        RequestError::MissingHeader("Host".to_string()).describe(),
        "Missing required header: Host"
    );
    let io = std::io::Error::new(std::io::ErrorKind::UnexpectedEof, "closed");
    assert_eq!(RequestError::Io(io).describe(), "IO error: closed");
    let io = std::io::Error::new(std::io::ErrorKind::Other, "x");
    assert_eq!(RequestError::Io(io).describe_with("disk gone"), "IO error: disk gone");
}

#[test]
fn request_error_from_io() {
    let io = std::io::Error::new(std::io::ErrorKind::UnexpectedEof, "closed");
    let err = RequestError::from(io);
    assert_eq!(err.source().map(|e| e.kind()), Some(std::io::ErrorKind::UnexpectedEof));
    assert!(RequestError::InvalidFormat.source().is_none());
    match err {
        RequestError::Io(e) => assert_eq!(e.kind(), std::io::ErrorKind::UnexpectedEof),
        other => panic!("unexpected {:?}", other),
    }
}

#[test]
fn head_framing() {
    assert!(!head_complete(b"GET / HTTP/1.1\r\nHost: x\r\n"));
    assert!(head_complete(b"GET / HTTP/1.1\r\nHost: x\r\n\r\n"));
    assert!(head_complete(b"GET / HTTP/1.1\n\n"));
    assert!(!head_complete(b""));
    assert!(!head_complete(b"GET / HTTP/1.1\r\n\r"));
}

#[test]
fn default_matches_new() {
    let r = Response::default();
    assert_eq!(r.status, HttpStatus::OK);
    assert_eq!(r.headers.len(), 2);
    assert_eq!(r.headers.get("Connection"), Some(&"close".to_string()));
}

#[test]
fn colon_in_name_reads_back() {
    let r = Response::new().header("X:Y", "a: b");
    let mut out = Vec::new();
    r.write(&mut out);
    let text = String::from_utf8(out).unwrap();
    let line = text.split("\r\n").find(|l| l.starts_with("X:Y")).unwrap();
    assert_eq!(line.split_once(": "), Some(("X:Y", "a: b")));
}

#[test]
fn defaults_survive_other_settings() {
    let r = Response::new().content_type("text/css").header("X-A", "1").content_length(3);
    assert_eq!(r.headers.len(), 5);
    assert_eq!(r.headers.get("Server"), Some(&"file-shover/1.0".to_string()));
    assert_eq!(r.headers.get("Connection"), Some(&"close".to_string()));
    let r = r.server("other").header("Connection", "keep-alive");
    assert_eq!(r.headers.len(), 5);
    assert_eq!(r.headers.get("Server"), Some(&"other".to_string()));
    assert_eq!(r.headers.get("Connection"), Some(&"keep-alive".to_string()));
}
