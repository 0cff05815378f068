use rust_fedora::error::HttpError;
use rust_fedora::method::Method;
use rust_fedora::request::Request;

#[test]
fn try_from_decodes_a_request_without_a_body() {
    let lines = vec!["GET /users?name=joe HTTP/1.1", "Host: localhost", "Accept: */*"];
    let req = Request::try_from(&lines, b"").unwrap();

    assert_eq!(req.method, Method::Get);
    assert_eq!(req.path, "/users");
    assert_eq!(req.query.get("name"), Some("joe"));
    assert_eq!(req.headers.get("Host"), Some("localhost"));
    assert_eq!(req.headers.get("Accept"), Some("*/*"));
    assert_eq!(req.http_ver, 1);
    assert!(req.body.is_none());
}

#[test]
fn try_from_reads_exactly_content_length_bytes() {
    let lines = vec!["POST /echo HTTP/1.1", "Content-Length: 5"];
    let req = Request::try_from(&lines, b"hello, there is more").unwrap();

    assert_eq!(req.method, Method::Post);
    assert_eq!(req.body, Some(b"hello".to_vec()));
}

#[test]
fn try_from_accepts_a_content_length_with_plus_sign() {
    // str::parse::<usize> accepts a leading plus, so Content-Length does too
    let lines = vec!["POST / HTTP/1.1", "Content-Length: +3"];
    let req = Request::try_from(&lines, b"abc").unwrap();
    assert_eq!(req.body, Some(b"abc".to_vec()));
}

#[test]
fn try_from_rejects_ambiguous_framing() {
    let lines = vec![
        "POST / HTTP/1.1",
        "Content-Length: 5",
        "Transfer-Encoding: chunked",
    ];
    let err = Request::try_from(&lines, b"hello").unwrap_err();
    assert!(matches!(err, HttpError::AmbiguousFraming));
}

#[test]
fn try_from_rejects_a_truncated_body() {
    let lines = vec!["POST / HTTP/1.1", "Content-Length: 5"];
    let err = Request::try_from(&lines, b"abc").unwrap_err();
    assert!(matches!(err, HttpError::TruncatedBody));
}

#[test]
fn try_from_rejects_chunked_as_not_implemented() {
    let lines = vec!["POST / HTTP/1.1", "Transfer-Encoding: chunked"];
    let err = Request::try_from(&lines, b"").unwrap_err();
    assert!(matches!(err, HttpError::NotImplemented));

    // the comparison is case-insensitive
    let lines = vec!["POST / HTTP/1.1", "Transfer-Encoding: Chunked"];
    let err = Request::try_from(&lines, b"").unwrap_err();
    assert!(matches!(err, HttpError::NotImplemented));
}

#[test]
fn try_from_rejects_an_unknown_transfer_encoding() {
    let lines = vec!["POST / HTTP/1.1", "Transfer-Encoding: gzip"];
    let err = Request::try_from(&lines, b"").unwrap_err();
    assert!(matches!(err, HttpError::UnsupportedEncoding(t) if t == "gzip"));
}

#[test]
fn try_from_rejects_a_bad_content_length() {
    let lines = vec!["POST / HTTP/1.1", "Content-Length: five"];
    let err = Request::try_from(&lines, b"hello").unwrap_err();
    assert!(matches!(err, HttpError::InvalidContentLength(t) if t == "five"));

    let lines = vec!["POST / HTTP/1.1", "Content-Length: -1"];
    let err = Request::try_from(&lines, b"hello").unwrap_err();
    assert!(matches!(err, HttpError::InvalidContentLength(_)));

    let lines = vec!["POST / HTTP/1.1", "Content-Length: "];
    let err = Request::try_from(&lines, b"hello").unwrap_err();
    assert!(matches!(err, HttpError::InvalidContentLength(_)));

    // a sign without digits is not a number
    let lines = vec!["POST / HTTP/1.1", "Content-Length: +"];
    let err = Request::try_from(&lines, b"hello").unwrap_err();
    assert!(matches!(err, HttpError::InvalidContentLength(_)));

    // a length too large for usize does not wrap around
    let lines = vec!["POST / HTTP/1.1", "Content-Length: 99999999999999999999999999999"];
    let err = Request::try_from(&lines, b"hello").unwrap_err();
    assert!(matches!(err, HttpError::InvalidContentLength(_)));
}

#[test]
fn try_from_rejects_a_bad_request_line() {
    let err = Request::try_from(&vec![], b"").unwrap_err();
    assert!(matches!(err, HttpError::MalformedRequestLine(_)));

    let err = Request::try_from(&vec![""], b"").unwrap_err();
    assert!(matches!(err, HttpError::MalformedRequestLine(_)));

    let err = Request::try_from(&vec!["GET /"], b"").unwrap_err();
    assert!(matches!(err, HttpError::MalformedRequestLine(t) if t == "GET /"));

    let err = Request::try_from(&vec!["GET / HTTP/1.1 extra"], b"").unwrap_err();
    assert!(matches!(err, HttpError::MalformedRequestLine(_)));
}

#[test]
fn try_from_rejects_a_bad_method() {
    let err = Request::try_from(&vec!["FETCH / HTTP/1.1"], b"").unwrap_err();
    assert!(matches!(err, HttpError::InvalidMethod(t) if t == "FETCH"));
}

#[test]
fn try_from_rejects_a_bad_version() {
    let err = Request::try_from(&vec!["GET / HTTP/2.0"], b"").unwrap_err();
    assert!(matches!(err, HttpError::InvalidVersion(t) if t == "HTTP/2.0"));

    let err = Request::try_from(&vec!["GET / HTTP/1."], b"").unwrap_err();
    assert!(matches!(err, HttpError::InvalidVersion(_)));
}

#[test]
fn try_from_bytes_decodes_a_whole_buffer() {
    let buf = b"POST /x?a=1&a=2 HTTP/1.9\r\nContent-Length: 3\r\nHost: here\r\n\r\nabcdef".to_vec();
    let req = Request::try_from_bytes(&buf).unwrap();

    assert_eq!(req.method, Method::Post);
    assert_eq!(req.path, "/x");
    assert_eq!(req.query.get("a"), Some("2"));
    assert_eq!(req.headers.get("Host"), Some("here"));
    assert_eq!(req.http_ver, 9);
    assert_eq!(req.body, Some(b"abc".to_vec()));
}

#[test]
fn try_from_bytes_decodes_a_non_ascii_path() {
    let buf = "GET /caf\u{e9} HTTP/1.1\r\n\r\n".as_bytes().to_vec();
    let req = Request::try_from_bytes(&buf).unwrap();
    assert_eq!(req.path, "/caf\u{e9}");
}

#[test]
fn try_from_bytes_rejects_a_non_utf8_head() {
    let buf = vec![0xff, 0xfe, b'G', b'E', b'T'];
    let err = Request::try_from_bytes(&buf).unwrap_err();
    assert!(matches!(err, HttpError::Utf8Decode));
}

#[test]
fn try_from_bytes_without_a_terminator_has_no_body_bytes() {
    let buf = b"POST / HTTP/1.1\r\nContent-Length: 3".to_vec();
    let err = Request::try_from_bytes(&buf).unwrap_err();
    assert!(matches!(err, HttpError::TruncatedBody));
}
