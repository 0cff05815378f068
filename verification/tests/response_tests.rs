use rust_fedora::response::Response;

#[test]
fn reason_phrases_match_the_fixed_table() {
    assert_eq!(Response::reason_phrase(200), "OK");
    assert_eq!(Response::reason_phrase(400), "Bad Request");
    assert_eq!(Response::reason_phrase(401), "Unauthorized");
    assert_eq!(Response::reason_phrase(403), "Forbidden");
    assert_eq!(Response::reason_phrase(404), "Not Found");
    assert_eq!(Response::reason_phrase(500), "Internal Server Error");
    assert_eq!(Response::reason_phrase(418), "No Reason Phrase");
    assert_eq!(Response::reason_phrase(0), "No Reason Phrase");
}

#[test]
fn into_bytes_encodes_status_line_headers_and_body() {
    let mut resp = Response::from(200);
    resp.headers.insert("this".to_string(), "is a header".to_string());
    resp.headers.insert("hi".to_string(), "there".to_string());
    resp.body = b"hi there! I am the body!".to_vec();

    let bytes = resp.into_bytes();
    let expected =
        b"HTTP/1.1 200 OK\r\nthis: is a header\r\nhi: there\r\n\r\nhi there! I am the body!";
    assert_eq!(bytes, expected.to_vec());
}

#[test]
fn into_bytes_does_not_validate_its_data() {
    let mut resp = Response::from(1234);
    resp.headers.insert(
        "i578439857249052837(*&*^&$$%#%$#^&^%*%&^*%&^&^%$&^%s a header".to_string(),
        "this*&)(*&&*%#!@w)".to_string(),
    );
    resp.body = b"hi there! I am the body!".to_vec();

    let bytes = resp.into_bytes();
    let expected = b"HTTP/1.1 1234 No Reason Phrase\r\ni578439857249052837(*&*^&$$%#%$#^&^%*%&^*%&^&^%$&^%s a header: this*&)(*&&*%#!@w)\r\n\r\nhi there! I am the body!";
    assert_eq!(bytes, expected.to_vec());
}

#[test]
fn into_bytes_overwrites_a_repeated_header_in_place() {
    let mut resp = Response::from(404);
    resp.headers.insert("a".to_string(), "1".to_string());
    resp.headers.insert("b".to_string(), "2".to_string());
    resp.headers.insert("a".to_string(), "3".to_string());

    let bytes = resp.into_bytes();
    let expected = b"HTTP/1.1 404 Not Found\r\na: 3\r\nb: 2\r\n\r\n";
    assert_eq!(bytes, expected.to_vec());
}

// locate the first blank-line terminator and hand back what follows it
fn body_after_blank_line(bytes: &[u8]) -> Option<Vec<u8>> {
    let mut i = 0;
    while i + 4 <= bytes.len() {
        if bytes[i] == 13 && bytes[i + 1] == 10 && bytes[i + 2] == 13 && bytes[i + 3] == 10 {
            return Some(bytes[i + 4..].to_vec());
        }
        i += 1;
    }
    None
}

#[test]
fn encoding_then_extracting_reproduces_the_body() {
    let bodies: Vec<Vec<u8>> = vec![
        b"plain".to_vec(),
        b"".to_vec(),
        b"with\r\nline break".to_vec(),
        b"with full\r\n\r\nterminator inside".to_vec(),
        vec![0, 255, 13, 10, 13, 10, 7, 128],
    ];

    for body in bodies {
        let mut resp = Response::from(200);
        resp.body = body.clone();
        let bytes = resp.into_bytes();
        assert_eq!(body_after_blank_line(&bytes), Some(body));
    }
}
