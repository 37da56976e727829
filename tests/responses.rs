use beetle::response::{parse_response_head, validate, Body, Response};
use beetle::{Method, StatusCode, Version};
use bytes::BytesMut;

fn head_bytes(res: &Response) -> Vec<u8> {
    let mut out = BytesMut::new();
    let (parts, _) = Response::into_parts(clone_response(res));
    beetle::response::write(&parts, &mut out);
    out.to_vec()
}

fn clone_response(res: &Response) -> Response {
    let mut r = Response::with_status(res.status(), Body::empty());
    for i in 0..res.headers().len() {
        let (k, v) = res.headers().entry(i);
        r.headers_mut().append(k.to_vec(), v.to_vec());
    }
    r
}

#[test]
fn status_and_version_text() {
    assert_eq!(StatusCode::OK.as_str(), "200 OK");
    assert_eq!(StatusCode::BAD_REQUEST.status(), 400);
    assert_eq!(StatusCode::METHOD_NOT_ALLOWED.as_str(), "405 Method Not Allowed");
    assert_eq!(StatusCode::from_code(404), Some(StatusCode::NOT_FOUND));
    assert_eq!(StatusCode::from_code(201), None);
    assert_eq!(Version::V2.as_str(), "HTTP/2");
    assert_eq!(Method::PATCH.as_str(), "PATCH");
}

#[test]
fn validate_sets_content_length() {
    let mut res = Response::new(Body::bytes(b"hello world".to_vec()));
    validate(&mut res);
    assert_eq!(res.headers().get(b"Content-Length"), Some(&b"11"[..]));
    assert_eq!(head_bytes(&res), b"HTTP/1.1 200 OK\r\ncontent-length: 11\r\n\r\n".to_vec());
}

#[test]
fn write_appends_head() {
    let mut res = Response::with_status(StatusCode::INTERNAL_SERVER_ERROR, Body::empty());
    res.headers_mut().append(b"X-A".to_vec(), b"1".to_vec());
    res.headers_mut().append(b"x-b".to_vec(), b"two words".to_vec());
    let (parts, _) = res.into_parts();
    let mut out = BytesMut::from(&b"prev"[..]);
    beetle::response::write(&parts, &mut out);
    assert_eq!(
        &out[..],
        &b"prevHTTP/1.1 500 Internal Server Error\r\nX-A: 1\r\nx-b: two words\r\n\r\n"[..]
    );
}

#[test]
fn serialised_head_reads_back() {
    let mut res = Response::with_status(StatusCode::NOT_FOUND, Body::bytes(b"nope".to_vec()));
    res.headers_mut().append(b"Server".to_vec(), b"beetle".to_vec());
    res.headers_mut().append(b"X-Odd".to_vec(), b"a:b: c".to_vec());
    validate(&mut res);
    let bytes = head_bytes(&res);
    let back = parse_response_head(&bytes).unwrap();
    assert_eq!(back.version, Version::V11);
    assert_eq!(back.status, StatusCode::NOT_FOUND);
    assert_eq!(back.head_len, bytes.len());
    assert_eq!(back.headers.len(), 3);
    assert_eq!(back.headers.entry(0), (&b"Server"[..], &b"beetle"[..]));
    assert_eq!(back.headers.entry(1), (&b"X-Odd"[..], &b"a:b: c"[..]));
    assert_eq!(back.headers.entry(2), (&b"content-length"[..], &b"4"[..]));
}

#[test]
fn response_head_tolerates_any_reason() {
    let back = parse_response_head(b"HTTP/1.0 200 Fine Thanks\r\nA: b\r\n\r\n").unwrap();
    assert_eq!(back.version, Version::V10);
    assert_eq!(back.status, StatusCode::OK);
    assert!(parse_response_head(b"HTTP/1.0 299 Odd\r\n\r\n").is_none());
    assert!(parse_response_head(b"HTTP/1.1 200 OK\r\n").is_none());
}
