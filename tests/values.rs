use beetle::headers::{has_json_content_type, HeaderMap, HeaderName, HeaderValue, Sequence};
use beetle::response::{validate, Response};
use beetle::StatusCode;
use beetle::lossy::{FmtExt, LossyFmt};
use beetle::request::{Body, CollectStep};

fn parts(mut s: Sequence) -> Vec<Vec<u8>> {
    let mut out = Vec::new();
    while let Some(p) = s.next() {
        out.push(p);
    }
    out
}

#[test]
fn value_sequence_splits_on_semicolon_space() {
    let v = HeaderValue::new(b"a=1; b=2;c; ".to_vec());
    assert_eq!(parts(v.as_sequence()), vec![b"a=1".to_vec(), b"b=2;c".to_vec(), b"".to_vec()]);
    let one = HeaderValue::new_str("plain");
    assert_eq!(parts(one.as_sequence()), vec![b"plain".to_vec()]);
    let empty = HeaderValue::new(Vec::new());
    assert_eq!(parts(empty.as_sequence()), vec![Vec::<u8>::new()]);
    let bad = HeaderValue::new(vec![0xff, b';', b' ', b'x']);
    assert!(bad.as_str().is_none());
    assert!(parts(bad.as_sequence()).is_empty());
}

#[test]
fn header_name_compares_without_case() {
    let n = HeaderName::new("Content-Type");
    assert_eq!(n.as_str(), "Content-Type");
    assert!(n.matches(b"content-type"));
    assert!(!n.matches(b"content-typo"));
    assert_eq!(HeaderValue::new_str("x").as_str(), Some("x"));
}

#[test]
fn lossy_escapes_unprintable_bytes() {
    let raw: &[u8] = b"ok \x00\x1f\x7f\xff\r\n";
    assert_eq!(raw.lossy().render(), b"ok \\x0\\x1f\\x7f\\xff\r\n".to_vec());
    assert_eq!(LossyFmt(b"").render(), Vec::<u8>::new());
}

#[test]
fn exact_body_is_complete_at_once() {
    let b = Body::exact(b"abc".to_vec());
    assert_eq!(b.content_len(), 3);
    assert!(!b.is_remaining());
    let c = b.collect();
    assert_eq!(c.step(), CollectStep::Finish);
    assert_eq!(c.finish(), Ok(b"abc".to_vec()));
    let empty = Body::empty().collect();
    assert_eq!(empty.step(), CollectStep::Finish);
    assert_eq!(empty.finish(), Ok(Vec::new()));
    let r = beetle::response::Body::bytes(b"xy".to_vec());
    assert_eq!((r.len(), r.is_empty(), r.is_end_stream()), (2, false, false));
}

#[test]
fn duplicate_content_lengths_collapse_to_one() {
    let mut res = Response::new(beetle::response::Body::empty());
    res.headers_mut().append(b"content-length".to_vec(), b"1".to_vec());
    res.headers_mut().append(b"X-A".to_vec(), b"a".to_vec());
    res.headers_mut().append(b"Content-Length".to_vec(), b"2".to_vec());
    validate(&mut res);
    let h = res.headers();
    assert_eq!(h.len(), 2);
    assert_eq!(h.entry(0), (&b"X-A"[..], &b"a"[..]));
    assert_eq!(h.entry(1), (&b"content-length"[..], &b"0"[..]));
}

#[test]
fn json_content_type_is_recognised() {
    let mut h = HeaderMap::new();
    assert!(!has_json_content_type(&h));
    h.append(b"Content-Type".to_vec(), b"application/json; charset=utf-8".to_vec());
    assert!(has_json_content_type(&h));
    let mut t = HeaderMap::new();
    t.append(b"content-type".to_vec(), b"text/plain".to_vec());
    assert!(!has_json_content_type(&t));
    let mut u = HeaderMap::new();
    u.append(b"content-type".to_vec(), b"application/jsonx".to_vec());
    assert!(!has_json_content_type(&u));
}

#[test]
fn status_text_parts() {
    assert_eq!(StatusCode::NOT_FOUND.message(), "Not Found");
    assert_eq!(StatusCode::NOT_FOUND.status_str(), "404");
    assert_eq!(StatusCode::OK.message(), "OK");
}

#[test]
fn header_parser_stops_in_place() {
    let mut p = beetle::HeaderParser::new(b"A: 1\r\nNoSep\r\n\r\n");
    assert!(p.next().is_some());
    assert!(!p.complete());
    assert_eq!(p.offset(), 6);
    assert!(p.next().is_none());
    assert!(!p.complete());
    assert_eq!(p.offset(), 6);
    assert!(p.next().is_none());
}
