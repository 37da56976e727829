use beetle::headers::HeaderMap;
use beetle::parser::{parse_head, parse_request_line, HeaderParser, ParseErrorKind};
use beetle::text::{eq_ignore_ascii_case, parse_decimal};
use beetle::{Method, Version};

#[test]
fn request_line_complete() {
    let buf = b"GET /index.html HTTP/1.1\r\nHost: x\r\n\r\n";
    let line = parse_request_line(buf).unwrap().unwrap();
    assert_eq!(line.method, Method::GET);
    assert_eq!(&buf[line.path_start..line.path_end], b"/index.html");
    assert_eq!(line.version, Version::V11);
    assert_eq!(line.header_offset, 26);
}

#[test]
fn request_line_incomplete() {
    assert!(parse_request_line(b"GE").unwrap().is_none());
    assert!(parse_request_line(b"GET /a HTTP/1.1\r").unwrap().is_none());
    assert!(parse_request_line(b"").unwrap().is_none());
}

#[test]
fn method_is_case_insensitive() {
    for (tok, m) in [
        ("get", Method::GET),
        ("Post", Method::POST),
        ("pUt", Method::PUT),
        ("patch", Method::PATCH),
        ("DELETE", Method::DELETE),
        ("head", Method::HEAD),
        ("Connect", Method::CONNECT),
    ] {
        let buf = format!("{tok} / HTTP/1.0\r\n");
        let line = parse_request_line(buf.as_bytes()).unwrap().unwrap();
        assert_eq!(line.method, m);
        assert_eq!(line.version, Version::V10);
    }
}

#[test]
fn errors_name_their_cause() {
    assert_eq!(parse_request_line(b"FOO / HTTP/1.1\r\n").unwrap_err().kind, ParseErrorKind::Method);
    assert_eq!(parse_request_line(b"GET / HTTP/9.9\r\n").unwrap_err().kind, ParseErrorKind::Version);
    assert_eq!(parse_request_line(b"GET \xff HTTP/1.1\r\n").unwrap_err().kind, ParseErrorKind::Path);
    assert_eq!(parse_request_line(b"GET  / HTTP/1.1\r\n").unwrap_err().kind, ParseErrorKind::Path);
    assert_eq!(
        parse_head(b"GET / HTTP/2\r\ncontent-length: -1\r\n\r\n").unwrap_err().kind,
        ParseErrorKind::ContentLength
    );
}

#[test]
fn head_with_headers_and_body_offset() {
    let buf = b"POST /a HTTP/1.1\r\nContent-Length: 5\r\nX-Y: a: b\r\n\r\nhello";
    let head = parse_head(buf).unwrap().unwrap();
    assert_eq!(head.method, Method::POST);
    assert_eq!(head.content_length, 5);
    assert_eq!(head.body_offset, buf.len() - 5);
    assert_eq!(head.headers.len(), 2);
    assert_eq!(head.headers.entry(1), (&b"X-Y"[..], &b"a: b"[..]));
    assert!(buf[..head.body_offset].ends_with(b"\r\n\r\n"));
}

#[test]
fn head_without_content_length_has_empty_body() {
    let head = parse_head(b"GET / HTTP/1.1\r\n\r\n").unwrap().unwrap();
    assert_eq!(head.content_length, 0);
    assert_eq!(head.body_offset, 18);
}

#[test]
fn last_content_length_wins() {
    let head = parse_head(b"PUT / HTTP/1.1\r\ncontent-length: 1\r\nCONTENT-LENGTH: 7\r\n\r\n").unwrap().unwrap();
    assert_eq!(head.content_length, 7);
}

#[test]
fn line_without_separator_stays_incomplete() {
    assert!(parse_head(b"GET / HTTP/1.1\r\nHost:x\r\n\r\n").unwrap().is_none());
}

#[test]
fn parsing_is_monotonic_over_prefixes() {
    let full = b"POST /a HTTP/1.1\r\nContent-Length: 5\r\n\r\nhello";
    let mut complete_at = None;
    for n in 0..=full.len() {
        match parse_head(&full[..n]) {
            Ok(None) => assert!(complete_at.is_none()),
            Ok(Some(h)) => {
                assert!(h.body_offset <= n);
                complete_at.get_or_insert(h.body_offset);
                assert_eq!(Some(h.body_offset), complete_at);
            }
            Err(e) => panic!("prefix {n} refused: {:?}", e),
        }
    }
    assert_eq!(complete_at, Some(full.len() - 5));
    let bad = b"GEX / HTTP/1.1\r\n\r\n";
    assert!(parse_head(&bad[..3]).unwrap().is_none());
    assert!(parse_head(&bad[..4]).is_err());
    assert!(parse_head(bad).is_err());
}

#[test]
fn head_ends_with_one_blank_line() {
    let buf = b"GET / HTTP/1.1\r\nA: 1\r\nB: 2\r\n\r\nrest";
    let off = parse_head(buf).unwrap().unwrap().body_offset;
    let head = &buf[..off];
    let n = head.windows(4).filter(|w| w == b"\r\n\r\n").count();
    assert_eq!(n, 1);
    assert!(head.ends_with(b"\r\n\r\n"));
}

#[test]
fn header_parser_steps() {
    let buf = b"A: 1\r\nBb: \r\n\r\nbody";
    let mut p = HeaderParser::new(buf);
    assert_eq!(p.next(), Some((b"A".to_vec(), b"1".to_vec())));
    assert_eq!(p.next(), Some((b"Bb".to_vec(), b"".to_vec())));
    assert_eq!(p.next(), None);
    assert!(p.complete());
    assert_eq!(p.offset(), 14);
    assert_eq!(p.next(), None);
}

#[test]
fn header_lookup_ignores_case() {
    let mut h = HeaderMap::new();
    h.append(b"Content-Type".to_vec(), b"text/plain".to_vec());
    h.append(b"X-Id".to_vec(), b"7".to_vec());
    h.append(b"x-id".to_vec(), b"8".to_vec());
    assert_eq!(h.get(b"content-type"), Some(&b"text/plain"[..]));
    assert_eq!(h.get(b"CONTENT-TYPE"), Some(&b"text/plain"[..]));
    assert_eq!(h.get(b"x-ID"), Some(&b"7"[..]));
    assert_eq!(h.get(b"missing"), None);
    h.insert(b"X-ID".to_vec(), b"9".to_vec());
    assert_eq!(h.get(b"x-id"), Some(&b"9"[..]));
    assert_eq!(h.entry(1), (&b"X-ID"[..], &b"9"[..]));
    assert_eq!(h.len(), 3);
}

#[test]
fn text_helpers() {
    assert!(eq_ignore_ascii_case(b"Content-Length", b"content-length"));
    assert!(!eq_ignore_ascii_case(b"content-lengt", b"content-length"));
    assert_eq!(parse_decimal(b"0"), Some(0));
    assert_eq!(parse_decimal(b"18446744073709551615"), Some(usize::MAX));
    assert_eq!(parse_decimal(b"18446744073709551616"), None);
    assert_eq!(parse_decimal(b""), None);
    assert_eq!(parse_decimal(b"+5"), None);
}
