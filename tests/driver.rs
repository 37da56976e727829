use beetle::conn::{Action, Connection, Outcome};
use beetle::request::{BodyError, CollectStep, Request};
use beetle::response::{Body, Response};
use beetle::{Method, StatusCode, Version};

fn expect_handle(a: Action) -> Request {
    match a {
        Action::Handle(req) => req,
        other => panic!("expected a request, got {:?}", other),
    }
}

fn written(conn: &Connection) -> Vec<u8> {
    let mut out = conn.output().to_vec();
    out.extend_from_slice(conn.body());
    out
}

fn collect_body(req: Request, chunks: &[&[u8]]) -> Result<Vec<u8>, BodyError> {
    let mut c = req.into_body().collect();
    let mut next = 0;
    loop {
        match c.step() {
            CollectStep::Finish => return c.finish(),
            CollectStep::Fail(e) => return Err(e),
            CollectStep::Read(limit) => {
                let chunk: &[u8] = if next < chunks.len() { chunks[next] } else { &[] };
                next += 1;
                assert!(chunk.len() <= limit);
                c.feed(chunk)?;
            }
        }
    }
}

const GET: &[u8] = b"GET / HTTP/1.1\r\nHost: x\r\n\r\n";
const POST: &[u8] = b"POST /a HTTP/1.1\r\nContent-Length: 5\r\n\r\nhello";

#[test]
fn minimal_get() {
    let mut conn = Connection::new();
    let req = expect_handle(conn.on_read(GET));
    assert_eq!(req.method(), Method::GET);
    assert_eq!(req.path(), "/");
    assert_eq!(req.version(), Version::V11);
    assert_eq!(req.headers().get(b"host"), Some(&b"x"[..]));
    assert!(matches!(conn.on_response(Response::new(Body::empty())), Action::Write));
    assert_eq!(written(&conn), b"HTTP/1.1 200 OK\r\ncontent-length: 0\r\n\r\n".to_vec());
    assert!(matches!(conn.on_written(), Action::Read));
    assert!(matches!(conn.on_read(&[]), Action::Close(Outcome::Done)));
}

#[test]
fn post_with_content_length() {
    let mut conn = Connection::new();
    let req = expect_handle(conn.on_read(POST));
    assert_eq!(req.method(), Method::POST);
    assert_eq!(req.path(), "/a");
    let body = collect_body(req, &[]).unwrap();
    assert_eq!(body, b"hello".to_vec());
    conn.on_response(Response::new(Body::bytes(body)));
    assert_eq!(written(&conn), b"HTTP/1.1 200 OK\r\ncontent-length: 5\r\n\r\nhello".to_vec());
    assert!(matches!(conn.on_written(), Action::Read));
}

#[test]
fn keep_alive_two_requests() {
    let mut conn = Connection::new();
    let mut input = GET.to_vec();
    input.extend_from_slice(GET);
    let mut all = Vec::new();
    let _first = expect_handle(conn.on_read(&input));
    conn.on_response(Response::new(Body::empty()));
    all.extend(written(&conn));
    let _second = expect_handle(conn.on_written());
    conn.on_response(Response::new(Body::empty()));
    all.extend(written(&conn));
    assert!(matches!(conn.on_written(), Action::Read));
    assert!(matches!(conn.on_read(&[]), Action::Close(Outcome::Done)));
    let one = b"HTTP/1.1 200 OK\r\ncontent-length: 0\r\n\r\n".to_vec();
    let mut expected = one.clone();
    expected.extend(one);
    assert_eq!(all, expected);
}

#[test]
fn split_reads_one_byte_at_a_time() {
    let mut conn = Connection::new();
    let head_len = POST.len() - 5;
    let mut req = None;
    for i in 0..head_len {
        match conn.on_read(&POST[i..i + 1]) {
            Action::Read => assert!(i + 1 < head_len),
            Action::Handle(r) => {
                assert_eq!(i + 1, head_len);
                req = Some(r);
            }
            other => panic!("unexpected {:?}", other),
        }
    }
    let req = req.unwrap();
    let body_chunks: Vec<&[u8]> = (head_len..POST.len()).map(|i| &POST[i..i + 1]).collect();
    let body = collect_body(req, &body_chunks).unwrap();
    assert_eq!(body, b"hello".to_vec());
    conn.on_response(Response::new(Body::bytes(body)));
    assert_eq!(written(&conn), b"HTTP/1.1 200 OK\r\ncontent-length: 5\r\n\r\nhello".to_vec());
}

#[test]
fn unknown_method_gets_bad_request() {
    let mut conn = Connection::new();
    assert!(matches!(conn.on_read(b"FOO / HTTP/1.1\r\n\r\n"), Action::Write));
    assert_eq!(written(&conn), b"HTTP/1.1 400 Bad Request\r\ncontent-length: 0\r\n\r\n".to_vec());
    assert!(matches!(conn.on_written(), Action::Close(Outcome::BadRequest)));
}

#[test]
fn unknown_version_gets_bad_request() {
    let mut conn = Connection::new();
    assert!(matches!(conn.on_read(b"GET / HTTP/9.9\r\n\r\n"), Action::Write));
    assert_eq!(written(&conn), b"HTTP/1.1 400 Bad Request\r\ncontent-length: 0\r\n\r\n".to_vec());
    assert!(matches!(conn.on_written(), Action::Close(Outcome::BadRequest)));
}

#[test]
fn body_read_past_length_is_exhausted() {
    let mut conn = Connection::new();
    let req = expect_handle(conn.on_read(POST));
    let mut c = req.into_body().collect();
    assert_eq!(c.remaining(), 0);
    assert_eq!(c.feed(b"x"), Err(BodyError::Exhausted));
    assert_eq!(c.finish().unwrap().len(), 5);
}

#[test]
fn body_truncated_by_end_of_stream() {
    let mut conn = Connection::new();
    let req = expect_handle(conn.on_read(b"POST /a HTTP/1.1\r\ncontent-length: 3\r\n\r\nab"));
    assert_eq!(req.into_body().remaining(), 1);
    let req = {
        let mut conn = Connection::new();
        expect_handle(conn.on_read(b"POST /a HTTP/1.1\r\ncontent-length: 3\r\n\r\nab"))
    };
    assert_eq!(collect_body(req, &[]), Err(BodyError::Truncated));
}

#[test]
fn bad_content_length_gets_bad_request() {
    let mut conn = Connection::new();
    assert!(matches!(conn.on_read(b"POST / HTTP/1.1\r\nContent-Length: 5x\r\n\r\n"), Action::Write));
    assert_eq!(written(&conn), b"HTTP/1.1 400 Bad Request\r\ncontent-length: 0\r\n\r\n".to_vec());
}

#[test]
fn caller_content_length_is_overwritten() {
    let mut conn = Connection::new();
    let _req = expect_handle(conn.on_read(GET));
    let mut res = Response::with_status(StatusCode::NOT_FOUND, Body::bytes(b"no".to_vec()));
    res.headers_mut().append(b"Content-Length".to_vec(), b"99".to_vec());
    conn.on_response(res);
    assert_eq!(written(&conn), b"HTTP/1.1 404 Not Found\r\ncontent-length: 2\r\n\r\nno".to_vec());
}

#[test]
fn back_to_back_requests_with_bodies() {
    let mut input = POST.to_vec();
    input.extend_from_slice(GET);
    input.extend_from_slice(b"PUT /b HTTP/1.0\r\ncontent-length: 2\r\n\r\nhi");
    let mut conn = Connection::new();
    let mut sent = Vec::new();
    let mut expected = Vec::new();
    let mut action = conn.on_read(&input);
    let mut served = 0;
    loop {
        action = match action {
            Action::Handle(req) => {
                let body = collect_body(req, &[]).unwrap();
                let res = Response::new(Body::bytes(body.clone()));
                expected.extend(format!("HTTP/1.1 200 OK\r\ncontent-length: {}\r\n\r\n", body.len()).into_bytes());
                expected.extend(body);
                served += 1;
                conn.on_response(res)
            }
            Action::Write => {
                sent.extend(written(&conn));
                conn.on_written()
            }
            Action::Read => conn.on_read(&[]),
            Action::Close(o) => {
                assert_eq!(o, Outcome::Done);
                break;
            }
        };
    }
    assert_eq!(served, 3);
    assert_eq!(sent, expected);
}
