use beetle::conn::{Action, Connection};
use beetle::ext::{Anymap, Extensions};
use beetle::routing::{BadRequest, Branch, Cors, Either, Matcher, NotFound, Router, TcpService};
use beetle::{Method, Request};

fn request(bytes: &[u8]) -> Request {
    match Connection::new().on_read(bytes) {
        Action::Handle(r) => r,
        other => panic!("unexpected {:?}", other),
    }
}

#[test]
fn matcher_requires_every_predicate() {
    let get_a = request(b"GET /a HTTP/1.1\r\n\r\n");
    let post_a = request(b"POST /a HTTP/1.1\r\n\r\n");
    assert!(Matcher::any().matches(&get_a));
    assert!(Matcher::method(Method::GET).matches(&get_a));
    assert!(!Matcher::method(Method::GET).matches(&post_a));
    assert!(Matcher::path(b"/a".to_vec()).matches(&post_a));
    assert!(!Matcher::path(b"/b".to_vec()).matches(&post_a));
    assert!(Matcher::path_method(b"/a".to_vec(), Method::POST).matches(&post_a));
    assert!(!Matcher::path_method(b"/a".to_vec(), Method::POST).matches(&get_a));
}

#[test]
fn router_selects_route_or_fallback() {
    let router = Router::new().route(Matcher::path(b"/a".to_vec()), 1u8);
    let branch: &Branch<u8, NotFound> = router.inner();
    assert!(matches!(branch.select(&request(b"GET /a HTTP/1.1\r\n\r\n")), Either::Left(&1)));
    assert!(matches!(branch.select(&request(b"GET /b HTTP/1.1\r\n\r\n")), Either::Right(NotFound)));
    let with_state = Router::with_fallback(0u8).state(5u32);
    assert_eq!(*with_state.inner().state(), 5);
    assert_eq!(*with_state.inner().inner(), 0);
    assert_eq!(*TcpService::new(3i32).inner(), 3);
}

#[test]
fn extensions_keep_values_by_key() {
    let mut e = Extensions::new();
    assert_eq!(e.insert(1, b"one".to_vec()), None);
    assert_eq!(e.insert(1, b"uno".to_vec()), Some(b"one".to_vec()));
    assert_eq!(e.get(1), Some(&b"uno".to_vec()));
    assert_eq!(e.remove(1), Some(b"uno".to_vec()));
    assert_eq!(e.get(1), None);
    let mut m = Anymap::with_capacity(4);
    m.insert(2, vec![2]);
    assert_eq!(m.remove(3), None);
    assert_eq!(m.get(2), Some(&vec![2]));
}

#[test]
fn bad_request_and_cors() {
    let b: BadRequest<u8> = BadRequest::new(4u8);
    let widened: BadRequest<u32> = b.map();
    assert_eq!(widened.0, 4u32);
    let cors = Cors::AllowMethod("GET".to_string());
    assert_eq!(cors.header_name(), "Access-Control-Allow-Methods");
    assert_eq!(cors.value(), "GET");
}
