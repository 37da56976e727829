//! Route selection and the builders around services.
use vstd::prelude::*;
use crate::http::{bytes_eq, Method};
use crate::request::Request;

verus! {

/// One of two values.
#[derive(Debug)]
pub enum Either<L, R> {
    Left(L),
    Right(R),
}

/// Partially matches a request: by exact path, by method, or both.
#[derive(Clone, Debug)]
pub struct Matcher {
    path: Option<Vec<u8>>,
    method: Option<Method>,
}

impl Matcher {
    pub closed spec fn spec_path(&self) -> Option<Seq<u8>> {
        match self.path {
            Some(p) => Some(p@),
            None => None,
        }
    }

    pub closed spec fn spec_method(&self) -> Option<Method> {
        self.method
    }

    /// Whether the matcher accepts a request with this path and method: every
    /// predicate it has must accept.
    pub open spec fn accepts(&self, path: Seq<u8>, method: Method) -> bool {
        &&& (self.spec_path() matches Some(p) ==> p == path)
        &&& (self.spec_method() matches Some(m) ==> m == method)
    }

    /// Matches every request.
    pub fn any() -> (r: Self)
        ensures
            r.spec_path() is None,
            r.spec_method() is None,
    {
        Matcher { path: None, method: None }
    }

    /// Matches requests of this method.
    pub fn method(method: Method) -> (r: Self)
        ensures
            r.spec_path() is None,
            r.spec_method() == Some(method),
    {
        Matcher { path: None, method: Some(method) }
    }

    /// Matches requests for exactly this path.
    pub fn path(path: Vec<u8>) -> (r: Self)
        ensures
            r.spec_path() == Some(path@),
            r.spec_method() is None,
    {
        Matcher { path: Some(path), method: None }
    }

    /// Matches requests for exactly this path with this method.
    pub fn path_method(path: Vec<u8>, method: Method) -> (r: Self)
        ensures
            r.spec_path() == Some(path@),
            r.spec_method() == Some(method),
    {
        Matcher { path: Some(path), method: Some(method) }
    }

    /// Whether the request's path and method are accepted.
    pub fn matches(&self, req: &Request) -> (r: bool)
        ensures
            r == self.accepts(req.spec_parts().spec_path(), req.spec_parts().spec_method()),
    {
        match &self.path {
            Some(p) => {
                if !bytes_eq(p.as_slice(), req.parts().path_bytes()) {
                    return false;
                }
            },
            None => {},
        }
        match self.method {
            Some(m) => m == req.method(),
            None => true,
        }
    }
}

/// Sends a request either to `inner`, when the matcher accepts it, or to `fallback`.
pub struct Branch<S, F> {
    matcher: Matcher,
    inner: S,
    fallback: F,
}

impl<S, F> Branch<S, F> {
    pub closed spec fn spec_matcher(&self) -> Matcher {
        self.matcher
    }

    pub closed spec fn spec_inner(&self) -> S {
        self.inner
    }

    pub closed spec fn spec_fallback(&self) -> F {
        self.fallback
    }

    pub fn new(matcher: Matcher, inner: S, fallback: F) -> (r: Self)
        ensures
            r.spec_matcher() == matcher,
            r.spec_inner() == inner,
            r.spec_fallback() == fallback,
    {
        Branch { matcher, inner, fallback }
    }

    /// The service that is to handle `req`.
    pub fn select(&self, req: &Request) -> (r: Either<&S, &F>)
        ensures
            self.spec_matcher().accepts(req.spec_parts().spec_path(), req.spec_parts().spec_method())
                ==> (r matches Either::Left(s) && *s == self.spec_inner()),
            !self.spec_matcher().accepts(req.spec_parts().spec_path(), req.spec_parts().spec_method())
                ==> (r matches Either::Right(f) && *f == self.spec_fallback()),
    {
        if self.matcher.matches(req) {
            Either::Left(&self.inner)
        } else {
            Either::Right(&self.fallback)
        }
    }
}

/// The service that answers `404 Not Found`.
#[derive(Clone, Copy, Debug)]
pub struct NotFound;

/// The service that answers `405 Method Not Allowed`.
#[derive(Clone, Copy, Debug)]
pub struct MethodNotAllowed;

/// A service with a value shared by its requests.
pub struct State<T, S> {
    state: T,
    inner: S,
}

impl<T, S> State<T, S> {
    pub closed spec fn spec_state(&self) -> T {
        self.state
    }

    pub closed spec fn spec_inner(&self) -> S {
        self.inner
    }

    pub fn new(state: T, inner: S) -> (r: Self)
        ensures
            r.spec_state() == state,
            r.spec_inner() == inner,
    {
        State { state, inner }
    }

    pub fn state(&self) -> (r: &T)
        ensures
            *r == self.spec_state(),
    {
        &self.state
    }

    pub fn inner(&self) -> (r: &S)
        ensures
            *r == self.spec_inner(),
    {
        &self.inner
    }
}

/// Route builder: each route is tried in the reverse order of addition, and the
/// first service is the fallback.
pub struct Router<S> {
    inner: S,
}

impl Router<NotFound> {
    /// A router that answers `404 Not Found` to every request.
    pub fn new() -> (r: Router<NotFound>)
        ensures
            r.spec_inner() == NotFound,
    {
        Router { inner: NotFound }
    }
}

impl<S> Router<S> {
    pub closed spec fn spec_inner(&self) -> S {
        self.inner
    }

    /// A router with a custom fallback instead of `404 Not Found`.
    pub fn with_fallback(fallback: S) -> (r: Router<S>)
        ensures
            r.spec_inner() == fallback,
    {
        Router { inner: fallback }
    }

    /// Adds a route tried before the ones already there.
    pub fn route<R>(self, matcher: Matcher, route: R) -> (r: Router<Branch<R, S>>)
        ensures
            r.spec_inner().spec_matcher() == matcher,
            r.spec_inner().spec_inner() == route,
            r.spec_inner().spec_fallback() == self.spec_inner(),
    {
        Router { inner: Branch::new(matcher, route, self.inner) }
    }

    /// Attaches a shared value.
    pub fn state<T>(self, state: T) -> (r: Router<State<T, S>>)
        ensures
            r.spec_inner().spec_state() == state,
            r.spec_inner().spec_inner() == self.spec_inner(),
    {
        Router { inner: State::new(state, self.inner) }
    }

    /// The service that handles requests.
    pub fn inner(&self) -> (r: &S)
        ensures
            *r == self.spec_inner(),
    {
        &self.inner
    }
}

/// A service that drives connections with an HTTP service.
#[derive(Clone, Debug)]
pub struct TcpService<S> {
    inner: S,
}

impl<S> TcpService<S> {
    pub closed spec fn spec_inner(&self) -> S {
        self.inner
    }

    pub fn new(inner: S) -> (r: TcpService<S>)
        ensures
            r.spec_inner() == inner,
    {
        TcpService { inner }
    }

    pub fn inner(&self) -> (r: &S)
        ensures
            *r == self.spec_inner(),
    {
        &self.inner
    }
}

/// The tokio runtime, as the one that runs the server.
#[derive(Clone, Copy, Debug)]
pub struct Tokio;

/// An error answered with `400 Bad Request`.
#[derive(Debug)]
pub struct BadRequest<E>(pub E);

impl<E> BadRequest<E> {
    pub fn new(inner: E) -> (r: Self)
        ensures
            r.0 == inner,
    {
        BadRequest(inner)
    }

    /// Converts the error inside.
    pub fn map<T: From<E>>(self) -> (r: BadRequest<T>)
        ensures
            call_ensures(T::from, (self.0,), r.0),
    {
        BadRequest(self.0.into())
    }
}

/// Cross-origin resource sharing headers.
#[derive(Debug)]
pub enum Cors {
    AllowOrigin(String),
    AllowMethod(String),
    AllowHeader(String),
}

impl Cors {
    pub open spec fn spec_header_name(&self) -> Seq<char> {
        match self {
            Cors::AllowOrigin(_) => "Access-Control-Allow-Origin"@,
            Cors::AllowMethod(_) => "Access-Control-Allow-Methods"@,
            Cors::AllowHeader(_) => "Access-Control-Allow-Headers"@,
        }
    }

    /// The name of the header this setting is sent in.
    pub fn header_name(&self) -> (r: &'static str)
        ensures
            r@ == self.spec_header_name(),
    {
        match self {
            Cors::AllowOrigin(_) => {
                proof { reveal_strlit("Access-Control-Allow-Origin"); }
                "Access-Control-Allow-Origin"
            },
            Cors::AllowMethod(_) => {
                proof { reveal_strlit("Access-Control-Allow-Methods"); }
                "Access-Control-Allow-Methods"
            },
            Cors::AllowHeader(_) => {
                proof { reveal_strlit("Access-Control-Allow-Headers"); }
                "Access-Control-Allow-Headers"
            },
        }
    }

    /// The header's value.
    pub fn value(&self) -> (r: &String)
        ensures
            match self {
                Cors::AllowOrigin(v) => *r == v,
                Cors::AllowMethod(v) => *r == v,
                Cors::AllowHeader(v) => *r == v,
            },
    {
        match self {
            Cors::AllowOrigin(v) => v,
            Cors::AllowMethod(v) => v,
            Cors::AllowHeader(v) => v,
        }
    }
}

} // verus!
