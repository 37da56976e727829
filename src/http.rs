//! Methods, protocol versions and status codes.
use vstd::prelude::*;
use crate::text::{ascii, ascii_bytes, eq_ignore_ascii_case, eq_ignore_case};

verus! {

/// HTTP method.
#[allow(non_camel_case_types)]
#[derive(Clone, Copy, Debug, PartialEq, Eq, Structural)]
pub enum Method {
    GET,
    POST,
    PUT,
    PATCH,
    DELETE,
    HEAD,
    CONNECT,
}

impl Method {
    /// The method's token as the wire carries it.
    pub open spec fn spec_name(self) -> Seq<char> {
        match self {
            Method::GET => "GET"@,
            Method::POST => "POST"@,
            Method::PUT => "PUT"@,
            Method::PATCH => "PATCH"@,
            Method::DELETE => "DELETE"@,
            Method::HEAD => "HEAD"@,
            Method::CONNECT => "CONNECT"@,
        }
    }

    /// Returns the string representation.
    pub fn as_str(&self) -> (r: &'static str)
        ensures
            r@ == self.spec_name(),
            vstd::string::is_ascii(r),
    {
        match self {
            Method::GET => { proof { reveal_strlit("GET"); } "GET" },
            Method::POST => { proof { reveal_strlit("POST"); } "POST" },
            Method::PUT => { proof { reveal_strlit("PUT"); } "PUT" },
            Method::PATCH => { proof { reveal_strlit("PATCH"); } "PATCH" },
            Method::DELETE => { proof { reveal_strlit("DELETE"); } "DELETE" },
            Method::HEAD => { proof { reveal_strlit("HEAD"); } "HEAD" },
            Method::CONNECT => { proof { reveal_strlit("CONNECT"); } "CONNECT" },
        }
    }

    /// Returns the token's bytes.
    pub fn as_bytes(&self) -> (r: &'static [u8])
        ensures
            r@ == ascii(self.spec_name()),
    {
        ascii_bytes(self.as_str())
    }
}

/// The method named by a request-line token, compared without regard to ASCII case.
pub open spec fn method_of(tok: Seq<u8>) -> Option<Method> {
    if eq_ignore_case(tok, ascii(Method::GET.spec_name())) {
        Some(Method::GET)
    } else if eq_ignore_case(tok, ascii(Method::POST.spec_name())) {
        Some(Method::POST)
    } else if eq_ignore_case(tok, ascii(Method::PUT.spec_name())) {
        Some(Method::PUT)
    } else if eq_ignore_case(tok, ascii(Method::PATCH.spec_name())) {
        Some(Method::PATCH)
    } else if eq_ignore_case(tok, ascii(Method::DELETE.spec_name())) {
        Some(Method::DELETE)
    } else if eq_ignore_case(tok, ascii(Method::HEAD.spec_name())) {
        Some(Method::HEAD)
    } else if eq_ignore_case(tok, ascii(Method::CONNECT.spec_name())) {
        Some(Method::CONNECT)
    } else {
        None
    }
}

/// Recognises one of the supported methods, without regard to ASCII case.
pub fn method_from_token(tok: &[u8]) -> (r: Option<Method>)
    ensures
        r == method_of(tok@),
{
    if eq_ignore_ascii_case(tok, Method::GET.as_bytes()) {
        Some(Method::GET)
    } else if eq_ignore_ascii_case(tok, Method::POST.as_bytes()) {
        Some(Method::POST)
    } else if eq_ignore_ascii_case(tok, Method::PUT.as_bytes()) {
        Some(Method::PUT)
    } else if eq_ignore_ascii_case(tok, Method::PATCH.as_bytes()) {
        Some(Method::PATCH)
    } else if eq_ignore_ascii_case(tok, Method::DELETE.as_bytes()) {
        Some(Method::DELETE)
    } else if eq_ignore_ascii_case(tok, Method::HEAD.as_bytes()) {
        Some(Method::HEAD)
    } else if eq_ignore_ascii_case(tok, Method::CONNECT.as_bytes()) {
        Some(Method::CONNECT)
    } else {
        None
    }
}

/// HTTP protocol version.
#[derive(Clone, Copy, Debug, PartialEq, Eq, Structural)]
pub enum Version {
    V10,
    V11,
    V2,
}

impl Version {
    pub open spec fn spec_name(self) -> Seq<char> {
        match self {
            Version::V10 => "HTTP/1.0"@,
            Version::V11 => "HTTP/1.1"@,
            Version::V2 => "HTTP/2"@,
        }
    }

    /// Returns string representation.
    pub fn as_str(&self) -> (r: &'static str)
        ensures
            r@ == self.spec_name(),
            vstd::string::is_ascii(r),
    {
        match self {
            Version::V10 => { proof { reveal_strlit("HTTP/1.0"); } "HTTP/1.0" },
            Version::V11 => { proof { reveal_strlit("HTTP/1.1"); } "HTTP/1.1" },
            Version::V2 => { proof { reveal_strlit("HTTP/2"); } "HTTP/2" },
        }
    }

    /// Returns the version token's bytes.
    pub fn as_bytes(&self) -> (r: &'static [u8])
        ensures
            r@ == ascii(self.spec_name()),
    {
        ascii_bytes(self.as_str())
    }
}

/// The version named by a token; it must match exactly.
pub open spec fn version_of(tok: Seq<u8>) -> Option<Version> {
    if tok == ascii(Version::V10.spec_name()) {
        Some(Version::V10)
    } else if tok == ascii(Version::V11.spec_name()) {
        Some(Version::V11)
    } else if tok == ascii(Version::V2.spec_name()) {
        Some(Version::V2)
    } else {
        None
    }
}

/// Compares two byte strings exactly.
pub fn bytes_eq(a: &[u8], b: &[u8]) -> (r: bool)
    ensures
        r == (a@ == b@),
{
    if a.len() != b.len() {
        return false;
    }
    let mut i: usize = 0;
    while i < a.len()
        invariant
            a@.len() == b@.len(),
            i <= a@.len(),
            forall|j: int| 0 <= j < i ==> a@[j] == b@[j],
        decreases a@.len() - i,
    {
        if a[i] != b[i] {
            return false;
        }
        i += 1;
    }
    assert(a@ =~= b@);
    true
}

/// Recognises `HTTP/1.0`, `HTTP/1.1` or `HTTP/2`.
pub fn version_from_token(tok: &[u8]) -> (r: Option<Version>)
    ensures
        r == version_of(tok@),
{
    if bytes_eq(tok, Version::V10.as_bytes()) {
        Some(Version::V10)
    } else if bytes_eq(tok, Version::V11.as_bytes()) {
        Some(Version::V11)
    } else if bytes_eq(tok, Version::V2.as_bytes()) {
        Some(Version::V2)
    } else {
        None
    }
}

/// The status this library knows under a numeric code.
pub open spec fn status_of(code: nat) -> Option<StatusCode> {
    if code == 200 {
        Some(StatusCode::OK)
    } else if code == 400 {
        Some(StatusCode::BAD_REQUEST)
    } else if code == 404 {
        Some(StatusCode::NOT_FOUND)
    } else if code == 405 {
        Some(StatusCode::METHOD_NOT_ALLOWED)
    } else if code == 500 {
        Some(StatusCode::INTERNAL_SERVER_ERROR)
    } else {
        None
    }
}

/// HTTP status code.
#[allow(non_camel_case_types)]
#[derive(Clone, Copy, Debug, PartialEq, Eq, Structural)]
pub enum StatusCode {
    OK,
    BAD_REQUEST,
    NOT_FOUND,
    METHOD_NOT_ALLOWED,
    INTERNAL_SERVER_ERROR,
}

impl StatusCode {
    pub open spec fn spec_code(self) -> u16 {
        match self {
            StatusCode::OK => 200,
            StatusCode::BAD_REQUEST => 400,
            StatusCode::NOT_FOUND => 404,
            StatusCode::METHOD_NOT_ALLOWED => 405,
            StatusCode::INTERNAL_SERVER_ERROR => 500,
        }
    }

    /// The status code and its reason, e.g. `200 OK`.
    pub open spec fn spec_line(self) -> Seq<char> {
        match self {
            StatusCode::OK => "200 OK"@,
            StatusCode::BAD_REQUEST => "400 Bad Request"@,
            StatusCode::NOT_FOUND => "404 Not Found"@,
            StatusCode::METHOD_NOT_ALLOWED => "405 Method Not Allowed"@,
            StatusCode::INTERNAL_SERVER_ERROR => "500 Internal Server Error"@,
        }
    }

    /// The reason phrase, e.g. `OK`.
    pub open spec fn spec_message(self) -> Seq<char> {
        match self {
            StatusCode::OK => "OK"@,
            StatusCode::BAD_REQUEST => "Bad Request"@,
            StatusCode::NOT_FOUND => "Not Found"@,
            StatusCode::METHOD_NOT_ALLOWED => "Method Not Allowed"@,
            StatusCode::INTERNAL_SERVER_ERROR => "Internal Server Error"@,
        }
    }

    /// The code as text, e.g. `200`.
    pub open spec fn spec_status_str(self) -> Seq<char> {
        match self {
            StatusCode::OK => "200"@,
            StatusCode::BAD_REQUEST => "400"@,
            StatusCode::NOT_FOUND => "404"@,
            StatusCode::METHOD_NOT_ALLOWED => "405"@,
            StatusCode::INTERNAL_SERVER_ERROR => "500"@,
        }
    }

    /// Returns status message, e.g: `"OK"`.
    pub fn message(&self) -> (r: &'static str)
        ensures
            r@ == self.spec_message(),
            self.spec_line() == self.spec_status_str() + seq![' '] + r@,
    {
        proof {
            reveal_strlit("200 OK");
            reveal_strlit("400 Bad Request");
            reveal_strlit("404 Not Found");
            reveal_strlit("405 Method Not Allowed");
            reveal_strlit("500 Internal Server Error");
            reveal_strlit("200");
            reveal_strlit("400");
            reveal_strlit("404");
            reveal_strlit("405");
            reveal_strlit("500");
        }
        match self {
            StatusCode::OK => { proof { reveal_strlit("OK"); } let r = "OK"; assert(self.spec_line() =~= self.spec_status_str() + seq![' '] + r@); r },
            StatusCode::BAD_REQUEST => { proof { reveal_strlit("Bad Request"); } let r = "Bad Request"; assert(self.spec_line() =~= self.spec_status_str() + seq![' '] + r@); r },
            StatusCode::NOT_FOUND => { proof { reveal_strlit("Not Found"); } let r = "Not Found"; assert(self.spec_line() =~= self.spec_status_str() + seq![' '] + r@); r },
            StatusCode::METHOD_NOT_ALLOWED => { proof { reveal_strlit("Method Not Allowed"); } let r = "Method Not Allowed"; assert(self.spec_line() =~= self.spec_status_str() + seq![' '] + r@); r },
            StatusCode::INTERNAL_SERVER_ERROR => { proof { reveal_strlit("Internal Server Error"); } let r = "Internal Server Error"; assert(self.spec_line() =~= self.spec_status_str() + seq![' '] + r@); r },
        }
    }

    /// Returns status code as str, e.g: `"200"`.
    pub fn status_str(&self) -> (r: &'static str)
        ensures
            r@ == self.spec_status_str(),
    {
        match self {
            StatusCode::OK => "200",
            StatusCode::BAD_REQUEST => "400",
            StatusCode::NOT_FOUND => "404",
            StatusCode::METHOD_NOT_ALLOWED => "405",
            StatusCode::INTERNAL_SERVER_ERROR => "500",
        }
    }

    /// Returns status code value, e.g: `200`.
    pub fn status(&self) -> (r: u16)
        ensures
            r == self.spec_code(),
    {
        match self {
            StatusCode::OK => 200,
            StatusCode::BAD_REQUEST => 400,
            StatusCode::NOT_FOUND => 404,
            StatusCode::METHOD_NOT_ALLOWED => 405,
            StatusCode::INTERNAL_SERVER_ERROR => 500,
        }
    }

    /// The status with the given numeric code, if it is one this library knows.
    pub fn from_code(code: u16) -> (r: Option<StatusCode>)
        ensures
            r == status_of(code as nat),
            r matches Some(s) ==> s.spec_code() == code,
    {
        if code == 200 {
            Some(StatusCode::OK)
        } else if code == 400 {
            Some(StatusCode::BAD_REQUEST)
        } else if code == 404 {
            Some(StatusCode::NOT_FOUND)
        } else if code == 405 {
            Some(StatusCode::METHOD_NOT_ALLOWED)
        } else if code == 500 {
            Some(StatusCode::INTERNAL_SERVER_ERROR)
        } else {
            None
        }
    }

    /// Returns status code and message as string slice, e.g: `"200 OK"`.
    pub fn as_str(&self) -> (r: &'static str)
        ensures
            r@ == self.spec_line(),
            vstd::string::is_ascii(r),
    {
        match self {
            StatusCode::OK => { proof { reveal_strlit("200 OK"); } "200 OK" },
            StatusCode::BAD_REQUEST => {
                proof { reveal_strlit("400 Bad Request"); }
                "400 Bad Request"
            },
            StatusCode::NOT_FOUND => { proof { reveal_strlit("404 Not Found"); } "404 Not Found" },
            StatusCode::METHOD_NOT_ALLOWED => {
                proof { reveal_strlit("405 Method Not Allowed"); }
                "405 Method Not Allowed"
            },
            StatusCode::INTERNAL_SERVER_ERROR => {
                proof { reveal_strlit("500 Internal Server Error"); }
                "500 Internal Server Error"
            },
        }
    }

    /// Returns the status line's code and reason as bytes.
    pub fn as_bytes(&self) -> (r: &'static [u8])
        ensures
            r@ == ascii(self.spec_line()),
    {
        ascii_bytes(self.as_str())
    }
}

} // verus!
