//! Parsing of an HTTP/1.x request head from a growing byte buffer.
//!
//! The request line is `METHOD SP PATH SP VERSION ... CRLF`; header lines are
//! `name ": " value CRLF`; an empty line ends the head.
use vstd::prelude::*;
use crate::http::{Method, Version, method_of, version_of, method_from_token, version_from_token};
use crate::headers::HeaderMap;
use crate::text::{
    ascii_bytes, eq_ignore_ascii_case, parse_decimal,
    find_bytes, scan_token, utf8_str,
    all_digits, ascii, colon_space, crlf, decimal_value, eq_ignore_case, find_from, is_ws, occurs_at,
    ws_end,
};

verus! {

/// One header as the wire carries it: name and raw value.
pub type HeaderSpec = (Seq<u8>, Seq<u8>);

/// `buf` holds CRLF at index `j`.
pub open spec fn crlf_at(buf: Seq<u8>, j: int) -> bool {
    0 <= j && j + 1 < buf.len() && buf[j] == 13 && buf[j + 1] == 10
}

/// The first CRLF at or after `start`, as an absolute index.
pub open spec fn crlf_from(buf: Seq<u8>, start: int) -> Option<int> {
    match find_from(buf.subrange(start, buf.len() as int), crlf(), 0) {
        Some(k) => Some(start + k),
        None => None,
    }
}

/// The request line of `buf`: `Err` when it is malformed, `Ok(None)` while more bytes
/// are needed, else the method, the path's bounds, the version and the offset of the
/// first header byte.
pub open spec fn request_line(buf: Seq<u8>) -> Result<Option<(Method, int, int, Version, int)>, ()> {
    let m_end = ws_end(buf, 0);
    if m_end >= buf.len() {
        Ok(None)
    } else if buf[m_end] != 32 || method_of(buf.subrange(0, m_end)) is None {
        Err(())
    } else {
        let ps = m_end + 1;
        let pe = ws_end(buf, ps);
        if pe >= buf.len() {
            Ok(None)
        } else if buf[pe] != 32 || pe == ps || !vstd::utf8::valid_utf8(buf.subrange(ps, pe)) {
            Err(())
        } else {
            let vs = pe + 1;
            let ve = ws_end(buf, vs);
            if ve >= buf.len() {
                Ok(None)
            } else if version_of(buf.subrange(vs, ve)) is None {
                Err(())
            } else {
                match crlf_from(buf, ve) {
                    None => Ok(None),
                    Some(c) => Ok(
                        Some(
                            (
                                method_of(buf.subrange(0, m_end))->0,
                                ps,
                                pe,
                                version_of(buf.subrange(vs, ve))->0,
                                c + 2,
                            ),
                        ),
                    ),
                }
            }
        }
    }
}

/// The header lines of `buf` from `pos` on, and the offset just past the empty line
/// that ends them; `None` while that line has not arrived, or when a line has no
/// `": "` separator.
pub open spec fn header_lines(buf: Seq<u8>, pos: int) -> Option<(Seq<HeaderSpec>, int)>
    decreases buf.len() - pos,
    via header_lines_decreases
{
    if pos < 0 || pos > buf.len() {
        None
    } else {
        match crlf_from(buf, pos) {
            None => None,
            Some(c) => if c == pos {
                Some((Seq::empty(), c + 2))
            } else {
                match find_from(buf.subrange(pos, c), colon_space(), 0) {
                    None => None,
                    Some(s) => match header_lines(buf, c + 2) {
                        None => None,
                        Some(rest) => Some(
                            (
                                seq![(buf.subrange(pos, pos + s), buf.subrange(pos + s + 2, c))]
                                    + rest.0,
                                rest.1,
                            ),
                        ),
                    },
                }
            },
        }
    }
}

#[via_fn]
proof fn header_lines_decreases(buf: Seq<u8>, pos: int) {
    if 0 <= pos <= buf.len() {
        lemma_find_from(buf.subrange(pos, buf.len() as int), crlf(), 0);
    }
}

/// The name is `content-length`, in any ASCII case.
pub open spec fn is_content_length(name: Seq<u8>) -> bool {
    eq_ignore_case(name, ascii("content-length"@))
}

/// The declared body length of a header list: `None` when some `content-length`
/// value is not a decimal that fits in `usize`, else the last one's value, or 0.
pub open spec fn content_length(hs: Seq<HeaderSpec>) -> Option<nat>
    decreases hs.len(),
{
    if hs.len() == 0 {
        Some(0)
    } else {
        let rest = content_length(hs.drop_last());
        let v = hs.last().1;
        if is_content_length(hs.last().0) {
            if rest is Some && v.len() > 0 && all_digits(v) && decimal_value(v) <= usize::MAX {
                Some(decimal_value(v))
            } else {
                None
            }
        } else {
            rest
        }
    }
}

/// A parsed request head.
pub struct HeadSpec {
    pub method: Method,
    pub path: Seq<u8>,
    pub version: Version,
    pub headers: Seq<HeaderSpec>,
    pub content_length: nat,
    pub body_offset: int,
}

/// The request head at the start of `buf`: `Err` when it is malformed, `Ok(None)`
/// while more bytes are needed.
pub open spec fn request_head(buf: Seq<u8>) -> Result<Option<HeadSpec>, ()> {
    match request_line(buf) {
        Err(()) => Err(()),
        Ok(None) => Ok(None),
        Ok(Some((m, ps, pe, v, h))) => match header_lines(buf, h) {
            None => Ok(None),
            Some((hs, off)) => match content_length(hs) {
                None => Err(()),
                Some(cl) => Ok(
                    Some(
                        HeadSpec {
                            method: m,
                            path: buf.subrange(ps, pe),
                            version: v,
                            headers: hs,
                            content_length: cl,
                            body_offset: off,
                        },
                    ),
                ),
            },
        },
    }
}

// ===== lemmas on searching =====

pub proof fn lemma_find_from(hay: Seq<u8>, needle: Seq<u8>, s: int)
    requires
        0 <= s,
    ensures
        match find_from(hay, needle, s) {
            Some(i) => s <= i && occurs_at(hay, needle, i) && forall|j: int|
                s <= j < i ==> !occurs_at(hay, needle, j),
            None => forall|j: int| s <= j ==> !occurs_at(hay, needle, j),
        },
    decreases hay.len() + 1 - s,
{
    if s + needle.len() > hay.len() {
    } else if occurs_at(hay, needle, s) {
    } else {
        lemma_find_from(hay, needle, s + 1);
    }
}

/// A match found in `hay` is still the first one once bytes are appended.
pub proof fn lemma_find_from_extend(hay: Seq<u8>, e: Seq<u8>, needle: Seq<u8>, s: int)
    requires
        0 <= s,
        find_from(hay, needle, s) is Some,
    ensures
        find_from(hay + e, needle, s) == find_from(hay, needle, s),
    decreases hay.len() + 1 - s,
{
    let he = hay + e;
    if s + needle.len() > hay.len() {
    } else {
        assert(he.subrange(s, s + needle.len()) =~= hay.subrange(s, s + needle.len()));
        if occurs_at(hay, needle, s) {
        } else {
            lemma_find_from_extend(hay, e, needle, s + 1);
        }
    }
}

pub proof fn lemma_ws_end(buf: Seq<u8>, s: int)
    requires
        0 <= s <= buf.len(),
    ensures
        s <= ws_end(buf, s) <= buf.len(),
        forall|i: int| s <= i < ws_end(buf, s) ==> !is_ws(#[trigger] buf[i]),
        ws_end(buf, s) < buf.len() ==> is_ws(buf[ws_end(buf, s)]),
    decreases buf.len() - s,
{
    if s < buf.len() && !is_ws(buf[s]) {
        lemma_ws_end(buf, s + 1);
    }
}

/// The end of a token found in `buf` stays where it is once bytes are appended.
pub proof fn lemma_ws_end_extend(buf: Seq<u8>, e: Seq<u8>, s: int)
    requires
        0 <= s,
        ws_end(buf, s) < buf.len(),
    ensures
        ws_end(buf + e, s) == ws_end(buf, s),
    decreases buf.len() - s,
{
    if !is_ws(buf[s]) {
        lemma_ws_end_extend(buf, e, s + 1);
    }
}

pub proof fn lemma_crlf_from(buf: Seq<u8>, s: int)
    requires
        0 <= s <= buf.len(),
    ensures
        match crlf_from(buf, s) {
            Some(c) => s <= c && crlf_at(buf, c) && forall|j: int|
                s <= j < c ==> !#[trigger] crlf_at(buf, j),
            None => forall|j: int| s <= j ==> !#[trigger] crlf_at(buf, j),
        },
{
    let sub = buf.subrange(s, buf.len() as int);
    lemma_find_from(sub, crlf(), 0);
    match find_from(sub, crlf(), 0) {
        Some(k) => {
            assert(sub.subrange(k, k + 2)[0] == 13);
            assert(sub.subrange(k, k + 2)[1] == 10);
            assert forall|j: int| s <= j < s + k implies !#[trigger] crlf_at(buf, j) by {
                if crlf_at(buf, j) {
                    assert(sub.subrange(j - s, j - s + 2) =~= crlf());
                    assert(occurs_at(sub, crlf(), j - s));
                }
            }
        },
        None => {
            assert forall|j: int| s <= j implies !#[trigger] crlf_at(buf, j) by {
                if crlf_at(buf, j) {
                    assert(sub.subrange(j - s, j - s + 2) =~= crlf());
                    assert(occurs_at(sub, crlf(), j - s));
                }
            }
        },
    }
}

/// A CRLF found in `buf` is still the first one once bytes are appended.
pub proof fn lemma_crlf_from_extend(buf: Seq<u8>, e: Seq<u8>, s: int)
    requires
        0 <= s <= buf.len(),
        crlf_from(buf, s) is Some,
    ensures
        crlf_from(buf + e, s) == crlf_from(buf, s),
{
    let sub = buf.subrange(s, buf.len() as int);
    assert((buf + e).subrange(s, (buf + e).len() as int) =~= sub + e);
    lemma_find_from_extend(sub, e, crlf(), 0);
}

} // verus!

verus! {

/// Why a request head was refused.
#[derive(Clone, Copy, Debug, PartialEq, Eq, Structural)]
pub enum ParseErrorKind {
    /// The method token is not one of the supported methods.
    Method,
    /// The path is empty, not followed by a single space, or not UTF-8.
    Path,
    /// The version token is not `HTTP/1.0`, `HTTP/1.1` or `HTTP/2`.
    Version,
    /// A `content-length` value is not a decimal that fits in `usize`.
    ContentLength,
}

/// Error returned when a request head is malformed.
#[derive(Clone, Copy, Debug, PartialEq, Eq, Structural)]
pub struct ParseError {
    pub kind: ParseErrorKind,
}

impl ParseError {
    pub open spec fn spec_message(&self) -> Seq<char> {
        match self.kind {
            ParseErrorKind::Method => "failed to parse http, unknown method"@,
            ParseErrorKind::Path => "failed to parse http, invalid path"@,
            ParseErrorKind::Version => "failed to parse http, unknown http version"@,
            ParseErrorKind::ContentLength => "failed to parse http, invalid content-length"@,
        }
    }

    /// A short description of what was wrong.
    pub fn message(&self) -> (r: &'static str)
        ensures
            r@ == self.spec_message(),
    {
        match self.kind {
            ParseErrorKind::Method => "failed to parse http, unknown method",
            ParseErrorKind::Path => "failed to parse http, invalid path",
            ParseErrorKind::Version => "failed to parse http, unknown http version",
            ParseErrorKind::ContentLength => "failed to parse http, invalid content-length",
        }
    }
}

/// A complete request line.
#[derive(Clone, Copy, Debug)]
pub struct RequestLine {
    pub method: Method,
    /// Index of the first path byte.
    pub path_start: usize,
    /// Index just past the last path byte.
    pub path_end: usize,
    pub version: Version,
    /// Index of the first header byte, just past the line's CRLF.
    pub header_offset: usize,
}

impl RequestLine {
    pub open spec fn view(self) -> (Method, int, int, Version, int) {
        (self.method, self.path_start as int, self.path_end as int, self.version, self.header_offset as int)
    }
}

/// The first CRLF at or after `start`.
pub(crate) fn find_crlf(buf: &[u8], start: usize) -> (r: Option<usize>)
    requires
        start <= buf@.len(),
    ensures
        match r {
            Some(c) => crlf_from(buf@, start as int) == Some(c as int),
            None => crlf_from(buf@, start as int) is None,
        },
{
    let nl: [u8; 2] = [13, 10];
    let needle = nl.as_slice();
    assert(needle@ =~= crlf());
    let rest = &buf[start..buf.len()];
    proof {
        lemma_find_from(rest@, crlf(), 0);
    }
    match find_bytes(rest, needle) {
        Some(k) => Some(start + k),
        None => None,
    }
}

/// Parses the request line at the start of `buf`.
///
/// Returns `Ok(None)` while more bytes are needed, and an error when the method or
/// version is unknown or the path is malformed.
pub fn parse_request_line(buf: &[u8]) -> (r: Result<Option<RequestLine>, ParseError>)
    ensures
        match r {
            Err(_) => request_line(buf@) is Err,
            Ok(None) => request_line(buf@) == Ok::<_, ()>(None::<(Method, int, int, Version, int)>),
            Ok(Some(l)) => request_line(buf@) == Ok::<_, ()>(Some(l@)),
        },
        r matches Ok(Some(l)) ==> l.path_start <= l.path_end < l.header_offset <= buf@.len(),
{
    let m_end = scan_token(buf, 0);
    proof {
        lemma_ws_end(buf@, 0);
    }
    if m_end >= buf.len() {
        return Ok(None);
    }
    if buf[m_end] != 32 {
        return Err(ParseError { kind: ParseErrorKind::Method });
    }
    let method = match method_from_token(&buf[0..m_end]) {
        Some(m) => m,
        None => return Err(ParseError { kind: ParseErrorKind::Method }),
    };
    let ps = m_end + 1;
    let pe = scan_token(buf, ps);
    proof {
        lemma_ws_end(buf@, ps as int);
    }
    if pe >= buf.len() {
        return Ok(None);
    }
    if buf[pe] != 32 || pe == ps {
        return Err(ParseError { kind: ParseErrorKind::Path });
    }
    if utf8_str(&buf[ps..pe]).is_none() {
        return Err(ParseError { kind: ParseErrorKind::Path });
    }
    let vs = pe + 1;
    let ve = scan_token(buf, vs);
    proof {
        lemma_ws_end(buf@, vs as int);
    }
    if ve >= buf.len() {
        return Ok(None);
    }
    let version = match version_from_token(&buf[vs..ve]) {
        Some(v) => v,
        None => return Err(ParseError { kind: ParseErrorKind::Version }),
    };
    proof {
        lemma_crlf_from(buf@, ve as int);
    }
    match find_crlf(buf, ve) {
        Some(c) => Ok(
            Some(RequestLine { method, path_start: ps, path_end: pe, version, header_offset: c + 2 }),
        ),
        None => Ok(None),
    }
}

/// Iterator over the header lines of a request head.
///
/// Each step takes the next line up to its CRLF and splits it at the first `": "`.
/// An empty line completes the head; a line without separator, or one whose CRLF has
/// not arrived, ends the iteration with the head still incomplete.
pub struct HeaderParser<'a> {
    buf: &'a [u8],
    offset: usize,
    complete: bool,
    done: bool,
}

impl<'a> HeaderParser<'a> {
    pub closed spec fn spec_buf(&self) -> Seq<u8> {
        self.buf@
    }

    pub closed spec fn spec_offset(&self) -> int {
        self.offset as int
    }

    pub closed spec fn spec_complete(&self) -> bool {
        self.complete
    }

    pub closed spec fn spec_done(&self) -> bool {
        self.done
    }

    pub closed spec fn wf(&self) -> bool {
        &&& self.offset <= self.buf@.len()
        &&& self.complete ==> self.done
    }

    /// A parser over the header lines of `buf` that start at index `start`.
    pub fn at(buf: &'a [u8], start: usize) -> (r: Self)
        requires
            start <= buf@.len(),
        ensures
            r.wf(),
            r.spec_buf() == buf@,
            r.spec_offset() == start,
            !r.spec_complete(),
            !r.spec_done(),
    {
        HeaderParser { buf, offset: start, complete: false, done: false }
    }

    /// A parser over the header lines at the start of `buf`.
    pub fn new(buf: &'a [u8]) -> (r: Self)
        ensures
            r.wf(),
            r.spec_buf() == buf@,
            r.spec_offset() == 0,
            !r.spec_complete(),
            !r.spec_done(),
    {
        Self::at(buf, 0)
    }

    /// Offset of the next line; once the head is complete, of the first body byte.
    pub fn offset(&self) -> (r: usize)
        ensures
            r == self.spec_offset(),
    {
        self.offset
    }

    /// The empty line that ends the head has been reached.
    pub fn complete(&self) -> (r: bool)
        ensures
            r == self.spec_complete(),
    {
        self.complete
    }

    /// The next header as (name, value), the value without the separator's space.
    pub fn next(&mut self) -> (r: Option<(Vec<u8>, Vec<u8>)>)
        requires
            old(self).wf(),
        ensures
            final(self).wf(),
            final(self).spec_buf() == old(self).spec_buf(),
            old(self).spec_done() ==> r is None && *final(self) == *old(self),
            !old(self).spec_done() ==> ({
                let buf = old(self).spec_buf();
                let pos = old(self).spec_offset();
                match crlf_from(buf, pos) {
                    None => r is None && final(self).spec_done() && !final(self).spec_complete()
                        && final(self).spec_offset() == pos,
                    Some(c) => if c == pos {
                        &&& r is None
                        &&& final(self).spec_done()
                        &&& final(self).spec_complete()
                        &&& final(self).spec_offset() == c + 2
                    } else {
                        match find_from(buf.subrange(pos, c), colon_space(), 0) {
                            None => r is None && final(self).spec_done() && !final(self).spec_complete()
                                && final(self).spec_offset() == pos,
                            Some(s) => {
                                &&& r matches Some(h) && h.0@ == buf.subrange(pos, pos + s)
                                    && h.1@ == buf.subrange(pos + s + 2, c)
                                &&& !final(self).spec_done()
                                &&& !final(self).spec_complete()
                                &&& final(self).spec_offset() == c + 2
                            },
                        }
                    },
                }
            }),
    {
        if self.done {
            return None;
        }
        proof {
            lemma_crlf_from(self.buf@, self.offset as int);
        }
        let c = match find_crlf(self.buf, self.offset) {
            Some(c) => c,
            None => {
                self.done = true;
                return None;
            },
        };
        let n = self.buf.len();
        assert(crlf_at(self.buf@, c as int));
        if c == self.offset {
            self.complete = true;
            self.done = true;
            self.offset = c + 2;
            return None;
        }
        let line = &self.buf[self.offset..c];
        let cs: [u8; 2] = [58, 32];
        let sep = cs.as_slice();
        assert(sep@ =~= colon_space());
        proof {
            lemma_find_from(line@, colon_space(), 0);
        }
        match find_bytes(line, sep) {
            None => {
                self.done = true;
                None
            },
            Some(s) => {
                let name = vstd::slice::slice_to_vec(&line[0..s]);
                let value = vstd::slice::slice_to_vec(&line[s + 2..line.len()]);
                assert(name@ =~= self.buf@.subrange(self.offset as int, self.offset + s));
                assert(value@ =~= self.buf@.subrange(self.offset + s + 2, c as int));
                self.offset = c + 2;
                Some((name, value))
            },
        }
    }
}

} // verus!

verus! {

/// `hs` put in front of the headers that `r` found.
pub open spec fn prepend(acc: Seq<HeaderSpec>, r: Option<(Seq<HeaderSpec>, int)>) -> Option<(Seq<HeaderSpec>, int)> {
    match r {
        None => None,
        Some((hs, off)) => Some((acc + hs, off)),
    }
}

/// A complete request head, with the path given by its bounds in the parsed buffer.
#[derive(Debug)]
pub struct RequestHead {
    pub method: Method,
    pub path_start: usize,
    pub path_end: usize,
    pub version: Version,
    pub headers: HeaderMap,
    /// The declared body length; 0 when no `content-length` header was sent.
    pub content_length: usize,
    /// Index of the first body byte, just past the empty line.
    pub body_offset: usize,
}

impl RequestHead {
    /// What this head says of the buffer `buf` it was parsed from.
    pub open spec fn spec_of(&self, buf: Seq<u8>) -> HeadSpec {
        HeadSpec {
            method: self.method,
            path: buf.subrange(self.path_start as int, self.path_end as int),
            version: self.version,
            headers: self.headers@,
            content_length: self.content_length as nat,
            body_offset: self.body_offset as int,
        }
    }
}

fn content_length_name() -> (r: &'static [u8])
    ensures
        r@ == ascii("content-length"@),
{
    let s = "content-length";
    proof {
        reveal_strlit("content-length");
    }
    ascii_bytes(s)
}

/// Parses the header lines of `buf` that start at `start`, up to the empty line.
///
/// Returns the headers and the offset just past the empty line, or `None` while that
/// line has not arrived or when a line has no `": "` separator.
pub fn parse_header_lines(buf: &[u8], start: usize) -> (r: Option<(HeaderMap, usize)>)
    requires
        start <= buf@.len(),
    ensures
        match r {
            Some((hs, off)) => header_lines(buf@, start as int) == Some((hs@, off as int)),
            None => header_lines(buf@, start as int) is None,
        },
        r matches Some((hs, off)) ==> start + 2 <= off <= buf@.len(),
{
    let mut parser = HeaderParser::at(buf, start);
    let mut headers = HeaderMap::new();
    loop
        invariant
            start <= buf@.len(),
            parser.wf(),
            parser.spec_buf() == buf@,
            !parser.spec_done(),
            start <= parser.spec_offset(),
            header_lines(buf@, start as int) == prepend(headers@, header_lines(buf@, parser.spec_offset())),
        decreases buf@.len() - parser.spec_offset(),
    {
        let ghost pos = parser.spec_offset();
        proof {
            lemma_crlf_from(buf@, pos);
        }
        match parser.next() {
            Some((k, v)) => {
                let ghost c = crlf_from(buf@, pos)->0;
                let ghost old_headers = headers@;
                assert(header_lines(buf@, pos) == prepend(seq![(k@, v@)], header_lines(buf@, c + 2)));
                headers.append(k, v);
                assert forall|r: Option<(Seq<HeaderSpec>, int)>| prepend(old_headers, #[trigger] prepend(seq![(k@, v@)], r)) == prepend(headers@, r) by {
                    match r {
                        None => {},
                        Some((hs, off)) => {
                            assert(old_headers + (seq![(k@, v@)] + hs) =~= headers@ + hs);
                        },
                    }
                }
            },
            None => {
                if !parser.complete() {
                    return None;
                }
                assert(headers@ + Seq::<HeaderSpec>::empty() =~= headers@);
                return Some((headers, parser.offset()));
            },
        }
    }
}

/// The declared body length of a header list (see [`content_length`]).
pub fn content_length_of(headers: &HeaderMap) -> (r: Option<usize>)
    ensures
        match r {
            Some(n) => content_length(headers@) == Some(n as nat),
            None => content_length(headers@) is None,
        },
{
    let cl_name = content_length_name();
    let mut cl: Option<usize> = Some(0);
    let n = headers.len();
    let mut i: usize = 0;
    while i < n
        invariant
            n == headers@.len(),
            i <= n,
            cl_name@ == ascii("content-length"@),
            content_length(headers@.subrange(0, i as int)) == match cl {
                Some(n) => Some(n as nat),
                None => None::<nat>,
            },
        decreases n - i,
    {
        let (k, v) = headers.entry(i);
        assert(headers@.subrange(0, i + 1).drop_last() =~= headers@.subrange(0, i as int));
        if eq_ignore_ascii_case(k, cl_name) {
            let d = parse_decimal(v);
            cl = match (cl, d) {
                (Some(_), Some(d)) => Some(d),
                _ => None,
            };
        }
        i += 1;
    }
    assert(headers@.subrange(0, n as int) =~= headers@);
    cl
}

/// Parses the request head at the start of `buf`: the request line, then the header
/// lines up to the empty line.
///
/// Returns `Ok(None)` while more bytes are needed, and an error when the request line
/// is malformed or a `content-length` value is not a decimal that fits in `usize`.
pub fn parse_head(buf: &[u8]) -> (r: Result<Option<RequestHead>, ParseError>)
    ensures
        match r {
            Err(_) => request_head(buf@) is Err,
            Ok(None) => request_head(buf@) == Ok::<_, ()>(None::<HeadSpec>),
            Ok(Some(h)) => request_head(buf@) == Ok::<_, ()>(Some(h.spec_of(buf@))),
        },
        r matches Ok(Some(h)) ==> h.path_start <= h.path_end <= h.body_offset <= buf@.len()
            && vstd::utf8::valid_utf8(buf@.subrange(h.path_start as int, h.path_end as int)),
{
    let line = match parse_request_line(buf) {
        Err(e) => return Err(e),
        Ok(None) => return Ok(None),
        Ok(Some(l)) => l,
    };
    let (headers, off) = match parse_header_lines(buf, line.header_offset) {
        None => return Ok(None),
        Some(found) => found,
    };
    match content_length_of(&headers) {
        None => Err(ParseError { kind: ParseErrorKind::ContentLength }),
        Some(n) => Ok(
            Some(
                RequestHead {
                    method: line.method,
                    path_start: line.path_start,
                    path_end: line.path_end,
                    version: line.version,
                    headers,
                    content_length: n,
                    body_offset: off,
                },
            ),
        ),
    }
}

} // verus!

verus! {

/// CRLF CRLF: the end of a line followed by an empty line.
pub open spec fn blank_line() -> Seq<u8> {
    seq![13u8, 10u8, 13u8, 10u8]
}

/// `buf` holds CRLF CRLF at index `j`.
pub open spec fn blank_line_at(buf: Seq<u8>, j: int) -> bool {
    crlf_at(buf, j) && crlf_at(buf, j + 2)
}

proof fn lemma_request_line_crlf(buf: Seq<u8>)
    requires
        request_line(buf) is Ok,
        request_line(buf)->Ok_0 is Some,
    ensures
        ({
            let h = ((request_line(buf)->Ok_0)->0).4;
            &&& 2 <= h <= buf.len()
            &&& 0 <= ((request_line(buf)->Ok_0)->0).1 <= ((request_line(buf)->Ok_0)->0).2 < h
            &&& crlf_at(buf, h - 2)
            &&& forall|j: int| j < h - 2 ==> !#[trigger] crlf_at(buf, j)
        }),
{
    let m_end = ws_end(buf, 0);
    lemma_ws_end(buf, 0);
    let ps = m_end + 1;
    lemma_ws_end(buf, ps);
    let pe = ws_end(buf, ps);
    let vs = pe + 1;
    lemma_ws_end(buf, vs);
    let ve = ws_end(buf, vs);
    lemma_crlf_from(buf, ve);
    let c = crlf_from(buf, ve)->0;
    assert forall|j: int| j < c implies !#[trigger] crlf_at(buf, j) by {
        if crlf_at(buf, j) && j < ve {
            assert(is_ws(buf[j]));
            if j < m_end {
            } else if j == m_end {
            } else if j < pe {
                assert(ps <= j);
            } else if j == pe {
            } else {
                assert(vs <= j < ve);
            }
        }
    }
}

proof fn lemma_header_lines_blank(buf: Seq<u8>, pos: int)
    requires
        2 <= pos,
        crlf_at(buf, pos - 2),
        forall|j: int| j + 4 <= pos ==> !#[trigger] blank_line_at(buf, j),
        header_lines(buf, pos) is Some,
    ensures
        ({
            let off = (header_lines(buf, pos)->0).1;
            &&& pos + 2 <= off <= buf.len()
            &&& blank_line_at(buf, off - 4)
            &&& forall|j: int| j + 4 <= off && #[trigger] blank_line_at(buf, j) ==> j == off - 4
        }),
    decreases buf.len() - pos,
{
    lemma_crlf_from(buf, pos);
    let c = crlf_from(buf, pos)->0;
    if c == pos {
        assert forall|j: int| j + 4 <= pos + 2 && #[trigger] blank_line_at(buf, j) implies j == pos - 2 by {
            if j + 4 > pos && j != pos - 2 {
                assert(j == pos - 3);
            }
        }
    } else {
        assert(!crlf_at(buf, pos));
        assert forall|j: int| j + 4 <= c + 2 implies !#[trigger] blank_line_at(buf, j) by {
            if j + 4 > pos && blank_line_at(buf, j) {
                if j == pos - 3 {
                } else if j == pos - 2 {
                } else if j == pos - 1 {
                } else {
                    assert(pos <= j < c);
                }
            }
        }
        lemma_header_lines_blank(buf, c + 2);
    }
}

/// A complete request head ends with exactly one blank line: the bytes before the
/// body hold CRLF CRLF at their end and nowhere else.
pub proof fn lemma_head_ends_with_one_blank_line(buf: Seq<u8>)
    requires
        request_head(buf) matches Ok(Some(_)),
    ensures
        ({
            let off = (request_head(buf)->Ok_0)->0.body_offset;
            let head = buf.subrange(0, off);
            &&& 4 <= off <= buf.len()
            &&& head.subrange(off - 4, off) == blank_line()
            &&& forall|j: int| #[trigger] occurs_at(head, blank_line(), j) ==> j == off - 4
        }),
{
    lemma_request_line_crlf(buf);
    let h = ((request_line(buf)->Ok_0)->0).4;
    assert forall|j: int| j + 4 <= h implies !#[trigger] blank_line_at(buf, j) by {
        if blank_line_at(buf, j) {
            assert(crlf_at(buf, j));
        }
    }
    lemma_header_lines_blank(buf, h);
    let off = (request_head(buf)->Ok_0)->0.body_offset;
    let head = buf.subrange(0, off);
    let q = blank_line();
    assert(head.subrange(off - 4, off) =~= q);
    assert forall|j: int| #[trigger] occurs_at(head, q, j) implies j == off - 4 by {
        assert(head.subrange(j, j + 4)[0] == 13u8);
        assert(head.subrange(j, j + 4)[1] == 10u8);
        assert(head.subrange(j, j + 4)[2] == 13u8);
        assert(head.subrange(j, j + 4)[3] == 10u8);
        assert(blank_line_at(buf, j));
    }
}

proof fn lemma_request_line_extend(buf: Seq<u8>, e: Seq<u8>)
    requires
        request_line(buf) is Err || request_line(buf)->Ok_0 is Some,
    ensures
        request_line(buf + e) == request_line(buf),
{
    let b2 = buf + e;
    lemma_ws_end(buf, 0);
    let m_end = ws_end(buf, 0);
    lemma_ws_end_extend(buf, e, 0);
    assert(b2.subrange(0, m_end) =~= buf.subrange(0, m_end));
    if buf[m_end] == 32 && method_of(buf.subrange(0, m_end)) is Some {
        let ps = m_end + 1;
        lemma_ws_end(buf, ps);
        let pe = ws_end(buf, ps);
        lemma_ws_end_extend(buf, e, ps);
        assert(b2.subrange(ps, pe) =~= buf.subrange(ps, pe));
        if buf[pe] == 32 && pe != ps && vstd::utf8::valid_utf8(buf.subrange(ps, pe)) {
            let vs = pe + 1;
            lemma_ws_end(buf, vs);
            let ve = ws_end(buf, vs);
            lemma_ws_end_extend(buf, e, vs);
            assert(b2.subrange(vs, ve) =~= buf.subrange(vs, ve));
            if version_of(buf.subrange(vs, ve)) is Some {
                lemma_crlf_from_extend(buf, e, ve);
            }
        }
    }
}

proof fn lemma_header_lines_extend(buf: Seq<u8>, e: Seq<u8>, pos: int)
    requires
        header_lines(buf, pos) is Some,
    ensures
        header_lines(buf + e, pos) == header_lines(buf, pos),
    decreases buf.len() - pos,
{
    let b2 = buf + e;
    lemma_crlf_from(buf, pos);
    lemma_crlf_from_extend(buf, e, pos);
    let c = crlf_from(buf, pos)->0;
    if c != pos {
        assert(b2.subrange(pos, c) =~= buf.subrange(pos, c));
        let s = find_from(buf.subrange(pos, c), colon_space(), 0)->0;
        lemma_find_from(buf.subrange(pos, c), colon_space(), 0);
        assert(b2.subrange(pos, pos + s) =~= buf.subrange(pos, pos + s));
        assert(b2.subrange(pos + s + 2, c) =~= buf.subrange(pos + s + 2, c));
        lemma_header_lines_extend(buf, e, c + 2);
    }
}

/// Once the parser has decided, more bytes do not change its answer: a malformed head
/// stays malformed, and a complete head stays the same complete head.
pub proof fn lemma_head_decided_stays(buf: Seq<u8>, e: Seq<u8>)
    requires
        request_head(buf) is Err || request_head(buf)->Ok_0 is Some,
    ensures
        request_head(buf + e) == request_head(buf),
{
    let b2 = buf + e;
    if request_line(buf) is Err {
        lemma_request_line_extend(buf, e);
    } else {
        lemma_request_line_extend(buf, e);
        let (m, ps, pe, v, h) = (request_line(buf)->Ok_0)->0;
        lemma_header_lines_extend(buf, e, h);
        lemma_request_line_crlf(buf);
        assert(b2.subrange(ps, pe) =~= buf.subrange(ps, pe));
    }
}

/// The parser is monotonic. From an incomplete head, more bytes give an incomplete or
/// complete head, whose body offset lies within the bytes; they give a malformed one
/// only through a byte of the extra part: there is a `k` such that the head is still
/// incomplete with the first `k - 1` extra bytes and malformed with the first `k`.
pub proof fn lemma_parser_monotonic(buf: Seq<u8>, e: Seq<u8>)
    requires
        request_head(buf) == Ok::<_, ()>(None::<HeadSpec>),
    ensures
        request_head(buf + e) matches Ok(Some(hd)) ==> hd.body_offset <= (buf + e).len(),
        request_head(buf + e) is Err ==> exists|k: int|
            0 < k <= e.len() && request_head(buf + e.subrange(0, k - 1)) == Ok::<_, ()>(None::<HeadSpec>)
                && (#[trigger] request_head(buf + e.subrange(0, k))) is Err,
    decreases e.len(),
{
    if request_head(buf + e) matches Ok(Some(hd)) {
        lemma_head_ends_with_one_blank_line(buf + e);
    }
    if request_head(buf + e) is Err {
        if e.len() == 0 {
            assert(buf + e =~= buf);
        } else {
            let e1 = e.drop_last();
            assert(buf + e =~= (buf + e1) + seq![e.last()]);
            lemma_parser_monotonic(buf, e1);
            if request_head(buf + e1) is Err {
                let k = choose|k: int|
                    0 < k <= e1.len() && request_head(buf + e1.subrange(0, k - 1)) == Ok::<_, ()>(None::<HeadSpec>)
                        && (#[trigger] request_head(buf + e1.subrange(0, k))) is Err;
                assert(e1.subrange(0, k - 1) =~= e.subrange(0, k - 1));
                assert(e1.subrange(0, k) =~= e.subrange(0, k));
            } else if request_head(buf + e1)->Ok_0 is Some {
                lemma_head_decided_stays(buf + e1, seq![e.last()]);
            } else {
                assert(e.subrange(0, e.len() - 1) =~= e1);
                assert(e.subrange(0, e.len() as int) =~= e);
            }
        }
    }
}

} // verus!
