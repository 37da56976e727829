//! HTTP responses and their serialisation.
use vstd::prelude::*;
use bytes::BytesMut;
use crate::buffer::{buf_extend, buf_view};
use crate::headers::{lemma_without_has_none, without, HeaderMap};
use crate::http::{status_of, version_from_token, version_of, StatusCode, Version};
use crate::parser::{
    crlf_at, crlf_from, find_crlf, header_lines, lemma_crlf_from, lemma_ws_end, parse_header_lines, HeaderSpec,
};
use crate::text::{
    all_digits, ascii, ascii_bytes, colon_space, crlf, decimal, decimal_value, eq_ignore_case, find_from,
    format_decimal, is_ws, occurs_at, parse_decimal, scan_token, ws_end,
};

verus! {

/// One serialised header line: `name ": " value CRLF`.
pub open spec fn header_line(h: HeaderSpec) -> Seq<u8> {
    h.0 + colon_space() + h.1 + crlf()
}

/// The serialised header lines, in order.
pub open spec fn header_block(hs: Seq<HeaderSpec>) -> Seq<u8>
    decreases hs.len(),
{
    if hs.len() == 0 {
        Seq::empty()
    } else {
        header_block(hs.drop_last()) + header_line(hs.last())
    }
}

/// The serialised response head: status line, header lines, empty line.
pub open spec fn serialize_head(version: Version, status: StatusCode, hs: Seq<HeaderSpec>) -> Seq<u8> {
    ascii(version.spec_name()) + seq![32u8] + ascii(status.spec_line()) + crlf() + header_block(hs)
        + crlf()
}

/// HTTP response parts: version, status and headers.
#[derive(Debug)]
pub struct Parts {
    version: Version,
    status: StatusCode,
    headers: HeaderMap,
}

impl Parts {
    pub closed spec fn spec_version(&self) -> Version {
        self.version
    }

    pub closed spec fn spec_status(&self) -> StatusCode {
        self.status
    }

    pub closed spec fn spec_headers(&self) -> Seq<HeaderSpec> {
        self.headers@
    }

    /// `HTTP/1.1 200 OK` with no headers.
    pub fn new() -> (r: Self)
        ensures
            r.spec_version() == Version::V11,
            r.spec_status() == StatusCode::OK,
            r.spec_headers() == Seq::<HeaderSpec>::empty(),
    {
        Parts { version: Version::V11, status: StatusCode::OK, headers: HeaderMap::new() }
    }

    /// Returns HTTP Version.
    pub fn version(&self) -> (r: Version)
        ensures
            r == self.spec_version(),
    {
        self.version
    }

    /// Returns HTTP Status Code.
    pub fn status(&self) -> (r: StatusCode)
        ensures
            r == self.spec_status(),
    {
        self.status
    }

    /// Replaces the status code.
    pub fn set_status(&mut self, status: StatusCode)
        ensures
            final(self).spec_status() == status,
            final(self).spec_version() == old(self).spec_version(),
            final(self).spec_headers() == old(self).spec_headers(),
    {
        self.status = status;
    }

    /// Replaces the version.
    pub fn set_version(&mut self, version: Version)
        ensures
            final(self).spec_version() == version,
            final(self).spec_status() == old(self).spec_status(),
            final(self).spec_headers() == old(self).spec_headers(),
    {
        self.version = version;
    }

    /// Returns HTTP Headers.
    pub fn headers(&self) -> (r: &HeaderMap)
        ensures
            r@ == self.spec_headers(),
    {
        &self.headers
    }

    /// Returns HTTP Headers for change.
    pub fn headers_mut(&mut self) -> (r: &mut HeaderMap)
        ensures
            (*r)@ == old(self).spec_headers(),
            final(self).spec_headers() == final(r)@,
            final(self).spec_version() == old(self).spec_version(),
            final(self).spec_status() == old(self).spec_status(),
    {
        &mut self.headers
    }
}

/// HTTP response body: bytes held in full.
#[derive(Debug)]
pub struct Body {
    data: Vec<u8>,
}

impl Body {
    pub closed spec fn view(&self) -> Seq<u8> {
        self.data@
    }

    /// Create empty [`Body`].
    pub fn empty() -> (r: Self)
        ensures
            r@ == Seq::<u8>::empty(),
    {
        Body { data: Vec::new() }
    }

    /// Create [`Body`] with given bytes.
    pub fn bytes(data: Vec<u8>) -> (r: Self)
        ensures
            r@ == data@,
    {
        Body { data }
    }

    /// Returns the body length.
    pub fn content_len(&self) -> (r: usize)
        ensures
            r == self@.len(),
    {
        self.data.len()
    }

    /// Returns buffer length.
    pub fn len(&self) -> (r: usize)
        ensures
            r == self@.len(),
    {
        self.data.len()
    }

    /// Returns `true` if buffer is empty.
    pub fn is_empty(&self) -> (r: bool)
        ensures
            r == (self@.len() == 0),
    {
        self.data.len() == 0
    }

    /// Returns `true` if there is nothing left to write.
    pub fn is_end_stream(&self) -> (r: bool)
        ensures
            r == (self@.len() == 0),
    {
        self.data.len() == 0
    }

    /// The bytes, taken out.
    pub fn into_vec(self) -> (r: Vec<u8>)
        ensures
            r@ == self@,
    {
        self.data
    }

    /// The bytes to write.
    pub fn as_slice(&self) -> (r: &[u8])
        ensures
            r@ == self@,
    {
        self.data.as_slice()
    }
}

/// HTTP Response.
#[derive(Debug)]
pub struct Response {
    parts: Parts,
    body: Body,
}

impl Response {
    pub closed spec fn spec_parts(&self) -> &Parts {
        &self.parts
    }

    pub closed spec fn spec_body(&self) -> Seq<u8> {
        self.body@
    }

    /// Construct new response with body: `HTTP/1.1 200 OK`, no headers.
    pub fn new(body: Body) -> (r: Self)
        ensures
            r.spec_parts().spec_version() == Version::V11,
            r.spec_parts().spec_status() == StatusCode::OK,
            r.spec_parts().spec_headers() == Seq::<HeaderSpec>::empty(),
            r.spec_body() == body@,
    {
        Response { parts: Parts::new(), body }
    }

    /// A response with the given status and body and no headers.
    pub fn with_status(status: StatusCode, body: Body) -> (r: Self)
        ensures
            r.spec_parts().spec_version() == Version::V11,
            r.spec_parts().spec_status() == status,
            r.spec_parts().spec_headers() == Seq::<HeaderSpec>::empty(),
            r.spec_body() == body@,
    {
        let mut parts = Parts::new();
        parts.set_status(status);
        Response { parts, body }
    }

    /// Construct response from [`Parts`] and [`Body`].
    pub fn from_parts(parts: Parts, body: Body) -> (r: Response)
        ensures
            *r.spec_parts() == parts,
            r.spec_body() == body@,
    {
        Response { parts, body }
    }

    /// Destruct response into [`Parts`] and [`Body`].
    pub fn into_parts(self) -> (r: (Parts, Body))
        ensures
            r.0 == *self.spec_parts(),
            r.1@ == self.spec_body(),
    {
        (self.parts, self.body)
    }

    /// Consume response into [`Body`].
    pub fn into_body(self) -> (r: Body)
        ensures
            r@ == self.spec_body(),
    {
        self.body
    }

    /// Returns HTTP Version.
    pub fn version(&self) -> (r: Version)
        ensures
            r == self.spec_parts().spec_version(),
    {
        self.parts.version()
    }

    /// Returns HTTP Status Code.
    pub fn status(&self) -> (r: StatusCode)
        ensures
            r == self.spec_parts().spec_status(),
    {
        self.parts.status()
    }

    /// Returns HTTP Headers.
    pub fn headers(&self) -> (r: &HeaderMap)
        ensures
            r@ == self.spec_parts().spec_headers(),
    {
        self.parts.headers()
    }

    /// Returns HTTP Headers for change.
    pub fn headers_mut(&mut self) -> (r: &mut HeaderMap)
        ensures
            (*r)@ == old(self).spec_parts().spec_headers(),
            final(self).spec_parts().spec_headers() == final(r)@,
            final(self).spec_parts().spec_version() == old(self).spec_parts().spec_version(),
            final(self).spec_parts().spec_status() == old(self).spec_parts().spec_status(),
            final(self).spec_body() == old(self).spec_body(),
    {
        self.parts.headers_mut()
    }
}

/// The name `content-length` as `validate` writes it.
pub open spec fn content_length_header() -> Seq<u8> {
    ascii("content-length"@)
}

fn content_length_bytes() -> (r: Vec<u8>)
    ensures
        r@ == content_length_header(),
{
    let s = "content-length";
    proof {
        reveal_strlit("content-length");
    }
    vstd::slice::slice_to_vec(ascii_bytes(s))
}

/// The headers of a response with a body of `len` bytes once `validate` has run:
/// every `content-length` header, in any ASCII case, is gone, and one that holds the
/// decimal length is added at the end.
pub open spec fn validated_headers(hs: Seq<HeaderSpec>, len: nat) -> Seq<HeaderSpec> {
    without(hs, content_length_header()).push((content_length_header(), decimal(len)))
}

/// Everything written to the peer for a response: its validated head, then its body.
pub open spec fn response_bytes(version: Version, status: StatusCode, hs: Seq<HeaderSpec>, body: Seq<u8>) -> Seq<u8> {
    serialize_head(version, status, validated_headers(hs, body.len())) + body
}

/// After `validate` exactly one header is named `content-length`, in any ASCII case:
/// the last one, which holds the decimal length of the body.
pub proof fn lemma_validated_one_content_length(hs: Seq<HeaderSpec>, len: nat)
    ensures
        ({
            let v = validated_headers(hs, len);
            &&& v.len() > 0
            &&& v.last() == (content_length_header(), decimal(len))
            &&& forall|i: int| 0 <= i < v.len() - 1 ==> !eq_ignore_case(#[trigger] v[i].0, content_length_header())
        }),
{
    lemma_without_has_none(hs, content_length_header());
    let w = without(hs, content_length_header());
    let v = validated_headers(hs, len);
    assert forall|i: int| 0 <= i < v.len() - 1 implies !eq_ignore_case(#[trigger] v[i].0, content_length_header()) by {
        assert(v[i] == w[i]);
    }
}

/// Prepares a response for writing: removes every `content-length` header, in any
/// ASCII case, and adds one that holds the decimal length of the body.
pub fn validate(res: &mut Response)
    ensures
        final(res).spec_parts().spec_version() == old(res).spec_parts().spec_version(),
        final(res).spec_parts().spec_status() == old(res).spec_parts().spec_status(),
        final(res).spec_body() == old(res).spec_body(),
        final(res).spec_parts().spec_headers() == validated_headers(
            old(res).spec_parts().spec_headers(),
            old(res).spec_body().len(),
        ),
{
    let len = res.body.content_len();
    let value = format_decimal(len);
    let name = content_length_bytes();
    res.parts.headers.remove_all(name.as_slice());
    res.parts.headers.append(name, value);
}

/// Appends the serialised response head to `out`:
/// `version SP code SP reason CRLF`, then `name ": " value CRLF` for each header in
/// order, then CRLF. Names and values are written as they are.
pub fn write(parts: &Parts, out: &mut BytesMut)
    ensures
        buf_view(*final(out)) == buf_view(*old(out)) + serialize_head(
            parts.spec_version(),
            parts.spec_status(),
            parts.spec_headers(),
        ),
{
    let sp: [u8; 1] = [32];
    let nl: [u8; 2] = [13, 10];
    let cs: [u8; 2] = [58, 32];
    assert(nl@ =~= crlf());
    assert(cs@ =~= colon_space());
    buf_extend(out, parts.version.as_bytes());
    buf_extend(out, sp.as_slice());
    buf_extend(out, parts.status.as_bytes());
    buf_extend(out, nl.as_slice());
    let ghost start = buf_view(*out);
    let hs = &parts.headers;
    let n = hs.len();
    let mut i: usize = 0;
    while i < n
        invariant
            n == hs@.len(),
            i <= n,
            nl@ == crlf(),
            cs@ == colon_space(),
            buf_view(*out) == start + header_block(hs@.subrange(0, i as int)),
        decreases n - i,
    {
        let (k, v) = hs.entry(i);
        buf_extend(out, k);
        buf_extend(out, cs.as_slice());
        buf_extend(out, v);
        buf_extend(out, nl.as_slice());
        assert(hs@.subrange(0, i + 1).drop_last() =~= hs@.subrange(0, i as int));
        assert(buf_view(*out) =~= start + header_block(hs@.subrange(0, i + 1)));
        i += 1;
    }
    buf_extend(out, nl.as_slice());
    assert(hs@.subrange(0, n as int) =~= hs@);
    assert(buf_view(*out) =~= buf_view(*old(out)) + serialize_head(
        parts.spec_version(),
        parts.spec_status(),
        parts.spec_headers(),
    ));
}

} // verus!

verus! {

/// A response head read back: `VERSION SP DDD SP reason CRLF`, header lines, empty
/// line. Gives the version, the status, the headers and the offset past the head.
pub open spec fn response_head(buf: Seq<u8>) -> Option<(Version, StatusCode, Seq<HeaderSpec>, int)> {
    let ve = ws_end(buf, 0);
    if ve + 5 > buf.len() || buf[ve] != 32 || version_of(buf.subrange(0, ve)) is None {
        None
    } else {
        let digits = buf.subrange(ve + 1, ve + 4);
        if !all_digits(digits) || buf[ve + 4] != 32 || status_of(decimal_value(digits)) is None {
            None
        } else {
            match crlf_from(buf, ve + 4) {
                None => None,
                Some(c) => match header_lines(buf, c + 2) {
                    None => None,
                    Some((hs, off)) => Some(
                        (version_of(buf.subrange(0, ve))->0, status_of(decimal_value(digits))->0, hs, off),
                    ),
                },
            }
        }
    }
}

/// A response head read back from bytes.
#[derive(Debug)]
pub struct ResponseHead {
    pub version: Version,
    pub status: StatusCode,
    pub headers: HeaderMap,
    /// Index just past the empty line.
    pub head_len: usize,
}

/// Reads a response head from the start of `buf`, as a client of this server would.
/// Returns `None` when `buf` does not start with a complete, well-formed head.
pub fn parse_response_head(buf: &[u8]) -> (r: Option<ResponseHead>)
    ensures
        match r {
            Some(h) => response_head(buf@) == Some((h.version, h.status, h.headers@, h.head_len as int)),
            None => response_head(buf@) is None,
        },
{
    let ve = scan_token(buf, 0);
    proof {
        lemma_ws_end(buf@, 0);
    }
    if ve >= buf.len() || buf.len() - ve < 5 || buf[ve] != 32 {
        return None;
    }
    let version = match version_from_token(&buf[0..ve]) {
        Some(v) => v,
        None => return None,
    };
    let digits = &buf[ve + 1..ve + 4];
    let code = match parse_decimal(digits) {
        Some(c) => c,
        None => return None,
    };
    if buf[ve + 4] != 32 || code > 999 {
        return None;
    }
    let status = match StatusCode::from_code(code as u16) {
        Some(s) => s,
        None => return None,
    };
    proof {
        lemma_crlf_from(buf@, ve + 4);
    }
    let c = match find_crlf(buf, ve + 4) {
        Some(c) => c,
        None => return None,
    };
    match parse_header_lines(buf, c + 2) {
        None => None,
        Some((headers, off)) => Some(ResponseHead { version, status, headers, head_len: off }),
    }
}

} // verus!

verus! {

/// A header that a round trip keeps: its name holds no `": "`, and neither its name
/// nor its value holds CRLF.
pub open spec fn plain_header(h: HeaderSpec) -> bool {
    &&& forall|t: int| !#[trigger] occurs_at(h.0, colon_space(), t)
    &&& forall|t: int| !#[trigger] crlf_at(h.0, t)
    &&& forall|t: int| !#[trigger] crlf_at(h.1, t)
}

proof fn lemma_find_from_first(hay: Seq<u8>, needle: Seq<u8>, k: int, i: int)
    requires
        0 <= k <= i,
        occurs_at(hay, needle, i),
        forall|j: int| k <= j < i ==> !#[trigger] occurs_at(hay, needle, j),
    ensures
        find_from(hay, needle, k) == Some(i),
    decreases i - k,
{
    if k < i {
        lemma_find_from_first(hay, needle, k + 1, i);
    }
}

proof fn lemma_crlf_from_first(buf: Seq<u8>, s: int, c: int)
    requires
        0 <= s <= c,
        crlf_at(buf, c),
        forall|j: int| s <= j < c ==> !#[trigger] crlf_at(buf, j),
    ensures
        crlf_from(buf, s) == Some(c),
{
    let sub = buf.subrange(s, buf.len() as int);
    assert(sub.subrange(c - s, c - s + 2) =~= crlf());
    assert forall|j: int| 0 <= j < c - s implies !#[trigger] occurs_at(sub, crlf(), j) by {
        if occurs_at(sub, crlf(), j) {
            assert(sub.subrange(j, j + 2)[0] == 13u8);
            assert(sub.subrange(j, j + 2)[1] == 10u8);
            assert(crlf_at(buf, s + j));
        }
    }
    lemma_find_from_first(sub, crlf(), 0, c - s);
}

proof fn lemma_header_block_cons(h: HeaderSpec, rest: Seq<HeaderSpec>)
    ensures
        header_block(seq![h] + rest) == header_line(h) + header_block(rest),
    decreases rest.len(),
{
    let s = seq![h] + rest;
    if rest.len() == 0 {
        assert(s.drop_last() =~= Seq::<HeaderSpec>::empty());
        assert(s.last() == h);
        assert(header_block(Seq::<HeaderSpec>::empty()) + header_line(h) =~= header_line(h) + header_block(rest));
    } else {
        assert(s.drop_last() =~= seq![h] + rest.drop_last());
        assert(s.last() == rest.last());
        lemma_header_block_cons(h, rest.drop_last());
        assert(header_line(h) + header_block(rest.drop_last()) + header_line(rest.last())
            =~= header_line(h) + header_block(rest));
    }
}

proof fn lemma_header_lines_round_trip(buf: Seq<u8>, pos: int, hs: Seq<HeaderSpec>)
    requires
        0 <= pos <= buf.len(),
        buf.subrange(pos, buf.len() as int) == header_block(hs) + crlf(),
        forall|i: int| 0 <= i < hs.len() ==> plain_header(#[trigger] hs[i]),
    ensures
        header_lines(buf, pos) == Some((hs, buf.len() as int)),
    decreases hs.len(),
{
    let w = buf.subrange(pos, buf.len() as int);
    if hs.len() == 0 {
        assert(w =~= crlf());
        assert(w[0] == 13u8 && w[1] == 10u8);
        assert(crlf_at(buf, pos));
        lemma_crlf_from_first(buf, pos, pos);
        assert(hs =~= Seq::<HeaderSpec>::empty());
    } else {
        let h = hs[0];
        let rest = hs.drop_first();
        assert(hs =~= seq![h] + rest);
        lemma_header_block_cons(h, rest);
        assert(plain_header(h));
        let n = h.0;
        let v = h.1;
        let ln = n.len() as int;
        let len = ln + 2 + v.len();
        let tail = header_block(rest) + crlf();
        assert(w =~= n + colon_space() + v + crlf() + tail);
        assert forall|t: int| 0 <= t < ln implies buf[pos + t] == #[trigger] n[t] by {
            assert(w[t] == n[t]);
        }
        assert(buf[pos + ln] == 58u8) by {
            assert(w[ln] == 58u8);
        }
        assert(buf[pos + ln + 1] == 32u8) by {
            assert(w[ln + 1] == 32u8);
        }
        assert forall|u: int| 0 <= u < v.len() implies buf[pos + ln + 2 + u] == #[trigger] v[u] by {
            assert(w[ln + 2 + u] == v[u]);
        }
        assert(buf[pos + len] == 13u8) by {
            assert(w[len] == 13u8);
        }
        assert(buf[pos + len + 1] == 10u8) by {
            assert(w[len + 1] == 10u8);
        }
        assert(crlf_at(buf, pos + len));
        assert forall|j: int| pos <= j < pos + len implies !#[trigger] crlf_at(buf, j) by {
            let t = j - pos;
            if crlf_at(buf, j) {
                if t + 1 < ln {
                    assert(crlf_at(n, t));
                } else if t + 1 == ln {
                } else if t == ln {
                } else if t == ln + 1 {
                } else if t + 1 < len {
                    assert(crlf_at(v, t - ln - 2));
                } else {
                    assert(t == len - 1);
                }
            }
        }
        lemma_crlf_from_first(buf, pos, pos + len);
        let line = buf.subrange(pos, pos + len);
        assert(line =~= n + colon_space() + v);
        assert(line.subrange(ln, ln + 2) =~= colon_space());
        assert forall|j: int| 0 <= j < ln implies !#[trigger] occurs_at(line, colon_space(), j) by {
            if occurs_at(line, colon_space(), j) {
                assert(line.subrange(j, j + 2)[0] == 58u8);
                assert(line.subrange(j, j + 2)[1] == 32u8);
                if j + 1 < ln {
                    assert(n.subrange(j, j + 2) =~= colon_space());
                    assert(occurs_at(n, colon_space(), j));
                } else {
                    assert(line[j + 1] == 58u8);
                }
            }
        }
        lemma_find_from_first(line, colon_space(), 0, ln);
        assert(buf.subrange(pos, pos + ln) =~= n);
        assert(buf.subrange(pos + ln + 2, pos + len) =~= v);
        assert(w.len() == len + 2 + tail.len());
        assert forall|k: int| 0 <= k < tail.len() implies buf[pos + len + 2 + k] == #[trigger] tail[k] by {
            assert(w[len + 2 + k] == tail[k]);
        }
        assert(buf.subrange(pos + len + 2, buf.len() as int) =~= tail);
        assert forall|i: int| 0 <= i < rest.len() implies plain_header(#[trigger] rest[i]) by {
            assert(rest[i] == hs[i + 1]);
        }
        lemma_header_lines_round_trip(buf, pos + len + 2, rest);
        assert(seq![(n, v)] + rest =~= hs);
    }
}

proof fn lemma_version_token(v: Version)
    ensures
        ({
            let vb = ascii(v.spec_name());
            &&& vb.len() >= 1
            &&& forall|i: int| 0 <= i < vb.len() ==> !is_ws(#[trigger] vb[i])
            &&& version_of(vb) == Some(v)
        }),
{
    reveal_strlit("HTTP/1.0");
    reveal_strlit("HTTP/1.1");
    reveal_strlit("HTTP/2");
    let v10 = ascii(Version::V10.spec_name());
    let v11 = ascii(Version::V11.spec_name());
    let v2 = ascii(Version::V2.spec_name());
    assert(v10[7] != v11[7]);
    assert(v10.len() != v2.len());
    assert(v11.len() != v2.len());
}

proof fn lemma_status_line(s: StatusCode)
    ensures
        ({
            let sb = ascii(s.spec_line());
            &&& sb.len() >= 4
            &&& all_digits(sb.subrange(0, 3))
            &&& sb[3] == 32
            &&& status_of(decimal_value(sb.subrange(0, 3))) == Some(s)
            &&& forall|i: int| 0 <= i < sb.len() ==> #[trigger] sb[i] != 13
        }),
{
    reveal_strlit("200 OK");
    reveal_strlit("400 Bad Request");
    reveal_strlit("404 Not Found");
    reveal_strlit("405 Method Not Allowed");
    reveal_strlit("500 Internal Server Error");
    let sb = ascii(s.spec_line());
    let d = sb.subrange(0, 3);
    assert(d.drop_last().drop_last().drop_last() =~= Seq::<u8>::empty());
    assert(decimal_value(d) == decimal_value(d.drop_last()) * 10 + (d[2] - 48) as nat);
    assert(decimal_value(d.drop_last()) == decimal_value(d.drop_last().drop_last()) * 10 + (d[1] - 48) as nat);
    assert(decimal_value(d.drop_last().drop_last()) == decimal_value(d.drop_last().drop_last().drop_last()) * 10 + (d[0] - 48) as nat);
}

/// Serialisation round trip: reading back the head that `write` produces for a
/// version, a status and headers gives the same version, status and headers, in the
/// same order, provided no name holds `": "` and no name or value holds CRLF.
pub proof fn lemma_response_round_trip(version: Version, status: StatusCode, hs: Seq<HeaderSpec>)
    requires
        forall|i: int| 0 <= i < hs.len() ==> plain_header(#[trigger] hs[i]),
    ensures
        response_head(serialize_head(version, status, hs)) == Some(
            (version, status, hs, serialize_head(version, status, hs).len() as int),
        ),
{
    let ser = serialize_head(version, status, hs);
    let vb = ascii(version.spec_name());
    let sb = ascii(status.spec_line());
    lemma_version_token(version);
    lemma_status_line(status);
    let ve = vb.len() as int;
    let st = vb + seq![32u8] + sb + crlf();
    assert(ser =~= st + (header_block(hs) + crlf()));
    assert forall|i: int| 0 <= i < ve implies ser[i] == #[trigger] vb[i] by {
        assert(st[i] == vb[i]);
    }
    assert(ser[ve] == 32u8) by {
        assert(st[ve] == 32u8);
    }
    assert forall|i: int| 0 <= i < sb.len() implies ser[ve + 1 + i] == #[trigger] sb[i] by {
        assert(st[ve + 1 + i] == sb[i]);
    }
    let c = ve + 1 + sb.len();
    assert(ser[c] == 13u8 && ser[c + 1] == 10u8) by {
        assert(st[c] == 13u8 && st[c + 1] == 10u8);
    }
    lemma_ws_end_at(ser, 0, ve);
    assert(ser.subrange(0, ve) =~= vb);
    assert(ser.subrange(ve + 1, ve + 4) =~= sb.subrange(0, 3));
    assert(ser[ve + 4] == sb[3]);
    assert forall|j: int| ve + 4 <= j < c implies !#[trigger] crlf_at(ser, j) by {
        assert(ser[j] == sb[j - ve - 1]);
    }
    lemma_crlf_from_first(ser, ve + 4, c);
    assert(ser.subrange(c + 2, ser.len() as int) =~= header_block(hs) + crlf());
    lemma_header_lines_round_trip(ser, c + 2, hs);
}

proof fn lemma_ws_end_at(buf: Seq<u8>, s: int, e: int)
    requires
        0 <= s <= e < buf.len(),
        forall|i: int| s <= i < e ==> !is_ws(#[trigger] buf[i]),
        is_ws(buf[e]),
    ensures
        ws_end(buf, s) == e,
    decreases e - s,
{
    if s < e {
        lemma_ws_end_at(buf, s + 1, e);
    }
}

} // verus!
