//! The per-connection driver.
//!
//! One `Connection` serves the requests of one socket in turn. It holds the input
//! and output buffers and decides each transition; the caller performs the I/O the
//! returned [`Action`] names and reports back:
//!
//! - `Read`: read from the socket and pass the bytes (none at end of stream) to
//!   [`Connection::on_read`];
//! - `Handle(request)`: run the handler and pass its response to
//!   [`Connection::on_response`];
//! - `Write`: write [`Connection::output`] and then [`Connection::body`] in full, then
//!   call [`Connection::on_written`];
//! - `Close`: the connection is over.
use vstd::prelude::*;
use bytes::BytesMut;
use crate::buffer::{
    buf_bytes, buf_clear, buf_extend, buf_freeze, buf_split_to, buf_try_reclaim, buf_view,
    buf_with_capacity, bytes_slice, bytes_view,
};
use crate::ext::Extensions;
use crate::http::{Method, StatusCode, Version};
use crate::parser::{parse_head, request_head, HeadSpec, HeaderSpec};
use crate::request::{Body as RequestBody, Parts as RequestParts, Request};
use crate::response::{response_bytes, validate, Body as ResponseBody, Response};

verus! {

/// The byte strings of `ss`, one after the other.
pub open spec fn concat(ss: Seq<Seq<u8>>) -> Seq<u8>
    decreases ss.len(),
{
    if ss.len() == 0 {
        Seq::empty()
    } else {
        concat(ss.drop_last()) + ss.last()
    }
}

/// What is written for a request head that cannot be parsed.
pub open spec fn bad_request_bytes() -> Seq<u8> {
    response_bytes(Version::V11, StatusCode::BAD_REQUEST, Seq::empty(), Seq::empty())
}

/// Where the driver stands between two calls.
#[derive(Clone, Copy, Debug, PartialEq, Eq, Structural)]
pub enum Phase {
    /// Needs more input bytes.
    Read,
    /// A request is with the handler.
    Handle,
    /// A response waits to be written.
    Respond,
    /// The connection is over.
    Closed,
}

/// How a connection ended.
#[derive(Clone, Copy, Debug, PartialEq, Eq, Structural)]
pub enum Outcome {
    /// The peer closed the connection between requests.
    Done,
    /// A request head could not be parsed; a `400 Bad Request` was written.
    BadRequest,
}

/// What the caller must do next.
#[derive(Debug)]
pub enum Action {
    Read,
    Handle(Request),
    Write,
    Close(Outcome),
}

/// The state of one connection.
pub struct Connection {
    input: BytesMut,
    output: BytesMut,
    body: Vec<u8>,
    phase: Phase,
    close_after_write: bool,
    sent: Ghost<Seq<u8>>,
    served: Ghost<Seq<Seq<u8>>>,
}

/// The request handed to the handler is the head parsed from `buf`: the body is
/// declared `h.content_length` bytes long and starts with those of them that are
/// already in `buf`.
pub open spec fn request_from(req: Request, h: HeadSpec, buf: Seq<u8>) -> bool {
    let taken = body_prefix_len(h, buf);
    &&& req.spec_parts().wf()
    &&& req.spec_parts().spec_method() == h.method
    &&& req.spec_parts().spec_path() == h.path
    &&& req.spec_parts().spec_version() == h.version
    &&& req.spec_parts().spec_headers() == h.headers
    &&& req.spec_body().wf()
    &&& req.spec_body().spec_content_len() == h.content_length
    &&& req.spec_body().spec_prefix() == buf.subrange(h.body_offset, h.body_offset + taken)
    &&& req.spec_body().spec_has_io()
}

/// How many body bytes of the head `h` are already in `buf`.
pub open spec fn body_prefix_len(h: HeadSpec, buf: Seq<u8>) -> int {
    let avail = buf.len() - h.body_offset;
    if h.content_length < avail {
        h.content_length as int
    } else {
        avail
    }
}

impl Connection {
    pub closed spec fn spec_input(&self) -> Seq<u8> {
        buf_view(self.input)
    }

    pub closed spec fn spec_output(&self) -> Seq<u8> {
        buf_view(self.output)
    }

    pub closed spec fn spec_body(&self) -> Seq<u8> {
        self.body@
    }

    pub closed spec fn spec_phase(&self) -> Phase {
        self.phase
    }

    /// The bytes of the current response still to be written.
    pub closed spec fn spec_pending(&self) -> Seq<u8> {
        buf_view(self.output) + self.body@
    }

    /// Everything written so far.
    pub closed spec fn spec_sent(&self) -> Seq<u8> {
        self.sent@
    }

    /// The bytes of each response produced so far, in order.
    pub closed spec fn spec_served(&self) -> Seq<Seq<u8>> {
        self.served@
    }

    pub closed spec fn spec_close_after_write(&self) -> bool {
        self.close_after_write
    }

    pub closed spec fn wf(&self) -> bool {
        &&& self.phase != Phase::Respond ==> self.spec_pending() == Seq::<u8>::empty()
        &&& self.sent@ + self.spec_pending() == concat(self.served@)
    }

    /// The outcome of parsing `buf`, the input, from `c0` to `c1` returning `r`.
    pub open spec fn parse_step(sent: Seq<u8>, served: Seq<Seq<u8>>, c1: &Connection, buf: Seq<u8>, r: &Action) -> bool {
        &&& c1.wf()
        &&& c1.spec_sent() == sent
        &&& match request_head(buf) {
            Err(_) => {
                &&& *r is Write
                &&& c1.spec_phase() == Phase::Respond
                &&& c1.spec_close_after_write()
                &&& c1.spec_pending() == bad_request_bytes()
                &&& c1.spec_served() == served.push(bad_request_bytes())
            },
            Ok(None) => {
                &&& *r is Read
                &&& c1.spec_phase() == Phase::Read
                &&& c1.spec_input() == buf
                &&& c1.spec_served() == served
            },
            Ok(Some(h)) => {
                &&& *r matches Action::Handle(req) && request_from(req, h, buf)
                &&& c1.spec_phase() == Phase::Handle
                &&& c1.spec_input() == buf.subrange(h.body_offset + body_prefix_len(h, buf), buf.len() as int)
                &&& c1.spec_served() == served
            },
        }
    }

    /// A new connection, waiting for its first bytes.
    pub fn new() -> (r: Self)
        ensures
            r.wf(),
            r.spec_phase() == Phase::Read,
            r.spec_input() == Seq::<u8>::empty(),
            r.spec_sent() == Seq::<u8>::empty(),
            r.spec_served() == Seq::<Seq<u8>>::empty(),
    {
        let r = Connection {
            input: buf_with_capacity(1024),
            output: buf_with_capacity(1024),
            body: Vec::new(),
            phase: Phase::Read,
            close_after_write: false,
            sent: Ghost(Seq::empty()),
            served: Ghost(Seq::empty()),
        };
        assert(r.spec_pending() =~= Seq::<u8>::empty());
        r
    }

    /// Where the driver stands.
    pub fn phase(&self) -> (r: Phase)
        ensures
            r == self.spec_phase(),
    {
        self.phase
    }

    /// The response head to write.
    pub fn output(&self) -> (r: &[u8])
        ensures
            r@ == self.spec_output(),
    {
        buf_bytes(&self.output)
    }

    /// The response body to write after the head.
    pub fn body(&self) -> (r: &[u8])
        ensures
            r@ == self.spec_body(),
            self.spec_output() + r@ == self.spec_pending(),
    {
        self.body.as_slice()
    }

    fn start_response(&mut self, res: Response)
        requires
            old(self).wf(),
            old(self).spec_phase() != Phase::Respond,
        ensures
            final(self).wf(),
            final(self).spec_phase() == Phase::Respond,
            final(self).spec_input() == old(self).spec_input(),
            final(self).spec_sent() == old(self).spec_sent(),
            final(self).spec_close_after_write() == old(self).spec_close_after_write(),
            ({
                let b = response_bytes(
                    res.spec_parts().spec_version(),
                    res.spec_parts().spec_status(),
                    res.spec_parts().spec_headers(),
                    res.spec_body(),
                );
                &&& final(self).spec_pending() == b
                &&& final(self).spec_served() == old(self).spec_served().push(b)
            }),
    {
        let ghost r0 = res;
        let mut res = res;
        validate(&mut res);
        let (parts, body) = res.into_parts();
        crate::response::write(&parts, &mut self.output);
        self.body = body.into_vec();
        let ghost b = response_bytes(
            r0.spec_parts().spec_version(),
            r0.spec_parts().spec_status(),
            r0.spec_parts().spec_headers(),
            r0.spec_body(),
        );
        assert(self.spec_pending() =~= b);
        self.served = Ghost(self.served@.push(b));
        self.phase = Phase::Respond;
        assert(self.served@.drop_last() =~= old(self).served@);
        assert(old(self).spec_pending() =~= Seq::<u8>::empty());
        assert(self.sent@ + self.spec_pending() =~= concat(self.served@));
    }

    fn parse(&mut self) -> (r: Action)
        requires
            old(self).wf(),
            old(self).spec_phase() == Phase::Read,
        ensures
            Self::parse_step(old(self).spec_sent(), old(self).spec_served(), final(self), old(self).spec_input(), &r),
    {
        let ghost buf = buf_view(self.input);
        match parse_head(buf_bytes(&self.input)) {
            Err(_) => {
                let res = Response::with_status(StatusCode::BAD_REQUEST, ResponseBody::empty());
                self.close_after_write = true;
                self.start_response(res);
                Action::Write
            },
            Ok(None) => {
                let _ = buf_try_reclaim(&mut self.input, 1024);
                Action::Read
            },
            Ok(Some(head)) => {
                let ghost h = head.spec_of(buf);
                let head_bytes = buf_freeze(buf_split_to(&mut self.input, head.body_offset));
                let path = bytes_slice(&head_bytes, head.path_start, head.path_end);
                assert(bytes_view(path) =~= buf.subrange(head.path_start as int, head.path_end as int));
                let avail = buf_bytes(&self.input).len();
                let take = if head.content_length < avail {
                    head.content_length
                } else {
                    avail
                };
                let prefix_buf = buf_split_to(&mut self.input, take);
                let prefix = vstd::slice::slice_to_vec(buf_bytes(&prefix_buf));
                assert(prefix@ =~= buf.subrange(head.body_offset as int, head.body_offset + take));
                assert(buf_view(self.input) =~= buf.subrange(head.body_offset + take, buf.len() as int));
                let body = RequestBody::new(head.content_length, true, prefix);
                let parts = RequestParts::new(head.method, path, head.version, head.headers, Extensions::new());
                self.phase = Phase::Handle;
                Action::Handle(Request::from_parts(parts, body))
            },
        }
    }

    /// Takes bytes read from the socket; none means the peer closed the connection.
    ///
    /// At end of stream the connection ends successfully. Otherwise the bytes are
    /// appended to the input and a request head is parsed from it: a malformed head
    /// gets a `400 Bad Request` and the connection ends once it is written; a head not
    /// complete yet asks for more bytes; a complete one becomes the request to handle.
    pub fn on_read(&mut self, data: &[u8]) -> (r: Action)
        requires
            old(self).wf(),
            old(self).spec_phase() == Phase::Read,
        ensures
            data@.len() == 0 ==> {
                &&& r matches Action::Close(o) && o == Outcome::Done
                &&& final(self).wf()
                &&& final(self).spec_phase() == Phase::Closed
                &&& final(self).spec_sent() == old(self).spec_sent()
                &&& final(self).spec_served() == old(self).spec_served()
            },
            data@.len() > 0 ==> Self::parse_step(
                old(self).spec_sent(),
                old(self).spec_served(),
                final(self),
                old(self).spec_input() + data@,
                &r,
            ),
    {
        if data.len() == 0 {
            self.phase = Phase::Closed;
            return Action::Close(Outcome::Done);
        }
        buf_extend(&mut self.input, data);
        self.parse()
    }

    /// Takes the handler's response: validates it and serialises its head for writing.
    pub fn on_response(&mut self, res: Response) -> (r: Action)
        requires
            old(self).wf(),
            old(self).spec_phase() == Phase::Handle,
        ensures
            r is Write,
            final(self).wf(),
            final(self).spec_phase() == Phase::Respond,
            final(self).spec_input() == old(self).spec_input(),
            final(self).spec_sent() == old(self).spec_sent(),
            final(self).spec_close_after_write() == old(self).spec_close_after_write(),
            ({
                let b = response_bytes(
                    res.spec_parts().spec_version(),
                    res.spec_parts().spec_status(),
                    res.spec_parts().spec_headers(),
                    res.spec_body(),
                );
                &&& final(self).spec_pending() == b
                &&& final(self).spec_served() == old(self).spec_served().push(b)
            }),
    {
        self.start_response(res);
        Action::Write
    }

    /// The output and the body have been written in full. The buffers are reset for
    /// the next request; input bytes that follow the last request stay and are parsed
    /// at once. After a `400 Bad Request` the connection ends instead.
    pub fn on_written(&mut self) -> (r: Action)
        requires
            old(self).wf(),
            old(self).spec_phase() == Phase::Respond,
        ensures
            final(self).wf(),
            final(self).spec_sent() == old(self).spec_sent() + old(self).spec_pending(),
            final(self).spec_sent() == concat(old(self).spec_served()),
            old(self).spec_close_after_write() ==> {
                &&& r matches Action::Close(o) && o == Outcome::BadRequest
                &&& final(self).spec_phase() == Phase::Closed
            },
            !old(self).spec_close_after_write() && old(self).spec_input().len() == 0 ==> {
                &&& r is Read
                &&& final(self).spec_phase() == Phase::Read
                &&& final(self).spec_served() == old(self).spec_served()
            },
            !old(self).spec_close_after_write() && old(self).spec_input().len() > 0 ==> Self::parse_step(
                old(self).spec_sent() + old(self).spec_pending(),
                old(self).spec_served(),
                final(self),
                old(self).spec_input(),
                &r,
            ),
    {
        self.sent = Ghost(self.sent@ + self.spec_pending());
        buf_clear(&mut self.output);
        self.body = Vec::new();
        assert(self.spec_pending() =~= Seq::<u8>::empty());
        assert(self.sent@ + self.spec_pending() =~= concat(self.served@));
        if self.close_after_write {
            self.phase = Phase::Closed;
            return Action::Close(Outcome::BadRequest);
        }
        let _ = buf_try_reclaim(&mut self.output, 1024);
        self.phase = Phase::Read;
        if buf_bytes(&self.input).len() == 0 {
            let _ = buf_try_reclaim(&mut self.input, 1024);
            return Action::Read;
        }
        self.parse()
    }
}

/// A complete request: a head that parses, followed by exactly the body length it
/// declares.
pub open spec fn well_formed_request(r: Seq<u8>) -> bool {
    request_head(r) matches Ok(Some(h)) && h.body_offset + h.content_length == r.len()
}

/// Requests sent back to back are served one by one: when the input starts with a
/// complete request, parsing it yields that request with its whole body at hand, and
/// what stays in the input is exactly the bytes that follow it.
pub proof fn lemma_request_then_rest(r: Seq<u8>, rest: Seq<u8>)
    requires
        well_formed_request(r),
    ensures
        request_head(r + rest) == request_head(r),
        ({
            let h = (request_head(r)->Ok_0)->0;
            &&& body_prefix_len(h, r + rest) == h.content_length
            &&& (r + rest).subrange(h.body_offset + body_prefix_len(h, r + rest), (r + rest).len() as int) == rest
            &&& (r + rest).subrange(h.body_offset, h.body_offset + h.content_length) == r.subrange(h.body_offset, r.len() as int)
        }),
{
    crate::parser::lemma_head_decided_stays(r, rest);
    crate::parser::lemma_head_ends_with_one_blank_line(r);
    let h = (request_head(r)->Ok_0)->0;
    assert((r + rest).subrange(r.len() as int, (r + rest).len() as int) =~= rest);
    assert((r + rest).subrange(h.body_offset, h.body_offset + h.content_length) =~= r.subrange(h.body_offset, r.len() as int));
}

/// Responses go out whole and in order: between responses, the bytes written on a
/// connection are the serialised responses it produced, one after the other.
pub proof fn lemma_written_is_responses_in_order(c: &Connection)
    requires
        c.wf(),
        c.spec_phase() != Phase::Respond,
    ensures
        c.spec_sent() == concat(c.spec_served()),
{
    assert(c.spec_sent() + c.spec_pending() =~= c.spec_sent());
}

} // verus!
