//! HTTP requests and the reader of their bodies.
use vstd::prelude::*;
use bytes::Bytes;
use crate::buffer::{bytes_bytes, bytes_view};
use crate::conn::concat;
use crate::ext::Extensions;
use crate::headers::HeaderMap;
use crate::http::{Method, Version};
use crate::parser::HeaderSpec;
use crate::text::utf8_str;
use vstd::string::StringSliceAdditionalSpecFns;

verus! {

/// Why a body read failed.
#[derive(Clone, Copy, Debug, PartialEq, Eq, Structural)]
pub enum BodyError {
    /// The whole declared length has been read already, or no more can be read.
    Exhausted,
    /// The peer closed the connection before the declared length arrived.
    Truncated,
}

/// HTTP request body: its declared length, the body bytes that arrived together
/// with the head, and whether the connection can deliver the rest.
#[derive(Debug)]
pub struct Body {
    content_len: usize,
    prefix: Vec<u8>,
    has_io: bool,
}

impl Body {
    pub closed spec fn spec_content_len(&self) -> nat {
        self.content_len as nat
    }

    pub closed spec fn spec_prefix(&self) -> Seq<u8> {
        self.prefix@
    }

    pub closed spec fn spec_has_io(&self) -> bool {
        self.has_io
    }

    pub closed spec fn wf(&self) -> bool {
        self.prefix@.len() <= self.content_len
    }

    /// Create empty [`Body`].
    pub fn empty() -> (r: Self)
        ensures
            r.wf(),
            r.spec_content_len() == 0,
            r.spec_prefix() == Seq::<u8>::empty(),
            !r.spec_has_io(),
    {
        Body { content_len: 0, prefix: Vec::new(), has_io: false }
    }

    /// A body whose bytes are all at hand.
    pub fn exact(data: Vec<u8>) -> (r: Self)
        ensures
            r.wf(),
            r.spec_content_len() == data@.len(),
            r.spec_prefix() == data@,
            !r.spec_has_io(),
    {
        Body { content_len: data.len(), prefix: data, has_io: false }
    }

    /// A body of `content_len` bytes of which `prefix` has arrived already; with
    /// `has_io`, the rest is read from the connection.
    pub fn new(content_len: usize, has_io: bool, prefix: Vec<u8>) -> (r: Self)
        requires
            prefix@.len() <= content_len,
        ensures
            r.wf(),
            r.spec_content_len() == content_len,
            r.spec_prefix() == prefix@,
            r.spec_has_io() == has_io,
    {
        Body { content_len, prefix, has_io }
    }

    /// Returns body length.
    pub fn content_len(&self) -> (r: usize)
        ensures
            r == self.spec_content_len(),
    {
        self.content_len
    }

    /// Remaining content to be read.
    pub fn remaining(&self) -> (r: usize)
        requires
            self.wf(),
        ensures
            r == self.spec_content_len() - self.spec_prefix().len(),
    {
        self.content_len - self.prefix.len()
    }

    /// Returns `true` if there is still more content to be read.
    pub fn is_remaining(&self) -> (r: bool)
        requires
            self.wf(),
        ensures
            r == (self.spec_prefix().len() < self.spec_content_len()),
    {
        self.remaining() != 0
    }

    /// Starts reading the whole body.
    pub fn collect(self) -> (r: Collect)
        requires
            self.wf(),
        ensures
            r.wf(),
            r.spec_content_len() == self.spec_content_len(),
            r.spec_data() == self.spec_prefix(),
            r.spec_has_io() == self.spec_has_io(),
    {
        Collect { buffer: self.prefix, content_len: self.content_len, has_io: self.has_io }
    }
}

/// One read handed to a body of declared length `len` that holds `data`: refused as
/// exhausted when nothing remains or the read goes past the length, as truncated when
/// it is empty (end of stream), else appended.
pub open spec fn feed_step(len: nat, data: Seq<u8>, chunk: Seq<u8>) -> Result<Seq<u8>, BodyError> {
    let rem = len - data.len();
    if rem <= 0 || chunk.len() > rem {
        Err(BodyError::Exhausted)
    } else if chunk.len() == 0 {
        Err(BodyError::Truncated)
    } else {
        Ok(data + chunk)
    }
}

/// Reads handed to a body one after the other, up to the first refused one.
pub open spec fn feed_run(len: nat, data: Seq<u8>, chunks: Seq<Seq<u8>>) -> Result<Seq<u8>, BodyError>
    decreases chunks.len(),
{
    if chunks.len() == 0 {
        Ok(data)
    } else {
        match feed_step(len, data, chunks[0]) {
            Err(e) => Err(e),
            Ok(d) => feed_run(len, d, chunks.drop_first()),
        }
    }
}

proof fn lemma_concat_cons(c: Seq<u8>, rest: Seq<Seq<u8>>)
    ensures
        concat(seq![c] + rest) == c + concat(rest),
    decreases rest.len(),
{
    let s = seq![c] + rest;
    if rest.len() == 0 {
        assert(s.drop_last() =~= Seq::<Seq<u8>>::empty());
        assert(s.last() == c);
        assert(concat(s) == concat(s.drop_last()) + s.last());
        assert(concat(s.drop_last()) == Seq::<u8>::empty());
        assert(concat(s) =~= c + concat(rest));
    } else {
        assert(s.drop_last() =~= seq![c] + rest.drop_last());
        lemma_concat_cons(c, rest.drop_last());
        assert(s.last() == rest.last());
        assert(concat(s) == concat(s.drop_last()) + s.last());
        assert(concat(rest) == concat(rest.drop_last()) + rest.last());
        assert(concat(s) =~= c + concat(rest));
    }
}

/// Collecting a body: when the pre-read prefix and the non-empty reads that follow
/// add up to the declared length, every read is taken, the body is exactly the prefix
/// followed by the reads, of the declared length, and any read after that is refused
/// as exhausted.
pub proof fn lemma_collect_run(len: nat, prefix: Seq<u8>, chunks: Seq<Seq<u8>>)
    requires
        prefix.len() + concat(chunks).len() == len,
        forall|i: int| 0 <= i < chunks.len() ==> (#[trigger] chunks[i]).len() > 0,
    ensures
        feed_run(len, prefix, chunks) == Ok::<Seq<u8>, BodyError>(prefix + concat(chunks)),
        (prefix + concat(chunks)).len() == len,
        forall|more: Seq<u8>| #[trigger] feed_step(len, prefix + concat(chunks), more) == Err::<Seq<u8>, BodyError>(BodyError::Exhausted),
    decreases chunks.len(),
{
    if chunks.len() == 0 {
        assert(prefix + concat(chunks) =~= prefix);
    } else {
        let c = chunks[0];
        let rest = chunks.drop_first();
        assert(chunks =~= seq![c] + rest);
        lemma_concat_cons(c, rest);
        assert forall|i: int| 0 <= i < rest.len() implies (#[trigger] rest[i]).len() > 0 by {
            assert(rest[i] == chunks[i + 1]);
        }
        lemma_collect_run(len, prefix + c, rest);
        assert(prefix + c + concat(rest) =~= prefix + concat(chunks));
    }
}

/// What a body reader needs next.
#[derive(Clone, Copy, Debug, PartialEq, Eq, Structural)]
pub enum CollectStep {
    /// Read at most this many bytes from the connection and hand them to `feed`.
    Read(usize),
    /// The body is complete: take it with `finish`.
    Finish,
    /// The body cannot be completed.
    Fail(BodyError),
}

/// Reading a whole body: the bytes gathered so far, up to the declared length.
#[derive(Debug)]
pub struct Collect {
    buffer: Vec<u8>,
    content_len: usize,
    has_io: bool,
}

impl Collect {
    pub closed spec fn spec_content_len(&self) -> nat {
        self.content_len as nat
    }

    pub closed spec fn spec_data(&self) -> Seq<u8> {
        self.buffer@
    }

    pub closed spec fn spec_has_io(&self) -> bool {
        self.has_io
    }

    pub closed spec fn wf(&self) -> bool {
        self.buffer@.len() <= self.content_len
    }

    /// Bytes still to read.
    pub fn remaining(&self) -> (r: usize)
        requires
            self.wf(),
        ensures
            r == self.spec_content_len() - self.spec_data().len(),
    {
        self.content_len - self.buffer.len()
    }

    /// Returns `true` if there is still more content to be read.
    pub fn is_remaining(&self) -> (r: bool)
        requires
            self.wf(),
        ensures
            r == (self.spec_data().len() < self.spec_content_len()),
    {
        self.remaining() != 0
    }

    /// What to do next: finish once the declared length is in, fail when more is
    /// needed and there is no connection to read it from, else read up to what remains.
    pub fn step(&self) -> (r: CollectStep)
        requires
            self.wf(),
        ensures
            self.spec_data().len() == self.spec_content_len() ==> r == CollectStep::Finish,
            self.spec_data().len() < self.spec_content_len() && !self.spec_has_io() ==> r
                == CollectStep::Fail(BodyError::Exhausted),
            self.spec_data().len() < self.spec_content_len() && self.spec_has_io() ==> r
                == CollectStep::Read((self.spec_content_len() - self.spec_data().len()) as usize),
    {
        let rem = self.remaining();
        if rem == 0 {
            CollectStep::Finish
        } else if !self.has_io {
            CollectStep::Fail(BodyError::Exhausted)
        } else {
            CollectStep::Read(rem)
        }
    }

    /// Takes bytes read from the connection. Empty `data` means the peer closed the
    /// connection: the body is truncated. Once the declared length is in, or when
    /// `data` would go past it, the read is refused as exhausted and nothing is kept.
    pub fn feed(&mut self, data: &[u8]) -> (r: Result<(), BodyError>)
        requires
            old(self).wf(),
        ensures
            final(self).wf(),
            final(self).spec_content_len() == old(self).spec_content_len(),
            final(self).spec_has_io() == old(self).spec_has_io(),
            match feed_step(old(self).spec_content_len(), old(self).spec_data(), data@) {
                Ok(d) => r is Ok && final(self).spec_data() == d,
                Err(e) => r == Err::<(), BodyError>(e) && final(self).spec_data() == old(self).spec_data(),
            },
    {
        let rem = self.remaining();
        if rem == 0 || data.len() > rem {
            return Err(BodyError::Exhausted);
        }
        if data.len() == 0 {
            return Err(BodyError::Truncated);
        }
        let mut i: usize = 0;
        let ghost start = self.buffer@;
        while i < data.len()
            invariant
                i <= data@.len(),
                self.buffer@ == start + data@.subrange(0, i as int),
                self.content_len == old(self).content_len,
                self.has_io == old(self).has_io,
                start == old(self).buffer@,
            decreases data@.len() - i,
        {
            self.buffer.push(data[i]);
            assert(data@.subrange(0, i + 1) =~= data@.subrange(0, i as int).push(data@[i as int]));
            i += 1;
        }
        assert(data@.subrange(0, i as int) =~= data@);
        Ok(())
    }

    /// The whole body, once the declared length is in.
    pub fn finish(self) -> (r: Result<Vec<u8>, BodyError>)
        requires
            self.wf(),
        ensures
            self.spec_data().len() == self.spec_content_len() <==> r is Ok,
            r matches Ok(v) ==> v@ == self.spec_data() && v@.len() == self.spec_content_len(),
            r matches Err(e) ==> e == BodyError::Exhausted,
    {
        if self.buffer.len() == self.content_len {
            Ok(self.buffer)
        } else {
            Err(BodyError::Exhausted)
        }
    }
}

/// A body collected to completion holds exactly the declared number of bytes; after
/// that, every further read is refused as exhausted (see [`Collect::feed`]).
pub proof fn lemma_collect_exact_length(c: Collect)
    requires
        c.wf(),
        c.spec_data().len() >= c.spec_content_len(),
    ensures
        c.spec_data().len() == c.spec_content_len(),
{
}

/// HTTP request parts. The path is a view into the snapshot of the request head.
#[derive(Debug)]
pub struct Parts {
    method: Method,
    path: Bytes,
    version: Version,
    headers: HeaderMap,
    extensions: Extensions,
}

impl Parts {
    pub closed spec fn spec_method(&self) -> Method {
        self.method
    }

    pub closed spec fn spec_path(&self) -> Seq<u8> {
        bytes_view(self.path)
    }

    pub closed spec fn spec_version(&self) -> Version {
        self.version
    }

    pub closed spec fn spec_headers(&self) -> Seq<HeaderSpec> {
        self.headers@
    }

    pub closed spec fn spec_extensions(&self) -> Map<u64, Seq<u8>> {
        self.extensions@
    }

    pub closed spec fn wf(&self) -> bool {
        vstd::utf8::valid_utf8(bytes_view(self.path))
    }

    pub fn new(method: Method, path: Bytes, version: Version, headers: HeaderMap, extensions: Extensions) -> (r: Self)
        requires
            vstd::utf8::valid_utf8(bytes_view(path)),
        ensures
            r.wf(),
            r.spec_method() == method,
            r.spec_path() == bytes_view(path),
            r.spec_version() == version,
            r.spec_headers() == headers@,
    {
        Parts { method, path, version, headers, extensions }
    }

    /// Returns HTTP Method.
    pub fn method(&self) -> (r: Method)
        ensures
            r == self.spec_method(),
    {
        self.method
    }

    /// Returns HTTP Path.
    pub fn path(&self) -> (r: &str)
        requires
            self.wf(),
        ensures
            r.spec_bytes() == self.spec_path(),
    {
        match utf8_str(bytes_bytes(&self.path)) {
            Some(s) => s,
            None => {
                proof {
                    assert(false);
                }
                ""
            },
        }
    }

    /// Returns the bytes of the HTTP path.
    pub fn path_bytes(&self) -> (r: &[u8])
        ensures
            r@ == self.spec_path(),
    {
        bytes_bytes(&self.path)
    }

    /// Returns HTTP Version.
    pub fn version(&self) -> (r: Version)
        ensures
            r == self.spec_version(),
    {
        self.version
    }

    /// Returns HTTP Headers.
    pub fn headers(&self) -> (r: &HeaderMap)
        ensures
            r@ == self.spec_headers(),
    {
        &self.headers
    }

    pub fn extensions(&self) -> (r: &Extensions)
        ensures
            r@ == self.spec_extensions(),
    {
        &self.extensions
    }

    pub fn extensions_mut(&mut self) -> (r: &mut Extensions)
        ensures
            (*r)@ == old(self).spec_extensions(),
            final(self).spec_extensions() == final(r)@,
            final(self).spec_method() == old(self).spec_method(),
            final(self).spec_path() == old(self).spec_path(),
            final(self).spec_version() == old(self).spec_version(),
            final(self).spec_headers() == old(self).spec_headers(),
    {
        &mut self.extensions
    }
}

/// HTTP Request.
#[derive(Debug)]
pub struct Request {
    parts: Parts,
    body: Body,
}

impl Request {
    pub closed spec fn spec_parts(&self) -> &Parts {
        &self.parts
    }

    pub closed spec fn spec_body(&self) -> &Body {
        &self.body
    }

    /// The request's parts.
    pub fn parts(&self) -> (r: &Parts)
        ensures
            *r == *self.spec_parts(),
    {
        &self.parts
    }

    /// Construct request from parts.
    pub fn from_parts(parts: Parts, body: Body) -> (r: Request)
        ensures
            *r.spec_parts() == parts,
            *r.spec_body() == body,
    {
        Request { parts, body }
    }

    /// Destruct request into parts.
    pub fn into_parts(self) -> (r: (Parts, Body))
        ensures
            r.0 == *self.spec_parts(),
            r.1 == *self.spec_body(),
    {
        (self.parts, self.body)
    }

    /// Destruct request into [`Body`].
    pub fn into_body(self) -> (r: Body)
        ensures
            r == *self.spec_body(),
    {
        self.body
    }

    pub fn extensions(&self) -> (r: &Extensions)
        ensures
            r@ == self.spec_parts().spec_extensions(),
    {
        self.parts.extensions()
    }

    pub fn extensions_mut(&mut self) -> (r: &mut Extensions)
        ensures
            (*r)@ == old(self).spec_parts().spec_extensions(),
            final(self).spec_parts().spec_extensions() == final(r)@,
            final(self).spec_parts().spec_method() == old(self).spec_parts().spec_method(),
            final(self).spec_parts().spec_path() == old(self).spec_parts().spec_path(),
            final(self).spec_body() == old(self).spec_body(),
    {
        self.parts.extensions_mut()
    }

    /// Returns HTTP Method.
    pub fn method(&self) -> (r: Method)
        ensures
            r == self.spec_parts().spec_method(),
    {
        self.parts.method()
    }

    /// Returns HTTP Path.
    pub fn path(&self) -> (r: &str)
        requires
            self.spec_parts().wf(),
        ensures
            r.spec_bytes() == self.spec_parts().spec_path(),
    {
        self.parts.path()
    }

    /// Returns HTTP Version.
    pub fn version(&self) -> (r: Version)
        ensures
            r == self.spec_parts().spec_version(),
    {
        self.parts.version()
    }

    /// Returns HTTP Headers.
    pub fn headers(&self) -> (r: &HeaderMap)
        ensures
            r@ == self.spec_parts().spec_headers(),
    {
        self.parts.headers()
    }
}

} // verus!
