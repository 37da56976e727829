//! Ordered header lists with case-insensitive lookup.
use vstd::prelude::*;
use crate::parser::{lemma_find_from, HeaderSpec};
use crate::http::bytes_eq;
use crate::text::{
    ascii, ascii_bytes, eq_ignore_ascii_case, eq_ignore_case, find_bytes, find_from, lower, utf8_str,
};
use vstd::string::StringSliceAdditionalSpecFns;

verus! {

/// Index of the first header at or after `i` whose name equals `q` up to ASCII case.
pub open spec fn find_header(hs: Seq<HeaderSpec>, q: Seq<u8>, i: int) -> Option<int>
    decreases hs.len() - i,
{
    if i < 0 || i >= hs.len() {
        None
    } else if eq_ignore_case(hs[i].0, q) {
        Some(i)
    } else {
        find_header(hs, q, i + 1)
    }
}

/// The value of the first header named `q`, up to ASCII case.
pub open spec fn lookup(hs: Seq<HeaderSpec>, q: Seq<u8>) -> Option<Seq<u8>> {
    match find_header(hs, q, 0) {
        Some(i) => Some(hs[i].1),
        None => None,
    }
}

/// The headers of `hs` whose name is not `q`, up to ASCII case, in order.
pub open spec fn without(hs: Seq<HeaderSpec>, q: Seq<u8>) -> Seq<HeaderSpec>
    decreases hs.len(),
{
    if hs.len() == 0 {
        Seq::empty()
    } else if eq_ignore_case(hs.last().0, q) {
        without(hs.drop_last(), q)
    } else {
        without(hs.drop_last(), q).push(hs.last())
    }
}

/// No header of `without(hs, q)` is named `q`, up to ASCII case.
pub proof fn lemma_without_has_none(hs: Seq<HeaderSpec>, q: Seq<u8>)
    ensures
        forall|i: int| 0 <= i < without(hs, q).len() ==> !eq_ignore_case(#[trigger] without(hs, q)[i].0, q),
    decreases hs.len(),
{
    if hs.len() > 0 {
        lemma_without_has_none(hs.drop_last(), q);
        let r = without(hs.drop_last(), q);
        if !eq_ignore_case(hs.last().0, q) {
            assert forall|i: int| 0 <= i < r.push(hs.last()).len() implies !eq_ignore_case(
                #[trigger] r.push(hs.last())[i].0,
                q,
            ) by {
                if i < r.len() {
                    assert(r.push(hs.last())[i] == r[i]);
                }
            }
        }
    }
}

/// Headers in the order they were added; names keep their bytes and compare
/// without regard to ASCII case.
#[derive(Debug)]
pub struct HeaderMap {
    entries: Vec<(Vec<u8>, Vec<u8>)>,
}

impl HeaderMap {
    pub closed spec fn view(&self) -> Seq<HeaderSpec> {
        Seq::new(self.entries@.len(), |i: int| (self.entries@[i].0@, self.entries@[i].1@))
    }

    /// An empty header list.
    pub fn new() -> (r: Self)
        ensures
            r@ == Seq::<HeaderSpec>::empty(),
    {
        let r = HeaderMap { entries: Vec::new() };
        assert(r@ =~= Seq::<HeaderSpec>::empty());
        r
    }

    /// Number of headers.
    pub fn len(&self) -> (r: usize)
        ensures
            r == self@.len(),
    {
        self.entries.len()
    }

    /// The name and value at index `i`.
    pub fn entry(&self, i: usize) -> (r: (&[u8], &[u8]))
        requires
            i < self@.len(),
        ensures
            r.0@ == self@[i as int].0,
            r.1@ == self@[i as int].1,
    {
        let e = &self.entries[i];
        (e.0.as_slice(), e.1.as_slice())
    }

    /// Adds a header at the end, whatever the headers already there.
    pub fn append(&mut self, name: Vec<u8>, value: Vec<u8>)
        ensures
            final(self)@ == old(self)@.push((name@, value@)),
    {
        self.entries.push((name, value));
        assert(final(self)@ =~= old(self)@.push((name@, value@)));
    }

    /// Index of the first header named `name`, up to ASCII case.
    pub fn position(&self, name: &[u8]) -> (r: Option<usize>)
        ensures
            r matches Some(i) ==> i < self@.len(),
            match r {
                Some(i) => find_header(self@, name@, 0) == Some(i as int),
                None => find_header(self@, name@, 0) is None,
            },
    {
        let mut i: usize = 0;
        while i < self.entries.len()
            invariant
                i <= self@.len(),
                self@.len() == self.entries@.len(),
                find_header(self@, name@, 0) == find_header(self@, name@, i as int),
            decreases self@.len() - i,
        {
            assert(self@[i as int].0 == self.entries@[i as int].0@);
            if eq_ignore_ascii_case(self.entries[i].0.as_slice(), name) {
                return Some(i);
            }
            i += 1;
        }
        None
    }

    /// The value of the first header named `name`, up to ASCII case.
    pub fn get(&self, name: &[u8]) -> (r: Option<&[u8]>)
        ensures
            match r {
                Some(v) => lookup(self@, name@) == Some(v@),
                None => lookup(self@, name@) is None,
            },
    {
        match self.position(name) {
            Some(i) => Some(self.entries[i].1.as_slice()),
            None => None,
        }
    }

    /// Removes every header named `name`, up to ASCII case; the others keep their order.
    pub fn remove_all(&mut self, name: &[u8])
        ensures
            final(self)@ == without(old(self)@, name@),
    {
        let mut kept: Vec<(Vec<u8>, Vec<u8>)> = Vec::new();
        let n = self.entries.len();
        let mut i: usize = 0;
        while i < n
            invariant
                n == self.entries@.len(),
                n == self@.len(),
                i <= n,
                self@ == old(self)@,
                Seq::new(kept@.len(), |j: int| (kept@[j].0@, kept@[j].1@)) == without(
                    self@.subrange(0, i as int),
                    name@,
                ),
            decreases n - i,
        {
            let ghost before = Seq::new(kept@.len(), |j: int| (kept@[j].0@, kept@[j].1@));
            assert(self@.subrange(0, i + 1).drop_last() =~= self@.subrange(0, i as int));
            assert(self@[i as int] == (self.entries@[i as int].0@, self.entries@[i as int].1@));
            if !eq_ignore_ascii_case(self.entries[i].0.as_slice(), name) {
                let k = self.entries[i].0.clone();
                let v = self.entries[i].1.clone();
                kept.push((k, v));
                assert(Seq::new(kept@.len(), |j: int| (kept@[j].0@, kept@[j].1@)) =~= before.push(
                    self@[i as int],
                ));
            }
            i += 1;
        }
        assert(self@.subrange(0, n as int) =~= self@);
        self.entries = kept;
    }

    /// Sets the header `name` to `value`: the first header of that name, up to ASCII
    /// case, is replaced in place; without one, the header is added at the end.
    pub fn insert(&mut self, name: Vec<u8>, value: Vec<u8>)
        ensures
            match find_header(old(self)@, name@, 0) {
                Some(i) => final(self)@ == old(self)@.update(i, (name@, value@)),
                None => final(self)@ == old(self)@.push((name@, value@)),
            },
    {
        match self.position(name.as_slice()) {
            Some(i) => {
                self.entries.set(i, (name, value));
                assert(final(self)@ =~= old(self)@.update(i as int, (name@, value@)));
            },
            None => {
                self.entries.push((name, value));
                assert(final(self)@ =~= old(self)@.push((name@, value@)));
            },
        }
    }
}

proof fn lemma_eq_ignore_case_trans(a: Seq<u8>, b: Seq<u8>, c: Seq<u8>)
    requires
        eq_ignore_case(a, b),
        eq_ignore_case(b, c),
    ensures
        eq_ignore_case(a, c),
{
    assert forall|i: int| 0 <= i < a.len() implies lower(#[trigger] a[i]) == lower(c[i]) by {
        assert(lower(a[i]) == lower(b[i]));
    }
}

proof fn lemma_eq_ignore_case_sym(a: Seq<u8>, b: Seq<u8>)
    requires
        eq_ignore_case(a, b),
    ensures
        eq_ignore_case(b, a),
{
    assert forall|i: int| 0 <= i < b.len() implies lower(#[trigger] b[i]) == lower(a[i]) by {
        assert(lower(a[i]) == lower(b[i]));
    }
}

/// Lookup ignores ASCII case: when header `i` is the first of its name, up to ASCII
/// case, a lookup by any ASCII-case variant of that name yields its value.
pub proof fn lemma_lookup_ignores_case(hs: Seq<HeaderSpec>, i: int, q: Seq<u8>)
    requires
        0 <= i < hs.len(),
        eq_ignore_case(q, hs[i].0),
        forall|j: int| 0 <= j < i ==> !eq_ignore_case(#[trigger] hs[j].0, hs[i].0),
    ensures
        lookup(hs, q) == Some(hs[i].1),
{
    lemma_eq_ignore_case_sym(q, hs[i].0);
    lemma_find_header_skip(hs, i, q, 0);
}

proof fn lemma_find_header_skip(hs: Seq<HeaderSpec>, i: int, q: Seq<u8>, k: int)
    requires
        0 <= k <= i < hs.len(),
        eq_ignore_case(hs[i].0, q),
        eq_ignore_case(q, hs[i].0),
        forall|j: int| 0 <= j < i ==> !eq_ignore_case(#[trigger] hs[j].0, hs[i].0),
    ensures
        find_header(hs, q, k) == Some(i),
    decreases i - k,
{
    if k < i {
        if eq_ignore_case(hs[k].0, q) {
            lemma_eq_ignore_case_trans(hs[k].0, q, hs[i].0);
            assert(!eq_ignore_case(hs[k].0, hs[i].0));
        }
        lemma_find_header_skip(hs, i, q, k + 1);
    }
}

} // verus!

verus! {

/// `;` followed by space: the separator between the parts of a header value.
pub open spec fn semicolon_space() -> Seq<u8> {
    seq![59u8, 32u8]
}

/// The parts of `s` between the `"; "` separators, in order; there is always at
/// least one, possibly empty.
pub open spec fn segments(s: Seq<u8>) -> Seq<Seq<u8>>
    decreases s.len(),
    via segments_decreases
{
    match find_from(s, semicolon_space(), 0) {
        None => seq![s],
        Some(i) => seq![s.subrange(0, i)] + segments(s.subrange(i + 2, s.len() as int)),
    }
}

#[via_fn]
proof fn segments_decreases(s: Seq<u8>) {
    lemma_find_from(s, semicolon_space(), 0);
}

/// Iterator over the `"; "`-separated parts of a header value.
#[derive(Debug)]
pub struct Sequence {
    value: Vec<u8>,
    pos: usize,
    done: bool,
}

impl Sequence {
    /// The parts not yet returned.
    pub closed spec fn view(&self) -> Seq<Seq<u8>> {
        if self.done {
            Seq::empty()
        } else {
            segments(self.value@.subrange(self.pos as int, self.value@.len() as int))
        }
    }

    pub closed spec fn wf(&self) -> bool {
        self.pos <= self.value@.len()
    }

    /// The parts of `value`.
    pub fn new(value: Vec<u8>) -> (r: Self)
        ensures
            r.wf(),
            r@ == segments(value@),
    {
        let r = Sequence { value, pos: 0, done: false };
        assert(r.value@.subrange(0, r.value@.len() as int) =~= r.value@);
        r
    }

    /// No parts at all.
    pub fn empty() -> (r: Self)
        ensures
            r.wf(),
            r@ == Seq::<Seq<u8>>::empty(),
    {
        Sequence { value: Vec::new(), pos: 0, done: true }
    }

    /// The next part.
    pub fn next(&mut self) -> (r: Option<Vec<u8>>)
        requires
            old(self).wf(),
        ensures
            final(self).wf(),
            old(self)@.len() == 0 ==> r is None && final(self)@ == old(self)@,
            old(self)@.len() > 0 ==> (r matches Some(v) && v@ == old(self)@[0])
                && final(self)@ == old(self)@.drop_first(),
    {
        if self.done {
            return None;
        }
        let n = self.value.len();
        let rest = vstd::slice::slice_subrange(self.value.as_slice(), self.pos, n);
        let ss: [u8; 2] = [59, 32];
        assert(ss@ =~= semicolon_space());
        proof {
            lemma_find_from(rest@, semicolon_space(), 0);
        }
        match find_bytes(rest, ss.as_slice()) {
            None => {
                let part = vstd::slice::slice_to_vec(rest);
                self.done = true;
                Some(part)
            },
            Some(i) => {
                let part = vstd::slice::slice_to_vec(vstd::slice::slice_subrange(rest, 0, i));
                let ghost old_pos = self.pos;
                self.pos = self.pos + i + 2;
                assert(self.value@.subrange(self.pos as int, n as int) =~= rest@.subrange(i + 2, rest@.len() as int));
                assert(segments(rest@).drop_first() =~= segments(rest@.subrange(i + 2, rest@.len() as int)));
                Some(part)
            },
        }
    }
}

/// HTTP header value: raw bytes.
#[derive(Debug)]
pub struct HeaderValue {
    bytes: Vec<u8>,
}

impl HeaderValue {
    pub closed spec fn view(&self) -> Seq<u8> {
        self.bytes@
    }

    /// Create new [`HeaderValue`] from bytes.
    pub fn new(bytes: Vec<u8>) -> (r: Self)
        ensures
            r@ == bytes@,
    {
        HeaderValue { bytes }
    }

    /// Create new [`HeaderValue`] from string.
    pub fn new_str(s: &str) -> (r: Self)
        ensures
            r@ == s.spec_bytes(),
    {
        HeaderValue { bytes: vstd::slice::slice_to_vec(s.as_bytes()) }
    }

    /// The raw bytes.
    pub fn as_bytes(&self) -> (r: &[u8])
        ensures
            r@ == self@,
    {
        self.bytes.as_slice()
    }

    /// The value as text, when it is UTF-8.
    pub fn as_str(&self) -> (r: Option<&str>)
        ensures
            r is Some <==> vstd::utf8::valid_utf8(self@),
            r matches Some(s) ==> s.spec_bytes() == self@,
    {
        utf8_str(self.bytes.as_slice())
    }

    /// The `"; "`-separated parts of the value; none when it is not UTF-8.
    pub fn as_sequence(&self) -> (r: Sequence)
        ensures
            r.wf(),
            vstd::utf8::valid_utf8(self@) ==> r@ == segments(self@),
            !vstd::utf8::valid_utf8(self@) ==> r@ == Seq::<Seq<u8>>::empty(),
    {
        if utf8_str(self.bytes.as_slice()).is_some() {
            Sequence::new(self.bytes.clone())
        } else {
            Sequence::empty()
        }
    }
}

/// HTTP header name: compared without regard to ASCII case.
#[derive(Debug)]
pub struct HeaderName {
    name: Vec<u8>,
}

impl HeaderName {
    pub closed spec fn view(&self) -> Seq<u8> {
        self.name@
    }

    pub closed spec fn wf(&self) -> bool {
        vstd::utf8::valid_utf8(self.name@)
    }

    /// Create new [`HeaderName`].
    pub fn new(name: &str) -> (r: Self)
        ensures
            r.wf(),
            r@ == name.spec_bytes(),
    {
        proof {
            vstd::utf8::encode_utf8_valid_utf8(name@);
        }
        HeaderName { name: vstd::slice::slice_to_vec(name.as_bytes()) }
    }

    pub fn as_str(&self) -> (r: &str)
        requires
            self.wf(),
        ensures
            r.spec_bytes() == self@,
    {
        match utf8_str(self.name.as_slice()) {
            Some(s) => s,
            None => {
                proof {
                    assert(false);
                }
                ""
            },
        }
    }

    /// Whether `other` names the same header.
    pub fn matches(&self, other: &[u8]) -> (r: bool)
        ensures
            r == eq_ignore_case(self@, other@),
    {
        eq_ignore_ascii_case(self.name.as_slice(), other)
    }
}

} // verus!

verus! {

/// The name `content-type`.
pub open spec fn content_type_header() -> Seq<u8> {
    ascii("content-type"@)
}

/// The media type `application/json`.
pub open spec fn json_media_type() -> Seq<u8> {
    ascii("application/json"@)
}

/// The request declares a JSON body: its first `content-type` header, in any ASCII
/// case, is UTF-8 and its first `"; "`-separated part is exactly `application/json`.
pub open spec fn declares_json(hs: Seq<HeaderSpec>) -> bool {
    match lookup(hs, content_type_header()) {
        Some(v) => vstd::utf8::valid_utf8(v) && segments(v)[0] == json_media_type(),
        None => false,
    }
}

proof fn lemma_segments_nonempty(s: Seq<u8>)
    ensures
        segments(s).len() > 0,
{
}

/// Whether the headers declare a JSON body (see [`declares_json`]).
pub fn has_json_content_type(headers: &HeaderMap) -> (r: bool)
    ensures
        r == declares_json(headers@),
{
    let ct = "content-type";
    let json = "application/json";
    proof {
        reveal_strlit("content-type");
        reveal_strlit("application/json");
    }
    let ct = ascii_bytes(ct);
    let json = ascii_bytes(json);
    match headers.get(ct) {
        None => false,
        Some(v) => {
            if utf8_str(v).is_none() {
                return false;
            }
            let mut parts = Sequence::new(vstd::slice::slice_to_vec(v));
            proof {
                lemma_segments_nonempty(v@);
            }
            match parts.next() {
                Some(first) => bytes_eq(first.as_slice(), json),
                None => false,
            }
        },
    }
}

} // verus!
