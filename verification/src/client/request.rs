//! The requests of RFC 4918, as a client builds them.
use vstd::prelude::*;

use crate::client::auth::{authorization_text, valid_header_text, Auth, AuthV};
use crate::client::error::Error;
use crate::client::headers::{if_text, If, IfConditionV, IfList, IfListV, LockTokenHeader, Overwrite, overwrite_text};
use crate::element::Element;
use crate::elements::activelock::{LockInfo, LockInfoV};
use crate::elements::depth::{depth_text, Depth};
use crate::elements::href::{parse_uri, parsed_uri, UriParts, UriPartsV};
use crate::elements::requests::{PropFind, PropertyUpdate};
use crate::elements::timeout::{timeout_text, Timeout};
use crate::error::ErrorV;
use crate::text::{string_of, text_is};
use crate::quick::written_bytes;
use crate::write::OpV;
use crate::xml::{element_document, IntoXml};

verus! {

/// The media type of every XML request body.
pub const APPLICATION_XML: &'static str = "application/xml; charset=utf-8";

/// A request as a client sends it.
#[derive(Debug, PartialEq)]
pub struct HttpRequest {
    /// The method's name.
    pub method: String,
    /// The URI the request is for.
    pub uri: UriParts,
    /// The headers in order, under lowercase names.
    pub headers: Vec<(String, String)>,
    /// The body.
    pub body: Vec<u8>,
}

pub type Header = (Seq<char>, Seq<char>);

pub open spec fn pairs_of(hs: Seq<(String, String)>) -> Seq<Header> {
    hs.map_values(|h: (String, String)| (h.0@, h.1@))
}

pub struct HttpRequestV {
    pub method: Seq<char>,
    pub uri: UriPartsV,
    pub headers: Seq<Header>,
    pub body: Seq<u8>,
}

impl View for HttpRequest {
    type V = HttpRequestV;

    open spec fn view(&self) -> HttpRequestV {
        HttpRequestV { method: self.method@, uri: self.uri@, headers: pairs_of(self.headers@), body: self.body@ }
    }
}

/// What every request of one call shares: the credentials, the `If`
/// precondition, and the caller's extra headers.
pub struct RequestContext<'a> {
    /// The credentials, sent as `Authorization`.
    pub auth: &'a Auth,
    /// The `If` precondition of every request (a lock refresh merges its
    /// token into it).
    pub if_header: Option<&'a If>,
    /// Headers set after `Authorization` and `If`, replacing either one
    /// under the same name.
    pub extra: &'a Vec<(String, String)>,
}

pub struct ContextV {
    pub auth: AuthV,
    pub if_header: Option<Seq<IfListV>>,
    pub extra: Seq<Header>,
}

impl<'a> View for RequestContext<'a> {
    type V = ContextV;

    open spec fn view(&self) -> ContextV {
        ContextV {
            auth: self.auth@,
            if_header: match self.if_header {
                Some(c) => Some(c@),
                None => None,
            },
            extra: pairs_of(self.extra@),
        }
    }
}

/// Whether one of the headers is named `name`.
pub open spec fn has_name(hs: Seq<Header>, name: Seq<char>) -> bool {
    exists|i: int| 0 <= i < hs.len() && #[trigger] hs[i].0 == name
}

/// The headers without those whose name one of `names` has.
pub open spec fn without_names(hs: Seq<Header>, names: Seq<Header>) -> Seq<Header>
    decreases hs.len(),
{
    if hs.len() == 0 {
        Seq::empty()
    } else if has_name(names, hs.last().0) {
        without_names(hs.drop_last(), names)
    } else {
        without_names(hs.drop_last(), names).push(hs.last())
    }
}

/// What starting a request gives: the URI and the first headers, or why
/// it cannot start.
pub enum BaseV {
    Ready(UriPartsV, Seq<Header>),
    InvalidUrl(Seq<char>),
    InvalidIf,
}

/// The `Authorization` header, when the credentials give a valid one.
pub open spec fn auth_headers(a: AuthV) -> Seq<Header> {
    match authorization_text(a) {
        Some(t) => if valid_header_text(t) {
            seq![("authorization"@, t)]
        } else {
            Seq::empty()
        },
        None => Seq::empty(),
    }
}

/// How a request starts: the URL is parsed, `Authorization` is set when
/// the credentials give a valid value, then `If` when a precondition with
/// lists is given (it must be a valid header value), then the extra
/// headers replace those two under their names.
pub open spec fn base_spec(c: ContextV, url: Seq<char>) -> BaseV {
    match parsed_uri(url) {
        Err(m) => BaseV::InvalidUrl(m),
        Ok(u) => {
            let auth = auth_headers(c.auth);
            match c.if_header {
                Some(l) => if l.len() == 0 {
                    BaseV::Ready(u, without_names(auth, c.extra) + c.extra)
                } else if valid_header_text(if_text(l)) {
                    BaseV::Ready(u, without_names(auth.push(("if"@, if_text(l))), c.extra) + c.extra)
                } else {
                    BaseV::InvalidIf
                },
                None => BaseV::Ready(u, without_names(auth, c.extra) + c.extra),
            }
        },
    }
}

/// The message of `http::header::InvalidHeaderValue`.
pub open spec fn invalid_header_text() -> Seq<char> {
    "failed to parse header value"@
}

/// A request whose start was `b`, with method `method`, then the headers
/// `more`, and the body `body`.
pub open spec fn built(r: &Result<HttpRequest, Error>, b: BaseV, method: Seq<char>, more: Seq<Header>, body: Seq<u8>) -> bool {
    match b {
        BaseV::InvalidUrl(m) => r matches Err(Error::InvalidUrl(x)) && x@ == m,
        BaseV::InvalidIf => r matches Err(Error::InvalidHeader(x)) && x@ == invalid_header_text(),
        BaseV::Ready(u, hs) => r matches Ok(q) && q@ == (HttpRequestV { method, uri: u, headers: hs + more, body }),
    }
}

/// Like [`built`], for a request whose body is the document `doc`: its
/// errors are returned, and its bytes are those `quick-xml` writes.
pub open spec fn built_xml(
    r: &Result<HttpRequest, Error>,
    b: BaseV,
    method: Seq<char>,
    more: Seq<Header>,
    doc: Result<Seq<OpV>, ErrorV>,
) -> bool {
    match b {
        BaseV::InvalidUrl(m) => r matches Err(Error::InvalidUrl(x)) && x@ == m,
        BaseV::InvalidIf => r matches Err(Error::InvalidHeader(x)) && x@ == invalid_header_text(),
        BaseV::Ready(u, hs) => match doc {
            Err(e) => r matches Err(Error::Xml(x)) && x@ == e,
            Ok(ops) => r matches Ok(q) && q@ == (HttpRequestV {
                method,
                uri: u,
                headers: hs + more + seq![("content-type"@, APPLICATION_XML@)],
                body: written_bytes(ops),
            }),
        },
    }
}

/// How [`RequestContext::put`] builds a request: the body is sent as
/// it is, under `content_type`, which must be a valid header value.
pub open spec fn put_request(c: ContextV, url: Seq<char>, body: Seq<u8>, content_type: Seq<char>, r: &Result<HttpRequest, Error>) -> bool {
    match base_spec(c, url) {
        BaseV::Ready(_, _) => if valid_header_text(content_type) {
            built(r, base_spec(c, url), "PUT"@, seq![("content-type"@, content_type)], body)
        } else {
            r matches Err(Error::Http(x)) && x@ == invalid_header_text()
        },
        _ => built(r, base_spec(c, url), "PUT"@, Seq::empty(), body),
    }
}

/// How [`RequestContext::copy`] builds a request.
pub open spec fn copy_request(c: ContextV, url: Seq<char>, destination: Seq<char>, depth: Depth, overwrite: Overwrite, r: &Result<HttpRequest, Error>) -> bool {
    &&& depth == Depth::One ==> (r matches Err(Error::InvalidArgument(a)) && a@ == "COPY depth must be 0 or infinity"@)
    &&& depth != Depth::One ==> match parsed_uri(destination) {
        Err(m) => r matches Err(Error::InvalidUrl(x)) && x@ == m,
        Ok(d) => built(r, base_spec(c, url), "COPY"@, seq![
            ("destination"@, d.text),
            ("depth"@, depth_text(depth)),
            ("overwrite"@, overwrite_text(overwrite)),
        ], Seq::empty()),
    }
}

/// How [`RequestContext::mv`] builds a request.
pub open spec fn move_request(c: ContextV, url: Seq<char>, destination: Seq<char>, overwrite: Overwrite, r: &Result<HttpRequest, Error>) -> bool {
    match parsed_uri(destination) {
        Err(m) => r matches Err(Error::InvalidUrl(x)) && x@ == m,
        Ok(d) => built(r, base_spec(c, url), "MOVE"@, seq![
            ("destination"@, d.text),
            ("overwrite"@, overwrite_text(overwrite)),
        ], Seq::empty()),
    }
}

/// How [`RequestContext::lock`] builds a request.
pub open spec fn lock_request(c: ContextV, url: Seq<char>, info: LockInfoV, timeout: Option<Timeout>, depth: Depth, r: &Result<HttpRequest, Error>) -> bool {
    &&& depth == Depth::One ==> (r matches Err(Error::InvalidArgument(a)) && a@ == "LOCK depth must be 0 or infinity"@)
    &&& depth != Depth::One ==> built_xml(
        r,
        base_spec(c, url),
        "LOCK"@,
        seq![("depth"@, depth_text(depth))] + match timeout {
            Some(t) => seq![("timeout"@, timeout_text(t))],
            None => Seq::empty(),
        },
        element_document::<LockInfo>(info),
    )
}

/// How [`RequestContext::refresh_lock`] builds a request.
pub open spec fn refresh_request(c: ContextV, url: Seq<char>, token: Seq<char>, timeout: Option<Timeout>, r: &Result<HttpRequest, Error>) -> bool {
    let cond = match c.if_header {
        Some(l) => l,
        None => Seq::empty(),
    }.push(IfListV { resource: None, conditions: seq![IfConditionV::Token { token: token, not: false }] });
    match base_spec(c, url) {
        BaseV::Ready(u, hs) => if valid_header_text(if_text(cond)) {
            r matches Ok(q) && q@ == (HttpRequestV {
                method: "LOCK"@,
                uri: u,
                headers: without_names(hs, seq![("if"@, Seq::empty())]) + seq![("if"@, if_text(cond))]
                    + match timeout {
                    Some(t) => seq![("timeout"@, timeout_text(t))],
                    None => Seq::empty(),
                },
                body: Seq::empty(),
            })
        } else {
            r matches Err(Error::InvalidHeader(x)) && x@ == invalid_header_text()
        },
        BaseV::InvalidUrl(m) => r matches Err(Error::InvalidUrl(x)) && x@ == m,
        BaseV::InvalidIf => r matches Err(Error::InvalidHeader(x)) && x@ == invalid_header_text(),
    }
}

pub(crate) fn header(name: &str, value: &str) -> (h: (String, String))
    ensures
        h.0@ == name@,
        h.1@ == value@,
{
    (string_of(name), string_of(value))
}

pub(crate) fn push_header(hs: &mut Vec<(String, String)>, name: &str, value: &str)
    ensures
        pairs_of(final(hs)@) == pairs_of(old(hs)@).push((name@, value@)),
{
    hs.push(header(name, value));
    assert(pairs_of(hs@) =~= pairs_of(old(hs)@).push((name@, value@)));
}

pub(crate) fn name_in(hs: &Vec<(String, String)>, name: &str) -> (r: bool)
    ensures
        r == has_name(pairs_of(hs@), name@),
{
    let mut i: usize = 0;
    while i < hs.len()
        invariant
            i <= hs@.len(),
            forall|j: int| 0 <= j < i ==> #[trigger] pairs_of(hs@)[j].0 != name@,
        decreases hs.len() - i,
    {
        if text_is(hs[i].0.as_str(), name) {
            assert(pairs_of(hs@)[i as int].0 == name@);
            return true;
        }
        i = i + 1;
    }
    false
}

/// The headers without those named by one of `names`.
fn keep_unnamed(hs: Vec<(String, String)>, names: &Vec<(String, String)>) -> (r: Vec<(String, String)>)
    ensures
        pairs_of(r@) == without_names(pairs_of(hs@), pairs_of(names@)),
{
    let ghost ps = pairs_of(hs@);
    let ghost es = pairs_of(names@);
    let mut out: Vec<(String, String)> = Vec::new();
    let mut i: usize = 0;
    assert(ps.subrange(0, 0) =~= Seq::<Header>::empty());
    assert(pairs_of(out@) =~= Seq::<Header>::empty());
    while i < hs.len()
        invariant
            i <= hs@.len(),
            ps == pairs_of(hs@),
            es == pairs_of(names@),
            pairs_of(out@) == without_names(ps.subrange(0, i as int), es),
        decreases hs.len() - i,
    {
        assert(ps.subrange(0, i + 1).drop_last() =~= ps.subrange(0, i as int));
        assert(ps.subrange(0, i + 1).last() == ps[i as int]);
        if !name_in(names, hs[i].0.as_str()) {
            let ghost before = out@;
            out.push((hs[i].0.clone(), hs[i].1.clone()));
            assert(pairs_of(out@) =~= pairs_of(before).push(ps[i as int]));
        }
        i = i + 1;
    }
    assert(ps.subrange(0, ps.len() as int) =~= ps);
    out
}

/// The headers, without those named by one of `extra`, then `extra`.
fn finish(hs: Vec<(String, String)>, extra: &Vec<(String, String)>) -> (r: Vec<(String, String)>)
    ensures
        pairs_of(r@) == without_names(pairs_of(hs@), pairs_of(extra@)) + pairs_of(extra@),
{
    let ghost es = pairs_of(extra@);
    let mut out = keep_unnamed(hs, extra);
    let ghost kept = pairs_of(out@);
    let mut k: usize = 0;
    assert(es.subrange(0, 0) =~= Seq::<Header>::empty());
    assert(kept + Seq::<Header>::empty() =~= kept);
    while k < extra.len()
        invariant
            k <= extra@.len(),
            es == pairs_of(extra@),
            pairs_of(out@) == kept + es.subrange(0, k as int),
        decreases extra.len() - k,
    {
        let ghost before = out@;
        out.push((extra[k].0.clone(), extra[k].1.clone()));
        assert(pairs_of(out@) =~= pairs_of(before).push(es[k as int]));
        assert(es.subrange(0, k + 1) =~= es.subrange(0, k as int).push(es[k as int]));
        k = k + 1;
    }
    assert(es.subrange(0, es.len() as int) =~= es);
    out
}

/// The headers `hs` with `name` set to `value`: in place where `hs` has
/// it, else at the end.
pub open spec fn set_header(hs: Seq<Header>, name: Seq<char>, value: Seq<char>) -> Seq<Header> {
    if has_name(hs, name) {
        hs.map_values(|h: Header| if h.0 == name { (name, value) } else { h })
    } else {
        hs.push((name, value))
    }
}

/// Sets the header `name` to `value`: in place where the headers have it,
/// else at the end.
pub fn set_header_value(hs: &mut Vec<(String, String)>, name: &str, value: &str)
    ensures
        pairs_of(final(hs)@) == set_header(pairs_of(old(hs)@), name@, value@),
{
    let ghost before = pairs_of(hs@);
    if !name_in(hs, name) {
        push_header(hs, name, value);
        return;
    }
    let ghost want = before.map_values(|h: Header| if h.0 == name@ { (name@, value@) } else { h });
    let mut i: usize = 0;
    while i < hs.len()
        invariant
            i <= hs@.len(),
            hs@.len() == before.len(),
            want.len() == before.len(),
            want == before.map_values(|h: Header| if h.0 == name@ { (name@, value@) } else { h }),
            forall|j: int| 0 <= j < i ==> ((#[trigger] hs@[j]).0@, hs@[j].1@) == want[j],
            forall|j: int| i <= j < hs@.len() ==> ((#[trigger] hs@[j]).0@, hs@[j].1@) == before[j],
        decreases hs.len() - i,
    {
        assert(want[i as int] == (if before[i as int].0 == name@ { (name@, value@) } else { before[i as int] }));
        if text_is(hs[i].0.as_str(), name) {
            hs.set(i, header(name, value));
        }
        i = i + 1;
    }
    assert(pairs_of(hs@) =~= want);
}

/// Whether `http::HeaderValue::from_str` accepts `text`.
fn valid_value(text: &str) -> (r: bool)
    ensures
        r == valid_header_text(text@),
{
    crate::client::auth::is_valid_header_value(text)
}

/// A started request: its URI and first headers.
struct Started {
    uri: UriParts,
    headers: Vec<(String, String)>,
}

impl<'a> RequestContext<'a> {
    fn base(&self, url: &str) -> (r: Result<Started, Error>)
        ensures
            match base_spec(self@, url@) {
                BaseV::Ready(u, hs) => r matches Ok(s) && s.uri@ == u && pairs_of(s.headers@) == hs,
                BaseV::InvalidUrl(m) => r matches Err(Error::InvalidUrl(x)) && x@ == m,
                BaseV::InvalidIf => r matches Err(Error::InvalidHeader(x)) && x@ == invalid_header_text(),
            },
    {
        let uri = match parse_uri(url) {
            Ok(u) => u,
            Err(m) => return Err(Error::InvalidUrl(m)),
        };
        let mut hs: Vec<(String, String)> = Vec::new();
        match self.auth.header_value() {
            Some(v) => push_header(&mut hs, "authorization", v.as_str()),
            None => {},
        }
        assert(pairs_of(hs@) == auth_headers(self@.auth));
        match self.if_header {
            Some(c) => {
                if !c.is_empty() {
                    let text = c.to_string();
                    if !valid_value(text.as_str()) {
                        return Err(Error::InvalidHeader(string_of("failed to parse header value")));
                    }
                    push_header(&mut hs, "if", text.as_str());
                }
            },
            None => {},
        }
        let headers = finish(hs, self.extra);
        Ok(Started { uri, headers })
    }

    fn empty(s: Started, method: &str) -> (r: HttpRequest)
        ensures
            r@ == (HttpRequestV { method: method@, uri: s.uri@, headers: pairs_of(s.headers@), body: Seq::empty() }),
    {
        let body: Vec<u8> = Vec::new();
        HttpRequest { method: string_of(method), uri: s.uri, headers: s.headers, body }
    }

    fn with_xml<E: Element>(s: Started, method: &str, doc: E) -> (r: Result<HttpRequest, Error>)
        ensures
            match element_document::<E>(doc@) {
                Err(e) => r matches Err(Error::Xml(x)) && x@ == e,
                Ok(ops) => r matches Ok(q) && q@ == (HttpRequestV {
                    method: method@,
                    uri: s.uri@,
                    headers: pairs_of(s.headers@) + seq![("content-type"@, APPLICATION_XML@)],
                    body: written_bytes(ops),
                }),
            },
    {
        let bytes = match doc.into_xml() {
            Ok(b) => b,
            Err(x) => return Err(Error::Xml(x)),
        };
        let ghost before = pairs_of(s.headers@);
        let mut headers = s.headers;
        push_header(&mut headers, "content-type", APPLICATION_XML);
        let q = HttpRequest { method: string_of(method), uri: s.uri, headers, body: bytes };
        assert(q@.headers == before + seq![("content-type"@, APPLICATION_XML@)]) by {
            assert(before.push(("content-type"@, APPLICATION_XML@)) =~= before + seq![("content-type"@, APPLICATION_XML@)]);
        }
        Ok(q)
    }

    /// `OPTIONS`, with no body.
    pub fn options(&self, url: &str) -> (r: Result<HttpRequest, Error>)
        ensures
            built(&r, base_spec(self@, url@), "OPTIONS"@, Seq::empty(), Seq::empty()),
    {
        let s = match self.base(url) {
            Ok(s) => s,
            Err(e) => return Err(e),
        };
        let r = Self::empty(s, "OPTIONS");
        assert(r@.headers =~= r@.headers + Seq::<Header>::empty());
        Ok(r)
    }

    /// `PROPFIND`, with a `Depth` header and a `propfind` body.
    pub fn propfind(&self, url: &str, propfind: PropFind, depth: Depth) -> (r: Result<HttpRequest, Error>)
        ensures
            built_xml(&r, base_spec(self@, url@), "PROPFIND"@, seq![("depth"@, depth_text(depth))], element_document::<PropFind>(propfind@)),
    {
        let mut s = match self.base(url) {
            Ok(s) => s,
            Err(e) => return Err(e),
        };
        let d = depth.to_string();
        push_header(&mut s.headers, "depth", d.as_str());
        let ghost hs = pairs_of(s.headers@);
        let r = Self::with_xml(s, "PROPFIND", propfind);
        proof {
            match base_spec(self@, url@) {
                BaseV::Ready(u, b) => {
                    assert(hs == b + seq![("depth"@, depth_text(depth))]);
                    assert(hs + seq![("content-type"@, APPLICATION_XML@)] =~= b + seq![("depth"@, depth_text(depth))] + seq![("content-type"@, APPLICATION_XML@)]);
                },
                _ => {},
            }
        }
        r
    }

    /// `PROPPATCH`, with a `propertyupdate` body.
    pub fn proppatch(&self, url: &str, update: PropertyUpdate) -> (r: Result<HttpRequest, Error>)
        ensures
            built_xml(&r, base_spec(self@, url@), "PROPPATCH"@, Seq::empty(), element_document::<PropertyUpdate>(update@)),
    {
        let s = match self.base(url) {
            Ok(s) => s,
            Err(e) => return Err(e),
        };
        let ghost hs = pairs_of(s.headers@);
        let r = Self::with_xml(s, "PROPPATCH", update);
        assert(hs + Seq::<Header>::empty() =~= hs);
        r
    }

    /// `MKCOL`, with no body.
    pub fn mkcol(&self, url: &str) -> (r: Result<HttpRequest, Error>)
        ensures
            built(&r, base_spec(self@, url@), "MKCOL"@, Seq::empty(), Seq::empty()),
    {
        let s = match self.base(url) {
            Ok(s) => s,
            Err(e) => return Err(e),
        };
        let r = Self::empty(s, "MKCOL");
        assert(r@.headers =~= r@.headers + Seq::<Header>::empty());
        Ok(r)
    }

    /// `GET`, with no body.
    pub fn get(&self, url: &str) -> (r: Result<HttpRequest, Error>)
        ensures
            built(&r, base_spec(self@, url@), "GET"@, Seq::empty(), Seq::empty()),
    {
        let s = match self.base(url) {
            Ok(s) => s,
            Err(e) => return Err(e),
        };
        let r = Self::empty(s, "GET");
        assert(r@.headers =~= r@.headers + Seq::<Header>::empty());
        Ok(r)
    }

    /// `HEAD`, with no body.
    pub fn head(&self, url: &str) -> (r: Result<HttpRequest, Error>)
        ensures
            built(&r, base_spec(self@, url@), "HEAD"@, Seq::empty(), Seq::empty()),
    {
        let s = match self.base(url) {
            Ok(s) => s,
            Err(e) => return Err(e),
        };
        let r = Self::empty(s, "HEAD");
        assert(r@.headers =~= r@.headers + Seq::<Header>::empty());
        Ok(r)
    }

    /// `PUT`, with `body` sent as it is under `content_type`, which must
    /// be a valid header value.
    pub fn put(&self, url: &str, body: Vec<u8>, content_type: &str) -> (r: Result<HttpRequest, Error>)
        ensures
            put_request(self@, url@, body@, content_type@, &r),
    {
        let mut s = match self.base(url) {
            Ok(s) => s,
            Err(e) => return Err(e),
        };
        if !valid_value(content_type) {
            return Err(Error::Http(string_of("failed to parse header value")));
        }
        push_header(&mut s.headers, "content-type", content_type);
        Ok(HttpRequest { method: string_of("PUT"), uri: s.uri, headers: s.headers, body })
    }

    /// `DELETE`, with no body.
    pub fn delete(&self, url: &str) -> (r: Result<HttpRequest, Error>)
        ensures
            built(&r, base_spec(self@, url@), "DELETE"@, Seq::empty(), Seq::empty()),
    {
        let s = match self.base(url) {
            Ok(s) => s,
            Err(e) => return Err(e),
        };
        let r = Self::empty(s, "DELETE");
        assert(r@.headers =~= r@.headers + Seq::<Header>::empty());
        Ok(r)
    }

    /// `COPY` to `destination`, with no body; a depth of one is not
    /// allowed.
    pub fn copy(&self, url: &str, destination: &str, depth: Depth, overwrite: Overwrite) -> (r: Result<HttpRequest, Error>)
        ensures
            copy_request(self@, url@, destination@, depth, overwrite, &r),
    {
        if depth == Depth::One {
            return Err(Error::InvalidArgument("COPY depth must be 0 or infinity"));
        }
        let dest = match parse_uri(destination) {
            Ok(d) => d,
            Err(m) => return Err(Error::InvalidUrl(m)),
        };
        let mut s = match self.base(url) {
            Ok(s) => s,
            Err(e) => return Err(e),
        };
        let ghost b = pairs_of(s.headers@);
        push_header(&mut s.headers, "destination", dest.text.as_str());
        let d = depth.to_string();
        push_header(&mut s.headers, "depth", d.as_str());
        let o = overwrite.to_string();
        push_header(&mut s.headers, "overwrite", o.as_str());
        let r = Self::empty(s, "COPY");
        assert(r@.headers =~= b + seq![
            ("destination"@, dest@.text),
            ("depth"@, depth_text(depth)),
            ("overwrite"@, overwrite_text(overwrite)),
        ]);
        Ok(r)
    }

    /// `MOVE` to `destination`, with no body and no `Depth` header.
    pub fn mv(&self, url: &str, destination: &str, overwrite: Overwrite) -> (r: Result<HttpRequest, Error>)
        ensures
            move_request(self@, url@, destination@, overwrite, &r),
    {
        let dest = match parse_uri(destination) {
            Ok(d) => d,
            Err(m) => return Err(Error::InvalidUrl(m)),
        };
        let mut s = match self.base(url) {
            Ok(s) => s,
            Err(e) => return Err(e),
        };
        let ghost b = pairs_of(s.headers@);
        push_header(&mut s.headers, "destination", dest.text.as_str());
        let o = overwrite.to_string();
        push_header(&mut s.headers, "overwrite", o.as_str());
        let r = Self::empty(s, "MOVE");
        assert(r@.headers =~= b + seq![("destination"@, dest@.text), ("overwrite"@, overwrite_text(overwrite))]);
        Ok(r)
    }

    /// `LOCK` with a `lockinfo` body, asking for `timeout` when given; a
    /// depth of one is not allowed.
    pub fn lock(&self, url: &str, info: LockInfo, timeout: Option<Timeout>, depth: Depth) -> (r: Result<HttpRequest, Error>)
        ensures
            lock_request(self@, url@, info@, timeout, depth, &r),
    {
        if depth == Depth::One {
            return Err(Error::InvalidArgument("LOCK depth must be 0 or infinity"));
        }
        let mut s = match self.base(url) {
            Ok(s) => s,
            Err(e) => return Err(e),
        };
        let ghost b = pairs_of(s.headers@);
        let d = depth.to_string();
        push_header(&mut s.headers, "depth", d.as_str());
        match timeout {
            Some(t) => {
                let text = t.to_string();
                push_header(&mut s.headers, "timeout", text.as_str());
            },
            None => {},
        }
        let ghost more = seq![("depth"@, depth_text(depth))] + match timeout {
            Some(t) => seq![("timeout"@, timeout_text(t))],
            None => Seq::<Header>::empty(),
        };
        assert(pairs_of(s.headers@) =~= b + more);
        let ghost hs = pairs_of(s.headers@);
        let r = Self::with_xml(s, "LOCK", info);
        assert(hs + seq![("content-type"@, APPLICATION_XML@)] =~= b + more + seq![("content-type"@, APPLICATION_XML@)]);
        r
    }

    /// `LOCK` with no body, to refresh the lock `token`: the `If` header is
    /// the context's precondition with a list requiring the token added (or
    /// that list alone), and it replaces any other `If` header.
    pub fn refresh_lock(&self, url: &str, token: &LockTokenHeader, timeout: Option<Timeout>) -> (r: Result<HttpRequest, Error>)
        ensures
            refresh_request(self@, url@, token@, timeout, &r),
    {
        let list = IfList::untagged().token(token.0.as_str());
        let ghost wanted = IfListV { resource: None, conditions: seq![IfConditionV::Token { token: token@, not: false }] };
        assert(list@.conditions =~= wanted.conditions);
        let cond = match self.if_header {
            Some(existing) => existing.copy().with_list(list),
            None => If::new().with_list(list),
        };
        let s = match self.base(url) {
            Ok(s) => s,
            Err(e) => return Err(e),
        };
        let mut if_name: Vec<(String, String)> = Vec::new();
        push_header(&mut if_name, "if", "");
        proof {
            reveal_strlit("");
        }
        assert(""@ =~= Seq::<char>::empty());
        assert(pairs_of(if_name@).len() == 1 && pairs_of(if_name@)[0] == ("if"@, ""@));
        assert(pairs_of(if_name@) =~= seq![("if"@, Seq::<char>::empty())]);
        let mut headers = keep_unnamed(s.headers, &if_name);
        let ghost kept = pairs_of(headers@);
        let text = cond.to_string();
        if !valid_value(text.as_str()) {
            return Err(Error::InvalidHeader(string_of("failed to parse header value")));
        }
        push_header(&mut headers, "if", text.as_str());
        match timeout {
            Some(t) => {
                let tt = t.to_string();
                push_header(&mut headers, "timeout", tt.as_str());
            },
            None => {},
        }
        assert(pairs_of(headers@) =~= kept + seq![("if"@, text@)] + match timeout {
            Some(t) => seq![("timeout"@, timeout_text(t))],
            None => Seq::<Header>::empty(),
        });
        let r = Self::empty(Started { uri: s.uri, headers }, "LOCK");
        Ok(r)
    }

    /// `UNLOCK` of the lock `token`, with no body.
    pub fn unlock(&self, url: &str, token: &LockTokenHeader) -> (r: Result<HttpRequest, Error>)
        ensures
            built(&r, base_spec(self@, url@), "UNLOCK"@, seq![("lock-token"@, "<"@ + token@ + ">"@)], Seq::empty()),
    {
        let mut s = match self.base(url) {
            Ok(s) => s,
            Err(e) => return Err(e),
        };
        let ghost b = pairs_of(s.headers@);
        let t = token.to_string();
        push_header(&mut s.headers, "lock-token", t.as_str());
        assert(pairs_of(s.headers@) =~= b + seq![("lock-token"@, "<"@ + token@ + ">"@)]);
        Ok(Self::empty(s, "UNLOCK"))
    }
}

/// What is left of the headers has no name of `names`, and keeps the
/// others in order.
proof fn lemma_without_names(hs: Seq<Header>, names: Seq<Header>)
    ensures
        forall|i: int| 0 <= i < without_names(hs, names).len() ==> !has_name(names, #[trigger] without_names(hs, names)[i].0),
    decreases hs.len(),
{
    if hs.len() > 0 {
        let front = without_names(hs.drop_last(), names);
        lemma_without_names(hs.drop_last(), names);
        if !has_name(names, hs.last().0) {
            let r = without_names(hs, names);
            assert(r == front.push(hs.last()));
            assert forall|i: int| 0 <= i < r.len() implies !has_name(names, #[trigger] r[i].0) by {
                if i < front.len() {
                    assert(r[i] == front[i]);
                }
            }
        }
    }
}

/// The caller's extra headers win: every request starts with the extra
/// headers last, and no header before them has one of their names.
pub proof fn lemma_extra_headers_win(c: ContextV, url: Seq<char>)
    ensures
        base_spec(c, url) matches BaseV::Ready(_, hs) ==> {
            &&& hs.len() >= c.extra.len()
            &&& hs.subrange(hs.len() - c.extra.len(), hs.len() as int) == c.extra
            &&& forall|i: int| 0 <= i < hs.len() - c.extra.len() ==> !has_name(c.extra, #[trigger] hs[i].0)
        },
{
    let auth = auth_headers(c.auth);
    lemma_without_names(auth, c.extra);
    match c.if_header {
        Some(l) => lemma_without_names(auth.push(("if"@, if_text(l))), c.extra),
        None => {},
    }
    match base_spec(c, url) {
        BaseV::Ready(_, hs) => {
            let k = hs.len() - c.extra.len();
            assert(hs.subrange(k, hs.len() as int) =~= c.extra);
            assert forall|i: int| 0 <= i < k implies !has_name(c.extra, #[trigger] hs[i].0) by {
                match c.if_header {
                    Some(l) => if l.len() == 0 {
                        assert(hs[i] == without_names(auth, c.extra)[i]);
                    } else {
                        assert(hs[i] == without_names(auth.push(("if"@, if_text(l))), c.extra)[i]);
                    },
                    None => assert(hs[i] == without_names(auth, c.extra)[i]),
                }
            }
        },
        _ => {},
    }
}

/// Setting a header leaves it with that one value, and leaves every other
/// header as it was.
pub proof fn lemma_set_header(hs: Seq<Header>, name: Seq<char>, value: Seq<char>)
    ensures
        has_name(set_header(hs, name, value), name),
        forall|i: int| 0 <= i < set_header(hs, name, value).len() && (#[trigger] set_header(hs, name, value)[i]).0 == name
            ==> set_header(hs, name, value)[i].1 == value,
        forall|i: int| 0 <= i < hs.len() && (#[trigger] hs[i]).0 != name ==> set_header(hs, name, value)[i] == hs[i],
{
    let r = set_header(hs, name, value);
    if has_name(hs, name) {
        let j = choose|j: int| 0 <= j < hs.len() && #[trigger] hs[j].0 == name;
        assert(r[j].0 == name);
    } else {
        assert(r[hs.len() as int].0 == name);
    }
}

} // verus!
