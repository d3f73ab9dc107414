//! How a client reads the server's answers: typed results, or errors.
use vstd::prelude::*;

use crate::client::capabilities::Capabilities;
use crate::client::error::Error;
use crate::client::headers::{dav_classes, parse_lock_token, DavHeader, LockTokenHeader};
use crate::client::resource::{resources_of, Resource, ResourceV};
use crate::element::{lemma_seq_view, seq_view, Element};
use crate::elements::activelock::ActiveLockV;
use crate::elements::error::DavError;
use crate::elements::href::{href_text, HrefV};
use crate::elements::multistatus::{failures_of, Multistatus};
use crate::elements::prop::{property, Prop};
use crate::error::{res_view, Error as XmlError, ErrorV};
use crate::properties::locks::LockDiscovery;
use crate::text::{
    chars_eq, comma_pieces, comma_pieces_trimmed, joined, lemma_joined_push, string_of, subchars,
    text_is, to_chars, trimmed_all, utf8_error_message,
};
use crate::value::MapV;
use crate::xml::{element_from_document, FromXml};

verus! {

/// What a client reads of an HTTP answer.
#[derive(Debug, PartialEq)]
pub struct HttpResponse {
    /// The status code.
    pub status: u16,
    /// The headers in order, under lowercase names; the value is `None`
    /// where it is not visible ASCII text.
    pub headers: Vec<(String, Option<String>)>,
    /// The body.
    pub body: Vec<u8>,
}

pub struct HttpResponseV {
    pub status: u16,
    pub headers: Seq<(Seq<char>, Option<Seq<char>>)>,
    pub body: Seq<u8>,
}

pub open spec fn header_view(h: (String, Option<String>)) -> (Seq<char>, Option<Seq<char>>) {
    (
        h.0@,
        match h.1 {
            Some(v) => Some(v@),
            None => None,
        },
    )
}

pub open spec fn headers_view(hs: Seq<(String, Option<String>)>) -> Seq<(Seq<char>, Option<Seq<char>>)> {
    hs.map_values(|h: (String, Option<String>)| header_view(h))
}

impl View for HttpResponse {
    type V = HttpResponseV;

    open spec fn view(&self) -> HttpResponseV {
        HttpResponseV { status: self.status, headers: headers_view(self.headers@), body: self.body@ }
    }
}

/// The value of the first header named `name`: `None` when there is no
/// such header, `Some(None)` when its value is not text.
pub open spec fn first_header(hs: Seq<(Seq<char>, Option<Seq<char>>)>, name: Seq<char>) -> Option<Option<Seq<char>>>
    decreases hs.len(),
{
    if hs.len() == 0 {
        None
    } else if hs[0].0 == name {
        Some(hs[0].1)
    } else {
        first_header(hs.drop_first(), name)
    }
}

/// The text values of every header named `name`, in order.
pub open spec fn text_values(hs: Seq<(Seq<char>, Option<Seq<char>>)>, name: Seq<char>) -> Seq<Seq<char>>
    decreases hs.len(),
{
    if hs.len() == 0 {
        Seq::empty()
    } else if hs.last().0 == name && hs.last().1 is Some {
        text_values(hs.drop_last(), name).push(hs.last().1->0)
    } else {
        text_values(hs.drop_last(), name)
    }
}

/// Whether `t` occurs in `s`.
pub open spec fn contains_text(s: Seq<char>, t: Seq<char>) -> bool {
    exists|i: int| 0 <= i && i + t.len() <= s.len() && #[trigger] s.subrange(i, i + t.len()) == t
}

/// Whether the answer's `Content-Type` names an XML media type.
pub open spec fn is_xml(r: HttpResponseV) -> bool {
    match first_header(r.headers, "content-type"@) {
        Some(Some(v)) => contains_text(v, "xml"@),
        _ => false,
    }
}

/// Whether a status is a success (2xx).
pub open spec fn is_success_code(code: u16) -> bool {
    200 <= code < 300
}

/// What reading `body` as an element of type `E` gives: for UTF-8 bytes,
/// what the document's events give; otherwise the UTF-8 error.
pub open spec fn parses_as<E: Element>(body: Seq<u8>, r: Result<E::V, ErrorV>) -> bool {
    if vstd::utf8::valid_utf8(body) {
        r == element_from_document::<E>(crate::read::document_events(vstd::utf8::decode_utf8(body)))
    } else {
        r == Err::<E::V, ErrorV>(ErrorV::Utf8(utf8_error_message(body)))
    }
}

/// Reads `body` as an element of type `E`.
pub fn read_element<E: Element>(body: Vec<u8>) -> (r: Result<E, XmlError>)
    ensures
        parses_as::<E>(body@, res_view(r)),
{
    E::from_xml(body)
}

/// The value of the first header named `name`.
pub fn first_header_of(r: &HttpResponse, name: &str) -> (v: Option<Option<String>>)
    ensures
        match first_header(r@.headers, name@) {
            None => v is None,
            Some(None) => v matches Some(None),
            Some(Some(t)) => v matches Some(Some(x)) && x@ == t,
        },
{
    let ghost hs = r@.headers;
    let n = r.headers.len();
    let mut i: usize = 0;
    assert(hs.subrange(0, n as int) =~= hs);
    while i < n
        invariant
            i <= n,
            n == r.headers@.len(),
            hs == r@.headers,
            hs.len() == n,
            forall|j: int| 0 <= j < n ==> #[trigger] hs[j] == header_view(r.headers@[j]),
            first_header(hs, name@) == first_header(hs.subrange(i as int, n as int), name@),
        decreases n - i,
    {
        assert(hs.subrange(i as int, n as int)[0] == hs[i as int]);
        if text_is(r.headers[i].0.as_str(), name) {
            return match &r.headers[i].1 {
                Some(t) => Some(Some(t.clone())),
                None => Some(None),
            };
        }
        assert(hs.subrange(i as int, n as int).drop_first() =~= hs.subrange(i + 1, n as int));
        i = i + 1;
    }
    None
}

/// The text values of every header named `name`, in order.
pub fn text_values_of(r: &HttpResponse, name: &str) -> (v: Vec<String>)
    ensures
        seq_view(v@) == text_values(r@.headers, name@),
{
    let ghost hs = r@.headers;
    let mut out: Vec<String> = Vec::new();
    let mut i: usize = 0;
    assert(hs.subrange(0, 0) =~= Seq::<(Seq<char>, Option<Seq<char>>)>::empty());
    while i < r.headers.len()
        invariant
            i <= r.headers@.len(),
            hs == r@.headers,
            hs.len() == r.headers@.len(),
            forall|j: int| 0 <= j < hs.len() ==> #[trigger] hs[j] == header_view(r.headers@[j]),
            seq_view(out@) == text_values(hs.subrange(0, i as int), name@),
        decreases r.headers.len() - i,
    {
        assert(hs.subrange(0, i + 1).drop_last() =~= hs.subrange(0, i as int));
        assert(hs.subrange(0, i + 1).last() == hs[i as int]);
        if text_is(r.headers[i].0.as_str(), name) {
            match &r.headers[i].1 {
                Some(t) => {
                    let ghost before = out@;
                    let c = t.clone();
                    out.push(c);
                    proof {
                        crate::element::lemma_seq_view_push(before, c);
                    }
                },
                None => {},
            }
        }
        i = i + 1;
    }
    assert(hs.subrange(0, hs.len() as int) =~= hs);
    out
}

/// Whether `t` occurs in `s`.
pub fn text_contains(s: &str, t: &str) -> (r: bool)
    ensures
        r == contains_text(s@, t@),
{
    let a = to_chars(s);
    let b = to_chars(t);
    if b.len() > a.len() {
        return false;
    }
    let m = a.len() - b.len();
    let mut i: usize = 0;
    loop
        invariant
            a@ == s@,
            b@ == t@,
            b.len() <= a.len(),
            m == a.len() - b.len(),
            i <= m,
            forall|j: int| 0 <= j < i ==> #[trigger] a@.subrange(j, j + b@.len()) != b@,
        ensures
            forall|j: int| 0 <= j <= m ==> #[trigger] a@.subrange(j, j + b@.len()) != b@,
        decreases m - i,
    {
        let piece = subchars(a.as_slice(), i, i + b.len());
        if chars_eq(piece.as_slice(), b.as_slice()) {
            assert(a@.subrange(i as int, i + t@.len()) == t@);
            return true;
        }
        if i == m {
            break;
        }
        i = i + 1;
    }
    assert forall|j: int| 0 <= j && j + t@.len() <= s@.len() implies #[trigger] s@.subrange(j, j + t@.len()) != t@ by {
        assert(j <= m);
    }
    false
}

/// Whether the answer's `Content-Type` names an XML media type.
pub fn response_is_xml(r: &HttpResponse) -> (x: bool)
    ensures
        x == is_xml(r@),
{
    match first_header_of(r, "content-type") {
        Some(Some(v)) => text_contains(v.as_str(), "xml"),
        _ => false,
    }
}

/// The error of an answer whose status is not a success: its status, its
/// body, and the `DAV:error` the body holds when it is XML.
pub open spec fn status_error(r: HttpResponseV, e: &Error) -> bool {
    match e {
        Error::Status { status, error, body } => {
            &&& *status == r.status
            &&& body@ == r.body
            &&& if is_xml(r) {
                match error {
                    Some(d) => parses_as::<DavError>(r.body, Ok(d@)),
                    None => exists|x: ErrorV| parses_as::<DavError>(r.body, Err(x)),
                }
            } else {
                error is None
            }
        },
        _ => false,
    }
}

fn status_failure(r: HttpResponse) -> (e: Error)
    ensures
        status_error(r@, &e),
{
    let xml = response_is_xml(&r);
    let HttpResponse { status, headers: _, body } = r;
    let copy = body.clone();
    assert(copy@ =~= body@);
    let error = if xml {
        match read_element::<DavError>(copy) {
            Ok(d) => Some(d),
            Err(x) => {
                assert(parses_as::<DavError>(body@, Err(x@)));
                None
            },
        }
    } else {
        None
    };
    let e = Error::Status { status, error, body };
    assert(is_xml(r@) == xml);
    assert(e matches Error::Status { status: s, body: b, .. } && s == r@.status && b@ == r@.body);
    e
}

/// What [`ensure_success`] gives for the answer `r`.
pub open spec fn success_answer(r: HttpResponseV, res: &Result<HttpResponse, Error>) -> bool {
    &&& is_success_code(r.status) ==> (res matches Ok(x) && x@ == r)
    &&& !is_success_code(r.status) ==> (res matches Err(e) && status_error(r, &e))
}

/// A successful answer, unchanged; any other becomes [`Error::Status`].
pub fn ensure_success(r: HttpResponse) -> (res: Result<HttpResponse, Error>)
    ensures
        success_answer(r@, &res),
{
    if 200 <= r.status && r.status < 300 {
        Ok(r)
    } else {
        Err(status_failure(r))
    }
}

/// What [`multistatus`] gives for the answer `r`.
pub open spec fn multistatus_answer(r: HttpResponseV, res: &Result<Multistatus, Error>) -> bool {
    &&& !is_success_code(r.status) ==> (res matches Err(e) && status_error(r, &e))
    &&& is_success_code(r.status) && r.status != 207 ==> (res matches Err(Error::Status { status, error, body })
        && status == r.status && error is None && body@ == r.body)
    &&& r.status == 207 ==> match res {
        Ok(m) => parses_as::<Multistatus>(r.body, Ok(m@)),
        Err(Error::Xml(x)) => parses_as::<Multistatus>(r.body, Err(x@)),
        _ => false,
    }
}

/// The `multistatus` body of a `207 Multi-Status` answer. Another success
/// status is an [`Error::Status`] with the raw body and no `DAV:error`.
pub fn multistatus(r: HttpResponse) -> (res: Result<Multistatus, Error>)
    ensures
        multistatus_answer(r@, &res),
{
    let r = match ensure_success(r) {
        Ok(r) => r,
        Err(e) => return Err(e),
    };
    if r.status != 207 {
        return Err(Error::Status { status: r.status, error: None, body: r.body });
    }
    match read_element::<Multistatus>(r.body) {
        Ok(m) => Ok(m),
        Err(x) => Err(Error::Xml(x)),
    }
}

/// What [`ok_or_multistatus`] gives for the answer `r`.
pub open spec fn ok_or_multistatus_answer(r: HttpResponseV, res: &Result<(), Error>) -> bool {
    &&& !is_success_code(r.status) ==> (res matches Err(e) && status_error(r, &e))
    &&& is_success_code(r.status) && r.status != 207 ==> res is Ok
    &&& r.status == 207 ==> match res {
        Ok(()) => exists|m: crate::elements::multistatus::MultistatusV|
            #![trigger parses_as::<Multistatus>(r.body, Ok(m))]
            parses_as::<Multistatus>(r.body, Ok(m)) && failures_of(m.response).len() == 0,
        Err(Error::Multistatus(m)) => parses_as::<Multistatus>(r.body, Ok(m@)) && failures_of(m@.response).len() > 0,
        Err(Error::Xml(x)) => parses_as::<Multistatus>(r.body, Err(x@)),
        _ => false,
    }
}

/// A `207 Multi-Status` answer whose body reports a propstat with a status
/// code outside `200..300` is refused, with that multi-status as the error.
pub proof fn lemma_failed_propstat_refused(
    r: HttpResponseV,
    res: &Result<(), Error>,
    m: crate::elements::multistatus::MultistatusV,
    i: int,
    k: int,
)
    requires
        ok_or_multistatus_answer(r, res),
        r.status == 207,
        parses_as::<Multistatus>(r.body, Ok(m)),
        0 <= i < m.response.len(),
        m.response[i] is Propstat,
        0 <= k < m.response[i]->Propstat_propstat.len(),
        !(200 <= m.response[i]->Propstat_propstat[k].status.code < 300),
    ensures
        res matches Err(Error::Multistatus(x)) && x@ == m,
{
    crate::elements::multistatus::lemma_failures_of(m.response);
    let pair = (m.response[i]->Propstat_href, m.response[i]->Propstat_propstat[k].status);
    assert(failures_of(m.response).contains(pair));
    assert(failures_of(m.response).len() > 0);
}

/// The answer to a request that may report failures per resource in a
/// `207 Multi-Status` body (`DELETE`, `COPY`, `MOVE`): any other success
/// is `Ok`, and a `207` is `Ok` only when it reports no failure.
pub fn ok_or_multistatus(r: HttpResponse) -> (res: Result<(), Error>)
    ensures
        ok_or_multistatus_answer(r@, &res),
{
    let ghost orig = r@;
    let r = match ensure_success(r) {
        Ok(r) => r,
        Err(e) => return Err(e),
    };
    if r.status != 207 {
        return Ok(());
    }
    let ghost body = r.body@;
    match read_element::<Multistatus>(r.body) {
        Ok(m) => {
            let failures = m.failures();
            proof {
                crate::elements::multistatus::lemma_pairs_view_len(failures@);
            }
            if failures.len() > 0 {
                Err(Error::Multistatus(m))
            } else {
                assert(parses_as::<Multistatus>(orig.body, Ok(m@)) && failures_of(m@.response).len() == 0);
                Ok(())
            }
        },
        Err(x) => Err(Error::Xml(x)),
    }
}

/// The token a `Lock-Token` header of the answer names, if it names one.
pub open spec fn token_of(r: HttpResponseV) -> Option<Seq<char>> {
    match first_header(r.headers, "lock-token"@) {
        Some(Some(v)) => parse_lock_token(v),
        _ => None,
    }
}

/// The locks a `prop` names: none when it has no `lockdiscovery`
/// property or an empty one.
pub open spec fn discovery_of(p: MapV) -> Result<Seq<ActiveLockV>, ErrorV> {
    match property::<LockDiscovery>(p) {
        Some(Some(Ok(d))) => Ok(d),
        Some(Some(Err(e))) => Err(e),
        _ => Ok(Seq::empty()),
    }
}

/// Whether `x` is why the body of a `LOCK` answer gives no locks: it is
/// not a `prop`, or its `lockdiscovery` property is not valid.
pub open spec fn lock_body_error(body: Seq<u8>, x: ErrorV) -> bool {
    parses_as::<Prop>(body, Err(x)) || exists|p: MapV|
        parses_as::<Prop>(body, Ok(p)) && discovery_of(p) == Err::<Seq<ActiveLockV>, ErrorV>(x)
}

/// The `lockdiscovery` property of a `LOCK` answer's `prop` body, and the
/// token of its `Lock-Token` header.
pub fn lock_discovery(r: HttpResponse) -> (res: Result<(LockDiscovery, Option<LockTokenHeader>), Error>)
    ensures
        !is_success_code(r@.status) ==> (res matches Err(e) && status_error(r@, &e)),
        is_success_code(r@.status) ==> match res {
            Ok((d, t)) => (match t {
                Some(x) => token_of(r@) == Some(x@),
                None => token_of(r@) is None,
            }) && exists|p: MapV| parses_as::<Prop>(r@.body, Ok(p)) && discovery_of(p) == Ok::<Seq<ActiveLockV>, ErrorV>(d@),
            Err(Error::Xml(x)) => lock_body_error(r@.body, x@),
            _ => false,
        },
{
    let r = match ensure_success(r) {
        Ok(r) => r,
        Err(e) => return Err(e),
    };
    let token = match first_header_of(&r, "lock-token") {
        Some(Some(v)) => match LockTokenHeader::from_str(v.as_str()) {
            Ok(t) => Some(t),
            Err(_) => None,
        },
        _ => None,
    };
    let ghost body = r.body@;
    let prop = match read_element::<Prop>(r.body) {
        Ok(p) => p,
        Err(x) => return Err(Error::Xml(x)),
    };
    let discovery = match prop.lockdiscovery() {
        Some(Some(d)) => match d {
            Ok(d) => d,
            Err(x) => {
                assert(parses_as::<Prop>(body, Ok(prop@)) && discovery_of(prop@) == Err::<Seq<ActiveLockV>, ErrorV>(x@));
                return Err(Error::Xml(x));
            },
        },
        _ => {
            let locks: Vec<crate::elements::activelock::ActiveLock> = Vec::new();
            assert(seq_view(locks@) =~= Seq::<ActiveLockV>::empty());
            LockDiscovery(locks)
        },
    };
    assert(parses_as::<Prop>(body, Ok(prop@)) && discovery_of(prop@) == Ok::<Seq<ActiveLockV>, ErrorV>(discovery@));
    Ok((discovery, token))
}

/// Whether a text is an HTTP method name: not empty, and made of token
/// characters only (RFC 9110, section 5.6.2).
pub open spec fn method_token(s: Seq<char>) -> bool {
    s.len() > 0 && forall|i: int| 0 <= i < s.len() ==> #[trigger] is_tchar(s[i])
}

pub open spec fn is_tchar(c: char) -> bool {
    ||| ('0' <= c && c <= '9')
    ||| ('A' <= c && c <= 'Z')
    ||| ('a' <= c && c <= 'z')
    ||| c == '!' || c == '#' || c == '$' || c == '%' || c == '&' || c == '\'' || c == '*'
    ||| c == '+' || c == '-' || c == '.' || c == '^' || c == '_' || c == '`' || c == '|' || c == '~'
}

/// Whether `http::Method::from_bytes` accepts the bytes of `text`: they
/// must not be empty, and each must be a token character.
#[verifier::external_body]
fn is_method(text: &str) -> (r: bool)
    ensures
        r == method_token(text@),
{
    http::Method::from_bytes(text.as_bytes()).is_ok()
}

/// The method names among the pieces.
pub open spec fn methods_of(ps: Seq<Seq<char>>) -> Seq<Seq<char>>
    decreases ps.len(),
{
    if ps.len() == 0 {
        Seq::empty()
    } else if method_token(ps.last()) {
        methods_of(ps.drop_last()).push(ps.last())
    } else {
        methods_of(ps.drop_last())
    }
}

/// The methods `Allow` header values list: their comma-separated pieces,
/// trimmed, that are method names.
pub open spec fn allowed_methods(vs: Seq<Seq<char>>) -> Seq<Seq<char>>
    decreases vs.len(),
{
    if vs.len() == 0 {
        Seq::empty()
    } else {
        allowed_methods(vs.drop_last()) + methods_of(trimmed_all(comma_pieces(vs.last())))
    }
}

fn push_methods(out: &mut Vec<String>, value: &str)
    ensures
        seq_view(final(out)@) == seq_view(old(out)@) + methods_of(trimmed_all(comma_pieces(value@))),
{
    let pieces = comma_pieces_trimmed(value);
    let ghost ps = trimmed_all(comma_pieces(value@));
    let ghost start = seq_view(out@);
    let mut i: usize = 0;
    assert(ps.subrange(0, 0) =~= Seq::<Seq<char>>::empty());
    assert(start + Seq::<Seq<char>>::empty() =~= start);
    while i < pieces.len()
        invariant
            i <= pieces@.len(),
            ps == trimmed_all(comma_pieces(value@)),
            pieces@.len() == ps.len(),
            forall|j: int| 0 <= j < pieces@.len() ==> #[trigger] pieces@[j]@ == ps[j],
            seq_view(out@) == start + methods_of(ps.subrange(0, i as int)),
            start == seq_view(old(out)@),
        decreases pieces.len() - i,
    {
        assert(ps.subrange(0, i + 1).drop_last() =~= ps.subrange(0, i as int));
        assert(ps.subrange(0, i + 1).last() == pieces@[i as int]@);
        if is_method(pieces[i].as_str()) {
            let ghost before = out@;
            let c = pieces[i].clone();
            out.push(c);
            proof {
                crate::element::lemma_seq_view_push(before, c);
            }
            assert(start + methods_of(ps.subrange(0, i as int)).push(c@) =~= (start + methods_of(
                ps.subrange(0, i as int),
            )).push(c@));
        }
        i = i + 1;
    }
    assert(ps.subrange(0, ps.len() as int) =~= ps);
}

/// What [`capabilities`] gives for the answer `r`.
pub open spec fn capabilities_answer(r: HttpResponseV, res: &Result<Capabilities, Error>) -> bool {
    &&& !is_success_code(r.status) ==> (res matches Err(e) && status_error(r, &e))
    &&& is_success_code(r.status) ==> (res matches Ok(c) && c@.dav == dav_classes(
        joined(text_values(r.headers, "dav"@), ","@),
    ) && c@.allow == allowed_methods(text_values(r.headers, "allow"@)))
}

/// The capabilities an `OPTIONS` answer advertises: the `DAV` header
/// values joined with `,` and read as one, and the `Allow` pieces that are
/// method names.
pub fn capabilities(r: HttpResponse) -> (res: Result<Capabilities, Error>)
    ensures
        capabilities_answer(r@, &res),
{
    let r = match ensure_success(r) {
        Ok(r) => r,
        Err(e) => return Err(e),
    };
    let dav_values = text_values_of(&r, "dav");
    let ghost dvs = text_values(r@.headers, "dav"@);
    proof {
        lemma_seq_view(dav_values@);
    }
    let mut joined_text = String::new();
    let mut i: usize = 0;
    assert(dvs.subrange(0, 0) =~= Seq::<Seq<char>>::empty());
    while i < dav_values.len()
        invariant
            i <= dav_values@.len(),
            dvs == seq_view(dav_values@),
            dvs.len() == dav_values@.len(),
            forall|j: int| 0 <= j < dvs.len() ==> #[trigger] dvs[j] == dav_values@[j]@,
            joined_text@ == joined(dvs.subrange(0, i as int), ","@),
        decreases dav_values.len() - i,
    {
        proof {
            lemma_joined_push(dvs.subrange(0, i as int), ","@, dvs[i as int]);
        }
        assert(dvs.subrange(0, i + 1) =~= dvs.subrange(0, i as int).push(dvs[i as int]));
        if i > 0 {
            joined_text.append(",");
        }
        joined_text.append(dav_values[i].as_str());
        i = i + 1;
    }
    assert(dvs.subrange(0, dvs.len() as int) =~= dvs);
    let dav = match DavHeader::from_str(joined_text.as_str()) {
        Ok(d) => d,
        Err(_) => DavHeader::default(),
    };
    let allow_values = text_values_of(&r, "allow");
    let ghost avs = text_values(r@.headers, "allow"@);
    proof {
        lemma_seq_view(allow_values@);
    }
    let mut allow: Vec<String> = Vec::new();
    let mut k: usize = 0;
    assert(avs.subrange(0, 0) =~= Seq::<Seq<char>>::empty());
    assert(seq_view(allow@) =~= Seq::<Seq<char>>::empty());
    while k < allow_values.len()
        invariant
            k <= allow_values@.len(),
            avs == seq_view(allow_values@),
            avs.len() == allow_values@.len(),
            forall|j: int| 0 <= j < avs.len() ==> #[trigger] avs[j] == allow_values@[j]@,
            seq_view(allow@) == allowed_methods(avs.subrange(0, k as int)),
        decreases allow_values.len() - k,
    {
        assert(avs.subrange(0, k + 1).drop_last() =~= avs.subrange(0, k as int));
        assert(avs.subrange(0, k + 1).last() == allow_values@[k as int]@);
        push_methods(&mut allow, allow_values[k].as_str());
        k = k + 1;
    }
    assert(avs.subrange(0, avs.len() as int) =~= avs);
    Ok(Capabilities { dav, allow })
}

/// The result of a successful `LOCK`.
#[derive(Debug, PartialEq)]
pub struct Lock {
    /// The token to send back in `If` and `Lock-Token` headers.
    pub token: LockTokenHeader,
    /// The `lockdiscovery` property the server answered with.
    pub discovery: LockDiscovery,
}

/// The first lock token among the locks.
pub open spec fn first_lock_token(ls: Seq<ActiveLockV>) -> Option<HrefV>
    decreases ls.len(),
{
    if ls.len() == 0 {
        None
    } else {
        match ls[0].locktoken {
            Some(h) => Some(h),
            None => first_lock_token(ls.drop_first()),
        }
    }
}

/// The token of a lock: the `Lock-Token` header's, else the first one the
/// locks name, else the one the caller already knew.
pub open spec fn lock_token_choice(
    header: Option<Seq<char>>,
    locks: Seq<ActiveLockV>,
    fallback: Option<Seq<char>>,
) -> Option<Seq<char>> {
    match header {
        Some(h) => Some(h),
        None => match first_lock_token(locks) {
            Some(h) => Some(href_text(h)),
            None => fallback,
        },
    }
}

/// The [`Lock`] a `LOCK` (or lock refresh) answer gives.
pub fn lock_result(
    discovery: LockDiscovery,
    header: Option<LockTokenHeader>,
    fallback: Option<LockTokenHeader>,
) -> (res: Result<Lock, Error>)
    ensures
        match lock_token_choice(
            match header {
                Some(h) => Some(h@),
                None => None,
            },
            discovery@,
            match fallback {
                Some(h) => Some(h@),
                None => None,
            },
        ) {
            Some(t) => res matches Ok(l) && l.token@ == t && l.discovery@ == discovery@,
            None => res matches Err(Error::MissingLockToken),
        },
{
    let token = match header {
        Some(h) => Some(h),
        None => match first_token(&discovery) {
            Some(t) => Some(t),
            None => fallback,
        },
    };
    match token {
        Some(token) => Ok(Lock { token, discovery }),
        None => Err(Error::MissingLockToken),
    }
}

/// What a `LOCK` answer `r` gives, read by [`lock_discovery`] and then
/// [`lock_result`] with the token `fallback` the caller already knew.
pub open spec fn lock_answer(r: HttpResponseV, fallback: Option<Seq<char>>, res: &Result<Lock, Error>) -> bool {
    if !is_success_code(r.status) {
        res matches Err(e) && status_error(r, &e)
    } else {
        ||| (res matches Err(Error::Xml(x)) && lock_body_error(r.body, x@))
        ||| exists|p: MapV|
            #![trigger parses_as::<Prop>(r.body, Ok(p))]
            parses_as::<Prop>(r.body, Ok(p)) && match discovery_of(p) {
                Ok(ls) => match lock_token_choice(token_of(r), ls, fallback) {
                    Some(t) => res matches Ok(l) && l.token@ == t && l.discovery@ == ls,
                    None => res matches Err(Error::MissingLockToken),
                },
                Err(_) => false,
            }
    }
}

/// What the `LOCK` answer `r` gives: its lock, with the token of its
/// `Lock-Token` header, else of the first lock it names, else `fallback`.
pub fn read_lock(r: HttpResponse, fallback: Option<LockTokenHeader>) -> (res: Result<Lock, Error>)
    ensures
        lock_answer(r@, token_view(fallback), &res),
{
    let ghost a = r@;
    let found = lock_discovery(r);
    let ghost fg = found;
    let res = match found {
        Ok((d, t)) => lock_result(d, t, fallback),
        Err(e) => Err(e),
    };
    proof {
        if is_success_code(a.status) {
            match fg {
                Ok((d, t)) => {
                    let p = choose|p: MapV|
                        parses_as::<Prop>(a.body, Ok(p)) && discovery_of(p) == Ok::<Seq<ActiveLockV>, ErrorV>(d@);
                    assert(parses_as::<Prop>(a.body, Ok(p)));
                },
                Err(_) => {},
            }
        }
    }
    res
}

/// What a request with no answer body to read answers: `Ok` for a
/// success, else the status error.
pub open spec fn done_answer(a: HttpResponseV, r: &Result<(), Error>) -> bool {
    &&& is_success_code(a.status) ==> r is Ok
    &&& !is_success_code(a.status) ==> (r matches Err(e) && status_error(a, &e))
}

/// What a `HEAD` answers: for a success, its status and headers with no
/// body; else the status error.
pub open spec fn head_answer(a: HttpResponseV, r: &Result<HttpResponse, Error>) -> bool {
    &&& is_success_code(a.status) ==> (r matches Ok(x) && x@ == (HttpResponseV { status: a.status, headers: a.headers, body: Seq::empty() }))
    &&& !is_success_code(a.status) ==> (r matches Err(e) && status_error(a, &e))
}

/// The text of a token, if there is one.
pub open spec fn token_view(t: Option<LockTokenHeader>) -> Option<Seq<char>> {
    match t {
        Some(x) => Some(x@),
        None => None,
    }
}

/// A successful answer's status and headers, with no body; any other
/// answer becomes [`Error::Status`].
pub fn headers_only(r: HttpResponse) -> (res: Result<HttpResponse, Error>)
    ensures
        head_answer(r@, &res),
{
    match ensure_success(r) {
        Ok(x) => {
            let HttpResponse { status, headers, body: _ } = x;
            let body: Vec<u8> = Vec::new();
            Ok(HttpResponse { status, headers, body })
        },
        Err(e) => Err(e),
    }
}

/// `Ok` for a successful answer; any other becomes [`Error::Status`].
pub fn ensure_done(r: HttpResponse) -> (res: Result<(), Error>)
    ensures
        done_answer(r@, &res),
{
    match ensure_success(r) {
        Ok(_) => Ok(()),
        Err(e) => Err(e),
    }
}

/// The first lock token the locks name, as a `Lock-Token` value.
fn first_token(discovery: &LockDiscovery) -> (r: Option<LockTokenHeader>)
    ensures
        match first_lock_token(discovery@) {
            Some(h) => r matches Some(t) && t@ == href_text(h),
            None => r is None,
        },
{
    let ghost ls = discovery@;
    proof {
        lemma_seq_view(discovery.0@);
    }
    let mut i: usize = 0;
    assert(ls.subrange(0, ls.len() as int) =~= ls);
    while i < discovery.0.len()
        invariant
            i <= discovery.0@.len(),
            ls == discovery@,
            ls.len() == discovery.0@.len(),
            forall|j: int| 0 <= j < ls.len() ==> #[trigger] ls[j] == discovery.0@[j]@,
            first_lock_token(ls) == first_lock_token(ls.subrange(i as int, ls.len() as int)),
        decreases discovery.0.len() - i,
    {
        assert(ls.subrange(i as int, ls.len() as int)[0] == ls[i as int]);
        match &discovery.0[i].locktoken {
            Some(t) => {
                return Some(LockTokenHeader(t.0.to_string()));
            },
            None => {},
        }
        assert(ls.subrange(i as int, ls.len() as int).drop_first() =~= ls.subrange(i + 1, ls.len() as int));
        i = i + 1;
    }
    None
}

/// What [`stat_result`] gives for the outcome `r` of a `PROPFIND`.
pub open spec fn stat_answer(r: &Result<Multistatus, Error>, res: &Result<Option<Resource>, Error>) -> bool {
    match r {
        Ok(m) => match res {
            Ok(Some(x)) => resources_of(m@.response).len() > 0 && x@ == resources_of(m@.response)[0],
            Ok(None) => resources_of(m@.response).len() == 0,
            Err(_) => false,
        },
        Err(Error::Status { status: 404, .. }) => res matches Ok(None),
        Err(e) => res matches Err(x) && x == e,
    }
}

/// What `stat` answers: the first resource of a `multistatus`, or none
/// when the server answered `404 Not Found`.
pub fn stat_result(r: Result<Multistatus, Error>) -> (res: Result<Option<Resource>, Error>)
    ensures
        stat_answer(&r, &res),
{
    match r {
        Ok(m) => {
            let mut resources = Resource::from_multistatus(&m);
            proof {
                lemma_seq_view(resources@);
            }
            if resources.len() == 0 {
                Ok(None)
            } else {
                Ok(Some(resources.remove(0)))
            }
        },
        Err(Error::Status { status: 404, .. }) => Ok(None),
        Err(e) => Err(e),
    }
}

/// What [`exists_result`] gives for the outcome `r` of a `HEAD`.
pub open spec fn exists_answer(r: &Result<HttpResponse, Error>, res: &Result<bool, Error>) -> bool {
    match r {
        Ok(_) => res matches Ok(true),
        Err(Error::Status { status: 404, .. }) => res matches Ok(false),
        Err(e) => res matches Err(x) && x == e,
    }
}

/// What `exists` answers: whether `HEAD` succeeded, with `404 Not Found`
/// meaning no.
pub fn exists_result(r: Result<HttpResponse, Error>) -> (res: Result<bool, Error>)
    ensures
        exists_answer(&r, &res),
{
    match r {
        Ok(_) => Ok(true),
        Err(Error::Status { status: 404, .. }) => Ok(false),
        Err(e) => Err(e),
    }
}

} // verus!
