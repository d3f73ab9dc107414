//! The blocking WebDAV client: it builds each request, sends it through a
//! [`Transport`], and reads the answer.
use vstd::prelude::*;

use crate::client::auth::Auth;
use crate::client::capabilities::Capabilities;
use crate::client::error::Error;
use crate::client::headers::{If, LockTokenHeader, Overwrite};
use crate::client::request::{
    base_spec, built, built_xml, copy_request, lock_request, move_request, pairs_of, put_request, refresh_request,
    set_header, set_header_value, ContextV, Header, HttpRequest, RequestContext,
};
use crate::client::resource::{resources_of, Resource};
use crate::client::response::{
    capabilities, capabilities_answer, done_answer, ensure_done, ensure_success, exists_answer, exists_result,
    head_answer, headers_only, lock_answer, multistatus, multistatus_answer, ok_or_multistatus,
    ok_or_multistatus_answer, read_lock, stat_answer, stat_result, success_answer, token_view, HttpResponse,
    HttpResponseV, Lock,
};
use crate::client::transport::{Transport, TransportError};
use crate::element::seq_view;
use crate::elements::activelock::{LockInfo, LockInfoV};
use crate::elements::depth::{depth_text, Depth};
use crate::elements::multistatus::Multistatus;
use crate::elements::requests::{PropFind, PropFindV, PropertyUpdate, UpdateV};
use crate::elements::timeout::Timeout;
use crate::xml::element_document;

verus! {

/// A blocking WebDAV client. Every method builds one request, sends it
/// through `T`, and reads the answer into a typed result or an [`Error`].
/// A precondition set with [`DavClient::with_if`] and the headers set with
/// [`DavClient::with_header`] go with every request the client sends.
pub struct DavClient<T> {
    transport: T,
    auth: Auth,
    if_header: Option<If>,
    headers: Vec<(String, String)>,
}

/// The `allprop` request with nothing more asked.
pub open spec fn all_properties() -> PropFindV {
    PropFindV::AllProp { including: None }
}

/// What reading an answer that `t` gave to `request` makes of it: some
/// answer `a` that `t` may give to `request`, where a transport failure is
/// handed on as [`Error::Transport`] and a response is read as `read` says.
pub open spec fn answered<T: Transport, A>(
    t: T,
    request: HttpRequest,
    r: &Result<A, Error>,
    read: spec_fn(HttpResponseV) -> bool,
) -> bool {
    exists|a: Result<HttpResponse, TransportError>|
        #[trigger] t.sent(request, a) && match a {
            Ok(response) => read(response@),
            Err(e) => *r == Err::<A, Error>(Error::Transport(e)),
        }
}

/// What a call that built `req` answers: the error of building it, or what
/// `t` answered to the request that was built, read as `read` says.
pub open spec fn outcome<T: Transport, A>(
    t: T,
    req: &Result<HttpRequest, Error>,
    r: &Result<A, Error>,
    read: spec_fn(HttpResponseV) -> bool,
) -> bool {
    match req {
        Err(e) => r matches Err(x) && x == e,
        Ok(q) => answered(t, *q, r, read),
    }
}

impl<T: Transport> DavClient<T> {
    /// The credentials, precondition and headers of every request.
    pub closed spec fn context_of(&self) -> ContextV {
        ContextV {
            auth: self.auth@,
            if_header: match self.if_header {
                Some(c) => Some(c@),
                None => None,
            },
            extra: pairs_of(self.headers@),
        }
    }

    /// The transport.
    pub closed spec fn transport_of(&self) -> T {
        self.transport
    }

    /// What [`DavClient::options`] answers.
    pub open spec fn options_outcome(&self, url: Seq<char>, r: &Result<Capabilities, Error>) -> bool {
        exists|req: Result<HttpRequest, Error>|
            #[trigger] built(&req, base_spec(self.context_of(), url), "OPTIONS"@, Seq::empty(), Seq::empty())
                && outcome(self.transport_of(), &req, r, |a: HttpResponseV| capabilities_answer(a, r))
    }

    /// What [`DavClient::propfind`] answers.
    pub open spec fn propfind_outcome(&self, url: Seq<char>, propfind: PropFindV, depth: Depth, r: &Result<Multistatus, Error>) -> bool {
        exists|req: Result<HttpRequest, Error>|
            #[trigger] built_xml(
                &req,
                base_spec(self.context_of(), url),
                "PROPFIND"@,
                seq![("depth"@, depth_text(depth))],
                element_document::<PropFind>(propfind),
            ) && outcome(self.transport_of(), &req, r, |a: HttpResponseV| multistatus_answer(a, r))
    }

    /// What [`DavClient::proppatch`] answers.
    pub open spec fn proppatch_outcome(&self, url: Seq<char>, update: Seq<UpdateV>, r: &Result<Multistatus, Error>) -> bool {
        exists|req: Result<HttpRequest, Error>|
            #[trigger] built_xml(&req, base_spec(self.context_of(), url), "PROPPATCH"@, Seq::empty(), element_document::<PropertyUpdate>(update))
                && outcome(self.transport_of(), &req, r, |a: HttpResponseV| multistatus_answer(a, r))
    }

    /// What a request of method `method` with no body answers, read with
    /// nothing more than its status.
    pub open spec fn plain_outcome(&self, url: Seq<char>, method: Seq<char>, r: &Result<(), Error>) -> bool {
        exists|req: Result<HttpRequest, Error>|
            #[trigger] built(&req, base_spec(self.context_of(), url), method, Seq::empty(), Seq::empty())
                && outcome(self.transport_of(), &req, r, |a: HttpResponseV| done_answer(a, r))
    }

    /// What [`DavClient::get`] answers.
    pub open spec fn get_outcome(&self, url: Seq<char>, r: &Result<HttpResponse, Error>) -> bool {
        exists|req: Result<HttpRequest, Error>|
            #[trigger] built(&req, base_spec(self.context_of(), url), "GET"@, Seq::empty(), Seq::empty())
                && outcome(self.transport_of(), &req, r, |a: HttpResponseV| success_answer(a, r))
    }

    /// What [`DavClient::head`] answers.
    pub open spec fn head_outcome(&self, url: Seq<char>, r: &Result<HttpResponse, Error>) -> bool {
        exists|req: Result<HttpRequest, Error>|
            #[trigger] built(&req, base_spec(self.context_of(), url), "HEAD"@, Seq::empty(), Seq::empty())
                && outcome(self.transport_of(), &req, r, |a: HttpResponseV| head_answer(a, r))
    }

    /// What [`DavClient::put`] answers.
    pub open spec fn put_outcome(&self, url: Seq<char>, body: Seq<u8>, content_type: Seq<char>, r: &Result<(), Error>) -> bool {
        exists|req: Result<HttpRequest, Error>|
            #[trigger] put_request(self.context_of(), url, body, content_type, &req)
                && outcome(self.transport_of(), &req, r, |a: HttpResponseV| done_answer(a, r))
    }

    /// What [`DavClient::delete`] answers.
    pub open spec fn delete_outcome(&self, url: Seq<char>, r: &Result<(), Error>) -> bool {
        exists|req: Result<HttpRequest, Error>|
            #[trigger] built(&req, base_spec(self.context_of(), url), "DELETE"@, Seq::empty(), Seq::empty())
                && outcome(self.transport_of(), &req, r, |a: HttpResponseV| ok_or_multistatus_answer(a, r))
    }

    /// What [`DavClient::copy`] answers.
    pub open spec fn copy_outcome(
        &self,
        url: Seq<char>,
        destination: Seq<char>,
        depth: Depth,
        overwrite: Overwrite,
        r: &Result<(), Error>,
    ) -> bool {
        exists|req: Result<HttpRequest, Error>|
            #[trigger] copy_request(self.context_of(), url, destination, depth, overwrite, &req)
                && outcome(self.transport_of(), &req, r, |a: HttpResponseV| ok_or_multistatus_answer(a, r))
    }

    /// What [`DavClient::mv`] answers.
    pub open spec fn move_outcome(&self, url: Seq<char>, destination: Seq<char>, overwrite: Overwrite, r: &Result<(), Error>) -> bool {
        exists|req: Result<HttpRequest, Error>|
            #[trigger] move_request(self.context_of(), url, destination, overwrite, &req)
                && outcome(self.transport_of(), &req, r, |a: HttpResponseV| ok_or_multistatus_answer(a, r))
    }

    /// What [`DavClient::lock`] answers.
    pub open spec fn lock_outcome(
        &self,
        url: Seq<char>,
        info: LockInfoV,
        timeout: Option<Timeout>,
        depth: Depth,
        r: &Result<Lock, Error>,
    ) -> bool {
        exists|req: Result<HttpRequest, Error>|
            #[trigger] lock_request(self.context_of(), url, info, timeout, depth, &req)
                && outcome(self.transport_of(), &req, r, |a: HttpResponseV| lock_answer(a, None, r))
    }

    /// What [`DavClient::refresh_lock`] answers.
    pub open spec fn refresh_outcome(&self, url: Seq<char>, token: Seq<char>, timeout: Option<Timeout>, r: &Result<Lock, Error>) -> bool {
        exists|req: Result<HttpRequest, Error>|
            #[trigger] refresh_request(self.context_of(), url, token, timeout, &req)
                && outcome(self.transport_of(), &req, r, |a: HttpResponseV| lock_answer(a, Some(token), r))
    }

    /// What [`DavClient::unlock`] answers.
    pub open spec fn unlock_outcome(&self, url: Seq<char>, token: Seq<char>, r: &Result<(), Error>) -> bool {
        exists|req: Result<HttpRequest, Error>|
            #[trigger] built(&req, base_spec(self.context_of(), url), "UNLOCK"@, seq![("lock-token"@, "<"@ + token + ">"@)], Seq::empty())
                && outcome(self.transport_of(), &req, r, |a: HttpResponseV| done_answer(a, r))
    }
}

impl<T: Transport> DavClient<T> {
    /// A client sending every request through `transport`, with `auth` as
    /// its credentials.
    pub fn new(transport: T, auth: Auth) -> (r: Self)
        ensures
            r.context_of() == (ContextV { auth: auth@, if_header: None, extra: Seq::empty() }),
            r.transport_of() == transport,
    {
        let headers: Vec<(String, String)> = Vec::new();
        let r = DavClient { transport, auth, if_header: None, headers };
        assert(pairs_of(r.headers@) =~= Seq::<Header>::empty());
        r
    }

    /// The client with the `If` precondition `cond` on every request it
    /// sends afterwards.
    pub fn with_if(self, cond: If) -> (r: Self)
        ensures
            r.context_of() == (ContextV { if_header: Some(cond@), ..self.context_of() }),
            r.transport_of() == self.transport_of(),
    {
        DavClient { if_header: Some(cond), ..self }
    }

    /// The client with the header `name` (a lowercase header name) set to
    /// `value` on every request it sends afterwards, in place of any
    /// value the request would otherwise have under that name.
    pub fn with_header(self, name: &str, value: &str) -> (r: Self)
        ensures
            r.context_of() == (ContextV { extra: set_header(self.context_of().extra, name@, value@), ..self.context_of() }),
            r.transport_of() == self.transport_of(),
    {
        let mut c = self;
        set_header_value(&mut c.headers, name, value);
        c
    }

    /// The transport.
    pub fn transport(&self) -> (r: &T)
        ensures
            *r == self.transport_of(),
    {
        &self.transport
    }

    fn context(&self) -> (c: RequestContext<'_>)
        ensures
            c@ == self.context_of(),
    {
        RequestContext { auth: &self.auth, if_header: self.if_header.as_ref(), extra: &self.headers }
    }

    fn send(&self, request: HttpRequest) -> (r: Result<HttpResponse, Error>)
        ensures
            exists|a: Result<HttpResponse, TransportError>|
                #[trigger] self.transport_of().sent(request, a) && match a {
                    Ok(x) => r == Ok::<HttpResponse, Error>(x),
                    Err(e) => r == Err::<HttpResponse, Error>(Error::Transport(e)),
                },
    {
        let ghost q = request;
        let answer = self.transport.send(request);
        let ghost g = answer;
        assert(self.transport_of().sent(q, g));
        match answer {
            Ok(a) => Ok(a),
            Err(e) => Err(Error::Transport(e)),
        }
    }

    /// `OPTIONS`: the capabilities the server advertises for `url`.
    pub fn options(&self, url: &str) -> (r: Result<Capabilities, Error>)
        ensures
            self.options_outcome(url@, &r),
    {
        let req = self.context().options(url);
        let ghost q = req;
        let request = match req {
            Ok(x) => x,
            Err(e) => return Err(e),
        };
        let answer = match self.send(request) {
            Ok(a) => a,
            Err(e) => return Err(e),
        };
        let ghost a = answer@;
        let r = capabilities(answer);
        assert(capabilities_answer(a, &r));
        r
    }

    /// `PROPFIND` of `url` at `depth`.
    pub fn propfind(&self, url: &str, propfind: &PropFind, depth: Depth) -> (r: Result<Multistatus, Error>)
        ensures
            self.propfind_outcome(url@, propfind@, depth, &r),
    {
        let request = match self.context().propfind(url, propfind.copy(), depth) {
            Ok(x) => x,
            Err(e) => return Err(e),
        };
        let answer = match self.send(request) {
            Ok(a) => a,
            Err(e) => return Err(e),
        };
        let ghost a = answer@;
        let r = multistatus(answer);
        assert(multistatus_answer(a, &r));
        r
    }

    /// `PROPPATCH` of `url`.
    pub fn proppatch(&self, url: &str, update: &PropertyUpdate) -> (r: Result<Multistatus, Error>)
        ensures
            self.proppatch_outcome(url@, update@, &r),
    {
        let request = match self.context().proppatch(url, update.copy()) {
            Ok(x) => x,
            Err(e) => return Err(e),
        };
        let answer = match self.send(request) {
            Ok(a) => a,
            Err(e) => return Err(e),
        };
        let ghost a = answer@;
        let r = multistatus(answer);
        assert(multistatus_answer(a, &r));
        r
    }

    fn finish(&self, request: HttpRequest) -> (r: Result<(), Error>)
        ensures
            answered(self.transport_of(), request, &r, |a: HttpResponseV| done_answer(a, &r)),
    {
        let answer = match self.send(request) {
            Ok(a) => a,
            Err(e) => return Err(e),
        };
        let ghost a = answer@;
        let r = ensure_done(answer);
        assert(done_answer(a, &r));
        r
    }

    fn finish_multistatus(&self, request: HttpRequest) -> (r: Result<(), Error>)
        ensures
            answered(self.transport_of(), request, &r, |a: HttpResponseV| ok_or_multistatus_answer(a, &r)),
    {
        let answer = match self.send(request) {
            Ok(a) => a,
            Err(e) => return Err(e),
        };
        let ghost a = answer@;
        let r = ok_or_multistatus(answer);
        assert(ok_or_multistatus_answer(a, &r));
        r
    }

    /// `MKCOL`: creates the collection `url`.
    pub fn mkcol(&self, url: &str) -> (r: Result<(), Error>)
        ensures
            self.plain_outcome(url@, "MKCOL"@, &r),
    {
        match self.context().mkcol(url) {
            Ok(x) => self.finish(x),
            Err(e) => Err(e),
        }
    }

    /// `GET` of `url`: the whole answer of a success.
    pub fn get(&self, url: &str) -> (r: Result<HttpResponse, Error>)
        ensures
            self.get_outcome(url@, &r),
    {
        let request = match self.context().get(url) {
            Ok(x) => x,
            Err(e) => return Err(e),
        };
        let answer = match self.send(request) {
            Ok(a) => a,
            Err(e) => return Err(e),
        };
        let ghost a = answer@;
        let r = ensure_success(answer);
        assert(success_answer(a, &r));
        r
    }

    /// `HEAD` of `url`: the status and headers of a success.
    pub fn head(&self, url: &str) -> (r: Result<HttpResponse, Error>)
        ensures
            self.head_outcome(url@, &r),
    {
        let request = match self.context().head(url) {
            Ok(x) => x,
            Err(e) => return Err(e),
        };
        let answer = match self.send(request) {
            Ok(a) => a,
            Err(e) => return Err(e),
        };
        let ghost a = answer@;
        let r = headers_only(answer);
        assert(head_answer(a, &r));
        r
    }

    /// `PUT` of `body` at `url`, under the media type `content_type`.
    pub fn put(&self, url: &str, body: Vec<u8>, content_type: &str) -> (r: Result<(), Error>)
        ensures
            self.put_outcome(url@, body@, content_type@, &r),
    {
        match self.context().put(url, body, content_type) {
            Ok(x) => self.finish(x),
            Err(e) => Err(e),
        }
    }

    /// `DELETE` of `url`; a `207 Multi-Status` answer that reports a
    /// failure is an error.
    pub fn delete(&self, url: &str) -> (r: Result<(), Error>)
        ensures
            self.delete_outcome(url@, &r),
    {
        match self.context().delete(url) {
            Ok(x) => self.finish_multistatus(x),
            Err(e) => Err(e),
        }
    }

    /// `COPY` of `url` to `destination`.
    pub fn copy(&self, url: &str, destination: &str, depth: Depth, overwrite: Overwrite) -> (r: Result<(), Error>)
        ensures
            self.copy_outcome(url@, destination@, depth, overwrite, &r),
    {
        match self.context().copy(url, destination, depth, overwrite) {
            Ok(x) => self.finish_multistatus(x),
            Err(e) => Err(e),
        }
    }

    /// `MOVE` of `url` to `destination`.
    pub fn mv(&self, url: &str, destination: &str, overwrite: Overwrite) -> (r: Result<(), Error>)
        ensures
            self.move_outcome(url@, destination@, overwrite, &r),
    {
        match self.context().mv(url, destination, overwrite) {
            Ok(x) => self.finish_multistatus(x),
            Err(e) => Err(e),
        }
    }

    fn locked(&self, request: HttpRequest, fallback: Option<LockTokenHeader>) -> (r: Result<Lock, Error>)
        ensures
            answered(self.transport_of(), request, &r, |a: HttpResponseV| lock_answer(a, token_view(fallback), &r)),
    {
        let answer = match self.send(request) {
            Ok(a) => a,
            Err(e) => return Err(e),
        };
        let ghost a = answer@;
        let r = read_lock(answer, fallback);
        assert(lock_answer(a, token_view(fallback), &r));
        r
    }

    /// `LOCK` of `url`: the lock the server grants, its token taken from
    /// the `Lock-Token` header, else from the first lock the answer names.
    pub fn lock(&self, url: &str, info: &LockInfo, timeout: Option<Timeout>, depth: Depth) -> (r: Result<Lock, Error>)
        ensures
            self.lock_outcome(url@, info@, timeout, depth, &r),
    {
        match self.context().lock(url, info.copy(), timeout, depth) {
            Ok(x) => self.locked(x, None),
            Err(e) => Err(e),
        }
    }

    /// `LOCK` with no body, refreshing the lock `token` on `url`; the token
    /// is kept when the answer names none.
    pub fn refresh_lock(&self, url: &str, token: &LockTokenHeader, timeout: Option<Timeout>) -> (r: Result<Lock, Error>)
        ensures
            self.refresh_outcome(url@, token@, timeout, &r),
    {
        match self.context().refresh_lock(url, token, timeout) {
            Ok(x) => self.locked(x, Some(LockTokenHeader(token.0.clone()))),
            Err(e) => Err(e),
        }
    }

    /// `UNLOCK` of the lock `token` on `url`.
    pub fn unlock(&self, url: &str, token: &LockTokenHeader) -> (r: Result<(), Error>)
        ensures
            self.unlock_outcome(url@, token@, &r),
    {
        match self.context().unlock(url, token) {
            Ok(x) => self.finish(x),
            Err(e) => Err(e),
        }
    }

    /// The resources of the collection `url` and the collection itself: a
    /// `PROPFIND` for all properties at depth one.
    pub fn list(&self, url: &str) -> (r: Result<Vec<Resource>, Error>)
        ensures
            exists|m: Result<Multistatus, Error>|
                #[trigger] self.propfind_outcome(url@, all_properties(), Depth::One, &m) && match m {
                    Ok(ms) => r matches Ok(v) && seq_view(v@) == resources_of(ms@.response),
                    Err(e) => r matches Err(x) && x == e,
                },
    {
        let m = self.propfind(url, &PropFind::AllProp { including: None }, Depth::One);
        let ghost mg = m;
        match m {
            Ok(ms) => Ok(Resource::from_multistatus(&ms)),
            Err(e) => Err(e),
        }
    }

    /// The resource `url`, by a `PROPFIND` for all properties at depth
    /// zero; `None` when the server answers `404 Not Found`.
    pub fn stat(&self, url: &str) -> (r: Result<Option<Resource>, Error>)
        ensures
            exists|m: Result<Multistatus, Error>|
                #[trigger] self.propfind_outcome(url@, all_properties(), Depth::Zero, &m) && stat_answer(&m, &r),
    {
        let m = self.propfind(url, &PropFind::AllProp { including: None }, Depth::Zero);
        let ghost mg = m;
        stat_result(m)
    }

    /// Whether `url` exists, by a `HEAD`: `false` when the server answers
    /// `404 Not Found`.
    pub fn exists_at(&self, url: &str) -> (r: Result<bool, Error>)
        ensures
            exists|h: Result<HttpResponse, Error>| #[trigger] self.head_outcome(url@, &h) && exists_answer(&h, &r),
    {
        let h = self.head(url);
        let ghost hg = h;
        exists_result(h)
    }
}

} // verus!
