//! The HTTP transport a client sends its requests through, and its
//! failures.
use vstd::prelude::*;

use crate::client::request::HttpRequest;
use crate::client::response::HttpResponse;
use crate::text::string_of;

verus! {

/// A blocking HTTP transport: it sends one request and hands back the
/// whole answer. Implement it for the HTTP client of your choice.
pub trait Transport {
    /// Whether `answer` is an answer this transport may give to `request`.
    /// A transport may say what sending a request means by defining this;
    /// one that does not makes no claim on its answers. Either way, a client
    /// that hands a request to [`Transport::send`] learns that the answer it
    /// got is one of these for that very request.
    open spec fn sent(&self, request: HttpRequest, answer: Result<HttpResponse, TransportError>) -> bool {
        true
    }

    /// Sends `request` and waits for the whole answer. An HTTP error status
    /// is an answer, not an error; a connection, timeout or I/O failure is.
    fn send(&self, request: HttpRequest) -> (r: Result<HttpResponse, TransportError>)
        ensures
            self.sent(request, r),
    ;
}

impl<'a, T: Transport> Transport for &'a T {
    open spec fn sent(&self, request: HttpRequest, answer: Result<HttpResponse, TransportError>) -> bool {
        (**self).sent(request, answer)
    }

    fn send(&self, request: HttpRequest) -> (r: Result<HttpResponse, TransportError>) {
        (**self).send(request)
    }
}

impl<T: Transport> Transport for Box<T> {
    open spec fn sent(&self, request: HttpRequest, answer: Result<HttpResponse, TransportError>) -> bool {
        (**self).sent(request, answer)
    }

    fn send(&self, request: HttpRequest) -> (r: Result<HttpResponse, TransportError>) {
        (**self).send(request)
    }
}

impl<T: Transport> Transport for std::sync::Arc<T> {
    open spec fn sent(&self, request: HttpRequest, answer: Result<HttpResponse, TransportError>) -> bool {
        (**self).sent(request, answer)
    }

    fn send(&self, request: HttpRequest) -> (r: Result<HttpResponse, TransportError>) {
        (**self).send(request)
    }
}

/// The kind of a failure below the HTTP layer.
#[derive(Clone, Copy, Debug, PartialEq, Eq, Structural)]
pub enum TransportErrorKind {
    /// No connection could be made.
    Connect,
    /// The request timed out.
    Timeout,
    /// Reading or writing the stream failed.
    Io,
    /// Anything else.
    Other,
}

/// The name of a kind, as `Debug` writes it.
pub open spec fn kind_name(k: TransportErrorKind) -> Seq<char> {
    match k {
        TransportErrorKind::Connect => "Connect"@,
        TransportErrorKind::Timeout => "Timeout"@,
        TransportErrorKind::Io => "Io"@,
        TransportErrorKind::Other => "Other"@,
    }
}

impl TransportErrorKind {
    /// The kind of a failure that a backend describes by three questions,
    /// asked in this order: did the connection fail, did it time out, did
    /// reading or writing fail.
    pub fn classify(connect: bool, timeout: bool, io: bool) -> (r: TransportErrorKind)
        ensures
            r == if connect {
                TransportErrorKind::Connect
            } else if timeout {
                TransportErrorKind::Timeout
            } else if io {
                TransportErrorKind::Io
            } else {
                TransportErrorKind::Other
            },
    {
        if connect {
            TransportErrorKind::Connect
        } else if timeout {
            TransportErrorKind::Timeout
        } else if io {
            TransportErrorKind::Io
        } else {
            TransportErrorKind::Other
        }
    }

    /// The kind's name.
    pub fn name(&self) -> (r: &'static str)
        ensures
            r@ == kind_name(*self),
    {
        match self {
            TransportErrorKind::Connect => "Connect",
            TransportErrorKind::Timeout => "Timeout",
            TransportErrorKind::Io => "Io",
            TransportErrorKind::Other => "Other",
        }
    }
}

/// A failure below the HTTP layer: its kind, and the backend's message.
#[derive(Debug, PartialEq)]
pub struct TransportError {
    kind: TransportErrorKind,
    message: String,
}

pub struct TransportErrorV {
    pub kind: TransportErrorKind,
    pub message: Seq<char>,
}

impl View for TransportError {
    type V = TransportErrorV;

    closed spec fn view(&self) -> TransportErrorV {
        TransportErrorV { kind: self.kind, message: self.message@ }
    }
}

/// `transport error (<kind>): <message>`.
pub open spec fn transport_error_message(e: TransportErrorV) -> Seq<char> {
    "transport error ("@ + kind_name(e.kind) + "): "@ + e.message
}

impl TransportError {
    /// A failure of kind `kind` that the backend describes as `message`.
    pub fn new(kind: TransportErrorKind, message: &str) -> (r: TransportError)
        ensures
            r@ == (TransportErrorV { kind, message: message@ }),
    {
        TransportError { kind, message: string_of(message) }
    }

    /// The failure's kind.
    pub fn kind(&self) -> (r: TransportErrorKind)
        ensures
            r == self@.kind,
    {
        self.kind
    }

    /// The backend's message.
    pub fn message(&self) -> (r: &str)
        ensures
            r@ == self@.message,
    {
        self.message.as_str()
    }

    /// `transport error (<kind>): <message>`.
    pub fn to_string(&self) -> (r: String)
        ensures
            r@ == transport_error_message(self@),
    {
        let mut r = string_of("transport error (");
        r.append(self.kind.name());
        r.append("): ");
        r.append(self.message.as_str());
        r
    }

    /// A copy.
    pub fn copy(&self) -> (r: TransportError)
        ensures
            r@ == self@,
    {
        TransportError { kind: self.kind, message: self.message.clone() }
    }
}

} // verus!
