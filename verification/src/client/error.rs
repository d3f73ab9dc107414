//! The errors of a client call.
use vstd::prelude::*;

use crate::client::transport::{transport_error_message, TransportError};
use crate::elements::error::{DavError, DavErrorV};
use crate::elements::multistatus::{failures_of, Multistatus};
use crate::elements::status::{canonical_reason, canonical_reason_of};
use crate::error::message;
use crate::text::{decimal_text, string_of, u64_text};

verus! {

/// What can go wrong while building a request or reading its answer.
#[derive(Debug, PartialEq)]
pub enum Error {
    /// A failure below the HTTP layer.
    Transport(TransportError),
    /// The server answered with a status that is not a success.
    Status {
        /// The status code.
        status: u16,
        /// The `DAV:error` body, when the answer carried one.
        error: Option<DavError>,
        /// The body as it came.
        body: Vec<u8>,
    },
    /// A `207 Multi-Status` answer reported failures.
    Multistatus(Multistatus),
    /// A body could not be read or written as WebDAV XML.
    Xml(crate::error::Error),
    /// A URL given by the caller is not a valid URI; the parser's message.
    InvalidUrl(String),
    /// A value given by the caller cannot be a header value.
    InvalidHeader(String),
    /// An argument given by the caller is not allowed, and why.
    InvalidArgument(&'static str),
    /// A lock request got no lock token back.
    MissingLockToken,
    /// The request could not be built; the builder's message.
    Http(String),
}

/// `<code> <reason>`, as `http::StatusCode` displays a status.
pub open spec fn status_line_text(code: u16) -> Seq<char> {
    decimal_text(code as nat) + " "@ + match if 100 <= code <= 999 {
        canonical_reason_of(code)
    } else {
        None
    } {
        Some(t) => t,
        None => "<unknown status code>"@,
    }
}

/// The message of an error.
pub open spec fn error_message(e: &Error) -> Seq<char> {
    match e {
        Error::Transport(t) => transport_error_message(t@),
        Error::Status { status, .. } => "server returned "@ + status_line_text(*status),
        Error::Multistatus(m) => "multi-status with "@ + decimal_text(failures_of(m@.response).len()) + " failures"@,
        Error::Xml(x) => message(x@),
        Error::InvalidUrl(m) => m@,
        Error::InvalidHeader(m) => m@,
        Error::InvalidArgument(a) => "invalid argument: "@ + a@,
        Error::MissingLockToken => "missing lock token"@,
        Error::Http(m) => m@,
    }
}

impl Error {
    /// The status of an [`Error::Status`].
    pub fn status(&self) -> (r: Option<u16>)
        ensures
            r == match self {
                Error::Status { status, .. } => Some(*status),
                _ => None::<u16>,
            },
    {
        match self {
            Error::Status { status, .. } => Some(*status),
            _ => None,
        }
    }

    /// The `DAV:error` body of an [`Error::Status`], when it had one.
    pub fn dav_error(&self) -> (r: Option<&DavError>)
        ensures
            match self {
                Error::Status { error: Some(d), .. } => r matches Some(x) && x@ == d@,
                _ => r is None,
            },
    {
        match self {
            Error::Status { error, .. } => match error {
                Some(d) => Some(d),
                None => None,
            },
            _ => None,
        }
    }

    /// The error's message.
    pub fn to_string(&self) -> (r: String)
        ensures
            r@ == error_message(self),
    {
        match self {
            Error::Transport(t) => t.to_string(),
            Error::Status { status, .. } => {
                let mut r = string_of("server returned ");
                let code = u64_text(*status as u64);
                r.append(code.as_str());
                r.append(" ");
                let reason = if *status < 100 || *status > 999 {
                    None
                } else {
                    canonical_reason(*status)
                };
                match reason {
                    Some(t) => r.append(t),
                    None => r.append("<unknown status code>"),
                }
                r
            },
            Error::Multistatus(m) => {
                let failures = m.failures();
                let n = failures.len();
                proof {
                    crate::elements::multistatus::lemma_pairs_view_len(failures@);
                }
                let mut r = string_of("multi-status with ");
                let count = u64_text(n as u64);
                r.append(count.as_str());
                r.append(" failures");
                r
            },
            Error::Xml(x) => x.to_string(),
            Error::InvalidUrl(m) => m.clone(),
            Error::InvalidHeader(m) => m.clone(),
            Error::InvalidArgument(a) => {
                let mut r = string_of("invalid argument: ");
                r.append(a);
                r
            },
            Error::MissingLockToken => string_of("missing lock token"),
            Error::Http(m) => m.clone(),
        }
    }
}

} // verus!
