//! The length and media type of a resource's content.
use vstd::prelude::*;

use crate::element::Element;
use crate::error::{Error, ErrorV};
use crate::text::{decimal_text, lemma_parse_decimal_text, parse_u64_spec, parse_u64_text, u64_error_message, u64_text};
use crate::value::{Value, ValueV};

verus! {

/// The `getcontentlength` property: the length of a GET response's body.
#[derive(Clone, Copy, Debug, PartialEq, Eq)]
pub struct ContentLength(pub u64);

impl View for ContentLength {
    type V = u64;

    open spec fn view(&self) -> u64 {
        self.0
    }
}

impl Element for ContentLength {
    open spec fn spec_local_name() -> Seq<char> {
        "getcontentlength"@
    }

    fn local_name() -> (r: &'static str) {
        "getcontentlength"
    }

    /// A decimal number, as `u64::from_str` reads it.
    open spec fn spec_from_value(v: ValueV) -> Result<u64, ErrorV> {
        match v {
            ValueV::Text(t) => match parse_u64_spec(t) {
                Some(n) => Ok(n),
                None => Err(ErrorV::InvalidElement { element: "getcontentlength"@, source: u64_error_message(t) }),
            },
            _ => Err(ErrorV::InvalidValueType { element: "getcontentlength"@, expected: "text"@ }),
        }
    }

    fn from_value(v: &Value) -> (r: Result<ContentLength, Error>) {
        let text = match v.as_str_of_name("getcontentlength") {
            Ok(t) => t,
            Err(e) => return Err(e),
        };
        match parse_u64_text(text.as_str()) {
            Ok(n) => Ok(ContentLength(n)),
            Err(m) => Err(Error::invalid("getcontentlength", m)),
        }
    }

    open spec fn spec_into_value(x: u64) -> ValueV {
        ValueV::Text(decimal_text(x as nat))
    }

    fn into_value(self) -> (r: Value) {
        Value::Text(u64_text(self.0))
    }
}

/// A content length reads back from the value it is written as.
pub proof fn lemma_content_length_round_trip(n: u64)
    ensures
        ContentLength::spec_from_value(ContentLength::spec_into_value(n)) == Ok::<u64, ErrorV>(n),
{
    lemma_parse_decimal_text(n);
}

/// What `mime::Mime` makes of a text: the media type as it displays it, or
/// the error's message.
pub uninterp spec fn mime_text(text: Seq<char>) -> Result<Seq<char>, Seq<char>>;

/// Parses a media type (`mime::Mime::from_str`) and hands back its display
/// form, or the error's message.
#[verifier::external_body]
fn parse_mime(text: &str) -> (r: Result<String, String>)
    ensures
        match r {
            Ok(t) => mime_text(text@) == Ok::<Seq<char>, Seq<char>>(t@),
            Err(m) => mime_text(text@) == Err::<Seq<char>, Seq<char>>(m@),
        },
{
    text.parse::<mime::Mime>().map(|media| media.to_string()).map_err(|error| error.to_string())
}

/// The `getcontenttype` property: a media type, in the form `mime` displays.
#[derive(Debug, PartialEq)]
pub struct ContentType(pub String);

impl View for ContentType {
    type V = Seq<char>;

    open spec fn view(&self) -> Seq<char> {
        self.0@
    }
}

impl ContentType {
    /// Parses a media type.
    pub fn from_str(text: &str) -> (r: Result<ContentType, String>)
        ensures
            match mime_text(text@) {
                Ok(t) => (r matches Ok(c) && c@ == t),
                Err(m) => (r matches Err(e) && e@ == m),
            },
    {
        match parse_mime(text) {
            Ok(t) => Ok(ContentType(t)),
            Err(m) => Err(m),
        }
    }
}

impl Element for ContentType {
    open spec fn spec_local_name() -> Seq<char> {
        "getcontenttype"@
    }

    fn local_name() -> (r: &'static str) {
        "getcontenttype"
    }

    open spec fn spec_from_value(v: ValueV) -> Result<Seq<char>, ErrorV> {
        match v {
            ValueV::Text(t) => match mime_text(t) {
                Ok(c) => Ok(c),
                Err(m) => Err(ErrorV::InvalidElement { element: "getcontenttype"@, source: m }),
            },
            _ => Err(ErrorV::InvalidValueType { element: "getcontenttype"@, expected: "text"@ }),
        }
    }

    fn from_value(v: &Value) -> (r: Result<ContentType, Error>) {
        let text = match v.as_str_of_name("getcontenttype") {
            Ok(t) => t,
            Err(e) => return Err(e),
        };
        match parse_mime(text.as_str()) {
            Ok(t) => Ok(ContentType(t)),
            Err(m) => Err(Error::invalid("getcontenttype", m)),
        }
    }

    open spec fn spec_into_value(x: Seq<char>) -> ValueV {
        ValueV::Text(x)
    }

    fn into_value(self) -> (r: Value) {
        Value::Text(self.0)
    }
}

} // verus!
