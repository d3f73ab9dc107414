//! The depth of a request.
use vstd::prelude::*;

use crate::element::Element;
use crate::error::{Error, ErrorV};
use crate::text::{concat, eq_ignore_case, lemma_trim_plain, string_of, text_eq_ignore_case, text_is, trim, trim_text};
use crate::value::{Value, ValueV};

verus! {

/// The depth requested for a `WebDAV` operation (RFC 4918, section 10.2).
#[derive(Clone, Copy, Debug, Default, PartialEq, Eq, Structural, Hash)]
pub enum Depth {
    /// The resource only.
    #[default]
    Zero,
    /// The resource and its immediate children.
    One,
    /// The resource and all its descendants.
    Infinity,
}

impl View for Depth {
    type V = Depth;

    open spec fn view(&self) -> Depth {
        *self
    }
}

/// A depth that is none of `0`, `1` and `infinity`; it holds the trimmed
/// text.
#[derive(Debug, PartialEq)]
pub struct InvalidDepth(pub String);

/// What parsing a depth gives: the depth, or the trimmed text.
pub open spec fn parse_depth(s: Seq<char>) -> Result<Depth, Seq<char>> {
    let t = trim(s);
    if t == "0"@ {
        Ok(Depth::Zero)
    } else if t == "1"@ {
        Ok(Depth::One)
    } else if eq_ignore_case(t, "infinity"@) {
        Ok(Depth::Infinity)
    } else {
        Err(t)
    }
}

pub open spec fn depth_text(d: Depth) -> Seq<char> {
    match d {
        Depth::Zero => "0"@,
        Depth::One => "1"@,
        Depth::Infinity => "infinity"@,
    }
}

pub open spec fn invalid_depth_message(t: Seq<char>) -> Seq<char> {
    "invalid depth: "@ + t
}

impl InvalidDepth {
    /// The error's message.
    pub fn to_string(&self) -> (r: String)
        ensures
            r@ == invalid_depth_message(self.0@),
    {
        concat("invalid depth: ", self.0.as_str())
    }
}

impl Depth {
    /// Parses `0`, `1` or `infinity` (in any case), around whitespace.
    pub fn from_str(s: &str) -> (r: Result<Depth, InvalidDepth>)
        ensures
            match parse_depth(s@) {
                Ok(d) => r == Ok::<Depth, InvalidDepth>(d),
                Err(t) => (r matches Err(e) && e.0@ == t),
            },
    {
        let t = trim_text(s);
        if text_is(t.as_str(), "0") {
            Ok(Depth::Zero)
        } else if text_is(t.as_str(), "1") {
            Ok(Depth::One)
        } else if text_eq_ignore_case(t.as_str(), "infinity") {
            Ok(Depth::Infinity)
        } else {
            Err(InvalidDepth(t))
        }
    }

    /// The depth as a header value.
    pub fn to_string(&self) -> (r: String)
        ensures
            r@ == depth_text(*self),
    {
        match self {
            Depth::Zero => string_of("0"),
            Depth::One => string_of("1"),
            Depth::Infinity => string_of("infinity"),
        }
    }
}

impl Element for Depth {
    open spec fn spec_local_name() -> Seq<char> {
        "depth"@
    }

    fn local_name() -> (r: &'static str) {
        "depth"
    }

    open spec fn spec_from_value(v: ValueV) -> Result<Depth, ErrorV> {
        match v {
            ValueV::Text(t) => match parse_depth(t) {
                Ok(d) => Ok(d),
                Err(x) => Err(ErrorV::InvalidElement { element: "depth"@, source: invalid_depth_message(x) }),
            },
            _ => Err(ErrorV::InvalidValueType { element: "depth"@, expected: "text"@ }),
        }
    }

    fn from_value(v: &Value) -> (r: Result<Depth, Error>) {
        let text = match v.as_str_of_name("depth") {
            Ok(t) => t,
            Err(e) => return Err(e),
        };
        match Depth::from_str(text.as_str()) {
            Ok(d) => Ok(d),
            Err(e) => Err(Error::invalid("depth", e.to_string())),
        }
    }

    open spec fn spec_into_value(x: Depth) -> ValueV {
        ValueV::Text(depth_text(x))
    }

    fn into_value(self) -> (r: Value) {
        Value::Text(self.to_string())
    }
}

/// A depth parses back from its header value.
pub proof fn lemma_depth_text_round_trip(d: Depth)
    ensures
        parse_depth(depth_text(d)) == Ok::<Depth, Seq<char>>(d),
{
    reveal_strlit("0");
    reveal_strlit("1");
    reveal_strlit("infinity");
    lemma_trim_plain(depth_text(d));
    assert("infinity"@.len() == 8);
    assert(eq_ignore_case("infinity"@, "infinity"@));
}

/// A depth reads back from the value it is written as.
pub proof fn lemma_depth_round_trip(d: Depth)
    ensures
        Depth::spec_from_value(Depth::spec_into_value(d)) == Ok::<Depth, ErrorV>(d),
{
    lemma_depth_text_round_trip(d);
}

impl std::str::FromStr for Depth {
    type Err = InvalidDepth;

    fn from_str(s: &str) -> Result<Depth, InvalidDepth> {
        Depth::from_str(s)
    }
}

} // verus!
