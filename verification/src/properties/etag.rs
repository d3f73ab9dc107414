//! Entity tags.
use vstd::prelude::*;

use crate::element::Element;
use crate::error::{Error, ErrorV};
use crate::text::{concat, from_chars, has_prefix, is_ws, lemma_trim_plain, starts_with, string_of, subchars, to_chars, trim, trim_text};
use crate::value::{Value, ValueV};

verus! {

/// The `getetag` property: an entity tag, weak or strong.
#[derive(Debug, PartialEq)]
pub struct ETag {
    /// Whether the tag is weak (`W/` prefix).
    pub weak: bool,
    /// The opaque tag, without quotes.
    pub tag: String,
}

pub struct ETagV {
    pub weak: bool,
    pub tag: Seq<char>,
}

impl View for ETag {
    type V = ETagV;

    open spec fn view(&self) -> ETagV {
        ETagV { weak: self.weak, tag: self.tag@ }
    }
}

/// The text without its enclosing double quotes, if it has both.
pub open spec fn unquoted(s: Seq<char>) -> Seq<char> {
    if s.len() >= 2 && s[0] == '"' && s.last() == '"' {
        s.subrange(1, s.len() - 1)
    } else {
        s
    }
}

/// What parsing an entity tag gives; any text is a tag.
pub open spec fn parse_etag(s: Seq<char>) -> ETagV {
    let t = trim(s);
    if has_prefix(t, "W/"@) {
        ETagV { weak: true, tag: unquoted(t.subrange(2, t.len() as int)) }
    } else {
        ETagV { weak: false, tag: unquoted(t) }
    }
}

/// The entity tag as HTTP writes it.
pub open spec fn etag_text(e: ETagV) -> Seq<char> {
    (if e.weak {
        "W/"@
    } else {
        Seq::empty()
    }) + seq!['"'] + e.tag + seq!['"']
}

impl ETag {
    /// A strong tag.
    pub fn strong(tag: &str) -> (r: ETag)
        ensures
            r@ == (ETagV { weak: false, tag: tag@ }),
    {
        ETag { weak: false, tag: crate::text::string_of(tag) }
    }

    /// A weak tag.
    pub fn weak(tag: &str) -> (r: ETag)
        ensures
            r@ == (ETagV { weak: true, tag: tag@ }),
    {
        ETag { weak: true, tag: crate::text::string_of(tag) }
    }

    /// Reads an entity tag: an optional `W/`, and the tag, whose enclosing
    /// quotes are dropped.
    pub fn from_str(s: &str) -> (r: ETag)
        ensures
            r@ == parse_etag(s@),
    {
        let t = trim_text(s);
        proof {
            reveal_strlit("W/");
        }
        let chars = to_chars(t.as_str());
        let (weak, rest) = if starts_with(t.as_str(), "W/") {
            (true, subchars(chars.as_slice(), 2, chars.len()))
        } else {
            (false, chars)
        };
        let n = rest.len();
        let tag = if n >= 2 && rest[0] == '"' && rest[n - 1] == '"' {
            subchars(rest.as_slice(), 1, n - 1)
        } else {
            rest
        };
        ETag { weak, tag: from_chars(tag.as_slice()) }
    }

    /// The entity tag as HTTP writes it.
    pub fn to_string(&self) -> (r: String)
        ensures
            r@ == etag_text(self@),
    {
        let mut s = if self.weak {
            string_of("W/")
        } else {
            String::new()
        };
        s.append("\"");
        s.append(self.tag.as_str());
        s.append("\"");
        proof {
            reveal_strlit("\"");
            reveal_strlit("W/");
        }
        assert(s@ =~= etag_text(self@));
        s
    }

    pub fn copy(&self) -> (r: ETag)
        ensures
            r@ == self@,
    {
        ETag { weak: self.weak, tag: self.tag.clone() }
    }
}

impl Element for ETag {
    open spec fn spec_local_name() -> Seq<char> {
        "getetag"@
    }

    fn local_name() -> (r: &'static str) {
        "getetag"
    }

    open spec fn spec_from_value(v: ValueV) -> Result<ETagV, ErrorV> {
        match v {
            ValueV::Text(t) => Ok(parse_etag(t)),
            _ => Err(ErrorV::InvalidValueType { element: "getetag"@, expected: "text"@ }),
        }
    }

    fn from_value(v: &Value) -> (r: Result<ETag, Error>) {
        match v.as_str_of_name("getetag") {
            Ok(t) => Ok(ETag::from_str(t.as_str())),
            Err(e) => Err(e),
        }
    }

    open spec fn spec_into_value(x: ETagV) -> ValueV {
        ValueV::Text(etag_text(x))
    }

    fn into_value(self) -> (r: Value) {
        Value::Text(self.to_string())
    }
}

/// An entity tag reads back from its text.
pub proof fn lemma_etag_text_round_trip(e: ETagV)
    ensures
        parse_etag(etag_text(e)) == e,
{
    reveal_strlit("W/");
    let s = etag_text(e);
    assert(!is_ws(s[0]));
    assert(s.last() == '"');
    lemma_trim_plain(s);
    if e.weak {
        assert(s.subrange(0, 2) =~= "W/"@);
        assert(s.subrange(2, s.len() as int) =~= seq!['"'] + e.tag + seq!['"']);
        assert(unquoted(seq!['"'] + e.tag + seq!['"']) =~= e.tag);
    } else {
        assert(s[0] == '"');
        assert("W/"@[0] == 'W');
        if s.len() >= 2 {
            assert(s.subrange(0, 2)[0] == '"');
        }
        assert(!has_prefix(s, "W/"@));
        assert(unquoted(s) =~= e.tag);
    }
}

/// An entity tag reads back from the value it is written as.
pub proof fn lemma_etag_round_trip(e: ETagV)
    ensures
        ETag::spec_from_value(ETag::spec_into_value(e)) == Ok::<ETagV, ErrorV>(e),
{
    lemma_etag_text_round_trip(e);
}

impl std::str::FromStr for ETag {
    type Err = std::convert::Infallible;

    fn from_str(s: &str) -> Result<ETag, std::convert::Infallible> {
        Ok(ETag::from_str(s))
    }
}

} // verus!
