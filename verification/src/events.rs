//! The XML events a document is read from, as plain values.
use vstd::prelude::*;

use crate::name::opt_view;

verus! {

/// An opening or self-closing tag.
#[derive(Debug, PartialEq)]
pub struct Tag {
    /// The namespace URI the tag's prefix resolves to, if it resolves to one.
    pub namespace: Option<String>,
    /// The name as written, prefix included.
    pub name: String,
    /// The name without its prefix.
    pub local_name: String,
    /// The attributes, in document order: each as its key and value, or the
    /// error reading it. Reading goes on after an attribute that fails.
    pub attributes: Vec<Result<(String, String), String>>,
}

/// One event of an XML document.
#[derive(Debug, PartialEq)]
pub enum Token {
    /// `<name ...>`
    Start(Tag),
    /// `<name .../>`
    Empty(Tag),
    /// `</name>`, with the name as written.
    End(String),
    /// Character data, still escaped.
    Text(String),
    /// The content of a CDATA section.
    CData(String),
    /// An entity or character reference: the part between `&` and `;`.
    Reference(String),
    /// A comment or a processing instruction.
    Ignored,
    /// The XML declaration or a document type declaration.
    Prolog,
    /// The end of the document.
    Eof,
    /// The document could not be read further; the reader's message.
    Failed(String),
}

/// An event with the reader's byte position after it.
#[derive(Debug, PartialEq)]
pub struct Event {
    pub token: Token,
    pub position: u64,
}

pub type AttrV = Result<(Seq<char>, Seq<char>), Seq<char>>;

pub struct TagV {
    pub namespace: Option<Seq<char>>,
    pub name: Seq<char>,
    pub local_name: Seq<char>,
    pub attributes: Seq<AttrV>,
}

pub enum TokenV {
    Start(TagV),
    Empty(TagV),
    End(Seq<char>),
    Text(Seq<char>),
    CData(Seq<char>),
    Reference(Seq<char>),
    Ignored,
    Prolog,
    Eof,
    Failed(Seq<char>),
}

pub struct EventV {
    pub token: TokenV,
    pub position: u64,
}

pub open spec fn attr_view(a: Result<(String, String), String>) -> AttrV {
    match a {
        Ok((k, v)) => Ok((k@, v@)),
        Err(e) => Err(e@),
    }
}

impl View for Tag {
    type V = TagV;

    open spec fn view(&self) -> TagV {
        TagV {
            namespace: opt_view(self.namespace),
            name: self.name@,
            local_name: self.local_name@,
            attributes: self.attributes@.map_values(|a: Result<(String, String), String>| attr_view(a)),
        }
    }
}

impl View for Token {
    type V = TokenV;

    open spec fn view(&self) -> TokenV {
        match self {
            Token::Start(t) => TokenV::Start(t@),
            Token::Empty(t) => TokenV::Empty(t@),
            Token::End(n) => TokenV::End(n@),
            Token::Text(s) => TokenV::Text(s@),
            Token::CData(s) => TokenV::CData(s@),
            Token::Reference(s) => TokenV::Reference(s@),
            Token::Ignored => TokenV::Ignored,
            Token::Prolog => TokenV::Prolog,
            Token::Eof => TokenV::Eof,
            Token::Failed(s) => TokenV::Failed(s@),
        }
    }
}

impl View for Event {
    type V = EventV;

    open spec fn view(&self) -> EventV {
        EventV { token: self.token@, position: self.position }
    }
}

pub open spec fn events_view(s: Seq<Event>) -> Seq<EventV> {
    s.map_values(|e: Event| e@)
}

} // verus!
