//! The errors raised while reading or writing WebDAV XML.
use vstd::prelude::*;

use crate::text::{concat, string_of, u64_text, decimal_text};

verus! {

/// Errors raised while reading or writing `WebDAV` XML.
#[derive(Debug, PartialEq)]
pub enum Error {
    /// The element holds a different kind of content than expected.
    InvalidValueType {
        /// Local name of the element being parsed.
        element: &'static str,
        /// Human-readable description of the expected content.
        expected: &'static str,
    },
    /// A mandatory child element is absent.
    MissingElement {
        /// Local name of the parent element.
        parent: &'static str,
        /// Local name of the missing child.
        element: &'static str,
    },
    /// Mutually exclusive children appear together.
    ConflictingElements {
        /// Local name of the parent element.
        parent: &'static str,
        /// Description of the conflicting children.
        elements: &'static str,
    },
    /// The text of an element could not be converted into its typed value.
    InvalidElement {
        /// Local name of the element.
        element: &'static str,
        /// What the conversion reported.
        source: String,
    },
    /// A prefix is bound to an empty namespace URI.
    InvalidNamespace(String),
    /// A closing tag does not match its opening tag or content is invalid.
    UnexpectedTag {
        /// Byte offset of the offending event.
        position: u64,
    },
    /// An entity reference that is neither predefined nor a character
    /// reference.
    UnknownEntity(String),
    /// The underlying XML parser or writer failed.
    Xml(String),
    /// Writing to the output failed.
    Io(String),
    /// The document is not valid UTF-8.
    Utf8(String),
}

/// The abstract content of an [`Error`].
pub enum ErrorV {
    InvalidValueType { element: Seq<char>, expected: Seq<char> },
    MissingElement { parent: Seq<char>, element: Seq<char> },
    ConflictingElements { parent: Seq<char>, elements: Seq<char> },
    InvalidElement { element: Seq<char>, source: Seq<char> },
    InvalidNamespace(Seq<char>),
    UnexpectedTag { position: u64 },
    UnknownEntity(Seq<char>),
    Xml(Seq<char>),
    Io(Seq<char>),
    Utf8(Seq<char>),
}

impl View for Error {
    type V = ErrorV;

    open spec fn view(&self) -> ErrorV {
        match self {
            Error::InvalidValueType { element, expected } => ErrorV::InvalidValueType {
                element: element@,
                expected: expected@,
            },
            Error::MissingElement { parent, element } => ErrorV::MissingElement {
                parent: parent@,
                element: element@,
            },
            Error::ConflictingElements { parent, elements } => ErrorV::ConflictingElements {
                parent: parent@,
                elements: elements@,
            },
            Error::InvalidElement { element, source } => ErrorV::InvalidElement {
                element: element@,
                source: source@,
            },
            Error::InvalidNamespace(s) => ErrorV::InvalidNamespace(s@),
            Error::UnexpectedTag { position } => ErrorV::UnexpectedTag { position: *position },
            Error::UnknownEntity(s) => ErrorV::UnknownEntity(s@),
            Error::Xml(s) => ErrorV::Xml(s@),
            Error::Io(s) => ErrorV::Io(s@),
            Error::Utf8(s) => ErrorV::Utf8(s@),
        }
    }
}

/// The view of a result whose error is an [`Error`].
pub open spec fn res_view<T: View>(r: Result<T, Error>) -> Result<T::V, ErrorV> {
    match r {
        Ok(t) => Ok(t@),
        Err(e) => Err(e@),
    }
}

pub open spec fn bq() -> Seq<char> {
    seq!['`']
}

/// The human-readable message of an error.
pub open spec fn message(e: ErrorV) -> Seq<char> {
    match e {
        ErrorV::InvalidValueType { element, expected } => bq() + element + "` element: expected "@
            + expected,
        ErrorV::MissingElement { parent, element } => "missing `"@ + element + "` element inside `"@
            + parent + bq(),
        ErrorV::ConflictingElements { parent, elements } => "conflicting elements inside `"@
            + parent + "`: "@ + elements,
        ErrorV::InvalidElement { element, source } => "invalid `"@ + element + "` element: "@
            + source,
        ErrorV::InvalidNamespace(ns) => "invalid namespace declaration: \""@ + ns + "\""@,
        ErrorV::UnexpectedTag { position } => "unexpected tag at byte "@ + decimal_text(
            position as nat,
        ),
        ErrorV::UnknownEntity(name) => "unknown entity reference: `&"@ + name + ";`"@,
        ErrorV::Xml(s) => s,
        ErrorV::Io(s) => s,
        ErrorV::Utf8(s) => s,
    }
}

impl Error {
    /// The human-readable message of this error.
    pub fn to_string(&self) -> (r: String)
        ensures
            r@ == message(self@),
    {
        match self {
            Error::InvalidValueType { element, expected } => {
                let mut r = concat("`", element);
                r.append("` element: expected ");
                r.append(expected);
                proof {
                    reveal_strlit("`");
                    assert("`"@ =~= bq());
                }
                r
            },
            Error::MissingElement { parent, element } => {
                let mut r = concat("missing `", element);
                r.append("` element inside `");
                r.append(parent);
                r.append("`");
                proof {
                    reveal_strlit("`");
                    assert("`"@ =~= bq());
                }
                r
            },
            Error::ConflictingElements { parent, elements } => {
                let mut r = concat("conflicting elements inside `", parent);
                r.append("`: ");
                r.append(elements);
                r
            },
            Error::InvalidElement { element, source } => {
                let mut r = concat("invalid `", element);
                r.append("` element: ");
                r.append(source.as_str());
                r
            },
            Error::InvalidNamespace(ns) => {
                let mut r = concat("invalid namespace declaration: \"", ns.as_str());
                r.append("\"");
                r
            },
            Error::UnexpectedTag { position } => {
                let n = u64_text(*position);
                concat("unexpected tag at byte ", n.as_str())
            },
            Error::UnknownEntity(name) => {
                let mut r = concat("unknown entity reference: `&", name.as_str());
                r.append(";`");
                r
            },
            Error::Xml(s) => s.clone(),
            Error::Io(s) => s.clone(),
            Error::Utf8(s) => s.clone(),
        }
    }

    /// Wrap a conversion error with the name of the element being parsed.
    pub fn invalid(element: &'static str, source: String) -> (r: Self)
        ensures
            r@ == (ErrorV::InvalidElement { element: element@, source: source@ }),
    {
        Error::InvalidElement { element, source }
    }
}

/// Construction helpers whose views the contracts name.
pub fn invalid_value_type(element: &'static str, expected: &'static str) -> (r: Error)
    ensures
        r@ == (ErrorV::InvalidValueType { element: element@, expected: expected@ }),
{
    Error::InvalidValueType { element, expected }
}

pub fn missing_element(parent: &'static str, element: &'static str) -> (r: Error)
    ensures
        r@ == (ErrorV::MissingElement { parent: parent@, element: element@ }),
{
    Error::MissingElement { parent, element }
}

pub fn conflicting(parent: &'static str, elements: &'static str) -> (r: Error)
    ensures
        r@ == (ErrorV::ConflictingElements { parent: parent@, elements: elements@ }),
{
    Error::ConflictingElements { parent, elements }
}

impl Error {
    /// A copy of this error.
    pub fn copy(&self) -> (r: Error)
        ensures
            r@ == self@,
    {
        match self {
            Error::InvalidValueType { element, expected } => Error::InvalidValueType {
                element,
                expected,
            },
            Error::MissingElement { parent, element } => Error::MissingElement { parent, element },
            Error::ConflictingElements { parent, elements } => Error::ConflictingElements {
                parent,
                elements,
            },
            Error::InvalidElement { element, source } => Error::InvalidElement {
                element,
                source: source.clone(),
            },
            Error::InvalidNamespace(s) => Error::InvalidNamespace(s.clone()),
            Error::UnexpectedTag { position } => Error::UnexpectedTag { position: *position },
            Error::UnknownEntity(s) => Error::UnknownEntity(s.clone()),
            Error::Xml(s) => Error::Xml(s.clone()),
            Error::Io(s) => Error::Io(s.clone()),
            Error::Utf8(s) => Error::Utf8(s.clone()),
        }
    }
}

} // verus!
