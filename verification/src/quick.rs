//! The calls into `quick-xml`, each with what this crate relies on of it.
use vstd::prelude::*;

use quick_xml::escape::{resolve_predefined_entity, unescape};
use quick_xml::events::{BytesDecl, BytesEnd, BytesRef, BytesStart, BytesText};

use crate::events::{attr_view, EventV, TokenV};
use crate::name::opt_view;
use crate::write::{OpV, WriteOp};
use quick_xml::events::Event as XmlEvent;
use quick_xml::name::ResolveResult;
use quick_xml::NsReader;

verus! {

#[verifier::external_type_specification]
#[verifier::external_body]
#[verifier::reject_recursive_types(R)]
pub struct ExNsReader<R>(NsReader<R>);

#[verifier::external_type_specification]
#[verifier::external_body]
pub struct ExXmlEvent<'a>(XmlEvent<'a>);

/// The kind of an event that `quick-xml` reported.
#[derive(Clone, Copy, Debug, PartialEq, Eq, Structural)]
pub enum EventKind {
    Start,
    Empty,
    End,
    Text,
    CData,
    Reference,
    Ignored,
    Prolog,
    Eof,
}

/// A namespace-aware reader of a document, with the last event it read;
/// its model is the document and the number of events read so far.
pub struct DocumentReader<'x> {
    reader: NsReader<&'x [u8]>,
    current: Option<XmlEvent<'x>>,
    text: Ghost<Seq<char>>,
    count: Ghost<nat>,
}

impl<'x> View for DocumentReader<'x> {
    type V = (Seq<char>, nat);

    closed spec fn view(&self) -> (Seq<char>, nat) {
        (self.text@, self.count@)
    }
}

/// The event that `quick_xml::NsReader::read_resolved_event` reports when
/// called for the `k`-th time (from 0) on a reader of the document `xml`
/// (`NsReader::from_str`), with the reader's byte position after it
/// (`Reader::buffer_position`).
pub uninterp spec fn document_event(xml: Seq<char>, k: nat) -> EventV;

/// The last event the reader read.
pub open spec fn last_event(r: (Seq<char>, nat)) -> EventV {
    document_event(r.0, (r.1 - 1) as nat)
}

/// Whether an event kind is the kind of a token.
pub open spec fn kind_of(k: EventKind, t: TokenV) -> bool {
    match t {
        TokenV::Start(_) => k is Start,
        TokenV::Empty(_) => k is Empty,
        TokenV::End(_) => k is End,
        TokenV::Text(_) => k is Text,
        TokenV::CData(_) => k is CData,
        TokenV::Reference(_) => k is Reference,
        TokenV::Ignored => k is Ignored,
        TokenV::Prolog => k is Prolog,
        TokenV::Eof => k is Eof,
        TokenV::Failed(_) => true,
    }
}

/// Opens a namespace-aware reader (`NsReader::from_str`) on the document.
#[verifier::external_body]
pub(crate) fn open_reader<'x>(xml: &'x str) -> (r: DocumentReader<'x>)
    ensures
        r@ == (xml@, 0nat),
{
    DocumentReader { reader: NsReader::from_str(xml), current: None, text: Ghost(xml@), count: Ghost(0) }
}

/// Reads the next event (`NsReader::read_resolved_event`) and keeps it.
/// Hands back the namespace URI that the event's prefix is bound to, when
/// it is bound to one, or the reader's error message.
#[verifier::external_body]
pub(crate) fn next_event(r: &mut DocumentReader) -> (res: Result<Option<String>, String>)
    ensures
        final(r)@ == (old(r)@.0, old(r)@.1 + 1),
        match res {
            Err(m) => document_event(old(r)@.0, old(r)@.1).token == TokenV::Failed(m@),
            Ok(ns) => !(document_event(old(r)@.0, old(r)@.1).token is Failed) && match document_event(old(r)@.0, old(r)@.1).token {
                TokenV::Start(t) => t.namespace == opt_view(ns),
                TokenV::Empty(t) => t.namespace == opt_view(ns),
                _ => true,
            },
        },
{
    match r.reader.read_resolved_event() {
        Ok((ResolveResult::Bound(ns), event)) => {
            let ns = String::from_utf8_lossy(ns.as_ref()).into_owned();
            r.current = Some(event);
            Ok(Some(ns))
        },
        Ok((_, event)) => {
            r.current = Some(event);
            Ok(None)
        },
        Err(error) => Err(error.to_string()),
    }
}

/// The reader's byte offset in the document (`Reader::buffer_position`).
#[verifier::external_body]
pub(crate) fn reader_position(r: &DocumentReader) -> (p: u64)
    ensures
        r@.1 > 0 ==> p == last_event(r@).position,
{
    r.reader.buffer_position()
}

/// Which variant of `quick_xml::events::Event` the last event is; comments
/// and processing instructions are `Ignored`, declarations `Prolog`.
#[verifier::external_body]
pub(crate) fn event_kind(r: &DocumentReader) -> (k: EventKind)
    ensures
        r@.1 > 0 ==> kind_of(k, last_event(r@).token),
{
    match &r.current {
        Some(XmlEvent::Start(_)) => EventKind::Start,
        Some(XmlEvent::Empty(_)) => EventKind::Empty,
        Some(XmlEvent::End(_)) => EventKind::End,
        Some(XmlEvent::Text(_)) => EventKind::Text,
        Some(XmlEvent::CData(_)) => EventKind::CData,
        Some(XmlEvent::GeneralRef(_)) => EventKind::Reference,
        Some(XmlEvent::Comment(_)) | Some(XmlEvent::PI(_)) => EventKind::Ignored,
        Some(XmlEvent::Decl(_)) | Some(XmlEvent::DocType(_)) => EventKind::Prolog,
        Some(XmlEvent::Eof) | None => EventKind::Eof,
    }
}

/// The text the last event carries: the name of a closing tag, raw
/// character data, a CDATA section's content or a reference's name; empty
/// for the other events. The reader reads a `str`, so the bytes are UTF-8.
#[verifier::external_body]
pub(crate) fn event_text(r: &DocumentReader) -> (s: String)
    ensures
        r@.1 > 0 ==> match last_event(r@).token {
            TokenV::End(n) => s@ == n,
            TokenV::Text(t) => s@ == t,
            TokenV::CData(t) => s@ == t,
            TokenV::Reference(n) => s@ == n,
            _ => true,
        },
{
    let bytes: &[u8] = match &r.current {
        Some(XmlEvent::End(end)) => end.name().into_inner(),
        Some(XmlEvent::Text(text)) => text,
        Some(XmlEvent::CData(cdata)) => cdata,
        Some(XmlEvent::GeneralRef(reference)) => reference,
        _ => b"",
    };
    String::from_utf8_lossy(bytes).into_owned()
}

/// The qualified and the local name of the last event when it is an
/// opening or self-closing tag (empty for the other events).
#[verifier::external_body]
pub(crate) fn tag_names(r: &DocumentReader) -> (n: (String, String))
    ensures
        r@.1 > 0 ==> match last_event(r@).token {
            TokenV::Start(t) => n.0@ == t.name && n.1@ == t.local_name,
            TokenV::Empty(t) => n.0@ == t.name && n.1@ == t.local_name,
            _ => true,
        },
{
    match &r.current {
        Some(XmlEvent::Start(tag)) | Some(XmlEvent::Empty(tag)) => (
            String::from_utf8_lossy(tag.name().into_inner()).into_owned(),
            String::from_utf8_lossy(tag.local_name().into_inner()).into_owned(),
        ),
        _ => (String::new(), String::new()),
    }
}

/// The attributes of the last event when it is an opening or self-closing
/// tag, read without the duplicate check (`Attributes::with_checks(false)`):
/// each as its key and raw value, or the error reading it.
#[verifier::external_body]
pub(crate) fn tag_attributes(r: &DocumentReader) -> (a: Vec<Result<(String, String), String>>)
    ensures
        r@.1 > 0 ==> match last_event(r@).token {
            TokenV::Start(t) => a@.map_values(|x: Result<(String, String), String>| attr_view(x)) == t.attributes,
            TokenV::Empty(t) => a@.map_values(|x: Result<(String, String), String>| attr_view(x)) == t.attributes,
            _ => true,
        },
{
    let mut attributes = match &r.current {
        Some(XmlEvent::Start(tag)) | Some(XmlEvent::Empty(tag)) => tag.attributes(),
        _ => return Vec::new(),
    };
    attributes.with_checks(false).map(|attribute| match attribute {
        Ok(a) => Ok((String::from_utf8_lossy(a.key.into_inner()).into_owned(), String::from_utf8_lossy(&a.value).into_owned())),
        Err(error) => Err(quick_xml::Error::from(error).to_string()),
    }).collect()
}

/// What `quick_xml::escape::unescape` makes of a raw text: the text with
/// its references replaced, or the error's message.
pub uninterp spec fn unescaped(raw: Seq<char>) -> Result<Seq<char>, Seq<char>>;

pub open spec fn has_no_ampersand(s: Seq<char>) -> bool {
    forall|i: int| 0 <= i < s.len() ==> s[i] != '&'
}

/// Replaces the references in raw character data
/// (`quick_xml::escape::unescape`); a text without `&` comes back as it is.
#[verifier::external_body]
pub(crate) fn unescape_text(raw: &str) -> (r: Result<String, String>)
    ensures
        match r {
            Ok(t) => unescaped(raw@) == Ok::<Seq<char>, Seq<char>>(t@),
            Err(m) => unescaped(raw@) == Err::<Seq<char>, Seq<char>>(m@),
        },
        r is Ok && r->Ok_0@ == raw@ || !has_no_ampersand(raw@),
{
    match unescape(raw) {
        Ok(text) => Ok(text.into_owned()),
        Err(error) => Err(quick_xml::Error::from(error).to_string()),
    }
}

/// What `BytesRef::resolve_char_ref` makes of a reference's name.
pub uninterp spec fn resolved_char_ref(name: Seq<char>) -> Result<Option<char>, Seq<char>>;

/// Resolves a character reference such as `#38` or `#x26`
/// (`BytesRef::resolve_char_ref`); a name that does not start with `#` is
/// no character reference and gives `None`.
#[verifier::external_body]
pub(crate) fn char_reference(name: &str) -> (r: Result<Option<char>, String>)
    ensures
        match r {
            Ok(c) => resolved_char_ref(name@) == Ok::<Option<char>, Seq<char>>(c),
            Err(m) => resolved_char_ref(name@) == Err::<Option<char>, Seq<char>>(m@),
        },
        r is Ok && r->Ok_0 is None || (name@.len() > 0 && name@[0] == '#'),
{
    BytesRef::new(name).resolve_char_ref().map_err(|error| error.to_string())
}

/// The replacement text of the five entities that XML predefines.
pub open spec fn predefined_entity_text(name: Seq<char>) -> Option<Seq<char>> {
    if name == "lt"@ {
        Some("<"@)
    } else if name == "gt"@ {
        Some(">"@)
    } else if name == "amp"@ {
        Some("&"@)
    } else if name == "apos"@ {
        Some("'"@)
    } else if name == "quot"@ {
        Some("\""@)
    } else {
        None
    }
}

/// Resolves a predefined entity (`quick_xml::escape::resolve_predefined_entity`).
#[verifier::external_body]
pub(crate) fn predefined_entity(name: &str) -> (r: Option<&'static str>)
    ensures
        match r {
            Some(t) => predefined_entity_text(name@) == Some(t@),
            None => predefined_entity_text(name@) is None,
        },
{
    resolve_predefined_entity(name)
}


#[verifier::external_type_specification]
#[verifier::external_body]
#[verifier::reject_recursive_types(W)]
pub struct ExXmlWriter<W>(quick_xml::Writer<W>);

/// A writer of a document into memory, indented by two spaces; its model is
/// the operations written so far.
pub struct DocumentWriter {
    writer: quick_xml::Writer<Vec<u8>>,
    written: Ghost<Seq<OpV>>,
}

impl View for DocumentWriter {
    type V = Seq<OpV>;

    closed spec fn view(&self) -> Seq<OpV> {
        self.written@
    }
}

/// The bytes a `quick-xml` writer that indents by two spaces
/// (`Writer::new_with_indent`) holds after the operations are written in
/// order (`Writer::write_event`).
pub uninterp spec fn written_bytes(ops: Seq<OpV>) -> Seq<u8>;

/// A writer into memory that indents by two spaces
/// (`quick_xml::Writer::new_with_indent`), with nothing written.
#[verifier::external_body]
pub(crate) fn open_writer() -> (w: DocumentWriter)
    ensures
        w@ == Seq::<OpV>::empty(),
{
    DocumentWriter { writer: quick_xml::Writer::new_with_indent(Vec::new(), b' ', 2), written: Ghost(Seq::empty()) }
}

/// Writes one operation (`quick_xml::Writer::write_event`); text is escaped.
/// The writer fails only where the memory it writes into does, and writing
/// into a `Vec<u8>` appends and does not fail.
#[verifier::external_body]
pub(crate) fn write_op(w: &mut DocumentWriter, op: &WriteOp)
    ensures
        final(w)@ == old(w)@.push(op@),
{
    let event = match op {
        WriteOp::Declaration => XmlEvent::Decl(BytesDecl::new("1.0", Some("utf-8"), None)),
        WriteOp::Start { name, attributes } => XmlEvent::Start(BytesStart::new(name).with_attributes(attributes.iter().map(|(k, v)| (k.as_str(), v.as_str())))),
        WriteOp::Empty { name, attributes } => XmlEvent::Empty(BytesStart::new(name).with_attributes(attributes.iter().map(|(k, v)| (k.as_str(), v.as_str())))),
        WriteOp::End { name } => XmlEvent::End(BytesEnd::new(name)),
        WriteOp::Text(text) => XmlEvent::Text(BytesText::new(text)),
    };
    let _ = w.writer.write_event(event);
}

/// The bytes written (`quick_xml::Writer::into_inner`).
#[verifier::external_body]
pub(crate) fn writer_output(w: DocumentWriter) -> (r: Vec<u8>)
    ensures
        r@ == written_bytes(w@),
{
    w.writer.into_inner()
}

} // verus!
