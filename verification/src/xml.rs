//! Whole documents: reading a typed element from XML bytes and writing one.
use vstd::prelude::*;

use crate::element::{element_name, map_of, required_child, Element};
use crate::error::{res_view, Error, ErrorV};
use crate::events::EventV;
use crate::name::dav_name;
use crate::read::{document_events, document_value, read_xml};
use crate::text::utf8_error_message;
use crate::value::{Value, ValueV};
use crate::quick::written_bytes;
use crate::write::{document_ops, write_xml, OpV};

verus! {

/// What a document whose events are `ev` gives as an element of type `E`:
/// the document's value must hold the root element, and the root element must
/// be an `E`.
pub open spec fn element_from_document<E: Element>(ev: Seq<EventV>) -> Result<E::V, ErrorV> {
    match document_value(ev) {
        Err(e) => Err(e),
        Ok(v) => match map_of("value"@, v) {
            Err(e) => Err(e),
            Ok(m) => required_child::<E>(m, E::spec_local_name()),
        },
    }
}

/// Reading from an XML document.
pub trait FromXml: Sized + View {
    /// What a document whose events are `ev` gives.
    spec fn spec_from_document(ev: Seq<EventV>) -> Result<Self::V, ErrorV>;

    /// Parses `xml`: bytes that are not UTF-8 are an [`Error::Utf8`];
    /// otherwise the result is what the document's events, as `quick-xml`
    /// reports them ([`document_events`]), give.
    fn from_xml(xml: Vec<u8>) -> (r: Result<Self, Error>)
        ensures
            !vstd::utf8::valid_utf8(xml@) ==> (r matches Err(e) && e@ == ErrorV::Utf8(utf8_error_message(xml@))),
            vstd::utf8::valid_utf8(xml@) ==> res_view(r) == Self::spec_from_document(
                document_events(vstd::utf8::decode_utf8(xml@)),
            ),
    ;
}

impl FromXml for Value {
    open spec fn spec_from_document(ev: Seq<EventV>) -> Result<ValueV, ErrorV> {
        document_value(ev)
    }

    fn from_xml(xml: Vec<u8>) -> (r: Result<Value, Error>) {
        read_xml(xml.as_slice())
    }
}

impl<E: Element> FromXml for E {
    open spec fn spec_from_document(ev: Seq<EventV>) -> Result<E::V, ErrorV> {
        element_from_document::<E>(ev)
    }

    fn from_xml(xml: Vec<u8>) -> (r: Result<E, Error>) {
        let read = read_xml(xml.as_slice());
        let ghost ev = document_events(vstd::utf8::decode_utf8(xml@));
        let ghost valid = vstd::utf8::valid_utf8(xml@);
        let v = match read {
            Ok(v) => v,
            Err(e) => {
                assert(valid ==> res_view(Err::<E, Error>(e)) == E::spec_from_document(ev));
                return Err(e);
            },
        };
        let m = match v.as_map() {
            Ok(m) => m,
            Err(e) => {
                assert(valid ==> res_view(Err::<E, Error>(e)) == E::spec_from_document(ev));
                return Err(e);
            },
        };
        let r = m.get_required::<E, E>();
        assert(valid ==> res_view(r) == E::spec_from_document(ev));
        r
    }
}

/// The events a document holding `x` as its root element is written as.
pub open spec fn element_document<E: Element>(x: E::V) -> Result<Seq<OpV>, ErrorV> {
    document_ops(dav_name(E::spec_local_name()), E::spec_into_value(x), E::spec_local_name())
}

/// Writing an element as an XML document.
pub trait IntoXml: Element {
    /// Writes `self` as the root element of a document: the bytes
    /// `quick-xml` writes of its events, indented by two spaces, or the
    /// error of the value as it is found.
    fn into_xml(self) -> (r: Result<Vec<u8>, Error>)
        ensures
            match element_document::<Self>(self@) {
                Ok(ops) => r matches Ok(b) && b@ == written_bytes(ops),
                Err(e) => r matches Err(x) && x@ == e,
            },
    ;
}

impl<T: Element> IntoXml for T {
    fn into_xml(self) -> (r: Result<Vec<u8>, Error>) {
        let name = element_name::<T>();
        let value = self.into_value();
        write_xml(&name, &value, T::local_name())
    }
}

} // verus!
