//! Elements without content of their own.
use vstd::prelude::*;

use crate::element::Element;
use crate::error::{invalid_value_type, Error, ErrorV};
use crate::value::{Value, ValueV};

verus! {

/// Why a value is not that of an empty element: anything but nothing or an
/// empty map.
pub open spec fn empty_error(v: ValueV, element: Seq<char>) -> Option<ErrorV> {
    match v {
        ValueV::Empty => None,
        ValueV::Elements(m) => if m.entries.len() == 0 {
            None
        } else {
            Some(ErrorV::InvalidValueType { element, expected: "an empty element"@ })
        },
        _ => Some(ErrorV::InvalidValueType { element, expected: "an empty element"@ }),
    }
}

pub open spec fn unit_result<T>(e: Option<ErrorV>, t: T) -> Result<T, ErrorV> {
    match e {
        None => Ok(t),
        Some(e) => Err(e),
    }
}

/// Checks that a value is that of an empty element.
pub fn check_empty(v: &Value, element: &'static str) -> (r: Result<(), Error>)
    ensures
        match empty_error(v@, element@) {
            None => r is Ok,
            Some(e) => (r matches Err(x) && x@ == e),
        },
{
    match v {
        Value::Empty => Ok(()),
        Value::Elements(m) => if m.is_empty() {
            Ok(())
        } else {
            Err(invalid_value_type(element, "an empty element"))
        },
        _ => Err(invalid_value_type(element, "an empty element")),
    }
}

/// The `allprop` element: every property is requested.
#[derive(Clone, Copy, Debug, Default, PartialEq, Eq, Hash)]
pub struct AllProp;

/// The `exclusive` lock scope.
#[derive(Clone, Copy, Debug, Default, PartialEq, Eq, Hash)]
pub struct Exclusive;

/// The `shared` lock scope.
#[derive(Clone, Copy, Debug, Default, PartialEq, Eq, Hash)]
pub struct Shared;

/// The `write` lock type.
#[derive(Clone, Copy, Debug, Default, PartialEq, Eq, Hash)]
pub struct Write;

/// The `collection` resource type.
#[derive(Clone, Copy, Debug, Default, PartialEq, Eq, Hash)]
pub struct Collection;

/// The `propname` element: only property names are requested.
#[derive(Clone, Copy, Debug, Default, PartialEq, Eq, Hash)]
pub struct PropName;

impl View for AllProp {
    type V = AllProp;

    open spec fn view(&self) -> AllProp {
        *self
    }
}

impl View for Exclusive {
    type V = Exclusive;

    open spec fn view(&self) -> Exclusive {
        *self
    }
}

impl View for Shared {
    type V = Shared;

    open spec fn view(&self) -> Shared {
        *self
    }
}

impl View for Write {
    type V = Write;

    open spec fn view(&self) -> Write {
        *self
    }
}

impl View for Collection {
    type V = Collection;

    open spec fn view(&self) -> Collection {
        *self
    }
}

impl View for PropName {
    type V = PropName;

    open spec fn view(&self) -> PropName {
        *self
    }
}

impl Element for AllProp {
    open spec fn spec_local_name() -> Seq<char> {
        "allprop"@
    }

    fn local_name() -> (r: &'static str) {
        "allprop"
    }

    open spec fn spec_from_value(v: ValueV) -> Result<AllProp, ErrorV> {
        unit_result(empty_error(v, "allprop"@), AllProp)
    }

    fn from_value(v: &Value) -> (r: Result<AllProp, Error>) {
        match check_empty(v, "allprop") {
            Ok(()) => Ok(AllProp),
            Err(e) => Err(e),
        }
    }

    open spec fn spec_into_value(x: AllProp) -> ValueV {
        ValueV::Empty
    }

    fn into_value(self) -> (r: Value) {
        Value::Empty
    }
}

impl Element for Exclusive {
    open spec fn spec_local_name() -> Seq<char> {
        "exclusive"@
    }

    fn local_name() -> (r: &'static str) {
        "exclusive"
    }

    open spec fn spec_from_value(v: ValueV) -> Result<Exclusive, ErrorV> {
        unit_result(empty_error(v, "exclusive"@), Exclusive)
    }

    fn from_value(v: &Value) -> (r: Result<Exclusive, Error>) {
        match check_empty(v, "exclusive") {
            Ok(()) => Ok(Exclusive),
            Err(e) => Err(e),
        }
    }

    open spec fn spec_into_value(x: Exclusive) -> ValueV {
        ValueV::Empty
    }

    fn into_value(self) -> (r: Value) {
        Value::Empty
    }
}

impl Element for Shared {
    open spec fn spec_local_name() -> Seq<char> {
        "shared"@
    }

    fn local_name() -> (r: &'static str) {
        "shared"
    }

    open spec fn spec_from_value(v: ValueV) -> Result<Shared, ErrorV> {
        unit_result(empty_error(v, "shared"@), Shared)
    }

    fn from_value(v: &Value) -> (r: Result<Shared, Error>) {
        match check_empty(v, "shared") {
            Ok(()) => Ok(Shared),
            Err(e) => Err(e),
        }
    }

    open spec fn spec_into_value(x: Shared) -> ValueV {
        ValueV::Empty
    }

    fn into_value(self) -> (r: Value) {
        Value::Empty
    }
}

impl Element for Write {
    open spec fn spec_local_name() -> Seq<char> {
        "write"@
    }

    fn local_name() -> (r: &'static str) {
        "write"
    }

    open spec fn spec_from_value(v: ValueV) -> Result<Write, ErrorV> {
        unit_result(empty_error(v, "write"@), Write)
    }

    fn from_value(v: &Value) -> (r: Result<Write, Error>) {
        match check_empty(v, "write") {
            Ok(()) => Ok(Write),
            Err(e) => Err(e),
        }
    }

    open spec fn spec_into_value(x: Write) -> ValueV {
        ValueV::Empty
    }

    fn into_value(self) -> (r: Value) {
        Value::Empty
    }
}

impl Element for Collection {
    open spec fn spec_local_name() -> Seq<char> {
        "collection"@
    }

    fn local_name() -> (r: &'static str) {
        "collection"
    }

    /// Nothing, or extension elements.
    open spec fn spec_from_value(v: ValueV) -> Result<Collection, ErrorV> {
        match v {
            ValueV::Empty => Ok(Collection),
            ValueV::Elements(_) => Ok(Collection),
            _ => Err(
                ErrorV::InvalidValueType {
                    element: "collection"@,
                    expected: "an empty element or element extensions"@,
                },
            ),
        }
    }

    fn from_value(v: &Value) -> (r: Result<Collection, Error>) {
        match v {
            Value::Empty | Value::Elements(_) => Ok(Collection),
            _ => Err(invalid_value_type("collection", "an empty element or element extensions")),
        }
    }

    open spec fn spec_into_value(x: Collection) -> ValueV {
        ValueV::Empty
    }

    fn into_value(self) -> (r: Value) {
        Value::Empty
    }
}

impl Element for PropName {
    open spec fn spec_local_name() -> Seq<char> {
        "propname"@
    }

    fn local_name() -> (r: &'static str) {
        "propname"
    }

    /// Any content is accepted.
    open spec fn spec_from_value(v: ValueV) -> Result<PropName, ErrorV> {
        Ok(PropName)
    }

    fn from_value(v: &Value) -> (r: Result<PropName, Error>) {
        Ok(PropName)
    }

    open spec fn spec_into_value(x: PropName) -> ValueV {
        ValueV::Empty
    }

    fn into_value(self) -> (r: Value) {
        Value::Empty
    }
}

/// Each element without content reads back from the value it is written as.
pub proof fn lemma_simple_elements_round_trip()
    ensures
        AllProp::spec_from_value(AllProp::spec_into_value(AllProp)) == Ok::<AllProp, ErrorV>(AllProp),
        Exclusive::spec_from_value(Exclusive::spec_into_value(Exclusive)) == Ok::<Exclusive, ErrorV>(Exclusive),
        Shared::spec_from_value(Shared::spec_into_value(Shared)) == Ok::<Shared, ErrorV>(Shared),
        Write::spec_from_value(Write::spec_into_value(Write)) == Ok::<Write, ErrorV>(Write),
        Collection::spec_from_value(Collection::spec_into_value(Collection)) == Ok::<Collection, ErrorV>(Collection),
        PropName::spec_from_value(PropName::spec_into_value(PropName)) == Ok::<PropName, ErrorV>(PropName),
{
}

} // verus!
