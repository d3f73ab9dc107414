//! Lock scopes, lock types and the lock entries that pair them.
use vstd::prelude::*;

use crate::element::Element;
use crate::elements::simple::{Exclusive, Shared, Write};
use crate::error::{conflicting, missing_element, Error, ErrorV};
use crate::name::{dav_key, dav_name, NameV};
use crate::value::{lemma_insert_get, lemma_single_get, MapV, Value, ValueMap, ValueV};

verus! {

/// The `lockscope` element.
#[derive(Clone, Copy, Debug, PartialEq, Eq, Hash)]
pub enum LockScope {
    /// An exclusive lock.
    Exclusive,
    /// A shared lock.
    Shared,
}

/// The `locktype` element; `write` is the only lock type RFC 4918 defines.
#[derive(Clone, Copy, Debug, PartialEq, Eq, Hash)]
pub enum LockType {
    /// A write lock.
    Write,
}

/// The `lockentry` element: a kind of lock a resource supports.
#[derive(Clone, Copy, Debug, PartialEq, Eq, Hash)]
pub struct LockEntry {
    /// The lock's scope.
    pub lockscope: LockScope,
    /// The lock's type.
    pub locktype: LockType,
}

impl View for LockScope {
    type V = LockScope;

    open spec fn view(&self) -> LockScope {
        *self
    }
}

impl View for LockType {
    type V = LockType;

    open spec fn view(&self) -> LockType {
        *self
    }
}

impl View for LockEntry {
    type V = LockEntry;

    open spec fn view(&self) -> LockEntry {
        *self
    }
}

pub open spec fn child_map(element: Seq<char>, v: ValueV) -> Result<MapV, ErrorV> {
    match v {
        ValueV::Elements(m) => Ok(m),
        _ => Err(ErrorV::InvalidValueType { element, expected: "child elements"@ }),
    }
}

/// A map holding one empty child.
pub open spec fn marker(local: Seq<char>) -> ValueV {
    ValueV::Elements(MapV::empty().insert(dav_name(local), ValueV::Empty))
}

pub open spec fn lockscope_from(v: ValueV) -> Result<LockScope, ErrorV> {
    match child_map("lockscope"@, v) {
        Err(e) => Err(e),
        Ok(m) => match (m.get(dav_key("exclusive"@)), m.get(dav_key("shared"@))) {
            (Some(e), None) => match Exclusive::spec_from_value(e) {
                Ok(_) => Ok(LockScope::Exclusive),
                Err(x) => Err(x),
            },
            (None, Some(s)) => match Shared::spec_from_value(s) {
                Ok(_) => Ok(LockScope::Shared),
                Err(x) => Err(x),
            },
            (Some(_), Some(_)) => Err(
                ErrorV::ConflictingElements {
                    parent: "lockscope"@,
                    elements: "exclusive and shared are mutually exclusive"@,
                },
            ),
            (None, None) => Err(
                ErrorV::MissingElement { parent: "lockscope"@, element: "exclusive or shared"@ },
            ),
        },
    }
}

impl Element for LockScope {
    open spec fn spec_local_name() -> Seq<char> {
        "lockscope"@
    }

    fn local_name() -> (r: &'static str) {
        "lockscope"
    }

    open spec fn spec_from_value(v: ValueV) -> Result<LockScope, ErrorV> {
        lockscope_from(v)
    }

    fn from_value(v: &Value) -> (r: Result<LockScope, Error>) {
        let m = match v.as_map_of_name("lockscope") {
            Ok(m) => m,
            Err(e) => return Err(e),
        };
        match (m.get::<Exclusive>(), m.get::<Shared>()) {
            (Some(e), None) => match e {
                Ok(_) => Ok(LockScope::Exclusive),
                Err(x) => Err(x),
            },
            (None, Some(s)) => match s {
                Ok(_) => Ok(LockScope::Shared),
                Err(x) => Err(x),
            },
            (Some(_), Some(_)) => Err(
                conflicting("lockscope", "exclusive and shared are mutually exclusive"),
            ),
            (None, None) => Err(missing_element("lockscope", "exclusive or shared")),
        }
    }

    open spec fn spec_into_value(x: LockScope) -> ValueV {
        match x {
            LockScope::Exclusive => marker("exclusive"@),
            LockScope::Shared => marker("shared"@),
        }
    }

    fn into_value(self) -> (r: Value) {
        let mut map = ValueMap::new();
        match self {
            LockScope::Exclusive => map.insert::<Exclusive>(Value::Empty),
            LockScope::Shared => map.insert::<Shared>(Value::Empty),
        }
        Value::Elements(map)
    }
}

impl Element for LockType {
    open spec fn spec_local_name() -> Seq<char> {
        "locktype"@
    }

    fn local_name() -> (r: &'static str) {
        "locktype"
    }

    open spec fn spec_from_value(v: ValueV) -> Result<LockType, ErrorV> {
        match child_map("locktype"@, v) {
            Err(e) => Err(e),
            Ok(m) => match m.get(dav_key("write"@)) {
                None => Err(ErrorV::MissingElement { parent: "locktype"@, element: "write"@ }),
                Some(w) => match Write::spec_from_value(w) {
                    Ok(_) => Ok(LockType::Write),
                    Err(e) => Err(e),
                },
            },
        }
    }

    fn from_value(v: &Value) -> (r: Result<LockType, Error>) {
        let m = match v.as_map_of_name("locktype") {
            Ok(m) => m,
            Err(e) => return Err(e),
        };
        match m.get_required_in::<Write>("locktype") {
            Ok(_) => Ok(LockType::Write),
            Err(e) => Err(e),
        }
    }

    open spec fn spec_into_value(x: LockType) -> ValueV {
        marker("write"@)
    }

    fn into_value(self) -> (r: Value) {
        let mut map = ValueMap::new();
        map.insert::<Write>(Value::Empty);
        Value::Elements(map)
    }
}

impl Element for LockEntry {
    open spec fn spec_local_name() -> Seq<char> {
        "lockentry"@
    }

    fn local_name() -> (r: &'static str) {
        "lockentry"
    }

    open spec fn spec_from_value(v: ValueV) -> Result<LockEntry, ErrorV> {
        match child_map("lockentry"@, v) {
            Err(e) => Err(e),
            Ok(m) => match m.get(dav_key("lockscope"@)) {
                None => Err(ErrorV::MissingElement { parent: "lockentry"@, element: "lockscope"@ }),
                Some(s) => match LockScope::spec_from_value(s) {
                    Err(e) => Err(e),
                    Ok(scope) => match m.get(dav_key("locktype"@)) {
                        None => Err(
                            ErrorV::MissingElement { parent: "lockentry"@, element: "locktype"@ },
                        ),
                        Some(t) => match LockType::spec_from_value(t) {
                            Err(e) => Err(e),
                            Ok(kind) => Ok(LockEntry { lockscope: scope, locktype: kind }),
                        },
                    },
                },
            },
        }
    }

    fn from_value(v: &Value) -> (r: Result<LockEntry, Error>) {
        let m = match v.as_map_of_name("lockentry") {
            Ok(m) => m,
            Err(e) => return Err(e),
        };
        let lockscope = match m.get_required_in::<LockScope>("lockentry") {
            Ok(s) => s,
            Err(e) => return Err(e),
        };
        let locktype = match m.get_required_in::<LockType>("lockentry") {
            Ok(t) => t,
            Err(e) => return Err(e),
        };
        Ok(LockEntry { lockscope, locktype })
    }

    open spec fn spec_into_value(x: LockEntry) -> ValueV {
        ValueV::Elements(
            MapV::empty().insert(dav_name("lockscope"@), LockScope::spec_into_value(x.lockscope)).insert(
                dav_name("locktype"@),
                LockType::spec_into_value(x.locktype),
            ),
        )
    }

    fn into_value(self) -> (r: Value) {
        let mut map = ValueMap::new();
        map.insert::<LockScope>(self.lockscope.into_value());
        map.insert::<LockType>(self.locktype.into_value());
        Value::Elements(map)
    }
}

/// A lock scope reads back from the value it is written as.
pub proof fn lemma_lockscope_round_trip(x: LockScope)
    ensures
        LockScope::spec_from_value(LockScope::spec_into_value(x)) == Ok::<LockScope, ErrorV>(x),
{
    reveal_strlit("exclusive");
    reveal_strlit("shared");
    lemma_single_get(dav_name("exclusive"@), ValueV::Empty, dav_key("exclusive"@));
    lemma_single_get(dav_name("exclusive"@), ValueV::Empty, dav_key("shared"@));
    lemma_single_get(dav_name("shared"@), ValueV::Empty, dav_key("exclusive"@));
    lemma_single_get(dav_name("shared"@), ValueV::Empty, dav_key("shared"@));
    assert("exclusive"@.len() == 9);
    assert("shared"@.len() == 6);
    assert("exclusive"@ != "shared"@);
    assert(dav_name("exclusive"@).key() == dav_key("exclusive"@));
    assert(dav_key("exclusive"@) != dav_key("shared"@));
}

/// A lock type reads back from the value it is written as.
pub proof fn lemma_locktype_round_trip(x: LockType)
    ensures
        LockType::spec_from_value(LockType::spec_into_value(x)) == Ok::<LockType, ErrorV>(x),
{
    lemma_single_get(dav_name("write"@), ValueV::Empty, dav_key("write"@));
}

/// A lock entry reads back from the value it is written as.
pub proof fn lemma_lockentry_round_trip(x: LockEntry)
    ensures
        LockEntry::spec_from_value(LockEntry::spec_into_value(x)) == Ok::<LockEntry, ErrorV>(x),
{
    reveal_strlit("lockscope");
    reveal_strlit("locktype");
    assert("lockscope"@.len() == 9);
    assert("locktype"@.len() == 8);
    let s = LockScope::spec_into_value(x.lockscope);
    let t = LockType::spec_into_value(x.locktype);
    let m1 = MapV::empty().insert(dav_name("lockscope"@), s);
    lemma_single_get(dav_name("lockscope"@), s, dav_key("lockscope"@));
    lemma_insert_get(m1, dav_name("locktype"@), t, dav_key("lockscope"@));
    lemma_insert_get(m1, dav_name("locktype"@), t, dav_key("locktype"@));
    lemma_lockscope_round_trip(x.lockscope);
    lemma_locktype_round_trip(x.locktype);
}

} // verus!
