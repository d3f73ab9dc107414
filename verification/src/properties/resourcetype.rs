//! The type of a resource.
use vstd::prelude::*;

use crate::element::{element_key, Element};
use crate::elements::simple::Collection;
use crate::error::{Error, ErrorV};
use crate::name::{dav_key, dav_name};
use crate::value::{MapV, Value, ValueMap, ValueV};

verus! {

/// The `resourcetype` property: empty for a plain resource, `collection`
/// for a collection, and any extension elements.
#[derive(Debug, PartialEq)]
pub struct ResourceType(pub ValueMap);

impl View for ResourceType {
    type V = MapV;

    open spec fn view(&self) -> MapV {
        self.0@
    }
}

impl ResourceType {
    /// A plain resource.
    pub fn resource() -> (r: ResourceType)
        ensures
            r@ == MapV::empty(),
    {
        ResourceType(ValueMap::new())
    }

    /// A collection.
    pub fn collection() -> (r: ResourceType)
        ensures
            r@ == MapV::empty().insert(dav_name("collection"@), ValueV::Empty),
    {
        let mut map = ValueMap::new();
        map.insert::<Collection>(Value::Empty);
        ResourceType(map)
    }

    /// Whether the resource is a collection.
    pub fn is_collection(&self) -> (r: bool)
        ensures
            r == (self@.get(dav_key("collection"@)) is Some),
    {
        self.0.get::<Collection>().is_some()
    }
}

impl Element for ResourceType {
    open spec fn spec_local_name() -> Seq<char> {
        "resourcetype"@
    }

    fn local_name() -> (r: &'static str) {
        "resourcetype"
    }

    open spec fn spec_from_value(v: ValueV) -> Result<MapV, ErrorV> {
        match v {
            ValueV::Empty => Ok(MapV::empty()),
            ValueV::Elements(m) => Ok(m),
            _ => Err(ErrorV::InvalidValueType { element: "resourcetype"@, expected: "child elements"@ }),
        }
    }

    fn from_value(v: &Value) -> (r: Result<ResourceType, Error>) {
        match v {
            Value::Empty => Ok(ResourceType::resource()),
            other => match other.as_map_of_name("resourcetype") {
                Ok(m) => Ok(ResourceType(m.copy())),
                Err(e) => Err(e),
            },
        }
    }

    open spec fn spec_into_value(x: MapV) -> ValueV {
        if x.entries.len() == 0 {
            ValueV::Empty
        } else {
            ValueV::Elements(x)
        }
    }

    fn into_value(self) -> (r: Value) {
        if self.0.is_empty() {
            Value::Empty
        } else {
            Value::Elements(self.0)
        }
    }
}

impl ResourceType {
    /// A copy.
    pub fn copy(&self) -> (r: ResourceType)
        ensures
            r@ == self@,
    {
        ResourceType(self.0.copy())
    }
}

/// A resource type reads back from the value it is written as, when its
/// map is well formed.
pub proof fn lemma_resourcetype_round_trip(x: MapV)
    requires
        x.wf(),
    ensures
        ResourceType::spec_from_value(ResourceType::spec_into_value(x)) == Ok::<MapV, ErrorV>(x),
{
    if x.entries.len() == 0 {
        assert(x.order.len() == 0) by {
            if x.order.len() > 0 {
                assert(x.order[0] < x.entries.len());
            }
        }
        assert(x.entries =~= MapV::empty().entries);
        assert(x.order =~= MapV::empty().order);
        assert(x == MapV::empty());
    }
}

} // verus!
