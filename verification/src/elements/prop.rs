//! The `prop` element and the requests built on it.
use vstd::prelude::*;

use crate::element::{element_key, map_of, opt_seq_view, optional_child, required_child, seq_view, Element};
use crate::elements::simple::{AllProp, PropName};
use crate::error::{conflicting, missing_element, Error, ErrorV};
use crate::name::{dav_key, dav_name, ElementName, NameV};
use crate::properties::dates::{CreationDate, LastModified};
use crate::properties::etag::ETag;
use crate::properties::length::{ContentLength, ContentType};
use crate::properties::locks::{LockDiscovery, SupportedLock};
use crate::properties::resourcetype::ResourceType;
use crate::properties::{ContentLanguage, DisplayName};
use crate::value::{lemma_entries_view, MapV, Value, ValueMap, ValueV};

verus! {

/// The `prop` element: properties by name, typed on demand.
#[derive(Debug, PartialEq)]
pub struct Prop(pub ValueMap);

impl View for Prop {
    type V = MapV;

    open spec fn view(&self) -> MapV {
        self.0@
    }
}

/// A property as a typed getter reads it: absent, empty, or read.
pub open spec fn property<P: Element>(m: MapV) -> Option<Option<Result<P::V, ErrorV>>> {
    match m.get(element_key::<P>()) {
        None => None,
        Some(ValueV::Empty) => Some(None),
        Some(v) => Some(Some(P::spec_from_value(v))),
    }
}

pub open spec fn property_view<P: View>(r: Option<Option<Result<P, Error>>>) -> Option<Option<Result<P::V, ErrorV>>> {
    match r {
        None => None,
        Some(None) => Some(None),
        Some(Some(Ok(x))) => Some(Some(Ok(x@))),
        Some(Some(Err(e))) => Some(Some(Err(e@))),
    }
}

impl Prop {
    /// No properties.
    pub fn new() -> (r: Prop)
        ensures
            r@ == MapV::empty(),
    {
        Prop(ValueMap::new())
    }

    /// A builder of a `prop` element.
    pub fn builder() -> (r: PropBuilder)
        ensures
            r@ == MapV::empty(),
    {
        PropBuilder { map: ValueMap::new() }
    }

    /// The property of type `P`: absent, empty, or read.
    pub fn get<P: Element>(&self) -> (r: Option<Option<Result<P, Error>>>)
        ensures
            property_view(r) == property::<P>(self@),
    {
        self.0.get_optional::<P>()
    }

    /// Stores the value of the property of type `P`.
    pub fn insert<P: Element>(&mut self, value: Value)
        ensures
            final(self)@ == old(self)@.insert(dav_name(P::spec_local_name()), value@),
    {
        self.0.insert::<P>(value);
    }

    /// The names of the properties, in order of first appearance.
    pub fn names(&self) -> (r: Vec<&ElementName>)
        ensures
            r@.len() == self@.entries.len(),
            forall|i: int| 0 <= i < r@.len() ==> #[trigger] r@[i]@ == self@.entries[i].0,
    {
        let entries = self.0.iter();
        proof {
            lemma_entries_view(entries@);
        }
        let mut out: Vec<&ElementName> = Vec::new();
        let mut i: usize = 0;
        while i < entries.len()
            invariant
                i <= entries.len(),
                self@.entries == crate::value::entries_view(entries@),
                self@.entries.len() == entries@.len(),
                forall|j: int| 0 <= j < entries@.len() ==> #[trigger] self@.entries[j] == (entries@[j].0@, entries@[j].1@),
                out@.len() == i,
                forall|j: int| 0 <= j < i ==> #[trigger] out@[j]@ == self@.entries[j].0,
            decreases entries.len() - i,
        {
            out.push(&entries[i].0);
            i = i + 1;
        }
        out
    }

    pub fn creationdate(&self) -> (r: Option<Option<Result<CreationDate, Error>>>)
        ensures
            property_view(r) == property::<CreationDate>(self@),
    {
        self.get::<CreationDate>()
    }

    pub fn getcontentlength(&self) -> (r: Option<Option<Result<ContentLength, Error>>>)
        ensures
            property_view(r) == property::<ContentLength>(self@),
    {
        self.get::<ContentLength>()
    }

    pub fn getlastmodified(&self) -> (r: Option<Option<Result<LastModified, Error>>>)
        ensures
            property_view(r) == property::<LastModified>(self@),
    {
        self.get::<LastModified>()
    }

    pub fn displayname(&self) -> (r: Option<Option<Result<DisplayName, Error>>>)
        ensures
            property_view(r) == property::<DisplayName>(self@),
    {
        self.get::<DisplayName>()
    }

    pub fn getcontentlanguage(&self) -> (r: Option<Option<Result<ContentLanguage, Error>>>)
        ensures
            property_view(r) == property::<ContentLanguage>(self@),
    {
        self.get::<ContentLanguage>()
    }

    pub fn getcontenttype(&self) -> (r: Option<Option<Result<ContentType, Error>>>)
        ensures
            property_view(r) == property::<ContentType>(self@),
    {
        self.get::<ContentType>()
    }

    pub fn getetag(&self) -> (r: Option<Option<Result<ETag, Error>>>)
        ensures
            property_view(r) == property::<ETag>(self@),
    {
        self.get::<ETag>()
    }

    pub fn resourcetype(&self) -> (r: Option<Option<Result<ResourceType, Error>>>)
        ensures
            property_view(r) == property::<ResourceType>(self@),
    {
        self.get::<ResourceType>()
    }

    pub fn lockdiscovery(&self) -> (r: Option<Option<Result<LockDiscovery, Error>>>)
        ensures
            property_view(r) == property::<LockDiscovery>(self@),
    {
        self.get::<LockDiscovery>()
    }

    pub fn supportedlock(&self) -> (r: Option<Option<Result<SupportedLock, Error>>>)
        ensures
            property_view(r) == property::<SupportedLock>(self@),
    {
        self.get::<SupportedLock>()
    }

    pub fn copy(&self) -> (r: Prop)
        ensures
            r@ == self@,
    {
        Prop(self.0.copy())
    }
}

impl Element for Prop {
    open spec fn spec_local_name() -> Seq<char> {
        "prop"@
    }

    fn local_name() -> (r: &'static str) {
        "prop"
    }

    open spec fn spec_from_value(v: ValueV) -> Result<MapV, ErrorV> {
        match v {
            ValueV::Empty => Ok(MapV::empty()),
            _ => map_of("prop"@, v),
        }
    }

    fn from_value(v: &Value) -> (r: Result<Prop, Error>) {
        match v {
            Value::Empty => Ok(Prop::new()),
            other => match other.as_map_of_name("prop") {
                Ok(m) => Ok(Prop(m.copy())),
                Err(e) => Err(e),
            },
        }
    }

    open spec fn spec_into_value(x: MapV) -> ValueV {
        ValueV::Elements(x)
    }

    fn into_value(self) -> (r: Value) {
        Value::Elements(self.0)
    }
}

/// Builds a `prop` element.
#[derive(Debug, PartialEq)]
pub struct PropBuilder {
    map: ValueMap,
}

impl View for PropBuilder {
    type V = MapV;

    closed spec fn view(&self) -> MapV {
        self.map@
    }
}

impl PropBuilder {
    /// Adds a property by its name; a repeated name makes a list.
    pub fn raw(self, name: ElementName, value: Value) -> (r: PropBuilder)
        ensures
            r@ == self@.insert_raw(name@, value@),
    {
        let mut map = self.map;
        map.insert_raw(name, value);
        PropBuilder { map }
    }

    /// Sets the property of type `P`.
    pub fn property<P: Element>(self, value: P) -> (r: PropBuilder)
        ensures
            r@ == self@.insert(dav_name(P::spec_local_name()), P::spec_into_value(value@)),
    {
        let mut map = self.map;
        map.insert::<P>(value.into_value());
        PropBuilder { map }
    }

    /// Names the property of type `P`, without a value.
    pub fn name<P: Element>(self) -> (r: PropBuilder)
        ensures
            r@ == self@.insert(dav_name(P::spec_local_name()), ValueV::Empty),
    {
        let mut map = self.map;
        map.insert::<P>(Value::Empty);
        PropBuilder { map }
    }

    /// The `prop` element built.
    pub fn build(self) -> (r: Prop)
        ensures
            r@ == self@,
    {
        Prop(self.map)
    }
}

/// The names of a map's entries, each with an empty value.
pub open spec fn names_only(m: MapV) -> MapV {
    names_only_upto(m.entries, m.entries.len() as int)
}

pub open spec fn names_only_upto(es: Seq<(NameV, ValueV)>, k: int) -> MapV
    decreases k,
{
    if k <= 0 {
        MapV::empty()
    } else {
        names_only_upto(es, k - 1).insert_raw(es[k - 1].0, ValueV::Empty)
    }
}

/// The `set` element of a PROPPATCH: properties to set.
#[derive(Debug, PartialEq)]
pub struct SetProp(pub Prop);

/// The `remove` element of a PROPPATCH: properties to remove, by name.
#[derive(Debug, PartialEq)]
pub struct Remove(pub Prop);

impl View for SetProp {
    type V = MapV;

    open spec fn view(&self) -> MapV {
        self.0@
    }
}

impl View for Remove {
    type V = MapV;

    open spec fn view(&self) -> MapV {
        self.0@
    }
}

/// The `prop` child of `set` or `remove`.
pub open spec fn prop_child(element: Seq<char>, v: ValueV) -> Result<MapV, ErrorV> {
    match v {
        ValueV::Empty => Err(ErrorV::MissingElement { parent: element, element: "prop"@ }),
        _ => match map_of(element, v) {
            Err(e) => Err(e),
            Ok(m) => required_child::<Prop>(m, element),
        },
    }
}

fn read_prop_child(v: &Value, element: &'static str) -> (r: Result<Prop, Error>)
    ensures
        match prop_child(element@, v@) {
            Ok(p) => (r matches Ok(x) && x@ == p),
            Err(e) => (r matches Err(x) && x@ == e),
        },
{
    match v {
        Value::Empty => Err(missing_element(element, "prop")),
        other => match other.as_map_of_name(element) {
            Ok(m) => m.get_required_in::<Prop>(element),
            Err(e) => Err(e),
        },
    }
}

fn prop_value(p: Prop) -> (r: Value)
    ensures
        r@ == ValueV::Elements(MapV::empty().insert(dav_name("prop"@), ValueV::Elements(p@))),
{
    let mut map = ValueMap::new();
    map.insert::<Prop>(p.into_value());
    Value::Elements(map)
}

/// The names of the properties, each without a value.
pub fn names_of(p: &Prop) -> (r: Prop)
    ensures
        r@ == names_only(p@),
{
    let entries = p.0.iter();
    proof {
        lemma_entries_view(entries@);
    }
    let ghost es = p@.entries;
    let mut b = Prop::builder();
    let mut i: usize = 0;
    while i < entries.len()
        invariant
            i <= entries.len(),
            es == p@.entries,
            es == crate::value::entries_view(entries@),
            es.len() == entries@.len(),
            forall|j: int| 0 <= j < entries@.len() ==> #[trigger] es[j] == (entries@[j].0@, entries@[j].1@),
            b@ == names_only_upto(es, i as int),
        decreases entries.len() - i,
    {
        b = b.raw(entries[i].0.copy(), Value::Empty);
        i = i + 1;
    }
    b.build()
}

impl Element for SetProp {
    open spec fn spec_local_name() -> Seq<char> {
        "set"@
    }

    fn local_name() -> (r: &'static str) {
        "set"
    }

    open spec fn spec_from_value(v: ValueV) -> Result<MapV, ErrorV> {
        prop_child("set"@, v)
    }

    fn from_value(v: &Value) -> (r: Result<SetProp, Error>) {
        match read_prop_child(v, "set") {
            Ok(p) => Ok(SetProp(p)),
            Err(e) => Err(e),
        }
    }

    open spec fn spec_into_value(x: MapV) -> ValueV {
        ValueV::Elements(MapV::empty().insert(dav_name("prop"@), ValueV::Elements(x)))
    }

    fn into_value(self) -> (r: Value) {
        prop_value(self.0)
    }
}

impl Element for Remove {
    open spec fn spec_local_name() -> Seq<char> {
        "remove"@
    }

    fn local_name() -> (r: &'static str) {
        "remove"
    }

    open spec fn spec_from_value(v: ValueV) -> Result<MapV, ErrorV> {
        prop_child("remove"@, v)
    }

    fn from_value(v: &Value) -> (r: Result<Remove, Error>) {
        match read_prop_child(v, "remove") {
            Ok(p) => Ok(Remove(p)),
            Err(e) => Err(e),
        }
    }

    /// Only the names are written.
    open spec fn spec_into_value(x: MapV) -> ValueV {
        ValueV::Elements(MapV::empty().insert(dav_name("prop"@), ValueV::Elements(names_only(x))))
    }

    fn into_value(self) -> (r: Value) {
        prop_value(names_of(&self.0))
    }
}

impl SetProp {
    /// A copy.
    pub fn copy(&self) -> (r: SetProp)
        ensures
            r@ == self@,
    {
        SetProp(self.0.copy())
    }
}

impl Remove {
    /// A copy.
    pub fn copy(&self) -> (r: Remove)
        ensures
            r@ == self@,
    {
        Remove(self.0.copy())
    }
}

/// A `prop` and a `set` read back from the value they are written as; a `remove` reads
/// back as the names of its properties, each with no value.
pub proof fn lemma_prop_round_trip(x: MapV)
    ensures
        Prop::spec_from_value(Prop::spec_into_value(x)) == Ok::<MapV, ErrorV>(x),
        SetProp::spec_from_value(SetProp::spec_into_value(x)) == Ok::<MapV, ErrorV>(x),
        Remove::spec_from_value(Remove::spec_into_value(x)) == Ok::<MapV, ErrorV>(names_only(x)),
{
    crate::value::lemma_single_get(dav_name("prop"@), ValueV::Elements(x), dav_key("prop"@));
    crate::value::lemma_single_get(dav_name("prop"@), ValueV::Elements(names_only(x)), dav_key("prop"@));
}

} // verus!
