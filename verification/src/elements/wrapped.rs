//! Elements that wrap an `href`, a text, or any value.
use vstd::prelude::*;

use crate::element::{element_key, Element};
use crate::elements::href::{Href, HrefV};
use crate::error::{invalid_value_type, missing_element, Error, ErrorV};
use crate::name::{dav_key, dav_name};
use crate::value::{item_view, items_view, lemma_items_view, ContentItem, ItemV, MapV, Value, ValueMap, ValueV};

verus! {

/// What an element that holds one `href` child reads as.
pub open spec fn href_child(element: Seq<char>, v: ValueV) -> Result<HrefV, ErrorV> {
    match v {
        ValueV::Empty => Err(ErrorV::MissingElement { parent: element, element: "href"@ }),
        ValueV::Elements(m) => match m.get(dav_key("href"@)) {
            None => Err(ErrorV::MissingElement { parent: element, element: "href"@ }),
            Some(h) => Href::spec_from_value(h),
        },
        _ => Err(ErrorV::InvalidValueType { element, expected: "child elements"@ }),
    }
}

/// The value of an element that holds one `href` child.
pub open spec fn href_value(h: HrefV) -> ValueV {
    ValueV::Elements(MapV::empty().insert(dav_name("href"@), Href::spec_into_value(h)))
}

fn read_href_child(v: &Value, element: &'static str) -> (r: Result<Href, Error>)
    ensures
        match href_child(element@, v@) {
            Ok(h) => (r matches Ok(x) && x@ == h),
            Err(e) => (r matches Err(x) && x@ == e),
        },
{
    match v {
        Value::Empty => Err(missing_element(element, "href")),
        Value::Elements(m) => m.get_required_in::<Href>(element),
        _ => Err(invalid_value_type(element, "child elements")),
    }
}

fn href_child_value(h: Href) -> (r: Value)
    ensures
        r@ == href_value(h@),
{
    let mut map = ValueMap::new();
    map.insert::<Href>(h.into_value());
    Value::Elements(map)
}

/// The `locktoken` element: the lock's token as an `href`.
#[derive(Debug, PartialEq, Eq)]
pub struct LockToken(pub Href);

/// The `lockroot` element: the root of a lock as an `href`.
#[derive(Debug, PartialEq, Eq)]
pub struct LockRoot(pub Href);

/// The `location` element: where a resource was moved or created.
#[derive(Debug, PartialEq, Eq)]
pub struct Location(pub Href);

impl View for LockToken {
    type V = HrefV;

    open spec fn view(&self) -> HrefV {
        self.0@
    }
}

impl View for LockRoot {
    type V = HrefV;

    open spec fn view(&self) -> HrefV {
        self.0@
    }
}

impl View for Location {
    type V = HrefV;

    open spec fn view(&self) -> HrefV {
        self.0@
    }
}

impl Element for LockToken {
    open spec fn spec_local_name() -> Seq<char> {
        "locktoken"@
    }

    fn local_name() -> (r: &'static str) {
        "locktoken"
    }

    open spec fn spec_from_value(v: ValueV) -> Result<HrefV, ErrorV> {
        href_child("locktoken"@, v)
    }

    fn from_value(v: &Value) -> (r: Result<LockToken, Error>) {
        match read_href_child(v, "locktoken") {
            Ok(h) => Ok(LockToken(h)),
            Err(e) => Err(e),
        }
    }

    open spec fn spec_into_value(x: HrefV) -> ValueV {
        href_value(x)
    }

    fn into_value(self) -> (r: Value) {
        href_child_value(self.0)
    }
}

impl Element for LockRoot {
    open spec fn spec_local_name() -> Seq<char> {
        "lockroot"@
    }

    fn local_name() -> (r: &'static str) {
        "lockroot"
    }

    open spec fn spec_from_value(v: ValueV) -> Result<HrefV, ErrorV> {
        href_child("lockroot"@, v)
    }

    fn from_value(v: &Value) -> (r: Result<LockRoot, Error>) {
        match read_href_child(v, "lockroot") {
            Ok(h) => Ok(LockRoot(h)),
            Err(e) => Err(e),
        }
    }

    open spec fn spec_into_value(x: HrefV) -> ValueV {
        href_value(x)
    }

    fn into_value(self) -> (r: Value) {
        href_child_value(self.0)
    }
}

impl Element for Location {
    open spec fn spec_local_name() -> Seq<char> {
        "location"@
    }

    fn local_name() -> (r: &'static str) {
        "location"
    }

    open spec fn spec_from_value(v: ValueV) -> Result<HrefV, ErrorV> {
        href_child("location"@, v)
    }

    fn from_value(v: &Value) -> (r: Result<Location, Error>) {
        match read_href_child(v, "location") {
            Ok(h) => Ok(Location(h)),
            Err(e) => Err(e),
        }
    }

    open spec fn spec_into_value(x: HrefV) -> ValueV {
        href_value(x)
    }

    fn into_value(self) -> (r: Value) {
        href_child_value(self.0)
    }
}

/// What an element that holds text reads as.
pub open spec fn text_child(element: Seq<char>, v: ValueV) -> Result<Seq<char>, ErrorV> {
    match v {
        ValueV::Text(t) => Ok(t),
        _ => Err(ErrorV::InvalidValueType { element, expected: "text"@ }),
    }
}

fn read_text(v: &Value, element: &'static str) -> (r: Result<String, Error>)
    ensures
        match text_child(element@, v@) {
            Ok(t) => (r matches Ok(x) && x@ == t),
            Err(e) => (r matches Err(x) && x@ == e),
        },
{
    match v.as_str_of_name(element) {
        Ok(t) => Ok(t.clone()),
        Err(e) => Err(e),
    }
}

/// The `responsedescription` element: text for a person to read.
#[derive(Debug, PartialEq)]
pub struct ResponseDescription(pub String);

/// The `displayname` property: a name for a person to read.
#[derive(Debug, PartialEq)]
pub struct DisplayName(pub String);

/// The `getcontentlanguage` property: the `Content-Language` of a GET.
#[derive(Debug, PartialEq)]
pub struct ContentLanguage(pub String);

impl View for ResponseDescription {
    type V = Seq<char>;

    open spec fn view(&self) -> Seq<char> {
        self.0@
    }
}

impl View for DisplayName {
    type V = Seq<char>;

    open spec fn view(&self) -> Seq<char> {
        self.0@
    }
}

impl View for ContentLanguage {
    type V = Seq<char>;

    open spec fn view(&self) -> Seq<char> {
        self.0@
    }
}

impl Element for ResponseDescription {
    open spec fn spec_local_name() -> Seq<char> {
        "responsedescription"@
    }

    fn local_name() -> (r: &'static str) {
        "responsedescription"
    }

    open spec fn spec_from_value(v: ValueV) -> Result<Seq<char>, ErrorV> {
        text_child("responsedescription"@, v)
    }

    fn from_value(v: &Value) -> (r: Result<ResponseDescription, Error>) {
        match read_text(v, "responsedescription") {
            Ok(t) => Ok(ResponseDescription(t)),
            Err(e) => Err(e),
        }
    }

    open spec fn spec_into_value(x: Seq<char>) -> ValueV {
        ValueV::Text(x)
    }

    fn into_value(self) -> (r: Value) {
        Value::Text(self.0)
    }
}

impl Element for DisplayName {
    open spec fn spec_local_name() -> Seq<char> {
        "displayname"@
    }

    fn local_name() -> (r: &'static str) {
        "displayname"
    }

    open spec fn spec_from_value(v: ValueV) -> Result<Seq<char>, ErrorV> {
        text_child("displayname"@, v)
    }

    fn from_value(v: &Value) -> (r: Result<DisplayName, Error>) {
        match read_text(v, "displayname") {
            Ok(t) => Ok(DisplayName(t)),
            Err(e) => Err(e),
        }
    }

    open spec fn spec_into_value(x: Seq<char>) -> ValueV {
        ValueV::Text(x)
    }

    fn into_value(self) -> (r: Value) {
        Value::Text(self.0)
    }
}

impl Element for ContentLanguage {
    open spec fn spec_local_name() -> Seq<char> {
        "getcontentlanguage"@
    }

    fn local_name() -> (r: &'static str) {
        "getcontentlanguage"
    }

    open spec fn spec_from_value(v: ValueV) -> Result<Seq<char>, ErrorV> {
        text_child("getcontentlanguage"@, v)
    }

    fn from_value(v: &Value) -> (r: Result<ContentLanguage, Error>) {
        match read_text(v, "getcontentlanguage") {
            Ok(t) => Ok(ContentLanguage(t)),
            Err(e) => Err(e),
        }
    }

    open spec fn spec_into_value(x: Seq<char>) -> ValueV {
        ValueV::Text(x)
    }

    fn into_value(self) -> (r: Value) {
        Value::Text(self.0)
    }
}

/// The `owner` element: any content, kept as it was written.
#[derive(Debug, PartialEq, Eq)]
pub struct Owner(pub Value);

impl View for Owner {
    type V = ValueV;

    open spec fn view(&self) -> ValueV {
        self.0@
    }
}

impl Owner {
    /// An owner given as text.
    pub fn text(text: &str) -> (r: Owner)
        ensures
            r@ == ValueV::Text(text@),
    {
        Owner(Value::Text(crate::text::string_of(text)))
    }

    /// An owner given as an `href`.
    pub fn href(href: Href) -> (r: Owner)
        ensures
            r@ == href_value(href@),
    {
        Owner(href_child_value(href))
    }

    /// The owner's text, if it is text.
    pub fn as_text(&self) -> (r: Option<&String>)
        ensures
            match self@ {
                ValueV::Text(t) => (r matches Some(x) && x@ == t),
                _ => r is None,
            },
    {
        match &self.0 {
            Value::Text(t) => Some(t),
            _ => None,
        }
    }

    /// The owner's `href`, if it has one that can be read.
    pub fn as_href(&self) -> (r: Option<Href>)
        ensures
            match self@ {
                ValueV::Elements(m) => match m.get(dav_key("href"@)) {
                    Some(h) => match Href::spec_from_value(h) {
                        Ok(x) => (r matches Some(y) && y@ == x),
                        Err(_) => r is None,
                    },
                    None => r is None,
                },
                ValueV::Mixed(items) => match first_href_item(items) {
                    Some(h) => match Href::spec_from_value(h) {
                        Ok(x) => (r matches Some(y) && y@ == x),
                        Err(_) => r is None,
                    },
                    None => r is None,
                },
                _ => r is None,
            },
    {
        match &self.0 {
            Value::Elements(m) => match m.get::<Href>() {
                Some(Ok(h)) => Some(h),
                _ => None,
            },
            Value::Mixed(items) => {
                let ghost iv = items_view(items@);
                proof {
                    lemma_items_view(items@);
                }
                let mut i: usize = 0;
                assert(iv.subrange(0, iv.len() as int) =~= iv);
                while i < items.len()
                    invariant
                        i <= items@.len(),
                        iv == items_view(items@),
                        iv.len() == items@.len(),
                        forall|j: int| 0 <= j < iv.len() ==> #[trigger] iv[j] == item_view(items@[j]),
                        first_href_item(iv) == first_href_item(iv.subrange(i as int, iv.len() as int)),
                        self@ == ValueV::Mixed(iv),
                    decreases items.len() - i,
                {
                    assert(iv.subrange(i as int, iv.len() as int)[0] == iv[i as int]);
                    assert(iv.subrange(i as int, iv.len() as int).drop_first() =~= iv.subrange(i + 1, iv.len() as int));
                    match &items[i] {
                        ContentItem::Element { name, value } => {
                            if name.is_dav("href") {
                                return match Href::from_value(value) {
                                    Ok(h) => Some(h),
                                    Err(_) => None,
                                };
                            }
                        },
                        ContentItem::Text(_) => {},
                    }
                    i = i + 1;
                }
                None
            },
            _ => None,
        }
    }
}

/// The first `href` child among mixed content.
pub open spec fn first_href_item(items: Seq<ItemV>) -> Option<ValueV>
    decreases items.len(),
{
    if items.len() == 0 {
        None
    } else {
        match items[0] {
            ItemV::Element(n, v) => if n.key() == dav_key("href"@) {
                Some(v)
            } else {
                first_href_item(items.drop_first())
            },
            ItemV::Text(_) => first_href_item(items.drop_first()),
        }
    }
}

impl Element for Owner {
    open spec fn spec_local_name() -> Seq<char> {
        "owner"@
    }

    fn local_name() -> (r: &'static str) {
        "owner"
    }

    open spec fn spec_from_value(v: ValueV) -> Result<ValueV, ErrorV> {
        Ok(v)
    }

    fn from_value(v: &Value) -> (r: Result<Owner, Error>) {
        Ok(Owner(v.copy()))
    }

    open spec fn spec_into_value(x: ValueV) -> ValueV {
        x
    }

    fn into_value(self) -> (r: Value) {
        self.0
    }
}

/// An element holding an `href` reads back its `href` when the `href`'s
/// text parses back to it.
pub proof fn lemma_href_child_round_trip(element: Seq<char>, h: HrefV)
    requires
        Href::spec_from_value(Href::spec_into_value(h)) == Ok::<HrefV, ErrorV>(h),
    ensures
        href_child(element, href_value(h)) == Ok::<HrefV, ErrorV>(h),
{
    crate::value::lemma_single_get(dav_name("href"@), Href::spec_into_value(h), dav_key("href"@));
}

impl LockToken {
    /// A copy.
    pub fn copy(&self) -> (r: LockToken)
        ensures
            r@ == self@,
    {
        LockToken(self.0.copy())
    }
}

impl LockRoot {
    /// A copy.
    pub fn copy(&self) -> (r: LockRoot)
        ensures
            r@ == self@,
    {
        LockRoot(self.0.copy())
    }
}

impl Location {
    /// A copy.
    pub fn copy(&self) -> (r: Location)
        ensures
            r@ == self@,
    {
        Location(self.0.copy())
    }
}

impl ResponseDescription {
    /// A copy.
    pub fn copy(&self) -> (r: ResponseDescription)
        ensures
            r@ == self@,
    {
        ResponseDescription(self.0.clone())
    }
}

impl Owner {
    /// A copy.
    pub fn copy(&self) -> (r: Owner)
        ensures
            r@ == self@,
    {
        Owner(self.0.copy())
    }
}

/// The text elements and the owner read back from the values they are
/// written as.
pub proof fn lemma_text_elements_round_trip(t: Seq<char>, owner: ValueV)
    ensures
        ResponseDescription::spec_from_value(ResponseDescription::spec_into_value(t)) == Ok::<Seq<char>, ErrorV>(t),
        DisplayName::spec_from_value(DisplayName::spec_into_value(t)) == Ok::<Seq<char>, ErrorV>(t),
        ContentLanguage::spec_from_value(ContentLanguage::spec_into_value(t)) == Ok::<Seq<char>, ErrorV>(t),
        Owner::spec_from_value(Owner::spec_into_value(owner)) == Ok::<ValueV, ErrorV>(owner),
{
}

} // verus!
