//! Reading a document's events into a [`Value`].
use vstd::prelude::*;

use crate::error::{Error, ErrorV};
use vstd::string::StringSliceAdditionalSpecFns;
use crate::events::{events_view, AttrV, Event, EventV, Tag, TagV, Token, TokenV};
use crate::name::{dav_key, opt_view, ElementName, NameV};
use crate::quick::{
    char_reference, document_event, event_kind, event_text, next_event, open_reader, predefined_entity,
    predefined_entity_text, reader_position, resolved_char_ref, tag_attributes, tag_names,
    unescape_text, unescaped, DocumentReader, EventKind,
};
use crate::text::{all_whitespace, all_ws, has_prefix, push_char, starts_with, string_of};
use crate::value::{
    item_view, items_view, lemma_items_view, ContentItem, ItemV, MapV, Value, ValueMap, ValueV,
};

verus! {

/// How the content of an element is read.
#[derive(Clone, Copy, Debug, PartialEq, Eq, Structural)]
pub enum ReadMode {
    /// Child elements are grouped by name; blank text is skipped.
    Structured,
    /// The children of `DAV:prop`: each is a property.
    Prop,
    /// A property's content, kept with its text.
    Property,
    /// Mixed content, kept as written.
    Mixed,
    /// The children of `DAV:error`: each is a condition.
    Error,
}

pub open spec fn is_dav_local(n: NameV, local: Seq<char>) -> bool {
    n.key() == dav_key(local)
}

pub open spec fn is_known_condition(n: NameV) -> bool {
    ||| is_dav_local(n, "lock-token-matches-request-uri"@)
    ||| is_dav_local(n, "lock-token-submitted"@)
    ||| is_dav_local(n, "no-conflicting-lock"@)
    ||| is_dav_local(n, "no-external-entities"@)
    ||| is_dav_local(n, "preserved-live-properties"@)
    ||| is_dav_local(n, "propfind-finite-depth"@)
    ||| is_dav_local(n, "cannot-modify-protected-property"@)
}

pub open spec fn is_structured_property(n: NameV) -> bool {
    ||| is_dav_local(n, "lockdiscovery"@)
    ||| is_dav_local(n, "resourcetype"@)
    ||| is_dav_local(n, "supportedlock"@)
}

/// The mode in which the content of a child named `n` is read.
pub open spec fn child_mode_of(mode: ReadMode, n: NameV) -> ReadMode {
    match mode {
        ReadMode::Mixed => ReadMode::Mixed,
        ReadMode::Prop => if is_dav_local(n, "owner"@) {
            ReadMode::Mixed
        } else if is_structured_property(n) {
            ReadMode::Structured
        } else {
            ReadMode::Property
        },
        ReadMode::Property => if is_dav_local(n, "owner"@) {
            ReadMode::Mixed
        } else {
            ReadMode::Property
        },
        ReadMode::Error => if is_known_condition(n) {
            ReadMode::Structured
        } else {
            ReadMode::Property
        },
        ReadMode::Structured => if is_dav_local(n, "owner"@) {
            ReadMode::Mixed
        } else if is_dav_local(n, "error"@) {
            ReadMode::Error
        } else if is_dav_local(n, "prop"@) {
            ReadMode::Prop
        } else {
            ReadMode::Structured
        },
    }
}

/// Modes that keep text and elements in document order.
pub open spec fn keeps_content(mode: ReadMode) -> bool {
    mode is Property || mode is Mixed
}

/// Modes that skip whitespace-only text.
pub open spec fn skips_blank(mode: ReadMode) -> bool {
    mode is Structured || mode is Prop || mode is Error
}

pub open spec fn is_namespace_declaration(key: Seq<char>) -> bool {
    has_prefix(key, "xmlns:"@)
}

/// The first problem with a tag's attributes, in document order: an
/// attribute that could not be read, or a prefix bound to an empty URI.
pub open spec fn attributes_error(a: Seq<AttrV>) -> Option<ErrorV>
    decreases a.len(),
{
    if a.len() == 0 {
        None
    } else {
        match a[0] {
            Err(m) => Some(ErrorV::Xml(m)),
            Ok((k, v)) => if is_namespace_declaration(k) && v.len() == 0 {
                Some(ErrorV::InvalidNamespace(v))
            } else {
                attributes_error(a.subrange(1, a.len() as int))
            },
        }
    }
}

/// The name under which a tag is stored: namespace and local name where the
/// prefix is bound, else the name as written.
pub open spec fn tag_name(t: TagV) -> Result<NameV, ErrorV> {
    match attributes_error(t.attributes) {
        Some(e) => Err(e),
        None => match t.namespace {
            Some(ns) => if ns.len() == 0 {
                Err(ErrorV::InvalidNamespace(ns))
            } else {
                Ok(NameV { namespace: Some(ns), prefix: None, local_name: t.local_name })
            },
            None => Ok(NameV { namespace: None, prefix: None, local_name: t.name }),
        },
    }
}

/// The text a reference stands for.
pub open spec fn reference_text(name: Seq<char>) -> Result<Seq<char>, ErrorV> {
    match resolved_char_ref(name) {
        Err(m) => Err(ErrorV::Xml(m)),
        Ok(Some(c)) => Ok(seq![c]),
        Ok(None) => match predefined_entity_text(name) {
            Some(t) => Ok(t),
            None => Err(ErrorV::UnknownEntity(name)),
        },
    }
}

/// The text that raw character data stands for.
pub open spec fn text_of(raw: Seq<char>) -> Result<Seq<char>, ErrorV> {
    match unescaped(raw) {
        Ok(t) => Ok(t),
        Err(m) => Err(ErrorV::Xml(m)),
    }
}

/// The event at `i`; past the end, the document's end.
pub open spec fn event_at(ev: Seq<EventV>, i: int) -> EventV {
    if 0 <= i < ev.len() {
        ev[i]
    } else {
        EventV {
            token: TokenV::Eof,
            position: if ev.len() > 0 {
                ev.last().position
            } else {
                0
            },
        }
    }
}

/// The rest of a text run that started before `pos`, with the index after
/// the event that ended it.
pub open spec fn trailing(ev: Seq<EventV>, pos: int, acc: Seq<char>) -> Result<(Seq<char>, int), ErrorV>
    decreases ev.len() - pos,
{
    if pos < 0 || pos >= ev.len() {
        Ok((acc, pos + 1))
    } else {
        match ev[pos].token {
            TokenV::Text(raw) => match text_of(raw) {
                Ok(t) => trailing(ev, pos + 1, acc + t),
                Err(e) => Err(e),
            },
            TokenV::CData(t) => trailing(ev, pos + 1, acc + t),
            TokenV::Reference(n) => match reference_text(n) {
                Ok(t) => trailing(ev, pos + 1, acc + t),
                Err(e) => Err(e),
            },
            TokenV::Ignored => trailing(ev, pos + 1, acc),
            TokenV::End(_) => Ok((acc, pos + 1)),
            TokenV::Eof => Ok((acc, pos + 1)),
            TokenV::Failed(m) => Err(ErrorV::Xml(m)),
            _ => Err(ErrorV::UnexpectedTag { position: ev[pos].position }),
        }
    }
}

pub open spec fn as_text_value(r: Result<(Seq<char>, int), ErrorV>) -> Result<(ValueV, int), ErrorV> {
    match r {
        Ok((t, p)) => Ok((ValueV::Text(t), p)),
        Err(e) => Err(e),
    }
}

/// The content gathered so far, with the pending text run closed.
pub open spec fn flush(content: Seq<ItemV>, pending: Option<Seq<char>>) -> Seq<ItemV> {
    match pending {
        Some(t) => content.push(ItemV::Text(t)),
        None => content,
    }
}

/// The pending text run with `t` added.
pub open spec fn pend(pending: Option<Seq<char>>, t: Seq<char>) -> Option<Seq<char>> {
    match pending {
        Some(p) => Some(p + t),
        None => Some(t),
    }
}

pub open spec fn has_text(items: Seq<ItemV>) -> bool {
    exists|i: int| 0 <= i < items.len() && #[trigger] items[i] is Text
}

pub open spec fn has_element(items: Seq<ItemV>) -> bool {
    exists|i: int| 0 <= i < items.len() && #[trigger] items[i] is Element
}

/// The text items, joined.
pub open spec fn texts_of(items: Seq<ItemV>) -> Seq<char>
    decreases items.len(),
{
    if items.len() == 0 {
        Seq::empty()
    } else {
        texts_of(items.drop_last()) + match items.last() {
            ItemV::Text(t) => t,
            ItemV::Element(_, _) => Seq::empty(),
        }
    }
}

/// The element items, grouped by name as `ValueMap::insert_raw` groups them.
pub open spec fn elements_map(items: Seq<ItemV>) -> MapV
    decreases items.len(),
{
    if items.len() == 0 {
        MapV::empty()
    } else {
        let m = elements_map(items.drop_last());
        match items.last() {
            ItemV::Element(n, v) => m.insert_raw(n, v),
            ItemV::Text(_) => m,
        }
    }
}

/// The value of mixed content: empty, text, elements, or both kept in order.
pub open spec fn mixed_value_of(items: Seq<ItemV>) -> ValueV {
    if !has_element(items) {
        if !has_text(items) {
            ValueV::Empty
        } else {
            ValueV::Text(texts_of(items))
        }
    } else if !has_text(items) {
        ValueV::Elements(elements_map(items))
    } else {
        ValueV::Mixed(items)
    }
}

/// The value of a property's content: an absent content is an empty map,
/// text alone is text, elements alone are grouped, and both are kept in order.
pub open spec fn property_value_of(items: Seq<ItemV>) -> ValueV {
    if !has_element(items) {
        if items.len() == 0 {
            ValueV::Elements(MapV::empty())
        } else {
            ValueV::Text(texts_of(items))
        }
    } else if has_text(items) {
        ValueV::Mixed(items)
    } else {
        ValueV::Elements(elements_map(items))
    }
}

pub open spec fn finish(mode: ReadMode, map: MapV, content: Seq<ItemV>) -> ValueV {
    match mode {
        ReadMode::Mixed => mixed_value_of(content),
        ReadMode::Property => property_value_of(content),
        _ => ValueV::Elements(map),
    }
}

pub open spec fn closes(t: TokenV, name: Seq<char>) -> bool {
    t matches TokenV::End(n) && n == name
}

/// The value of the element whose content starts at `pos`, read in `mode`,
/// with the index after the event that ended it.
pub open spec fn read_value(ev: Seq<EventV>, pos: int, mode: ReadMode) -> Result<(ValueV, int), ErrorV>
    decreases ev.len() - pos, 1int,
{
    read_loop(ev, pos, mode, MapV::empty(), Seq::empty(), None)
}

/// Reading goes on at `pos` with the children grouped in `map`, the content
/// in `content` and the text run `pending` not yet closed.
pub open spec fn read_loop(
    ev: Seq<EventV>,
    pos: int,
    mode: ReadMode,
    map: MapV,
    content: Seq<ItemV>,
    pending: Option<Seq<char>>,
) -> Result<(ValueV, int), ErrorV>
    decreases ev.len() - pos, 0int,
{
    if pos < 0 || pos >= ev.len() {
        Ok((finish(mode, map, flush(content, pending)), pos + 1))
    } else {
        match ev[pos].token {
            TokenV::Failed(m) => Err(ErrorV::Xml(m)),
            TokenV::End(_) => Ok((finish(mode, map, flush(content, pending)), pos + 1)),
            TokenV::Eof => Ok((finish(mode, map, flush(content, pending)), pos + 1)),
            TokenV::Ignored => read_loop(ev, pos + 1, mode, map, content, pending),
            TokenV::Prolog => read_loop(ev, pos + 1, mode, map, content, pending),
            TokenV::Text(raw) => if skips_blank(mode) && all_ws(raw) {
                read_loop(ev, pos + 1, mode, map, content, pending)
            } else {
                match text_of(raw) {
                    Err(e) => Err(e),
                    Ok(t) => if keeps_content(mode) {
                        read_loop(ev, pos + 1, mode, map, content, pend(pending, t))
                    } else {
                        as_text_value(trailing(ev, pos + 1, t))
                    },
                }
            },
            TokenV::CData(t) => if keeps_content(mode) {
                read_loop(ev, pos + 1, mode, map, content, pend(pending, t))
            } else {
                as_text_value(trailing(ev, pos + 1, t))
            },
            TokenV::Reference(n) => match reference_text(n) {
                Err(e) => Err(e),
                Ok(t) => if keeps_content(mode) {
                    read_loop(ev, pos + 1, mode, map, content, pend(pending, t))
                } else {
                    as_text_value(trailing(ev, pos + 1, t))
                },
            },
            TokenV::Empty(tag) => match tag_name(tag) {
                Err(e) => Err(e),
                Ok(n) => {
                    let c = flush(content, pending);
                    if keeps_content(mode) {
                        read_loop(ev, pos + 1, mode, map, c.push(ItemV::Element(n, ValueV::Empty)), None)
                    } else {
                        read_loop(ev, pos + 1, mode, map.insert_raw(n, ValueV::Empty), c, None)
                    }
                },
            },
            TokenV::Start(tag) => match tag_name(tag) {
                Err(e) => Err(e),
                Ok(n) => {
                    let c = flush(content, pending);
                    match read_value(ev, pos + 1, child_mode_of(mode, n)) {
                        Err(e) => Err(e),
                        Ok((child, p2)) => {
                            let last = event_at(ev, p2 - 1);
                            if !closes(last.token, tag.name) {
                                Err(ErrorV::UnexpectedTag { position: last.position })
                            } else if pos < p2 <= ev.len() {
                                if keeps_content(mode) {
                                    read_loop(ev, p2, mode, map, c.push(ItemV::Element(n, child)), None)
                                } else {
                                    read_loop(ev, p2, mode, map.insert_raw(n, child), c, None)
                                }
                            } else {
                                Err(ErrorV::UnexpectedTag { position: last.position })
                            }
                        },
                    }
                },
            },
        }
    }
}

/// The value of a document given as its events.
pub open spec fn document_value(ev: Seq<EventV>) -> Result<ValueV, ErrorV> {
    match read_value(ev, 0, ReadMode::Structured) {
        Ok((v, _)) => Ok(v),
        Err(e) => Err(e),
    }
}


/// Inside a `DAV:error` element, the content of every condition this
/// library names is read with whitespace-only text ignored: dropping a
/// blank text event anywhere in that content changes nothing that is read,
/// so a pretty-printed condition reads as the compact one does.
pub proof fn lemma_condition_ignores_blank(
    e: NameV,
    n: NameV,
    ev: Seq<EventV>,
    pos: int,
    map: MapV,
    content: Seq<ItemV>,
    pending: Option<Seq<char>>,
)
    requires
        e.key() == dav_key("error"@),
        n.key() == dav_key(n.local_name),
        crate::elements::error::known_condition(n.local_name),
        0 <= pos < ev.len(),
        ev[pos].token matches TokenV::Text(raw) && all_ws(raw),
    ensures
        ({
            let m = child_mode_of(child_mode_of(ReadMode::Structured, e), n);
            read_loop(ev, pos, m, map, content, pending) == read_loop(ev, pos + 1, m, map, content, pending)
        }),
{
    reveal_strlit("owner");
    reveal_strlit("error");
    assert("error"@[0] != "owner"@[0]);
    let m = child_mode_of(child_mode_of(ReadMode::Structured, e), n);
    assert(child_mode_of(ReadMode::Structured, e) == ReadMode::Error);
    assert(is_known_condition(n));
    assert(m == ReadMode::Structured);
}

/// Inside `DAV:prop`, the `resourcetype`, `lockdiscovery` and
/// `supportedlock` properties are read with whitespace-only text ignored:
/// dropping a blank text event anywhere in their content changes nothing
/// that is read, so a pretty-printed property reads as the compact one does.
pub proof fn lemma_structured_property_ignores_blank(
    p: NameV,
    n: NameV,
    ev: Seq<EventV>,
    pos: int,
    map: MapV,
    content: Seq<ItemV>,
    pending: Option<Seq<char>>,
)
    requires
        p.key() == dav_key("prop"@),
        n.key() == dav_key("resourcetype"@) || n.key() == dav_key("lockdiscovery"@) || n.key() == dav_key(
            "supportedlock"@,
        ),
        0 <= pos < ev.len(),
        ev[pos].token matches TokenV::Text(raw) && all_ws(raw),
    ensures
        ({
            let m = child_mode_of(child_mode_of(ReadMode::Structured, p), n);
            read_loop(ev, pos, m, map, content, pending) == read_loop(ev, pos + 1, m, map, content, pending)
        }),
{
    reveal_strlit("owner");
    reveal_strlit("error");
    reveal_strlit("prop");
    reveal_strlit("resourcetype");
    reveal_strlit("lockdiscovery");
    reveal_strlit("supportedlock");
    assert("prop"@[0] != "owner"@[0]);
    assert("prop"@[0] != "error"@[0]);
    assert("resourcetype"@[0] != "owner"@[0]);
    assert("lockdiscovery"@[0] != "owner"@[0]);
    assert("supportedlock"@[0] != "owner"@[0]);
    let m = child_mode_of(child_mode_of(ReadMode::Structured, p), n);
    assert(child_mode_of(ReadMode::Structured, p) == ReadMode::Prop);
    assert(is_structured_property(n));
    assert(m == ReadMode::Structured);
}

pub proof fn lemma_items_view_push(s: Seq<ContentItem>, x: ContentItem)
    ensures
        items_view(s.push(x)) == items_view(s).push(item_view(x)),
{
    assert(s.push(x).drop_last() =~= s);
}

/// Closes the pending text run into the content.
fn flush_pending(content: &mut Vec<ContentItem>, pending: Option<String>)
    ensures
        items_view(final(content)@) == flush(items_view(old(content)@), opt_view(pending)),
{
    match pending {
        Some(t) => {
            proof {
                lemma_items_view_push(content@, ContentItem::Text(t));
            }
            content.push(ContentItem::Text(t));
        },
        None => {},
    }
}

/// Adds `t` to the pending text run.
fn pend_text(pending: Option<String>, t: &str) -> (r: Option<String>)
    ensures
        opt_view(r) == pend(opt_view(pending), t@),
{
    match pending {
        Some(mut p) => {
            p.append(t);
            Some(p)
        },
        None => Some(string_of(t)),
    }
}

/// Whether the items hold text and whether they hold elements.
fn scan_items(items: &Vec<ContentItem>) -> (r: (bool, bool))
    ensures
        r.0 == has_text(items_view(items@)),
        r.1 == has_element(items_view(items@)),
{
    let ghost iv = items_view(items@);
    proof {
        lemma_items_view(items@);
    }
    let mut text = false;
    let mut element = false;
    let mut i: usize = 0;
    while i < items.len()
        invariant
            i <= items.len(),
            iv == items_view(items@),
            iv.len() == items@.len(),
            forall|j: int| 0 <= j < iv.len() ==> #[trigger] iv[j] == item_view(items@[j]),
            text == exists|j: int| 0 <= j < i && #[trigger] iv[j] is Text,
            element == exists|j: int| 0 <= j < i && #[trigger] iv[j] is Element,
        decreases items.len() - i,
    {
        match &items[i] {
            ContentItem::Text(_) => {
                assert(iv[i as int] is Text);
                text = true;
            },
            ContentItem::Element { .. } => {
                assert(iv[i as int] is Element);
                element = true;
            },
        }
        i = i + 1;
    }
    (text, element)
}

/// The text items, joined.
fn join_texts(items: &Vec<ContentItem>) -> (r: String)
    ensures
        r@ == texts_of(items_view(items@)),
{
    let ghost iv = items_view(items@);
    proof {
        lemma_items_view(items@);
    }
    let mut r = String::new();
    let mut i: usize = 0;
    while i < items.len()
        invariant
            i <= items.len(),
            iv == items_view(items@),
            iv.len() == items@.len(),
            forall|j: int| 0 <= j < iv.len() ==> #[trigger] iv[j] == item_view(items@[j]),
            r@ == texts_of(iv.subrange(0, i as int)),
        decreases items.len() - i,
    {
        assert(iv.subrange(0, i + 1).drop_last() =~= iv.subrange(0, i as int));
        match &items[i] {
            ContentItem::Text(t) => {
                r.append(t.as_str());
            },
            ContentItem::Element { .. } => {
                assert(r@ + Seq::<char>::empty() =~= r@);
            },
        }
        i = i + 1;
    }
    assert(iv.subrange(0, iv.len() as int) =~= iv);
    r
}

/// The element items, grouped by name.
fn group_elements(items: &Vec<ContentItem>) -> (r: ValueMap)
    ensures
        r@ == elements_map(items_view(items@)),
{
    let ghost iv = items_view(items@);
    proof {
        lemma_items_view(items@);
    }
    let mut map = ValueMap::new();
    let mut i: usize = 0;
    while i < items.len()
        invariant
            i <= items.len(),
            iv == items_view(items@),
            iv.len() == items@.len(),
            forall|j: int| 0 <= j < iv.len() ==> #[trigger] iv[j] == item_view(items@[j]),
            map@ == elements_map(iv.subrange(0, i as int)),
        decreases items.len() - i,
    {
        assert(iv.subrange(0, i + 1).drop_last() =~= iv.subrange(0, i as int));
        match &items[i] {
            ContentItem::Text(_) => {},
            ContentItem::Element { name, value } => {
                map.insert_raw(name.copy(), value.copy());
            },
        }
        i = i + 1;
    }
    assert(iv.subrange(0, iv.len() as int) =~= iv);
    map
}

/// The value of mixed content.
pub fn mixed_value(items: Vec<ContentItem>) -> (r: Value)
    ensures
        r@ == mixed_value_of(items_view(items@)),
{
    let (text, element) = scan_items(&items);
    if !element {
        if !text {
            Value::Empty
        } else {
            Value::Text(join_texts(&items))
        }
    } else if !text {
        Value::Elements(group_elements(&items))
    } else {
        Value::Mixed(items)
    }
}

/// The value of a property's content.
pub fn property_value(items: Vec<ContentItem>) -> (r: Value)
    ensures
        r@ == property_value_of(items_view(items@)),
{
    let (text, element) = scan_items(&items);
    proof {
        lemma_items_view(items@);
    }
    if !element {
        if items.len() == 0 {
            Value::Elements(ValueMap::new())
        } else {
            Value::Text(join_texts(&items))
        }
    } else if text {
        Value::Mixed(items)
    } else {
        Value::Elements(group_elements(&items))
    }
}

fn finish_value(mode: ReadMode, map: ValueMap, content: Vec<ContentItem>) -> (r: Value)
    ensures
        r@ == finish(mode, map@, items_view(content@)),
{
    match mode {
        ReadMode::Mixed => mixed_value(content),
        ReadMode::Property => property_value(content),
        _ => Value::Elements(map),
    }
}

/// The mode in which the content of a child named `name` is read.
pub fn child_mode(mode: ReadMode, name: &ElementName) -> (r: ReadMode)
    ensures
        r == child_mode_of(mode, name@),
{
    match mode {
        ReadMode::Mixed => ReadMode::Mixed,
        ReadMode::Prop => if name.is_dav("owner") {
            ReadMode::Mixed
        } else if name.is_dav("lockdiscovery") || name.is_dav("resourcetype") || name.is_dav(
            "supportedlock",
        ) {
            ReadMode::Structured
        } else {
            ReadMode::Property
        },
        ReadMode::Property => if name.is_dav("owner") {
            ReadMode::Mixed
        } else {
            ReadMode::Property
        },
        ReadMode::Error => if name.is_dav("lock-token-matches-request-uri") || name.is_dav(
            "lock-token-submitted",
        ) || name.is_dav("no-conflicting-lock") || name.is_dav("no-external-entities")
            || name.is_dav("preserved-live-properties") || name.is_dav("propfind-finite-depth")
            || name.is_dav("cannot-modify-protected-property") {
            ReadMode::Structured
        } else {
            ReadMode::Property
        },
        ReadMode::Structured => if name.is_dav("owner") {
            ReadMode::Mixed
        } else if name.is_dav("error") {
            ReadMode::Error
        } else if name.is_dav("prop") {
            ReadMode::Prop
        } else {
            ReadMode::Structured
        },
    }
}

/// The name a tag is stored under, after its namespace declarations are
/// checked.
pub fn tag_element_name(tag: &Tag) -> (r: Result<ElementName, Error>)
    ensures
        match r {
            Ok(n) => tag_name(tag@) == Ok::<NameV, ErrorV>(n@),
            Err(e) => tag_name(tag@) == Err::<NameV, ErrorV>(e@),
        },
{
    let ghost a = tag@.attributes;
    assert(a.subrange(0, a.len() as int) =~= a);
    let mut i: usize = 0;
    while i < tag.attributes.len()
        invariant
            i <= tag.attributes.len(),
            a == tag@.attributes,
            a.len() == tag.attributes@.len(),
            attributes_error(a) == attributes_error(a.subrange(i as int, a.len() as int)),
        decreases tag.attributes.len() - i,
    {
        let ghost rest = a.subrange(i as int, a.len() as int);
        assert(rest[0] == a[i as int]);
        assert(rest.subrange(1, rest.len() as int) =~= a.subrange(i + 1, a.len() as int));
        match &tag.attributes[i] {
            Err(m) => {
                return Err(Error::Xml(m.clone()));
            },
            Ok((k, v)) => {
                if starts_with(k.as_str(), "xmlns:") && v.as_str().is_empty() {
                    return Err(Error::InvalidNamespace(v.clone()));
                }
            },
        }
        i = i + 1;
    }
    assert(a.subrange(a.len() as int, a.len() as int) =~= Seq::<AttrV>::empty());
    match &tag.namespace {
        Some(ns) => if ns.as_str().is_empty() {
            Err(Error::InvalidNamespace(ns.clone()))
        } else {
            Ok(ElementName { namespace: Some(ns.clone()), prefix: None, local_name: tag.local_name.clone() })
        },
        None => Ok(ElementName { namespace: None, prefix: None, local_name: tag.name.clone() }),
    }
}

/// The text a reference stands for.
pub fn reference_value(name: &String) -> (r: Result<String, Error>)
    ensures
        match r {
            Ok(t) => reference_text(name@) == Ok::<Seq<char>, ErrorV>(t@),
            Err(e) => reference_text(name@) == Err::<Seq<char>, ErrorV>(e@),
        },
{
    match char_reference(name.as_str()) {
        Err(m) => Err(Error::Xml(m)),
        Ok(Some(c)) => {
            let mut s = String::new();
            push_char(&mut s, c);
            assert(s@ =~= seq![c]);
            Ok(s)
        },
        Ok(None) => match predefined_entity(name.as_str()) {
            Some(t) => Ok(string_of(t)),
            None => Err(Error::UnknownEntity(name.clone())),
        },
    }
}

/// The text that raw character data stands for.
pub fn text_value(raw: &String) -> (r: Result<String, Error>)
    ensures
        match r {
            Ok(t) => text_of(raw@) == Ok::<Seq<char>, ErrorV>(t@),
            Err(e) => text_of(raw@) == Err::<Seq<char>, ErrorV>(e@),
        },
{
    match unescape_text(raw.as_str()) {
        Ok(t) => Ok(t),
        Err(m) => Err(Error::Xml(m)),
    }
}


/// The byte position after the event at `i`; past the end, after the last.
fn position_at(ev: &Vec<Event>, i: usize) -> (r: u64)
    ensures
        r == event_at(events_view(ev@), i as int).position,
{
    if i < ev.len() {
        ev[i].position
    } else if ev.len() > 0 {
        ev[ev.len() - 1].position
    } else {
        0
    }
}

/// Reads the rest of a text run that started before `pos`.
fn read_trailing(ev: &Vec<Event>, pos: usize, head: String) -> (r: Result<(String, usize), Error>)
    requires
        pos <= ev.len() < usize::MAX,
    ensures
        match r {
            Ok((t, p)) => trailing(events_view(ev@), pos as int, head@) == Ok::<(Seq<char>, int), ErrorV>((t@, p as int))
                && pos < p <= ev.len() + 1,
            Err(e) => trailing(events_view(ev@), pos as int, head@) == Err::<(Seq<char>, int), ErrorV>(e@),
        },
{
    let ghost evv = events_view(ev@);
    let ghost target = trailing(evv, pos as int, head@);
    let mut acc = head;
    let mut p = pos;
    loop
        invariant
            evv == events_view(ev@),
            pos <= p <= ev.len() < usize::MAX,
            target == trailing(evv, p as int, acc@),
            target == trailing(evv, pos as int, head@),
        decreases ev.len() - p,
    {
        if p >= ev.len() {
            return Ok((acc, p + 1));
        }
        assert(evv[p as int] == ev@[p as int]@);
        match &ev[p].token {
            Token::Text(raw) => {
                match text_value(raw) {
                    Ok(t) => acc.append(t.as_str()),
                    Err(e) => return Err(e),
                }
            },
            Token::CData(t) => acc.append(t.as_str()),
            Token::Reference(n) => {
                match reference_value(n) {
                    Ok(t) => acc.append(t.as_str()),
                    Err(e) => return Err(e),
                }
            },
            Token::Ignored => {},
            Token::End(_) => return Ok((acc, p + 1)),
            Token::Eof => return Ok((acc, p + 1)),
            Token::Failed(m) => return Err(Error::Xml(m.clone())),
            _ => return Err(Error::UnexpectedTag { position: ev[p].position }),
        }
        p = p + 1;
    }
}

/// Reads the content of the element that starts at `pos` in `mode`.
fn read_value_at(ev: &Vec<Event>, pos: usize, mode: ReadMode) -> (r: Result<(Value, usize), Error>)
    requires
        pos <= ev.len() < usize::MAX,
    ensures
        match r {
            Ok((v, p)) => read_value(events_view(ev@), pos as int, mode) == Ok::<(ValueV, int), ErrorV>((v@, p as int))
                && pos < p <= ev.len() + 1,
            Err(e) => read_value(events_view(ev@), pos as int, mode) == Err::<(ValueV, int), ErrorV>(e@),
        },
    decreases ev.len() - pos,
{
    let ghost evv = events_view(ev@);
    let ghost target = read_value(evv, pos as int, mode);
    let mut map = ValueMap::new();
    let mut content: Vec<ContentItem> = Vec::new();
    let mut pending: Option<String> = None;
    let mut p = pos;
    assert(items_view(content@) =~= Seq::<ItemV>::empty());
    loop
        invariant
            evv == events_view(ev@),
            pos <= p <= ev.len() < usize::MAX,
            target == read_loop(evv, p as int, mode, map@, items_view(content@), opt_view(pending)),
            target == read_value(evv, pos as int, mode),
        decreases ev.len() - p,
    {
        if p >= ev.len() {
            flush_pending(&mut content, pending);
            return Ok((finish_value(mode, map, content), p + 1));
        }
        assert(evv[p as int] == ev@[p as int]@);
        match &ev[p].token {
            Token::Failed(m) => {
                return Err(Error::Xml(m.clone()));
            },
            Token::End(_) | Token::Eof => {
                flush_pending(&mut content, pending);
                return Ok((finish_value(mode, map, content), p + 1));
            },
            Token::Ignored | Token::Prolog => {
                p = p + 1;
            },
            Token::Text(raw) => {
                let skip = match mode {
                    ReadMode::Structured | ReadMode::Prop | ReadMode::Error => all_whitespace(raw.as_str()),
                    _ => false,
                };
                if skip {
                    p = p + 1;
                } else {
                    let t = match text_value(raw) {
                        Ok(t) => t,
                        Err(e) => return Err(e),
                    };
                    if matches!(mode, ReadMode::Property | ReadMode::Mixed) {
                        pending = pend_text(pending, t.as_str());
                        p = p + 1;
                    } else {
                        return match read_trailing(ev, p + 1, t) {
                            Ok((text, q)) => Ok((Value::Text(text), q)),
                            Err(e) => Err(e),
                        };
                    }
                }
            },
            Token::CData(t) => {
                if matches!(mode, ReadMode::Property | ReadMode::Mixed) {
                    pending = pend_text(pending, t.as_str());
                    p = p + 1;
                } else {
                    return match read_trailing(ev, p + 1, t.clone()) {
                        Ok((text, q)) => Ok((Value::Text(text), q)),
                        Err(e) => Err(e),
                    };
                }
            },
            Token::Reference(n) => {
                let t = match reference_value(n) {
                    Ok(t) => t,
                    Err(e) => return Err(e),
                };
                if matches!(mode, ReadMode::Property | ReadMode::Mixed) {
                    pending = pend_text(pending, t.as_str());
                    p = p + 1;
                } else {
                    return match read_trailing(ev, p + 1, t) {
                        Ok((text, q)) => Ok((Value::Text(text), q)),
                        Err(e) => Err(e),
                    };
                }
            },
            Token::Empty(tag) => {
                let name = match tag_element_name(tag) {
                    Ok(n) => n,
                    Err(e) => return Err(e),
                };
                flush_pending(&mut content, pending);
                pending = None;
                if matches!(mode, ReadMode::Property | ReadMode::Mixed) {
                    proof {
                        lemma_items_view_push(content@, ContentItem::Element { name, value: Value::Empty });
                    }
                    content.push(ContentItem::Element { name, value: Value::Empty });
                } else {
                    map.insert_raw(name, Value::Empty);
                }
                p = p + 1;
            },
            Token::Start(tag) => {
                let name = match tag_element_name(tag) {
                    Ok(n) => n,
                    Err(e) => return Err(e),
                };
                flush_pending(&mut content, pending);
                pending = None;
                let inner = child_mode(mode, &name);
                let (child, q) = match read_value_at(ev, p + 1, inner) {
                    Ok(x) => x,
                    Err(e) => return Err(e),
                };
                let closed = q - 1 < ev.len() && match &ev[q - 1].token {
                    Token::End(n) => n.eq(&tag.name),
                    _ => false,
                };
                if !closed {
                    return Err(Error::UnexpectedTag { position: position_at(ev, q - 1) });
                }
                assert(evv[q - 1] == ev@[q - 1]@);
                if matches!(mode, ReadMode::Property | ReadMode::Mixed) {
                    proof {
                        lemma_items_view_push(content@, ContentItem::Element { name, value: child });
                    }
                    content.push(ContentItem::Element { name, value: child });
                } else {
                    map.insert_raw(name, child);
                }
                p = q;
            },
        }
    }
}


/// Reads the next event of the document.
fn read_token(reader: &mut DocumentReader) -> (t: Token)
    ensures
        final(reader)@ == (old(reader)@.0, old(reader)@.1 + 1),
        t@ == document_event(old(reader)@.0, old(reader)@.1).token,
{
    let ghost ev = document_event(reader@.0, reader@.1);
    match next_event(reader) {
        Err(m) => Token::Failed(m),
        Ok(namespace) => match event_kind(reader) {
            EventKind::Start => {
                let (name, local_name) = tag_names(reader);
                let attributes = tag_attributes(reader);
                let tag = Tag { namespace, name, local_name, attributes };
                assert(ev.token matches TokenV::Start(x) && tag@ == x);
                Token::Start(tag)
            },
            EventKind::Empty => {
                let (name, local_name) = tag_names(reader);
                let attributes = tag_attributes(reader);
                let tag = Tag { namespace, name, local_name, attributes };
                assert(ev.token matches TokenV::Empty(x) && tag@ == x);
                Token::Empty(tag)
            },
            EventKind::End => Token::End(event_text(reader)),
            EventKind::Text => Token::Text(event_text(reader)),
            EventKind::CData => Token::CData(event_text(reader)),
            EventKind::Reference => Token::Reference(event_text(reader)),
            EventKind::Ignored => Token::Ignored,
            EventKind::Prolog => Token::Prolog,
            EventKind::Eof => Token::Eof,
        },
    }
}

/// Whether a token ends the document.
pub open spec fn is_final(t: TokenV) -> bool {
    t is Eof || t is Failed
}

/// The message of the event that ends a list of events cut short.
pub open spec fn too_many_events() -> Seq<char> {
    "the reader reported more events than the document has bytes"@
}

/// The events of the document `xml` from the `k`-th on, up to and
/// including the first that ends the document; past `left` more events the
/// list ends in an error instead, at the position of the event read there.
pub open spec fn reported_from(xml: Seq<char>, k: nat, left: nat) -> Seq<EventV>
    decreases left,
{
    let ev = document_event(xml, k);
    if is_final(ev.token) {
        seq![ev]
    } else if left == 0 {
        seq![EventV { token: TokenV::Failed(too_many_events()), position: ev.position }]
    } else {
        seq![ev] + reported_from(xml, k + 1, (left - 1) as nat)
    }
}

/// How many events are read of a document of `n` bytes before the list is
/// cut short: every event but the last takes at least one byte.
pub open spec fn event_limit(n: nat) -> nat {
    if n < usize::MAX - 2 {
        n
    } else {
        (usize::MAX - 2) as nat
    }
}

/// The events read of the document `xml`, as `quick-xml` reports them.
pub open spec fn document_events(xml: Seq<char>) -> Seq<EventV> {
    reported_from(xml, 0, event_limit(vstd::utf8::encode_utf8(xml).len()))
}

proof fn lemma_reported_from(xml: Seq<char>, k: nat, left: nat)
    ensures
        0 < reported_from(xml, k, left).len() <= left + 1,
        is_final(reported_from(xml, k, left).last().token),
    decreases left,
{
    let ev = document_event(xml, k);
    if !is_final(ev.token) && left > 0 {
        lemma_reported_from(xml, k + 1, (left - 1) as nat);
        let rest = reported_from(xml, k + 1, (left - 1) as nat);
        assert((seq![ev] + rest).last() == rest.last());
    }
}

/// The events of a document, up to and including the end of the document or
/// the first error. Every event but the last takes at least one byte of the
/// document, so a document of `n` bytes has at most `n + 1`; should the
/// reader report more, the list ends in an error.
pub fn read_events(xml: &str) -> (r: Vec<Event>)
    ensures
        events_view(r@) == document_events(xml@),
        0 < r@.len() < usize::MAX,
        is_final(r@.last()@.token),
{
    let mut reader = open_reader(xml);
    let n = xml.as_bytes().len();
    assert(n as nat == vstd::utf8::encode_utf8(xml@).len()) by {
        assert(xml.spec_bytes() == vstd::utf8::encode_utf8(xml@));
    }
    let limit: usize = if n < usize::MAX - 2 {
        n
    } else {
        usize::MAX - 2
    };
    let ghost all = document_events(xml@);
    proof {
        lemma_reported_from(xml@, 0, limit as nat);
    }
    let mut out: Vec<Event> = Vec::new();
    assert(events_view(out@) =~= Seq::<EventV>::empty());
    assert(events_view(out@) + reported_from(xml@, 0, limit as nat) =~= all);
    loop
        invariant
            out@.len() <= limit < usize::MAX - 1,
            limit as nat == event_limit(vstd::utf8::encode_utf8(xml@).len()),
            all == document_events(xml@),
            reader@ == (xml@, out@.len() as nat),
            events_view(out@) + reported_from(xml@, out@.len() as nat, (limit - out@.len()) as nat) == all,
        decreases limit - out@.len(),
    {
        let ghost k = out@.len() as nat;
        let ghost before = events_view(out@);
        let token = read_token(&mut reader);
        let position = reader_position(&reader);
        let ghost ev = document_event(xml@, k);
        assert(position == ev.position);
        let done = matches!(token, Token::Eof | Token::Failed(_));
        if done {
            out.push(Event { token, position });
            assert(events_view(out@) =~= before.push(ev));
            assert(events_view(out@) =~= all);
            return out;
        }
        if out.len() >= limit {
            out.push(Event { token: Token::Failed(string_of("the reader reported more events than the document has bytes")), position });
            assert(events_view(out@) =~= all);
            return out;
        }
        out.push(Event { token, position });
        assert(events_view(out@) =~= before.push(ev));
        assert(seq![ev] + reported_from(xml@, k + 1, (limit - k - 1) as nat) == reported_from(xml@, k, (limit - k) as nat));
        assert(events_view(out@) + reported_from(xml@, k + 1, (limit - k - 1) as nat) =~= before + reported_from(xml@, k, (limit - k) as nat));
    }
}

/// The value of a document given as its events.
pub fn value_from_events(events: &Vec<Event>) -> (r: Result<Value, Error>)
    requires
        events@.len() < usize::MAX,
    ensures
        match r {
            Ok(v) => document_value(events_view(events@)) == Ok::<ValueV, ErrorV>(v@),
            Err(e) => document_value(events_view(events@)) == Err::<ValueV, ErrorV>(e@),
        },
{
    match read_value_at(events, 0, ReadMode::Structured) {
        Ok((v, _)) => Ok(v),
        Err(e) => Err(e),
    }
}

/// Reads an XML document into a [`Value`]: bytes that are not UTF-8 are an
/// [`Error::Utf8`]; otherwise the value is what [`value_from_events`] builds
/// from the document's events as `quick-xml` reports them.
pub fn read_xml(xml: &[u8]) -> (r: Result<Value, Error>)
    ensures
        !vstd::utf8::valid_utf8(xml@) ==> (r matches Err(e) && e@ == ErrorV::Utf8(
            crate::text::utf8_error_message(xml@),
        )),
        vstd::utf8::valid_utf8(xml@) ==> crate::error::res_view(r) == document_value(
            document_events(vstd::utf8::decode_utf8(xml@)),
        ),
{
    match crate::text::utf8_text(xml) {
        Err(m) => Err(Error::Utf8(m)),
        Ok(s) => {
            let events = read_events(s);
            value_from_events(&events)
        },
    }
}

} // verus!
