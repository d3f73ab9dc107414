//! The bodies of PROPFIND and PROPPATCH requests.
use vstd::prelude::*;

use crate::element::{element_key, map_of, optional_child, opt_seq_view, seq_view, lemma_seq_view, Element};
use crate::elements::prop::{Prop, Remove, SetProp};
use crate::elements::simple::{AllProp, PropName};
use crate::error::{conflicting, missing_element, Error, ErrorV};
use crate::name::{dav_key, dav_name, ElementName, NameV};
use crate::value::{lemma_entries_view, MapV, Value, ValueMap, ValueV};

verus! {

/// The `include` element: further properties asked for with `allprop`.
#[derive(Debug, PartialEq)]
pub struct Include(pub Vec<ElementName>);

impl View for Include {
    type V = Seq<NameV>;

    open spec fn view(&self) -> Seq<NameV> {
        seq_view(self.0@)
    }
}

/// The names of the entries, in order.
pub open spec fn entry_names(es: Seq<(NameV, ValueV)>) -> Seq<NameV>
    decreases es.len(),
{
    if es.len() == 0 {
        Seq::empty()
    } else {
        entry_names(es.drop_last()).push(es.last().0)
    }
}

/// The map holding the names with empty values, in order.
pub open spec fn empty_entries(names: Seq<NameV>) -> MapV
    decreases names.len(),
{
    if names.len() == 0 {
        MapV::empty()
    } else {
        empty_entries(names.drop_last()).insert_raw(names.last(), ValueV::Empty)
    }
}

impl Element for Include {
    open spec fn spec_local_name() -> Seq<char> {
        "include"@
    }

    fn local_name() -> (r: &'static str) {
        "include"
    }

    /// The names of the children, in order of first appearance.
    open spec fn spec_from_value(v: ValueV) -> Result<Seq<NameV>, ErrorV> {
        match map_of("include"@, v) {
            Ok(m) => Ok(entry_names(m.entries)),
            Err(e) => Err(e),
        }
    }

    fn from_value(v: &Value) -> (r: Result<Include, Error>) {
        let m = match v.as_map_of_name("include") {
            Ok(m) => m,
            Err(e) => return Err(e),
        };
        let entries = m.iter();
        proof {
            lemma_entries_view(entries@);
        }
        let ghost es = m@.entries;
        let mut names: Vec<ElementName> = Vec::new();
        let mut i: usize = 0;
        assert(es.subrange(0, 0) =~= Seq::<(NameV, ValueV)>::empty());
        assert(seq_view(names@) =~= Seq::<NameV>::empty());
        while i < entries.len()
            invariant
                i <= entries.len(),
                es == m@.entries,
                es == crate::value::entries_view(entries@),
                es.len() == entries@.len(),
                forall|j: int| 0 <= j < entries@.len() ==> #[trigger] es[j] == (entries@[j].0@, entries@[j].1@),
                seq_view(names@) == entry_names(es.subrange(0, i as int)),
            decreases entries.len() - i,
        {
            let ghost before = names@;
            let name = entries[i].0.copy();
            names.push(name);
            proof {
                crate::element::lemma_seq_view_push(before, name);
            }
            assert(es.subrange(0, i + 1).drop_last() =~= es.subrange(0, i as int));
            i = i + 1;
        }
        assert(es.subrange(0, es.len() as int) =~= es);
        Ok(Include(names))
    }

    open spec fn spec_into_value(x: Seq<NameV>) -> ValueV {
        ValueV::Elements(empty_entries(x))
    }

    fn into_value(self) -> (r: Value) {
        let ghost names = self@;
        let mut map = ValueMap::new();
        let mut rest = self.0;
        let ghost n = names.len();
        proof {
            lemma_seq_view(rest@);
        }
        assert(rest@.len() == rest.len());
        assert(n <= usize::MAX);
        assert(seq_view(rest@) =~= names.subrange(0, n as int));
        let mut k: usize = 0;
        assert(names.subrange(0, 0) =~= Seq::<NameV>::empty());
        while rest.len() > 0
            invariant
                n == names.len(),
                n <= usize::MAX,
                k + rest@.len() == n,
                seq_view(rest@) == names.subrange(k as int, n as int),
                map@ == empty_entries(names.subrange(0, k as int)),
            decreases rest.len(),
        {
            let ghost old_rest = rest@;
            proof {
                lemma_seq_view(old_rest);
                crate::element::lemma_seq_view_subrange(old_rest, 1, old_rest.len() as int);
            }
            assert(seq_view(old_rest)[0] == names[k as int]);
            let name = rest.remove(0);
            assert(name == old_rest[0]);
            map.insert_raw(name, Value::Empty);
            assert(names.subrange(0, k + 1).drop_last() =~= names.subrange(0, k as int));
            proof {
                lemma_seq_view(rest@);
            }
            assert(seq_view(rest@) =~= names.subrange(k + 1, n as int));
            k = k + 1;
        }
        assert(names.subrange(0, n as int) =~= names);
        Value::Elements(map)
    }
}

/// The `propfind` element: which properties a PROPFIND asks for.
#[derive(Debug, PartialEq)]
pub enum PropFind {
    /// The names of all properties.
    PropName,
    /// All properties, and the named ones besides.
    AllProp { including: Option<Include> },
    /// The named properties.
    Prop(Prop),
}

pub enum PropFindV {
    PropName,
    AllProp { including: Option<Seq<NameV>> },
    Prop(MapV),
}

impl View for PropFind {
    type V = PropFindV;

    open spec fn view(&self) -> PropFindV {
        match self {
            PropFind::PropName => PropFindV::PropName,
            PropFind::AllProp { including } => PropFindV::AllProp { including: opt_seq_view(*including) },
            PropFind::Prop(p) => PropFindV::Prop(p@),
        }
    }
}

pub open spec fn propfind_from(v: ValueV) -> Result<PropFindV, ErrorV> {
    match map_of("propfind"@, v) {
        Err(e) => Err(e),
        Ok(m) => {
            let n = m.get(dav_key("propname"@));
            let a = m.get(dav_key("allprop"@));
            let p = m.get(dav_key("prop"@));
            if n is Some && a is None && p is None {
                Ok(PropFindV::PropName)
            } else if n is None && a is Some && p is None {
                match optional_child::<Include>(m) {
                    Ok(including) => Ok(PropFindV::AllProp { including }),
                    Err(e) => Err(e),
                }
            } else if n is None && a is None && p is Some {
                match Prop::spec_from_value(p->0) {
                    Ok(x) => Ok(PropFindV::Prop(x)),
                    Err(e) => Err(e),
                }
            } else {
                Err(
                    ErrorV::ConflictingElements {
                        parent: "propfind"@,
                        elements: "propname, allprop and prop are mutually exclusive"@,
                    },
                )
            }
        },
    }
}

pub open spec fn propfind_value(x: PropFindV) -> ValueV {
    ValueV::Elements(
        match x {
            PropFindV::PropName => MapV::empty().insert(dav_name("propname"@), ValueV::Empty),
            PropFindV::AllProp { including } => {
                let m = MapV::empty().insert(dav_name("allprop"@), ValueV::Empty);
                match including {
                    Some(i) => m.insert(dav_name("include"@), Include::spec_into_value(i)),
                    None => m,
                }
            },
            PropFindV::Prop(p) => MapV::empty().insert(dav_name("prop"@), ValueV::Elements(p)),
        },
    )
}

impl Element for PropFind {
    open spec fn spec_local_name() -> Seq<char> {
        "propfind"@
    }

    fn local_name() -> (r: &'static str) {
        "propfind"
    }

    open spec fn spec_from_value(v: ValueV) -> Result<PropFindV, ErrorV> {
        propfind_from(v)
    }

    fn from_value(v: &Value) -> (r: Result<PropFind, Error>) {
        let m = match v.as_map_of_name("propfind") {
            Ok(m) => m,
            Err(e) => return Err(e),
        };
        let n = m.get::<PropName>();
        let a = m.get::<AllProp>();
        let p = m.get::<Prop>();
        match (n, a, p) {
            (Some(_), None, None) => Ok(PropFind::PropName),
            (None, Some(_), None) => match m.get_optional_child::<Include>() {
                Ok(including) => Ok(PropFind::AllProp { including }),
                Err(e) => Err(e),
            },
            (None, None, Some(prop)) => match prop {
                Ok(x) => Ok(PropFind::Prop(x)),
                Err(e) => Err(e),
            },
            _ => Err(conflicting("propfind", "propname, allprop and prop are mutually exclusive")),
        }
    }

    open spec fn spec_into_value(x: PropFindV) -> ValueV {
        propfind_value(x)
    }

    fn into_value(self) -> (r: Value) {
        let mut map = ValueMap::new();
        match self {
            PropFind::PropName => map.insert::<PropName>(Value::Empty),
            PropFind::AllProp { including } => {
                map.insert::<AllProp>(Value::Empty);
                match including {
                    Some(i) => map.insert::<Include>(i.into_value()),
                    None => {},
                }
            },
            PropFind::Prop(p) => map.insert::<Prop>(p.into_value()),
        }
        Value::Elements(map)
    }
}

/// One instruction of a PROPPATCH.
#[derive(Debug, PartialEq)]
pub enum PropertyUpdateItem {
    /// Set the properties.
    SetProps(SetProp),
    /// Remove the properties.
    Remove(Remove),
}

pub enum UpdateV {
    SetProps(MapV),
    Remove(MapV),
}

impl View for PropertyUpdateItem {
    type V = UpdateV;

    open spec fn view(&self) -> UpdateV {
        match self {
            PropertyUpdateItem::SetProps(s) => UpdateV::SetProps(s@),
            PropertyUpdateItem::Remove(r) => UpdateV::Remove(r@),
        }
    }
}

/// The `propertyupdate` element: the instructions of a PROPPATCH, in order.
#[derive(Debug, PartialEq)]
pub struct PropertyUpdate(pub Vec<PropertyUpdateItem>);

impl View for PropertyUpdate {
    type V = Seq<UpdateV>;

    open spec fn view(&self) -> Seq<UpdateV> {
        seq_view(self.0@)
    }
}

/// The instructions among the children in document order, from the `p`-th
/// child on; other children are skipped.
pub open spec fn updates_from(children: Seq<(NameV, ValueV)>, k: int) -> Result<Seq<UpdateV>, ErrorV>
    decreases k,
{
    if k <= 0 {
        Ok(Seq::empty())
    } else {
        match updates_from(children, k - 1) {
            Err(e) => Err(e),
            Ok(items) => {
                let c = children[k - 1];
                if c.0.key() == dav_key("set"@) {
                    match SetProp::spec_from_value(c.1) {
                        Ok(x) => Ok(items.push(UpdateV::SetProps(x))),
                        Err(e) => Err(e),
                    }
                } else if c.0.key() == dav_key("remove"@) {
                    match Remove::spec_from_value(c.1) {
                        Ok(x) => Ok(items.push(UpdateV::Remove(x))),
                        Err(e) => Err(e),
                    }
                } else {
                    Ok(items)
                }
            },
        }
    }
}

pub open spec fn property_update_from(v: ValueV) -> Result<Seq<UpdateV>, ErrorV> {
    match map_of("propertyupdate"@, v) {
        Err(e) => Err(e),
        Ok(m) => match updates_from(m.ordered(), m.ordered().len() as int) {
            Err(e) => Err(e),
            Ok(items) => if items.len() == 0 {
                Err(ErrorV::MissingElement { parent: "propertyupdate"@, element: "set or remove"@ })
            } else {
                Ok(items)
            },
        },
    }
}

/// The map holding the instructions in order, each under its name.
pub open spec fn updates_map(items: Seq<UpdateV>) -> MapV
    decreases items.len(),
{
    if items.len() == 0 {
        MapV::empty()
    } else {
        let m = updates_map(items.drop_last());
        match items.last() {
            UpdateV::SetProps(p) => m.insert_raw(dav_name("set"@), SetProp::spec_into_value(p)),
            UpdateV::Remove(p) => m.insert_raw(dav_name("remove"@), Remove::spec_into_value(p)),
        }
    }
}

impl PropertyUpdate {
    /// No instructions.
    pub fn new() -> (r: PropertyUpdate)
        ensures
            r@ == Seq::<UpdateV>::empty(),
    {
        let v: Vec<PropertyUpdateItem> = Vec::new();
        assert(seq_view(v@) =~= Seq::<UpdateV>::empty());
        PropertyUpdate(v)
    }

    /// Adds an instruction to set `prop`.
    pub fn set(self, prop: Prop) -> (r: PropertyUpdate)
        ensures
            r@ == self@.push(UpdateV::SetProps(prop@)),
    {
        let mut items = self.0;
        let ghost before = items@;
        items.push(PropertyUpdateItem::SetProps(SetProp(prop)));
        proof {
            crate::element::lemma_seq_view_push(before, PropertyUpdateItem::SetProps(SetProp(prop)));
        }
        PropertyUpdate(items)
    }

    /// Adds an instruction to remove the properties named in `prop`.
    pub fn remove(self, prop: Prop) -> (r: PropertyUpdate)
        ensures
            r@ == self@.push(UpdateV::Remove(prop@)),
    {
        let mut items = self.0;
        let ghost before = items@;
        items.push(PropertyUpdateItem::Remove(Remove(prop)));
        proof {
            crate::element::lemma_seq_view_push(before, PropertyUpdateItem::Remove(Remove(prop)));
        }
        PropertyUpdate(items)
    }
}

impl Element for PropertyUpdate {
    open spec fn spec_local_name() -> Seq<char> {
        "propertyupdate"@
    }

    fn local_name() -> (r: &'static str) {
        "propertyupdate"
    }

    open spec fn spec_from_value(v: ValueV) -> Result<Seq<UpdateV>, ErrorV> {
        property_update_from(v)
    }

    fn from_value(v: &Value) -> (r: Result<PropertyUpdate, Error>) {
        let m = match v.as_map_of_name("propertyupdate") {
            Ok(m) => m,
            Err(e) => return Err(e),
        };
        let children = m.iter_ordered();
        let ghost cs = m@.ordered();
        assert(cs.len() == children@.len());
        let mut items: Vec<PropertyUpdateItem> = Vec::new();
        let mut i: usize = 0;
        assert(seq_view(items@) =~= Seq::<UpdateV>::empty());
        while i < children.len()
            invariant
                i <= children.len(),
                v@ == ValueV::Elements(m@),
                cs == m@.ordered(),
                cs.len() == children@.len(),
                forall|p: int| 0 <= p < children@.len() ==> (children@[p].0@, children@[p].1@) == #[trigger] m@.ordered_at(p),
                updates_from(cs, i as int) == Ok::<Seq<UpdateV>, ErrorV>(seq_view(items@)),
            decreases children.len() - i,
        {
            let (name, child) = children[i];
            assert(cs[i as int] == m@.ordered_at(i as int));
            let ghost before = items@;
            if name.is_dav("set") {
                match SetProp::from_value(child) {
                    Ok(x) => {
                        items.push(PropertyUpdateItem::SetProps(x));
                        proof {
                            crate::element::lemma_seq_view_push(before, items@.last());
                        }
                    },
                    Err(e) => {
                        proof {
                            lemma_updates_prefix_err(cs, i as int + 1);
                        }
                        return Err(e);
                    },
                }
            } else if name.is_dav("remove") {
                match Remove::from_value(child) {
                    Ok(x) => {
                        items.push(PropertyUpdateItem::Remove(x));
                        proof {
                            crate::element::lemma_seq_view_push(before, items@.last());
                        }
                    },
                    Err(e) => {
                        proof {
                            lemma_updates_prefix_err(cs, i as int + 1);
                        }
                        return Err(e);
                    },
                }
            }
            i = i + 1;
        }
        proof {
            lemma_seq_view(items@);
        }
        if items.len() == 0 {
            return Err(missing_element("propertyupdate", "set or remove"));
        }
        Ok(PropertyUpdate(items))
    }

    open spec fn spec_into_value(x: Seq<UpdateV>) -> ValueV {
        ValueV::Elements(updates_map(x))
    }

    fn into_value(self) -> (r: Value) {
        let ghost xs = self@;
        let ghost n = xs.len();
        let mut map = ValueMap::new();
        let mut rest = self.0;
        proof {
            lemma_seq_view(rest@);
        }
        assert(rest@.len() == rest.len());
        assert(n <= usize::MAX);
        assert(seq_view(rest@) =~= xs.subrange(0, n as int));
        let mut k: usize = 0;
        assert(xs.subrange(0, 0) =~= Seq::<UpdateV>::empty());
        while rest.len() > 0
            invariant
                n == xs.len(),
                n <= usize::MAX,
                k + rest@.len() == n,
                seq_view(rest@) == xs.subrange(k as int, n as int),
                map@ == updates_map(xs.subrange(0, k as int)),
            decreases rest.len(),
        {
            let ghost old_rest = rest@;
            proof {
                lemma_seq_view(old_rest);
                crate::element::lemma_seq_view_subrange(old_rest, 1, old_rest.len() as int);
            }
            assert(seq_view(old_rest)[0] == xs[k as int]);
            let item = rest.remove(0);
            assert(item == old_rest[0]);
            assert(xs.subrange(0, k + 1).drop_last() =~= xs.subrange(0, k as int));
            match item {
                PropertyUpdateItem::SetProps(s) => map.insert_raw(ElementName::dav("set"), s.into_value()),
                PropertyUpdateItem::Remove(r) => map.insert_raw(ElementName::dav("remove"), r.into_value()),
            }
            proof {
                lemma_seq_view(rest@);
            }
            assert(seq_view(rest@) =~= xs.subrange(k + 1, n as int));
            k = k + 1;
        }
        assert(xs.subrange(0, n as int) =~= xs);
        Value::Elements(map)
    }
}

pub proof fn lemma_updates_prefix_err(cs: Seq<(NameV, ValueV)>, k: int)
    requires
        0 <= k <= cs.len(),
        updates_from(cs, k) is Err,
    ensures
        updates_from(cs, cs.len() as int) == updates_from(cs, k),
    decreases cs.len() - k,
{
    if k < cs.len() {
        lemma_updates_prefix_err(cs, k + 1);
    }
}

impl Include {
    /// A copy.
    pub fn copy(&self) -> (r: Include)
        ensures
            r@ == self@,
    {
        Include(crate::element::duplicate_all(&self.0))
    }
}

impl PropFind {
    /// A copy.
    pub fn copy(&self) -> (r: PropFind)
        ensures
            r@ == self@,
    {
        match self {
            PropFind::PropName => PropFind::PropName,
            PropFind::AllProp { including } => PropFind::AllProp {
                including: match including {
                    Some(i) => Some(i.copy()),
                    None => None,
                },
            },
            PropFind::Prop(p) => PropFind::Prop(p.copy()),
        }
    }
}

impl crate::element::Duplicate for PropertyUpdateItem {
    fn duplicate(&self) -> (r: PropertyUpdateItem) {
        match self {
            PropertyUpdateItem::SetProps(s) => PropertyUpdateItem::SetProps(s.copy()),
            PropertyUpdateItem::Remove(x) => PropertyUpdateItem::Remove(x.copy()),
        }
    }
}

impl PropertyUpdate {
    /// A copy.
    pub fn copy(&self) -> (r: PropertyUpdate)
        ensures
            r@ == self@,
    {
        PropertyUpdate(crate::element::duplicate_all(&self.0))
    }
}

/// Whether no two of the names are the same name.
pub open spec fn distinct_names(names: Seq<NameV>) -> bool {
    forall|i: int, j: int| 0 <= i < j < names.len() ==> #[trigger] names[i].key() != #[trigger] names[j].key()
}

/// Distinct names are held in order, each with an empty value.
proof fn lemma_empty_entries(names: Seq<NameV>)
    requires
        distinct_names(names),
    ensures
        empty_entries(names).entries == names.map_values(|n: NameV| (n, ValueV::Empty)),
        entry_names(empty_entries(names).entries) == names,
    decreases names.len(),
{
    if names.len() > 0 {
        let front = names.drop_last();
        assert(distinct_names(front)) by {
            assert forall|i: int, j: int| 0 <= i < j < front.len() implies #[trigger] front[i].key() != #[trigger] front[j].key() by {
                assert(front[i] == names[i] && front[j] == names[j]);
            }
        }
        lemma_empty_entries(front);
        let m = empty_entries(front);
        let n = names.last();
        assert forall|j: int| 0 <= j < m.entries.len() implies #[trigger] m.entries[j].0.key() != n.key() by {
            assert(m.entries[j].0 == names[j]);
        }
        crate::value::lemma_find_key_none(m.entries, n.key());
        assert(empty_entries(names).entries =~= names.map_values(|n: NameV| (n, ValueV::Empty)));
        assert(empty_entries(names).entries.drop_last() =~= m.entries);
        assert(names =~= front.push(n));
    }
}

/// An `include` reads back from the value it is written as, when no name
/// occurs twice.
pub proof fn lemma_include_round_trip(names: Seq<NameV>)
    requires
        distinct_names(names),
    ensures
        Include::spec_from_value(Include::spec_into_value(names)) == Ok::<Seq<NameV>, ErrorV>(names),
{
    lemma_empty_entries(names);
}

/// A `propfind` reads back from the value it is written as, when the names
/// it includes with `allprop` are distinct.
pub proof fn lemma_propfind_round_trip(x: PropFindV)
    requires
        x matches PropFindV::AllProp { including: Some(ns) } ==> distinct_names(ns),
    ensures
        PropFind::spec_from_value(PropFind::spec_into_value(x)) == Ok::<PropFindV, ErrorV>(x),
{
    reveal_strlit("propname");
    reveal_strlit("allprop");
    reveal_strlit("prop");
    reveal_strlit("include");
    assert("propname"@.len() == 8 && "allprop"@.len() == 7 && "prop"@.len() == 4 && "include"@.len() == 7);
    assert("allprop"@[0] != "include"@[0]);
    let ks = seq![dav_key("propname"@), dav_key("allprop"@), dav_key("prop"@), dav_key("include"@)];
    assert(ks[0] != ks[1] && ks[0] != ks[2] && ks[0] != ks[3] && ks[1] != ks[2] && ks[1] != ks[3] && ks[2] != ks[3]);
    match x {
        PropFindV::PropName => {
            assert forall|i: int| 0 <= i < 4 implies #[trigger] MapV::empty().insert(dav_name("propname"@), ValueV::Empty).get(ks[i]) == if i == 0 {
                Some(ValueV::Empty)
            } else {
                None
            } by {
                crate::value::lemma_single_get(dav_name("propname"@), ValueV::Empty, ks[i]);
            }
            let m = MapV::empty().insert(dav_name("propname"@), ValueV::Empty);
            assert(m.get(ks[0]) == Some(ValueV::Empty));
            assert(m.get(ks[1]) == None::<ValueV>);
            assert(m.get(ks[2]) == None::<ValueV>);
        },
        PropFindV::AllProp { including } => {
            let a = MapV::empty().insert(dav_name("allprop"@), ValueV::Empty);
            let m = match including {
                Some(i) => a.insert(dav_name("include"@), Include::spec_into_value(i)),
                None => a,
            };
            assert forall|i: int| 0 <= i < 4 implies #[trigger] m.get(ks[i]) == if i == 1 {
                Some(ValueV::Empty)
            } else if i == 3 {
                match including {
                    Some(n) => Some(Include::spec_into_value(n)),
                    None => None,
                }
            } else {
                None
            } by {
                crate::value::lemma_single_get(dav_name("allprop"@), ValueV::Empty, ks[i]);
                match including {
                    Some(n) => crate::value::lemma_insert_get(a, dav_name("include"@), Include::spec_into_value(n), ks[i]),
                    None => {},
                }
            }
            assert(m.get(ks[0]) == None::<ValueV>);
            assert(m.get(ks[1]) == Some(ValueV::Empty));
            assert(m.get(ks[2]) == None::<ValueV>);
            assert(m.get(ks[3]) == match including {
                Some(n) => Some(Include::spec_into_value(n)),
                None => None::<ValueV>,
            });
            match including {
                Some(n) => lemma_include_round_trip(n),
                None => {},
            }
        },
        PropFindV::Prop(p) => {
            let m = MapV::empty().insert(dav_name("prop"@), ValueV::Elements(p));
            assert forall|i: int| 0 <= i < 4 implies #[trigger] m.get(ks[i]) == if i == 2 {
                Some(ValueV::Elements(p))
            } else {
                None
            } by {
                crate::value::lemma_single_get(dav_name("prop"@), ValueV::Elements(p), ks[i]);
            }
            assert(m.get(ks[0]) == None::<ValueV>);
            assert(m.get(ks[1]) == None::<ValueV>);
            assert(m.get(ks[2]) == Some(ValueV::Elements(p)));
        },
    }
}

/// The element and value an instruction is written as.
pub open spec fn update_entry(u: UpdateV) -> (NameV, ValueV) {
    match u {
        UpdateV::SetProps(p) => (dav_name("set"@), SetProp::spec_into_value(p)),
        UpdateV::Remove(p) => (dav_name("remove"@), Remove::spec_into_value(p)),
    }
}

/// What an instruction reads back as: a removal keeps only the names of
/// its properties.
pub open spec fn update_read_back(u: UpdateV) -> UpdateV {
    match u {
        UpdateV::Remove(p) => UpdateV::Remove(crate::elements::prop::names_only(p)),
        _ => u,
    }
}

proof fn lemma_set_remove_names()
    ensures
        dav_key("set"@) != dav_key("remove"@),
        dav_name("set"@).key() == dav_key("set"@),
        dav_name("remove"@).key() == dav_key("remove"@),
{
    reveal_strlit("set");
    reveal_strlit("remove");
    assert("set"@.len() == 3 && "remove"@.len() == 6);
}

/// The map of the instructions is well formed, holds at most a `set` and a
/// `remove` entry, and holds the instructions in order.
proof fn lemma_updates_map(items: Seq<UpdateV>)
    ensures
        updates_map(items).wf(),
        updates_map(items).entries.len() <= 2,
        forall|j: int| 0 <= j < updates_map(items).entries.len() ==> #[trigger] updates_map(items).entries[j].0 == dav_name("set"@)
            || updates_map(items).entries[j].0 == dav_name("remove"@),
        updates_map(items).ordered() == items.map_values(|u: UpdateV| update_entry(u)),
    decreases items.len(),
{
    lemma_set_remove_names();
    if items.len() == 0 {
        assert(MapV::empty().ordered() =~= Seq::<(NameV, ValueV)>::empty());
        assert(items.map_values(|u: UpdateV| update_entry(u)) =~= Seq::<(NameV, ValueV)>::empty());
    } else {
        let front = items.drop_last();
        lemma_updates_map(front);
        let m = updates_map(front);
        let e = update_entry(items.last());
        crate::value::lemma_find_key(m.entries, e.0.key());
        let i = m.find(e.0.key());
        assert(m.insert_raw(e.0, e.1) == updates_map(items));
        if m.entries.len() == 2 {
            assert(m.entries[0].0.key() != m.entries[1].0.key());
            assert(i >= 0) by {
                if i < 0 {
                    assert(m.entries[0].0.key() != e.0.key());
                    assert(m.entries[1].0.key() != e.0.key());
                }
            }
        }
        crate::value::lemma_insert_raw_wf(m, e.0, e.1);
        crate::value::lemma_insert_raw_ordered(m, e.0, e.1);
        if i >= 0 {
            assert(m.entries[i].0 == e.0);
        }
        assert(items.map_values(|u: UpdateV| update_entry(u)) =~= front.map_values(|u: UpdateV| update_entry(u)).push(e));
    }
}

/// Reading the written instructions one by one gives them back as they read.
proof fn lemma_updates_from(items: Seq<UpdateV>, k: int)
    requires
        0 <= k <= items.len(),
    ensures
        updates_from(items.map_values(|u: UpdateV| update_entry(u)), k) == Ok::<Seq<UpdateV>, ErrorV>(
            items.take(k).map_values(|u: UpdateV| update_read_back(u)),
        ),
    decreases k,
{
    lemma_set_remove_names();
    if k <= 0 {
        assert(items.take(k).map_values(|u: UpdateV| update_read_back(u)) =~= Seq::<UpdateV>::empty());
    } else {
        lemma_updates_from(items, k - 1);
        let c = items.map_values(|u: UpdateV| update_entry(u))[k - 1];
        assert(c == update_entry(items[k - 1]));
        match items[k - 1] {
            UpdateV::SetProps(p) => crate::elements::prop::lemma_prop_round_trip(p),
            UpdateV::Remove(p) => crate::elements::prop::lemma_prop_round_trip(p),
        }
        assert(items.take(k).map_values(|u: UpdateV| update_read_back(u)) =~= items.take(k - 1).map_values(
            |u: UpdateV| update_read_back(u),
        ).push(update_read_back(items[k - 1])));
    }
}

/// A `propertyupdate` with at least one instruction reads back from the
/// value it is written as, each removal holding only the names of its
/// properties.
pub proof fn lemma_property_update_round_trip(items: Seq<UpdateV>)
    requires
        items.len() > 0,
    ensures
        PropertyUpdate::spec_from_value(PropertyUpdate::spec_into_value(items)) == Ok::<Seq<UpdateV>, ErrorV>(
            items.map_values(|u: UpdateV| update_read_back(u)),
        ),
{
    lemma_updates_map(items);
    lemma_updates_from(items, items.len() as int);
    assert(items.take(items.len() as int) =~= items);
}

} // verus!
