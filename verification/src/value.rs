//! The content of an XML element, as a tree of values.
use vstd::prelude::*;

use crate::error::{invalid_value_type, Error, ErrorV};
use crate::name::{ElementName, NameKey, NameV};

verus! {

broadcast use vstd::std_specs::vec::axiom_vec_index_decreases;

/// Represents the content of an XML element.
#[derive(Debug, PartialEq, Eq)]
pub enum Value {
    /// The element is empty, e.g. `<foo />`
    Empty,
    /// The element contains a text node, e.g. `<foo>bar</foo>`
    Text(String),
    /// The element contains other elements, e.g. `<foo><bar /></foo>`
    Elements(ValueMap),
    /// The parent element contains several elements of this name, e.g.
    /// `<foo /><foo />`
    List(NonEmptyVec<Value>),
    /// The element interleaves text and child elements, in document order.
    Mixed(Vec<ContentItem>),
}

/// A sequence that holds at least one item.
#[derive(Debug, PartialEq, Eq)]
pub struct NonEmptyVec<T> {
    items: Vec<T>,
}

impl<T> View for NonEmptyVec<T> {
    type V = Seq<T>;

    closed spec fn view(&self) -> Seq<T> {
        self.items@
    }
}

impl<T> NonEmptyVec<T> {
    #[verifier::type_invariant]
    closed spec fn non_empty(self) -> bool {
        self.items@.len() > 0
    }

    /// The sequence of the one item `head`.
    pub fn new(head: T) -> (r: NonEmptyVec<T>)
        ensures
            r@ == seq![head],
    {
        let mut items: Vec<T> = Vec::new();
        items.push(head);
        NonEmptyVec { items }
    }

    /// The items of `items`, which must hold at least one.
    pub fn from_vec(items: Vec<T>) -> (r: NonEmptyVec<T>)
        requires
            items@.len() > 0,
        ensures
            r@ == items@,
    {
        NonEmptyVec { items }
    }

    /// The items of `items`, or `None` where there are none.
    pub fn try_from_vec(items: Vec<T>) -> (r: Option<NonEmptyVec<T>>)
        ensures
            items@.len() == 0 ==> r is None,
            items@.len() > 0 ==> (r matches Some(x) && x@ == items@),
    {
        if items.len() == 0 {
            None
        } else {
            Some(NonEmptyVec { items })
        }
    }

    /// The same items with `item` added at the end.
    pub fn pushed(self, item: T) -> (r: NonEmptyVec<T>)
        ensures
            r@ == self@.push(item),
    {
        let mut items = self.into_vec();
        items.push(item);
        NonEmptyVec { items }
    }

    /// The number of items, at least one.
    pub fn len(&self) -> (r: usize)
        ensures
            r == self@.len(),
            r > 0,
    {
        proof {
            use_type_invariant(self);
        }
        self.items.len()
    }

    /// The items.
    pub fn as_vec(&self) -> (r: &Vec<T>)
        ensures
            r@ == self@,
            r@.len() > 0,
    {
        proof {
            use_type_invariant(self);
        }
        &self.items
    }

    /// Each item is smaller than the sequence.
    pub proof fn lemma_item_decreases(&self, i: int)
        requires
            0 <= i < self@.len(),
        ensures
            decreases_to!(*self => self@[i]),
    {
        assert(decreases_to!(*self => self.items));
        assert(decreases_to!(self.items => self.items@));
        assert(decreases_to!(self.items@ => self.items@[i]));
    }

    /// The items, taken out.
    pub fn into_vec(self) -> (r: Vec<T>)
        ensures
            r@ == self@,
            r@.len() > 0,
    {
        proof {
            use_type_invariant(&self);
        }
        self.items
    }
}

/// One piece of mixed content.
#[derive(Debug, PartialEq, Eq)]
pub enum ContentItem {
    /// A run of character data.
    Text(String),
    /// A child element.
    Element {
        /// The child's name.
        name: ElementName,
        /// The child's content.
        value: Value,
    },
}

/// A mapping from element names to [`Value`]s that remembers document order.
///
/// Children of the same name are grouped into one [`Value::List`]; the order
/// in which children were added is kept besides, so that interleaved
/// siblings can be visited in their original order.
#[derive(Debug, PartialEq, Eq)]
pub struct ValueMap {
    pub(crate) entries: Vec<(ElementName, Value)>,
    pub(crate) order: Vec<usize>,
}

/// The abstract content of a [`Value`].
pub enum ValueV {
    Empty,
    Text(Seq<char>),
    Elements(MapV),
    List(Seq<ValueV>),
    Mixed(Seq<ItemV>),
}

/// The abstract content of a [`ContentItem`].
pub enum ItemV {
    Text(Seq<char>),
    Element(NameV, ValueV),
}

/// The abstract content of a [`ValueMap`]: grouped entries in order of first
/// appearance, and for each child in document order the entry it belongs to.
pub struct MapV {
    pub entries: Seq<(NameV, ValueV)>,
    pub order: Seq<usize>,
}

pub open spec fn value_view(v: Value) -> ValueV
    decreases v,
{
    match v {
        Value::Empty => ValueV::Empty,
        Value::Text(s) => ValueV::Text(s@),
        Value::Elements(m) => ValueV::Elements(map_view(m)),
        Value::List(l) => ValueV::List(values_view(l@)),
        Value::Mixed(items) => ValueV::Mixed(items_view(items@)),
    }
}

/// The abstract content of a [`ValueMap`].
pub closed spec fn map_view(m: ValueMap) -> MapV
    decreases m,
{
    MapV { entries: entries_view(m.entries@), order: m.order@ }
}

pub open spec fn values_view(s: Seq<Value>) -> Seq<ValueV>
    decreases s,
{
    if s.len() == 0 {
        Seq::empty()
    } else {
        values_view(s.drop_last()).push(value_view(s.last()))
    }
}

pub open spec fn entries_view(s: Seq<(ElementName, Value)>) -> Seq<(NameV, ValueV)>
    decreases s,
{
    if s.len() == 0 {
        Seq::empty()
    } else {
        entries_view(s.drop_last()).push((s.last().0@, value_view(s.last().1)))
    }
}

pub open spec fn items_view(s: Seq<ContentItem>) -> Seq<ItemV>
    decreases s,
{
    if s.len() == 0 {
        Seq::empty()
    } else {
        items_view(s.drop_last()).push(item_view(s.last()))
    }
}

pub open spec fn item_view(i: ContentItem) -> ItemV
    decreases i,
{
    match i {
        ContentItem::Text(s) => ItemV::Text(s@),
        ContentItem::Element { name, value } => ItemV::Element(name@, value_view(value)),
    }
}

impl View for Value {
    type V = ValueV;

    open spec fn view(&self) -> ValueV {
        value_view(*self)
    }
}

impl View for ContentItem {
    type V = ItemV;

    open spec fn view(&self) -> ItemV {
        item_view(*self)
    }
}

impl View for ValueMap {
    type V = MapV;

    open spec fn view(&self) -> MapV {
        map_view(*self)
    }
}

pub broadcast proof fn lemma_values_view(s: Seq<Value>)
    ensures
        #[trigger] values_view(s).len() == s.len(),
        forall|i: int| 0 <= i < s.len() ==> #[trigger] values_view(s)[i] == value_view(s[i]),
    decreases s.len(),
{
    if s.len() > 0 {
        lemma_values_view(s.drop_last());
    }
}

pub broadcast proof fn lemma_entries_view(s: Seq<(ElementName, Value)>)
    ensures
        #[trigger] entries_view(s).len() == s.len(),
        forall|i: int|
            0 <= i < s.len() ==> #[trigger] entries_view(s)[i] == (s[i].0@, value_view(s[i].1)),
    decreases s.len(),
{
    if s.len() > 0 {
        lemma_entries_view(s.drop_last());
    }
}

pub broadcast proof fn lemma_items_view(s: Seq<ContentItem>)
    ensures
        #[trigger] items_view(s).len() == s.len(),
        forall|i: int| 0 <= i < s.len() ==> #[trigger] items_view(s)[i] == item_view(s[i]),
    decreases s.len(),
{
    if s.len() > 0 {
        lemma_items_view(s.drop_last());
    }
}

pub broadcast group group_value_views {
    lemma_values_view,
    lemma_entries_view,
    lemma_items_view,
}

/// How many children an entry stands for: each item of a list, or one.
pub open spec fn item_count(v: ValueV) -> nat {
    match v {
        ValueV::List(l) => l.len(),
        _ => 1,
    }
}

/// The number of occurrences of `i` in `s`.
pub open spec fn count_of(s: Seq<usize>, i: int) -> nat
    decreases s.len(),
{
    if s.len() == 0 {
        0
    } else {
        count_of(s.drop_last(), i) + if s.last() == i {
            1nat
        } else {
            0nat
        }
    }
}

/// `n` copies of `i`.
pub open spec fn repeat(i: usize, n: nat) -> Seq<usize> {
    Seq::new(n, |k: int| i)
}

/// The entries without the occurrences of `i`.
pub open spec fn without(s: Seq<usize>, i: int) -> Seq<usize> {
    s.filter(|x: usize| x != i)
}

impl MapV {
    /// The index of the entry whose name has key `k`, or -1.
    pub open spec fn find(self, k: NameKey) -> int {
        find_key(self.entries, k)
    }

    /// The (grouped) value stored under key `k`.
    pub open spec fn get(self, k: NameKey) -> Option<ValueV> {
        let i = self.find(k);
        if i >= 0 {
            Some(self.entries[i].1)
        } else {
            None
        }
    }

    pub open spec fn wf(self) -> bool {
        &&& self.entries.len() <= usize::MAX
        &&& forall|i: int, j: int|
            0 <= i < j < self.entries.len() ==> #[trigger] self.entries[i].0.key()
                != #[trigger] self.entries[j].0.key()
        &&& forall|p: int| 0 <= p < self.order.len() ==> #[trigger] self.order[p] < self.entries.len()
        &&& forall|i: int|
            0 <= i < self.entries.len() ==> #[trigger] count_of(self.order, i) == item_count(
                self.entries[i].1,
            )
    }

    /// The children in document order, each as a name and a single value.
    pub open spec fn ordered(self) -> Seq<(NameV, ValueV)> {
        Seq::new(self.order.len(), |p: int| self.ordered_at(p))
    }

    pub open spec fn ordered_at(self, p: int) -> (NameV, ValueV) {
        let i = self.order[p] as int;
        let c = count_of(self.order.take(p), i) as int;
        let e = self.entries[i];
        match e.1 {
            ValueV::List(l) => (e.0, l[c]),
            v => (e.0, v),
        }
    }

    /// The map after `insert` of `v` under name `n`.
    pub open spec fn insert(self, n: NameV, v: ValueV) -> MapV {
        let i = self.find(n.key());
        if i >= 0 {
            MapV {
                entries: self.entries.update(i, (self.entries[i].0, v)),
                order: without(self.order, i) + repeat(i as usize, item_count(v)),
            }
        } else {
            MapV {
                entries: self.entries.push((n, v)),
                order: self.order + repeat(self.entries.len() as usize, item_count(v)),
            }
        }
    }

    /// The map after `insert_raw` of `v` under name `n`.
    pub open spec fn insert_raw(self, n: NameV, v: ValueV) -> MapV {
        let i = self.find(n.key());
        if i >= 0 {
            let grouped = match self.entries[i].1 {
                ValueV::List(l) => ValueV::List(l.push(v)),
                old => ValueV::List(seq![old, v]),
            };
            MapV {
                entries: self.entries.update(i, (self.entries[i].0, grouped)),
                order: self.order.push(i as usize),
            }
        } else {
            MapV {
                entries: self.entries.push((n, v)),
                order: self.order + repeat(self.entries.len() as usize, item_count(v)),
            }
        }
    }

    pub open spec fn empty() -> MapV {
        MapV { entries: Seq::empty(), order: Seq::empty() }
    }
}

pub open spec fn find_key(e: Seq<(NameV, ValueV)>, k: NameKey) -> int
    decreases e.len(),
{
    if e.len() == 0 {
        -1
    } else {
        let r = find_key(e.drop_last(), k);
        if r >= 0 {
            r
        } else if e.last().0.key() == k {
            e.len() - 1
        } else {
            -1
        }
    }
}

pub proof fn lemma_find_key(e: Seq<(NameV, ValueV)>, k: NameKey)
    ensures
        -1 <= find_key(e, k) < e.len(),
        find_key(e, k) >= 0 ==> e[find_key(e, k)].0.key() == k,
        find_key(e, k) >= 0 ==> forall|j: int|
            0 <= j < find_key(e, k) ==> #[trigger] e[j].0.key() != k,
        find_key(e, k) < 0 ==> forall|j: int| 0 <= j < e.len() ==> #[trigger] e[j].0.key() != k,
    decreases e.len(),
{
    if e.len() > 0 {
        let d = e.drop_last();
        lemma_find_key(d, k);
        assert forall|j: int| 0 <= j < d.len() implies #[trigger] e[j] == d[j] by {}
    }
}

pub proof fn lemma_count_push(s: Seq<usize>, x: usize, i: int)
    ensures
        count_of(s.push(x), i) == count_of(s, i) + if x == i {
            1nat
        } else {
            0nat
        },
{
    assert(s.push(x).drop_last() =~= s);
}

pub proof fn lemma_count_take(s: Seq<usize>, p: int)
    requires
        0 <= p < s.len(),
    ensures
        count_of(s.take(p), s[p] as int) < count_of(s, s[p] as int),
        count_of(s.take(p + 1), s[p] as int) == count_of(s.take(p), s[p] as int) + 1,
{
    lemma_count_prefix(s, p + 1, s[p] as int);
    assert(s.take(p + 1).drop_last() =~= s.take(p));
}

pub proof fn lemma_count_prefix(s: Seq<usize>, p: int, i: int)
    requires
        0 <= p <= s.len(),
    ensures
        count_of(s.take(p), i) <= count_of(s, i),
    decreases s.len() - p,
{
    if p < s.len() {
        lemma_count_prefix(s.drop_last(), p, i);
        assert(s.drop_last().take(p) =~= s.take(p));
    } else {
        assert(s.take(p) =~= s);
    }
}

pub proof fn lemma_count_le_len(s: Seq<usize>, i: int)
    ensures
        count_of(s, i) <= s.len(),
    decreases s.len(),
{
    if s.len() > 0 {
        lemma_count_le_len(s.drop_last(), i);
    }
}

pub proof fn lemma_count_zero(s: Seq<usize>, i: int)
    requires
        forall|p: int| 0 <= p < s.len() ==> s[p] != i,
    ensures
        count_of(s, i) == 0,
    decreases s.len(),
{
    if s.len() > 0 {
        lemma_count_zero(s.drop_last(), i);
    }
}

impl ValueV {
    pub open spec fn is_text(self) -> bool {
        self is Text
    }
}

/// The error of a value that is not the kind that `element` expects.
pub open spec fn value_type_error(element: Seq<char>, expected: Seq<char>) -> ErrorV {
    ErrorV::InvalidValueType { element, expected }
}

impl Value {
    /// A deep copy of this value.
    pub fn copy(&self) -> (r: Value)
        ensures
            r@ == self@,
        decreases self,
    {
        match self {
            Value::Empty => Value::Empty,
            Value::Text(s) => Value::Text(s.clone()),
            Value::Elements(m) => Value::Elements(m.copy()),
            Value::List(l) => {
                proof {
                    use_type_invariant(l);
                }
                let items = copy_values(&l.items);
                proof {
                    lemma_values_view(items@);
                    lemma_values_view(l.items@);
                }
                Value::List(NonEmptyVec::from_vec(items))
            },
            Value::Mixed(items) => Value::Mixed(copy_items(items)),
        }
    }

    /// Borrow text content from this value, naming `element` in the error.
    pub fn as_str_of_name(&self, element: &'static str) -> (r: Result<&String, Error>)
        ensures
            match self@ {
                ValueV::Text(s) => r matches Ok(t) && t@ == s,
                _ => r matches Err(e) && e@ == value_type_error(element@, "text"@),
            },
    {
        match self {
            Value::Text(s) => Ok(s),
            _ => Err(invalid_value_type(element, "text")),
        }
    }

    /// Borrow text content from this value, the content of an element of
    /// type `E`.
    pub fn as_str_of<E: crate::element::Element>(&self) -> (r: Result<&String, Error>)
        ensures
            match self@ {
                ValueV::Text(s) => r matches Ok(t) && t@ == s,
                _ => r matches Err(e) && e@ == value_type_error(E::spec_local_name(), "text"@),
            },
    {
        self.as_str_of_name(E::local_name())
    }

    /// Borrow the child elements of this value, the content of an element
    /// of type `E`.
    pub fn as_map_of<E: crate::element::Element>(&self) -> (r: Result<&ValueMap, Error>)
        ensures
            match self@ {
                ValueV::Elements(m) => r matches Ok(t) && t@ == m,
                _ => r matches Err(e) && e@ == value_type_error(E::spec_local_name(), "child elements"@),
            },
    {
        self.as_map_of_name(E::local_name())
    }

    /// Borrow the repeated elements of this value, the content of an element
    /// of type `E`.
    pub fn as_list_of<E: crate::element::Element>(&self) -> (r: Result<&Vec<Value>, Error>)
        ensures
            match self@ {
                ValueV::List(l) => r matches Ok(t) && values_view(t@) == l && l.len() > 0,
                _ => r matches Err(e) && e@ == value_type_error(E::spec_local_name(), "repeated elements"@),
            },
    {
        self.as_list_of_name(E::local_name())
    }

    /// Borrow text content from this value.
    pub fn as_str(&self) -> (r: Result<&String, Error>)
        ensures
            match self@ {
                ValueV::Text(s) => r matches Ok(t) && t@ == s,
                _ => r matches Err(e) && e@ == value_type_error("value"@, "text"@),
            },
    {
        self.as_str_of_name("value")
    }

    /// Borrow the child map, naming `element` in the error.
    pub fn as_map_of_name(&self, element: &'static str) -> (r: Result<&ValueMap, Error>)
        ensures
            match self@ {
                ValueV::Elements(m) => r matches Ok(t) && t@ == m,
                _ => r matches Err(e) && e@ == value_type_error(element@, "child elements"@),
            },
    {
        match self {
            Value::Elements(m) => Ok(m),
            _ => Err(invalid_value_type(element, "child elements")),
        }
    }

    /// Borrow the child map from this value.
    pub fn as_map(&self) -> (r: Result<&ValueMap, Error>)
        ensures
            match self@ {
                ValueV::Elements(m) => r matches Ok(t) && t@ == m,
                _ => r matches Err(e) && e@ == value_type_error("value"@, "child elements"@),
            },
    {
        self.as_map_of_name("value")
    }

    /// Borrow the repeated sibling list, which is never empty, naming
    /// `element` in the error.
    pub fn as_list_of_name(&self, element: &'static str) -> (r: Result<&Vec<Value>, Error>)
        ensures
            match self@ {
                ValueV::List(l) => r matches Ok(t) && values_view(t@) == l && l.len() > 0,
                _ => r matches Err(e) && e@ == value_type_error(element@, "repeated elements"@),
            },
    {
        match self {
            Value::List(l) => {
                let t = l.as_vec();
                proof {
                    lemma_values_view(t@);
                }
                Ok(t)
            },
            _ => Err(invalid_value_type(element, "repeated elements")),
        }
    }

    /// Borrow the repeated sibling list from this value.
    pub fn as_list(&self) -> (r: Result<&Vec<Value>, Error>)
        ensures
            match self@ {
                ValueV::List(l) => r matches Ok(t) && values_view(t@) == l && l.len() > 0,
                _ => r matches Err(e) && e@ == value_type_error("value"@, "repeated elements"@),
            },
    {
        self.as_list_of_name("value")
    }

    /// Whether this value contains repeated siblings.
    pub fn is_list(&self) -> (r: bool)
        ensures
            r == (self@ is List),
    {
        match self {
            Value::List(_) => true,
            _ => false,
        }
    }

    /// Whether this value contains child elements.
    pub fn is_map(&self) -> (r: bool)
        ensures
            r == (self@ is Elements),
    {
        match self {
            Value::Elements(_) => true,
            _ => false,
        }
    }

    /// Whether this value is empty.
    pub fn is_empty(&self) -> (r: bool)
        ensures
            r == (self@ is Empty),
    {
        match self {
            Value::Empty => true,
            _ => false,
        }
    }
}

pub fn copy_values(l: &Vec<Value>) -> (r: Vec<Value>)
    ensures
        values_view(r@) == values_view(l@),
    decreases l,
{
    let mut r: Vec<Value> = Vec::new();
    let mut i: usize = 0;
    while i < l.len()
        invariant
            i <= l.len(),
            values_view(r@) == values_view(l@.subrange(0, i as int)),
        decreases l.len() - i,
    {
        let ghost before = r@;
        let c = l[i].copy();
        r.push(c);
        proof {
            assert(r@.drop_last() =~= before);
            assert(l@.subrange(0, i + 1).drop_last() =~= l@.subrange(0, i as int));
        }
        i = i + 1;
    }
    assert(l@.subrange(0, l@.len() as int) =~= l@);
    r
}

pub fn copy_items(l: &Vec<ContentItem>) -> (r: Vec<ContentItem>)
    ensures
        items_view(r@) == items_view(l@),
    decreases l,
{
    let mut r: Vec<ContentItem> = Vec::new();
    let mut i: usize = 0;
    while i < l.len()
        invariant
            i <= l.len(),
            items_view(r@) == items_view(l@.subrange(0, i as int)),
        decreases l.len() - i,
    {
        let ghost before = r@;
        let c = match &l[i] {
            ContentItem::Text(s) => ContentItem::Text(s.clone()),
            ContentItem::Element { name, value } => ContentItem::Element {
                name: name.copy(),
                value: value.copy(),
            },
        };
        assert(item_view(c) == item_view(l@[i as int]));
        r.push(c);
        proof {
            assert(r@.drop_last() =~= before);
            assert(l@.subrange(0, i + 1).drop_last() =~= l@.subrange(0, i as int));
        }
        i = i + 1;
    }
    assert(l@.subrange(0, l@.len() as int) =~= l@);
    r
}

impl ValueMap {
    #[verifier::type_invariant]
    pub open spec fn inv(self) -> bool {
        self@.wf()
    }

    /// Create an empty value map.
    pub fn new() -> (r: Self)
        ensures
            r@ == MapV::empty(),
    {
        let r = ValueMap { entries: Vec::new(), order: Vec::new() };
        proof {
            assert(r@.entries =~= Seq::empty());
            assert(r@.order =~= Seq::empty());
        }
        r
    }

    /// A deep copy of this map.
    pub fn copy(&self) -> (r: Self)
        ensures
            r@ == self@,
        decreases self,
    {
        proof {
            use_type_invariant(self);
        }
        let mut entries: Vec<(ElementName, Value)> = Vec::new();
        let mut i: usize = 0;
        while i < self.entries.len()
            invariant
                i <= self.entries.len(),
                entries_view(entries@) == entries_view(self.entries@.subrange(0, i as int)),
            decreases self.entries.len() - i,
        {
            let ghost before = entries@;
            let e = (self.entries[i].0.copy(), self.entries[i].1.copy());
            entries.push(e);
            proof {
                assert(entries@.drop_last() =~= before);
                assert(self.entries@.subrange(0, i + 1).drop_last() =~= self.entries@.subrange(
                    0,
                    i as int,
                ));
            }
            i = i + 1;
        }
        assert(self.entries@.subrange(0, self.entries@.len() as int) =~= self.entries@);
        let order = self.order.clone();
        ValueMap { entries, order }
    }

    /// Return the number of distinct child element names in this map.
    pub fn len(&self) -> (r: usize)
        ensures
            r == self@.entries.len(),
    {
        proof {
            lemma_entries_view(self.entries@);
        }
        self.entries.len()
    }

    /// Whether this map contains no child elements.
    pub fn is_empty(&self) -> (r: bool)
        ensures
            r == (self@.entries.len() == 0),
    {
        proof {
            lemma_entries_view(self.entries@);
        }
        self.entries.len() == 0
    }

    /// The index of the entry whose name denotes the same element as `name`.
    pub fn find(&self, name: &ElementName) -> (r: Option<usize>)
        ensures
            match r {
                Some(i) => i as int == self@.find(name@.key()),
                None => self@.find(name@.key()) == -1,
            },
    {
        find_in(&self.entries, name)
    }

    /// The (grouped) value stored under the name `name`.
    pub fn get_value(&self, name: &ElementName) -> (r: Option<&Value>)
        ensures
            match r {
                Some(v) => self@.get(name@.key()) == Some(v@),
                None => self@.get(name@.key()) is None,
            },
    {
        proof {
            lemma_entries_view(self.entries@);
            lemma_find_key(self@.entries, name@.key());
        }
        match self.find(name) {
            Some(i) => Some(&self.entries[i].1),
            None => None,
        }
    }

    /// The grouped entries, in order of first appearance.
    pub fn iter(&self) -> (r: &[(ElementName, Value)])
        ensures
            entries_view(r@) == self@.entries,
    {
        self.entries.as_slice()
    }

    /// Every child, one by one, in document order.
    pub fn iter_ordered(&self) -> (r: Vec<(&ElementName, &Value)>)
        ensures
            r@.len() == self@.order.len(),
            forall|p: int|
                0 <= p < r@.len() ==> (r@[p].0@, r@[p].1@) == #[trigger] self@.ordered_at(p),
    {
        proof {
            use_type_invariant(self);
            lemma_entries_view(self.entries@);
        }
        let ghost m = self@;
        let n = self.entries.len();
        let mut seen: Vec<usize> = vec![0; n];
        let mut r: Vec<(&ElementName, &Value)> = Vec::new();
        let mut p: usize = 0;
        while p < self.order.len()
            invariant
                m == self@,
                m.wf(),
                n == self.entries@.len(),
                entries_view(self.entries@).len() == n,
                seen@.len() == n,
                p <= self.order@.len(),
                forall|i: int| 0 <= i < n ==> #[trigger] seen@[i] == count_of(m.order.take(p as int), i),
                r@.len() == p,
                forall|q: int| 0 <= q < p ==> (r@[q].0@, r@[q].1@) == #[trigger] m.ordered_at(q),
            decreases self.order.len() - p,
        {
            let i = self.order[p];
            proof {
                lemma_entries_view(self.entries@);
                lemma_count_take(m.order, p as int);
                lemma_count_prefix(m.order, p as int, i as int);
                lemma_count_le_len(m.order, i as int);
            }
            let c = seen[i];
            let entry = &self.entries[i];
            let v: &Value = match &entry.1 {
                Value::List(list) => {
                    let l = list.as_vec();
                    proof {
                        lemma_values_view(l@);
                    }
                    &l[c]
                },
                other => other,
            };
            r.push((&entry.0, v));
            proof {
                assert forall|j: int| 0 <= j < n implies #[trigger] seen@.update(i as int, (c + 1) as usize)[j]
                    == count_of(m.order.take(p + 1), j) by {
                    assert(m.order.take(p + 1) =~= m.order.take(p as int).push(m.order[p as int]));
                    lemma_count_push(m.order.take(p as int), m.order[p as int], j);
                }
            }
            seen.set(i, c + 1);
            p = p + 1;
        }
        r
    }

    /// Insert a child value, replacing any value stored under the same name.
    pub fn insert_named(&mut self, name: ElementName, value: Value)
        ensures
            final(self)@ == old(self)@.insert(name@, value@),
    {
        proof {
            use_type_invariant(&*self);
        }
        let mut old_map = ValueMap::new();
        std::mem::swap(&mut old_map, self);
        let ValueMap { mut entries, order } = old_map;
        let ghost m = old_map@;
        proof {
            lemma_entries_view(entries@);
            lemma_find_key(m.entries, name@.key());
        }
        let found = find_in(&entries, &name);
        let count = value_item_count(&value);
        match found {
            Some(i) => {
                let mut new_order: Vec<usize> = Vec::new();
                let mut p: usize = 0;
                while p < order.len()
                    invariant
                        p <= order@.len(),
                        order@ == m.order,
                        new_order@ == without(m.order.take(p as int), i as int),
                    decreases order.len() - p,
                {
                    proof {
                        assert(m.order.take(p + 1) =~= m.order.take(p as int).push(m.order[p as int]));
                        lemma_filter_push(m.order.take(p as int), m.order[p as int], i as int);
                    }
                    if order[p] != i {
                        new_order.push(order[p]);
                    }
                    p = p + 1;
                }
                assert(m.order.take(m.order.len() as int) =~= m.order);
                let ghost base = new_order@;
                let mut k: usize = 0;
                while k < count
                    invariant
                        k <= count,
                        new_order@ == base + repeat(i, k as nat),
                    decreases count - k,
                {
                    new_order.push(i);
                    k = k + 1;
                    assert(new_order@ =~= base + repeat(i, k as nat));
                }
                let ghost old_entries = entries@;
                let old_name = entries[i].0.copy();
                entries.set(i, (old_name, value));
                proof {
                    lemma_entries_view(entries@);
                    assert(entries_view(entries@) =~= m.entries.update(i as int, (m.entries[i as int].0, value@)));
                    let nm = MapV { entries: entries_view(entries@), order: new_order@ };
                    lemma_insert_wf(m, name@, value@);
                }
                *self = ValueMap { entries, order: new_order };
            },
            None => {
                let idx = entries.len();
                let mut new_order = order;
                let ghost base = new_order@;
                let mut k: usize = 0;
                while k < count
                    invariant
                        k <= count,
                        new_order@ == base + repeat(idx, k as nat),
                    decreases count - k,
                {
                    new_order.push(idx);
                    k = k + 1;
                    assert(new_order@ =~= base + repeat(idx, k as nat));
                }
                entries.push((name, value));
                let new_len = entries.len();
                proof {
                    assert(new_len == idx + 1);
                    lemma_entries_view(entries@);
                    assert(entries_view(entries@) =~= m.entries.push((name@, value@)));
                    lemma_insert_wf(m, name@, value@);
                }
                *self = ValueMap { entries, order: new_order };
            },
        }
    }

    /// Append a raw child value, grouping duplicate names into a list.
    pub fn insert_raw(&mut self, name: ElementName, value: Value)
        ensures
            final(self)@ == old(self)@.insert_raw(name@, value@),
    {
        proof {
            use_type_invariant(&*self);
        }
        let mut old_map = ValueMap::new();
        std::mem::swap(&mut old_map, self);
        let ValueMap { mut entries, mut order } = old_map;
        let ghost m = old_map@;
        proof {
            lemma_entries_view(entries@);
            lemma_find_key(m.entries, name@.key());
        }
        match find_in(&entries, &name) {
            Some(i) => {
                let placeholder = (ElementName::dav(""), Value::Empty);
                let mut taken = placeholder;
                proof {
                    lemma_entries_view(entries@);
                }
                let ghost before = entries@;
                let old_entry = vec_replace(&mut entries, i, taken);
                let (old_name, old_value) = old_entry;
                let ghost expected = match m.entries[i as int].1 {
                    ValueV::List(l) => ValueV::List(l.push(value@)),
                    o => ValueV::List(seq![o, value@]),
                };
                assert(old_value@ == m.entries[i as int].1);
                let grouped = match old_value {
                    Value::List(l0) => {
                        let ghost lb = l0@;
                        let l = l0.pushed(value);
                        proof {
                            assert(l@.drop_last() =~= lb);
                            assert(values_view(l@) == values_view(lb).push(value@));
                        }
                        Value::List(l)
                    },
                    other => {
                        let l0 = NonEmptyVec::new(other);
                        let ghost l1 = l0@;
                        let l = l0.pushed(value);
                        proof {
                            assert(l@.drop_last() =~= l1);
                            assert(l1.drop_last() =~= Seq::<Value>::empty());
                            assert(values_view(l1.drop_last()) =~= Seq::<ValueV>::empty());
                            assert(values_view(l1) =~= seq![other@]);
                            assert(values_view(l@) =~= seq![other@, value@]);
                        }
                        Value::List(l)
                    },
                };
                assert(grouped@ == expected);
                entries.set(i, (old_name, grouped));
                order.push(i);
                proof {
                    lemma_entries_view(entries@);
                    assert(entries_view(entries@) =~= m.insert_raw(name@, value@).entries);
                    lemma_insert_raw_wf(m, name@, value@);
                }
                *self = ValueMap { entries, order };
            },
            None => {
                let idx = entries.len();
                let count = value_item_count(&value);
                let ghost base = order@;
                let mut k: usize = 0;
                while k < count
                    invariant
                        k <= count,
                        order@ == base + repeat(idx, k as nat),
                    decreases count - k,
                {
                    order.push(idx);
                    k = k + 1;
                    assert(order@ =~= base + repeat(idx, k as nat));
                }
                entries.push((name, value));
                let new_len = entries.len();
                proof {
                    assert(new_len == idx + 1);
                    lemma_entries_view(entries@);
                    assert(entries_view(entries@) =~= m.entries.push((name@, value@)));
                    lemma_insert_raw_wf(m, name@, value@);
                }
                *self = ValueMap { entries, order };
            },
        }
    }
}

/// `std::mem::replace` on one element of a vector.
pub fn vec_replace<T>(v: &mut Vec<T>, i: usize, x: T) -> (r: T)
    requires
        i < old(v)@.len(),
    ensures
        r == old(v)@[i as int],
        final(v)@ == old(v)@.update(i as int, x),
{
    let mut x = x;
    std::mem::swap(&mut v[i], &mut x);
    x
}

fn find_in(entries: &Vec<(ElementName, Value)>, name: &ElementName) -> (r: Option<usize>)
    ensures
        match r {
            Some(i) => i as int == find_key(entries_view(entries@), name@.key()),
            None => find_key(entries_view(entries@), name@.key()) == -1,
        },
{
    proof {
        lemma_entries_view(entries@);
        lemma_find_key(entries_view(entries@), name@.key());
    }
    let mut i: usize = 0;
    while i < entries.len()
        invariant
            i <= entries.len(),
            entries_view(entries@).len() == entries@.len(),
            forall|j: int|
                0 <= j < i ==> #[trigger] entries_view(entries@)[j].0.key() != name@.key(),
        decreases entries.len() - i,
    {
        proof {
            lemma_entries_view(entries@);
        }
        if entries[i].0.same_element(name) {
            proof {
                lemma_find_key_first(entries_view(entries@), name@.key(), i as int);
            }
            return Some(i);
        }
        i = i + 1;
    }
    proof {
        lemma_find_key_none(entries_view(entries@), name@.key());
    }
    None
}

pub fn value_item_count(v: &Value) -> (r: usize)
    ensures
        r as nat == item_count(v@),
{
    match v {
        Value::List(l) => {
            proof {
                lemma_values_view(l@);
            }
            l.len()
        },
        _ => 1,
    }
}

pub proof fn lemma_find_key_first(e: Seq<(NameV, ValueV)>, k: NameKey, i: int)
    requires
        0 <= i < e.len(),
        e[i].0.key() == k,
        forall|j: int| 0 <= j < i ==> #[trigger] e[j].0.key() != k,
    ensures
        find_key(e, k) == i,
    decreases e.len(),
{
    if i < e.len() - 1 {
        lemma_find_key_first(e.drop_last(), k, i);
    } else {
        lemma_find_key_none(e.drop_last(), k);
    }
}

pub proof fn lemma_find_key_none(e: Seq<(NameV, ValueV)>, k: NameKey)
    requires
        forall|j: int| 0 <= j < e.len() ==> #[trigger] e[j].0.key() != k,
    ensures
        find_key(e, k) == -1,
    decreases e.len(),
{
    if e.len() > 0 {
        lemma_find_key_none(e.drop_last(), k);
    }
}

pub proof fn lemma_filter_push(s: Seq<usize>, x: usize, i: int)
    ensures
        without(s.push(x), i) == if x != i {
            without(s, i).push(x)
        } else {
            without(s, i)
        },
{
    let f = |y: usize| y != i;
    assert(s.push(x).drop_last() =~= s);
    reveal_with_fuel(Seq::<_>::filter, 1);
}

pub proof fn lemma_count_concat(a: Seq<usize>, b: Seq<usize>, i: int)
    ensures
        count_of(a + b, i) == count_of(a, i) + count_of(b, i),
    decreases b.len(),
{
    if b.len() == 0 {
        assert(a + b =~= a);
    } else {
        lemma_count_concat(a, b.drop_last(), i);
        assert((a + b).drop_last() =~= a + b.drop_last());
    }
}

pub proof fn lemma_count_repeat(x: usize, n: nat, i: int)
    ensures
        count_of(repeat(x, n), i) == if x == i {
            n
        } else {
            0
        },
    decreases n,
{
    if n > 0 {
        lemma_count_repeat(x, (n - 1) as nat, i);
        assert(repeat(x, n).drop_last() =~= repeat(x, (n - 1) as nat));
    }
}

pub proof fn lemma_count_without(s: Seq<usize>, x: int, i: int)
    ensures
        count_of(without(s, x), i) == if i == x {
            0
        } else {
            count_of(s, i)
        },
        forall|p: int| 0 <= p < without(s, x).len() ==> #[trigger] without(s, x)[p] != x,
        forall|p: int|
            0 <= p < without(s, x).len() ==> exists|q: int|
                0 <= q < s.len() && #[trigger] s[q] == #[trigger] without(s, x)[p],
    decreases s.len(),
{
    if s.len() == 0 {
        assert(without(s, x) =~= Seq::<usize>::empty());
    } else {
        lemma_count_without(s.drop_last(), x, i);
        assert(s.drop_last().push(s.last()) =~= s);
        lemma_filter_push(s.drop_last(), s.last(), x);
        let w = without(s.drop_last(), x);
        if s.last() != x {
            lemma_count_push(w, s.last(), i);
            assert forall|p: int| 0 <= p < without(s, x).len() implies exists|q: int|
                0 <= q < s.len() && #[trigger] s[q] == #[trigger] without(s, x)[p] by {
                if p < w.len() {
                    let q = choose|q: int| 0 <= q < s.drop_last().len() && #[trigger] s.drop_last()[q] == w[p];
                    assert(s[q] == without(s, x)[p]);
                } else {
                    assert(s[s.len() - 1] == without(s, x)[p]);
                }
            }
        } else {
            assert forall|p: int| 0 <= p < without(s, x).len() implies exists|q: int|
                0 <= q < s.len() && #[trigger] s[q] == #[trigger] without(s, x)[p] by {
                let q = choose|q: int| 0 <= q < s.drop_last().len() && #[trigger] s.drop_last()[q] == w[p];
                assert(s[q] == without(s, x)[p]);
            }
        }
    }
}

pub proof fn lemma_insert_wf(m: MapV, n: NameV, v: ValueV)
    requires
        m.wf(),
        m.find(n.key()) >= 0 || m.entries.len() < usize::MAX,
    ensures
        m.insert(n, v).wf(),
{
    lemma_find_key(m.entries, n.key());
    let i = m.find(n.key());
    let r = m.insert(n, v);
    if i >= 0 {
        assert forall|j: int| 0 <= j < r.entries.len() implies #[trigger] count_of(r.order, j)
            == item_count(r.entries[j].1) by {
            lemma_count_concat(without(m.order, i), repeat(i as usize, item_count(v)), j);
            lemma_count_without(m.order, i, j);
            lemma_count_repeat(i as usize, item_count(v), j);
        }
        assert forall|p: int| 0 <= p < r.order.len() implies #[trigger] r.order[p] < r.entries.len() by {
            lemma_count_without(m.order, i, 0);
            let w = without(m.order, i);
            if p < w.len() {
                assert(r.order[p] == w[p]);
                let q = choose|q: int| 0 <= q < m.order.len() && #[trigger] m.order[q] == #[trigger] w[p];
            } else {
                assert(r.order[p] == i);
            }
        }
    } else {
        assert forall|j: int| 0 <= j < r.entries.len() implies #[trigger] count_of(r.order, j)
            == item_count(r.entries[j].1) by {
            lemma_count_concat(m.order, repeat(m.entries.len() as usize, item_count(v)), j);
            lemma_count_repeat(m.entries.len() as usize, item_count(v), j);
            if j == m.entries.len() {
                assert forall|p: int| 0 <= p < m.order.len() implies m.order[p] != j by {
                    assert(m.order[p] < m.entries.len());
                }
                lemma_count_zero(m.order, j);
            }
        }
        assert forall|p: int| 0 <= p < r.order.len() implies #[trigger] r.order[p] < r.entries.len() by {
            if p < m.order.len() {
                assert(r.order[p] == m.order[p]);
            }
        }
    }
}

pub proof fn lemma_insert_raw_wf(m: MapV, n: NameV, v: ValueV)
    requires
        m.wf(),
        m.find(n.key()) >= 0 || m.entries.len() < usize::MAX,
    ensures
        m.insert_raw(n, v).wf(),
{
    lemma_find_key(m.entries, n.key());
    let i = m.find(n.key());
    let r = m.insert_raw(n, v);
    if i >= 0 {
        assert forall|j: int| 0 <= j < r.entries.len() implies #[trigger] count_of(r.order, j)
            == item_count(r.entries[j].1) by {
            lemma_count_push(m.order, i as usize, j);
        }
        assert forall|p: int| 0 <= p < r.order.len() implies #[trigger] r.order[p] < r.entries.len() by {
            if p < m.order.len() {
                assert(r.order[p] == m.order[p]);
            }
        }
    } else {
        assert forall|j: int| 0 <= j < r.entries.len() implies #[trigger] count_of(r.order, j)
            == item_count(r.entries[j].1) by {
            lemma_count_concat(m.order, repeat(m.entries.len() as usize, item_count(v)), j);
            lemma_count_repeat(m.entries.len() as usize, item_count(v), j);
            if j == m.entries.len() {
                assert forall|p: int| 0 <= p < m.order.len() implies m.order[p] != j by {
                    assert(m.order[p] < m.entries.len());
                }
                lemma_count_zero(m.order, j);
            }
        }
        assert forall|p: int| 0 <= p < r.order.len() implies #[trigger] r.order[p] < r.entries.len() by {
            if p < m.order.len() {
                assert(r.order[p] == m.order[p]);
            }
        }
    }
}

/// Looking a name up after an insertion: the inserted value under its own
/// name, what was there before under any other.
pub proof fn lemma_insert_get(m: MapV, n: NameV, v: ValueV, k: NameKey)
    ensures
        m.insert(n, v).get(k) == if n.key() == k {
            Some(v)
        } else {
            m.get(k)
        },
{
    lemma_find_key(m.entries, n.key());
    lemma_find_key(m.entries, k);
    let i = m.find(n.key());
    let r = m.insert(n, v);
    if i >= 0 {
        assert forall|j: int| 0 <= j < r.entries.len() implies #[trigger] r.entries[j].0.key() == m.entries[j].0.key() by {}
        lemma_find_key_same_keys(m.entries, r.entries, k);
    } else {
        lemma_find_key_push(m.entries, (n, v), k);
    }
}

pub proof fn lemma_find_key_same_keys(a: Seq<(NameV, ValueV)>, b: Seq<(NameV, ValueV)>, k: NameKey)
    requires
        a.len() == b.len(),
        forall|j: int| 0 <= j < b.len() ==> #[trigger] b[j].0.key() == a[j].0.key(),
    ensures
        find_key(a, k) == find_key(b, k),
    decreases a.len(),
{
    if a.len() > 0 {
        lemma_find_key_same_keys(a.drop_last(), b.drop_last(), k);
    }
}

pub proof fn lemma_find_key_push(a: Seq<(NameV, ValueV)>, e: (NameV, ValueV), k: NameKey)
    ensures
        find_key(a.push(e), k) == if find_key(a, k) >= 0 {
            find_key(a, k)
        } else if e.0.key() == k {
            a.len() as int
        } else {
            -1
        },
{
    assert(a.push(e).drop_last() =~= a);
}

/// The map with one entry.
pub proof fn lemma_single_get(n: NameV, v: ValueV, k: NameKey)
    ensures
        MapV::empty().insert(n, v).get(k) == if n.key() == k {
            Some(v)
        } else {
            None::<ValueV>
        },
{
    lemma_insert_get(MapV::empty(), n, v, k);
}

/// The content of a map is that of its fields.
pub(crate) proof fn lemma_map_view(m: ValueMap)
    ensures
        m@ == (MapV { entries: entries_view(m.entries@), order: m.order@ }),
{
}

/// Adding a single value keeps the children in document order and puts
/// the new child last, under the name the map already had for its key.
pub proof fn lemma_insert_raw_ordered(m: MapV, n: NameV, v: ValueV)
    requires
        m.wf(),
        !(v is List),
    ensures
        m.insert_raw(n, v).ordered() == m.ordered().push(
            (if m.find(n.key()) >= 0 {
                m.entries[m.find(n.key())].0
            } else {
                n
            }, v),
        ),
{
    lemma_find_key(m.entries, n.key());
    let i = m.find(n.key());
    let r = m.insert_raw(n, v);
    let len = m.order.len();
    if i >= 0 {
        assert(r.order =~= m.order.push(i as usize));
        assert forall|p: int| 0 <= p < len implies #[trigger] r.ordered_at(p) == m.ordered_at(p) by {
            assert(r.order.take(p) =~= m.order.take(p));
            let idx = m.order[p] as int;
            assert(idx < m.entries.len());
            if idx == i {
                lemma_count_take(m.order, p);
                assert(m.order[p] == i);
                match m.entries[i].1 {
                    ValueV::List(l) => {},
                    old => {
                        assert(count_of(m.order, i) == 1);
                        assert(count_of(m.order.take(p), i) == 0);
                    },
                }
            }
        }
        lemma_count_push(m.order, i as usize, i);
        assert(r.order.take(len as int) =~= m.order);
        assert(r.ordered_at(len as int) == (m.entries[i].0, v));
        assert(r.ordered() =~= m.ordered().push((m.entries[i].0, v)));
    } else {
        assert(repeat(m.entries.len() as usize, item_count(v)) =~= seq![m.entries.len() as usize]);
        assert(r.order =~= m.order.push(m.entries.len() as usize));
        assert forall|p: int| 0 <= p < len implies #[trigger] r.ordered_at(p) == m.ordered_at(p) by {
            assert(r.order.take(p) =~= m.order.take(p));
            assert(m.order[p] < m.entries.len());
        }
        assert forall|p: int| 0 <= p < m.order.len() implies m.order[p] != m.entries.len() by {
            assert(m.order[p] < m.entries.len());
        }
        lemma_count_zero(m.order, m.entries.len() as int);
        assert(r.order.take(len as int) =~= m.order);
        assert(r.ordered_at(len as int) == (n, v));
        assert(r.ordered() =~= m.ordered().push((n, v)));
    }
}

} // verus!
