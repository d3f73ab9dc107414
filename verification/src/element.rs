//! Typed elements of the `DAV:` namespace and their conversion to values.
use vstd::prelude::*;

use crate::error::{missing_element, res_view, Error, ErrorV};
use crate::name::{dav_key, dav_name, ElementName};
use crate::value::{lemma_values_view, values_view, MapV, NonEmptyVec, Value, ValueMap, ValueV};

verus! {

/// An XML element of the `DAV:` namespace with a typed representation.
///
/// Its abstract content (`Self::V`) is read from a [`Value`] by
/// `spec_from_value` and written into one by `spec_into_value`.
pub trait Element: Sized + View {
    /// The element's local name.
    spec fn spec_local_name() -> Seq<char>;

    /// The element's local name.
    fn local_name() -> (r: &'static str)
        ensures
            r@ == Self::spec_local_name(),
    ;

    /// What reading a value gives.
    spec fn spec_from_value(v: ValueV) -> Result<Self::V, ErrorV>;

    /// Reads the element from the value of its XML element.
    fn from_value(v: &Value) -> (r: Result<Self, Error>)
        ensures
            res_view(r) == Self::spec_from_value(v@),
    ;

    /// The value written for an element.
    spec fn spec_into_value(x: Self::V) -> ValueV;

    /// The value of the XML element that represents `self`.
    fn into_value(self) -> (r: Value)
        ensures
            r@ == Self::spec_into_value(self@),
    ;
}

/// The name of element type `E`.
pub open spec fn element_key<E: Element>() -> (Option<Seq<char>>, Seq<char>) {
    dav_key(E::spec_local_name())
}

/// The name of element type `E`, with the `D` prefix.
pub fn element_name<E: Element>() -> (r: ElementName)
    ensures
        r@ == dav_name(E::spec_local_name()),
{
    ElementName::dav(E::local_name())
}

pub open spec fn seq_view<T: View>(s: Seq<T>) -> Seq<T::V> {
    s.map_values(|x: T| x@)
}

pub broadcast proof fn lemma_seq_view<T: View>(s: Seq<T>)
    ensures
        #[trigger] seq_view(s).len() == s.len(),
        forall|i: int| 0 <= i < s.len() ==> #[trigger] seq_view(s)[i] == s[i]@,
{
}

pub proof fn lemma_seq_view_push<T: View>(s: Seq<T>, x: T)
    ensures
        seq_view(s.push(x)) == seq_view(s).push(x@),
{
    assert(seq_view(s.push(x)) =~= seq_view(s).push(x@));
}

pub proof fn lemma_seq_view_subrange<T: View>(s: Seq<T>, i: int, j: int)
    requires
        0 <= i <= j <= s.len(),
    ensures
        seq_view(s.subrange(i, j)) == seq_view(s).subrange(i, j),
{
    assert(seq_view(s.subrange(i, j)) =~= seq_view(s).subrange(i, j));
}

/// Reads every value in order; the first error stops.
pub open spec fn parse_all<E: Element>(vs: Seq<ValueV>) -> Result<Seq<E::V>, ErrorV>
    decreases vs.len(),
{
    if vs.len() == 0 {
        Ok(Seq::empty())
    } else {
        match parse_all::<E>(vs.drop_last()) {
            Err(e) => Err(e),
            Ok(xs) => match E::spec_from_value(vs.last()) {
                Err(e) => Err(e),
                Ok(x) => Ok(xs.push(x)),
            },
        }
    }
}

/// The siblings stored under one name: each item of a list, or the value.
pub open spec fn siblings(v: Option<ValueV>) -> Seq<ValueV> {
    match v {
        None => Seq::empty(),
        Some(ValueV::List(l)) => l,
        Some(v) => seq![v],
    }
}

/// The value of a sequence of elements of one name: nothing, the one value,
/// or a list.
pub open spec fn list_value_of(vs: Seq<ValueV>) -> ValueV {
    if vs.len() == 0 {
        ValueV::Empty
    } else if vs.len() == 1 {
        vs[0]
    } else {
        ValueV::List(vs)
    }
}

pub open spec fn into_values<E: Element>(xs: Seq<E::V>) -> Seq<ValueV> {
    xs.map_values(|x: E::V| E::spec_into_value(x))
}

/// The value of a sequence of elements of type `E`, each written as its
/// value.
pub open spec fn list_value_spec<E: Element>(xs: Seq<E::V>) -> ValueV {
    list_value_of(into_values::<E>(xs))
}

/// The sequence held under its element name in a map; nothing where the
/// sequence's value is empty.
pub open spec fn list_value_under_spec<E: Element>(xs: Seq<E::V>) -> ValueV {
    let v = list_value_spec::<E>(xs);
    if v is Empty {
        ValueV::Empty
    } else {
        ValueV::Elements(MapV::empty().insert(dav_name(E::spec_local_name()), v))
    }
}

/// Converts a sequence of elements into the value of their siblings.
pub fn list_value<E: Element>(items: Vec<E>) -> (r: Value)
    ensures
        r@ == list_value_spec::<E>(seq_view(items@)),
{
    let ghost xs = items@;
    let ghost n = xs.len();
    let mut values: Vec<Value> = Vec::new();
    let mut rest = items;
    assert(rest@ =~= xs.subrange(0, n as int));
    assert(values_view(values@) =~= into_values::<E>(seq_view(xs.subrange(0, 0))));
    while rest.len() > 0
        invariant
            n == xs.len(),
            values@.len() <= n,
            rest@ == xs.subrange(values@.len() as int, n as int),
            values_view(values@) == into_values::<E>(seq_view(xs.subrange(0, values@.len() as int))),
        decreases rest.len(),
    {
        let ghost k: int = values@.len() as int;
        let ghost before = values@;
        let item = rest.remove(0);
        values.push(item.into_value());
        proof {
            assert(values@.drop_last() =~= before);
            lemma_values_view(values@);
            lemma_values_view(before);
            assert(values_view(values@) =~= into_values::<E>(seq_view(xs.subrange(0, k + 1 as int))));
            assert(rest@ =~= xs.subrange(k as int + 1, n as int));
        }
    }
    assert(xs.subrange(0, n as int) =~= xs);
    proof {
        lemma_values_view(values@);
    }
    if values.len() == 0 {
        Value::Empty
    } else if values.len() == 1 {
        values.pop().unwrap()
    } else {
        Value::List(NonEmptyVec::from_vec(values))
    }
}

/// Converts a sequence of elements into a map that holds them under their
/// element name; an empty value stays empty.
pub fn list_value_under<E: Element>(items: Vec<E>) -> (r: Value)
    ensures
        r@ == list_value_under_spec::<E>(seq_view(items@)),
{
    let value = list_value(items);
    if value.is_empty() {
        Value::Empty
    } else {
        let mut map = ValueMap::new();
        map.insert::<E>(value);
        Value::Elements(map)
    }
}

impl ValueMap {
    /// Reads the child element of type `E`, if there is one.
    pub fn get<E: Element>(&self) -> (r: Option<Result<E, Error>>)
        ensures
            match self@.get(element_key::<E>()) {
                None => r is None,
                Some(v) => (r matches Some(x) && res_view(x) == E::spec_from_value(v)),
            },
    {
        let name = element_name::<E>();
        match self.get_value(&name) {
            None => None,
            Some(v) => Some(E::from_value(v)),
        }
    }

    /// Reads the child element of type `E` unless it is absent or empty.
    pub fn get_optional<E: Element>(&self) -> (r: Option<Option<Result<E, Error>>>)
        ensures
            match self@.get(element_key::<E>()) {
                None => r is None,
                Some(ValueV::Empty) => r == Some(None::<Result<E, Error>>),
                Some(v) => (r matches Some(Some(x)) && res_view(x) == E::spec_from_value(v)),
            },
    {
        let name = element_name::<E>();
        match self.get_value(&name) {
            None => None,
            Some(Value::Empty) => Some(None),
            Some(v) => Some(Some(E::from_value(v))),
        }
    }

    /// Reads the required child element of type `E` of an element of type
    /// `P`.
    pub fn get_required<P: Element, E: Element>(&self) -> (r: Result<E, Error>)
        ensures
            res_view(r) == match self@.get(element_key::<E>()) {
                None => Err(ErrorV::MissingElement {
                    parent: P::spec_local_name(),
                    element: E::spec_local_name(),
                }),
                Some(v) => E::spec_from_value(v),
            },
    {
        self.get_required_in::<E>(P::local_name())
    }

    /// Reads the required child element of type `E` of the element named
    /// `parent`.
    pub fn get_required_in<E: Element>(&self, parent: &'static str) -> (r: Result<E, Error>)
        ensures
            res_view(r) == match self@.get(element_key::<E>()) {
                None => Err(ErrorV::MissingElement { parent: parent@, element: E::spec_local_name() }),
                Some(v) => E::spec_from_value(v),
            },
    {
        match self.get::<E>() {
            None => Err(missing_element(parent, E::local_name())),
            Some(r) => r,
        }
    }

    /// Reads every child element of type `E`, in document order.
    pub fn get_all<E: Element>(&self) -> (r: Result<Vec<E>, Error>)
        ensures
            match parse_all::<E>(siblings(self@.get(element_key::<E>()))) {
                Ok(xs) => (r matches Ok(v) && seq_view(v@) == xs),
                Err(e) => (r matches Err(x) && x@ == e),
            },
    {
        let name = element_name::<E>();
        let ghost vs = siblings(self@.get(element_key::<E>()));
        let mut out: Vec<E> = Vec::new();
        match self.get_value(&name) {
            None => {
                assert(vs =~= Seq::<ValueV>::empty());
                assert(seq_view(out@) =~= Seq::<E::V>::empty());
                Ok(out)
            },
            Some(Value::List(list)) => {
                let l = list.as_vec();
                proof {
                    lemma_values_view(l@);
                }
                let mut i: usize = 0;
                assert(vs.subrange(0, 0) =~= Seq::<ValueV>::empty());
                assert(seq_view(out@) =~= Seq::<E::V>::empty());
                while i < l.len()
                    invariant
                        i <= l.len(),
                        vs == values_view(l@),
                        vs == siblings(self@.get(element_key::<E>())),
                        vs.len() == l@.len(),
                        parse_all::<E>(vs.subrange(0, i as int)) == Ok::<Seq<E::V>, ErrorV>(seq_view(out@)),
                    decreases l.len() - i,
                {
                    assert(vs.subrange(0, i + 1).drop_last() =~= vs.subrange(0, i as int));
                    let ghost before = out@;
                    proof {
                        lemma_values_view(l@);
                    }
                    assert(vs.subrange(0, i + 1).last() == l@[i as int]@);
                    match E::from_value(&l[i]) {
                        Ok(x) => {
                            out.push(x);
                            assert(seq_view(out@) =~= seq_view(before).push(out@.last()@));
                        },
                        Err(e) => {
                            proof {
                                lemma_parse_all_prefix_err::<E>(vs, i as int + 1);
                            }
                            return Err(e);
                        },
                    }
                    i = i + 1;
                }
                assert(vs.subrange(0, vs.len() as int) =~= vs);
                Ok(out)
            },
            Some(v) => {
                assert(vs.drop_last() =~= Seq::<ValueV>::empty());
                assert(parse_all::<E>(vs.drop_last()) == Ok::<Seq<E::V>, ErrorV>(Seq::empty()));
                match E::from_value(v) {
                    Ok(x) => {
                        out.push(x);
                        assert(seq_view(out@) =~= seq![x@]);
                        Ok(out)
                    },
                    Err(e) => Err(e),
                }
            },
        }
    }

    /// Stores `value` under the name of element type `E`, replacing what was
    /// there.
    pub fn insert<E: Element>(&mut self, value: Value)
        ensures
            final(self)@ == old(self)@.insert(dav_name(E::spec_local_name()), value@),
    {
        let name = element_name::<E>();
        self.insert_named(name, value);
    }
}

/// An error in a prefix of the values is the error of the whole.
pub proof fn lemma_parse_all_prefix_err<E: Element>(vs: Seq<ValueV>, k: int)
    requires
        0 <= k <= vs.len(),
        parse_all::<E>(vs.subrange(0, k)) is Err,
    ensures
        parse_all::<E>(vs) == parse_all::<E>(vs.subrange(0, k)),
    decreases vs.len() - k,
{
    if k == vs.len() {
        assert(vs.subrange(0, k) =~= vs);
    } else {
        assert(vs.subrange(0, k + 1).drop_last() =~= vs.subrange(0, k));
        lemma_parse_all_prefix_err::<E>(vs, k + 1);
    }
}

/// An optional child of type `E`: absent, or read.
pub open spec fn optional_child<E: Element>(m: MapV) -> Result<Option<E::V>, ErrorV> {
    match m.get(element_key::<E>()) {
        None => Ok(None),
        Some(v) => match E::spec_from_value(v) {
            Ok(x) => Ok(Some(x)),
            Err(e) => Err(e),
        },
    }
}

/// A required child of type `E` of the element named `parent`.
pub open spec fn required_child<E: Element>(m: MapV, parent: Seq<char>) -> Result<E::V, ErrorV> {
    match m.get(element_key::<E>()) {
        None => Err(ErrorV::MissingElement { parent, element: E::spec_local_name() }),
        Some(v) => E::spec_from_value(v),
    }
}

/// The children of type `E` of a value that is empty or holds them.
pub open spec fn children_of<E: Element>(parent: Seq<char>, v: ValueV) -> Result<Seq<E::V>, ErrorV> {
    match v {
        ValueV::Empty => Ok(Seq::empty()),
        ValueV::Elements(m) => parse_all::<E>(siblings(m.get(element_key::<E>()))),
        _ => Err(ErrorV::InvalidValueType { element: parent, expected: "child elements"@ }),
    }
}

/// The map a value must be, named `element` in the error.
pub open spec fn map_of(element: Seq<char>, v: ValueV) -> Result<MapV, ErrorV> {
    match v {
        ValueV::Elements(m) => Ok(m),
        _ => Err(ErrorV::InvalidValueType { element, expected: "child elements"@ }),
    }
}

pub open spec fn opt_seq_view<T: View>(o: Option<T>) -> Option<T::V> {
    match o {
        Some(x) => Some(x@),
        None => None,
    }
}

impl ValueMap {
    /// Reads the optional child of type `E`.
    pub fn get_optional_child<E: Element>(&self) -> (r: Result<Option<E>, Error>)
        ensures
            match optional_child::<E>(self@) {
                Ok(x) => (r matches Ok(y) && opt_seq_view(y) == x),
                Err(e) => (r matches Err(y) && y@ == e),
            },
    {
        match self.get::<E>() {
            None => Ok(None),
            Some(Ok(x)) => Ok(Some(x)),
            Some(Err(e)) => Err(e),
        }
    }
}

/// Reads the children of type `E` of a value that is empty or holds them.
pub fn read_children<E: Element>(v: &Value, parent: &'static str) -> (r: Result<Vec<E>, Error>)
    ensures
        match children_of::<E>(parent@, v@) {
            Ok(xs) => (r matches Ok(y) && seq_view(y@) == xs),
            Err(e) => (r matches Err(y) && y@ == e),
        },
{
    match v {
        Value::Empty => {
            let out: Vec<E> = Vec::new();
            assert(seq_view(out@) =~= Seq::<E::V>::empty());
            Ok(out)
        },
        Value::Elements(m) => m.get_all::<E>(),
        _ => Err(crate::error::invalid_value_type(parent, "child elements")),
    }
}

/// Values that can be copied, the copy having the same view.
pub trait Duplicate: View + Sized {
    fn duplicate(&self) -> (r: Self)
        ensures
            r@ == self@,
    ;
}

/// A copy of every value, in order.
pub fn duplicate_all<T: Duplicate>(v: &Vec<T>) -> (r: Vec<T>)
    ensures
        seq_view(r@) == seq_view(v@),
{
    let mut r: Vec<T> = Vec::new();
    let mut i: usize = 0;
    while i < v.len()
        invariant
            i <= v@.len(),
            r@.len() == i,
            forall|j: int| 0 <= j < i ==> #[trigger] r@[j]@ == v@[j]@,
        decreases v.len() - i,
    {
        r.push(v[i].duplicate());
        i = i + 1;
    }
    assert(seq_view(r@) =~= seq_view(v@));
    r
}

/// A copy of every value of a sequence that holds at least one.
pub fn duplicate_non_empty<T: Duplicate>(v: &NonEmptyVec<T>) -> (r: NonEmptyVec<T>)
    ensures
        seq_view(r@) == seq_view(v@),
{
    let items = duplicate_all(v.as_vec());
    proof {
        lemma_seq_view(items@);
        lemma_seq_view(v@);
    }
    NonEmptyVec::from_vec(items)
}

impl Duplicate for ElementName {
    fn duplicate(&self) -> (r: ElementName) {
        self.copy()
    }
}

/// Reading every value written for a sequence gives the sequence back, when
/// each element reads back from its own value.
pub proof fn lemma_parse_all_into_values<E: Element>(xs: Seq<E::V>)
    requires
        forall|i: int| 0 <= i < xs.len() ==> #[trigger] E::spec_from_value(E::spec_into_value(xs[i])) == Ok::<E::V, ErrorV>(xs[i]),
    ensures
        parse_all::<E>(into_values::<E>(xs)) == Ok::<Seq<E::V>, ErrorV>(xs),
    decreases xs.len(),
{
    if xs.len() > 0 {
        let front = xs.drop_last();
        assert forall|i: int| 0 <= i < front.len() implies #[trigger] E::spec_from_value(E::spec_into_value(front[i])) == Ok::<E::V, ErrorV>(front[i]) by {
            assert(front[i] == xs[i]);
        }
        lemma_parse_all_into_values::<E>(front);
        let vs = into_values::<E>(xs);
        assert(vs.drop_last() =~= into_values::<E>(front));
        assert(vs.last() == E::spec_into_value(xs.last()));
        assert(E::spec_from_value(E::spec_into_value(xs[xs.len() - 1])) == Ok::<E::V, ErrorV>(xs[xs.len() - 1]));
        assert(front.push(xs.last()) =~= xs);
        assert(parse_all::<E>(vs) == Ok::<Seq<E::V>, ErrorV>(front.push(xs.last())));
    } else {
        assert(into_values::<E>(xs).len() == 0);
        assert(xs =~= Seq::<E::V>::empty());
    }
}

/// A sequence of elements written under its element name reads back as the
/// same sequence, when each element reads back from its own value and none
/// is written as a list, and a single element is not written as empty.
pub proof fn lemma_list_round_trip<E: Element>(parent: Seq<char>, xs: Seq<E::V>)
    requires
        forall|i: int| 0 <= i < xs.len() ==> #[trigger] E::spec_from_value(E::spec_into_value(xs[i])) == Ok::<E::V, ErrorV>(xs[i]),
        forall|i: int| 0 <= i < xs.len() ==> !(#[trigger] E::spec_into_value(xs[i]) is List),
        xs.len() == 1 ==> !(E::spec_into_value(xs[0]) is Empty),
    ensures
        children_of::<E>(parent, list_value_under_spec::<E>(xs)) == Ok::<Seq<E::V>, ErrorV>(xs),
{
    let vs = into_values::<E>(xs);
    lemma_parse_all_into_values::<E>(xs);
    if xs.len() > 0 {
        let v = list_value_spec::<E>(xs);
        assert(!(v is Empty)) by {
            if xs.len() == 1 {
                assert(vs[0] == E::spec_into_value(xs[0]));
            }
        }
        let n = dav_name(E::spec_local_name());
        crate::value::lemma_single_get(n, v, element_key::<E>());
        if xs.len() == 1 {
            assert(vs[0] == E::spec_into_value(xs[0]));
            assert(siblings(Some(v)) =~= vs);
        } else {
            assert(siblings(Some(v)) == vs);
        }
    }
}

} // verus!
