//! Writing a [`Value`] as an XML document.
use vstd::prelude::*;

use crate::element::Element;
use crate::elements::error::{dav_error_from, dav_error_problem, DavError};
use crate::error::{Error, ErrorV};
use crate::name::{dav_key, dav_name, ElementName, NameV};
use crate::quick::written_bytes;
use crate::text::decimal_text;
use crate::value::{
    count_of, entries_view, item_view, items_view, lemma_count_le_len, lemma_count_prefix,
    lemma_count_push, lemma_count_take, lemma_entries_view, lemma_items_view, lemma_map_view, lemma_values_view,
    values_view, ContentItem, ItemV, MapV, Value, ValueMap, ValueV,
};

verus! {

broadcast use vstd::std_specs::vec::axiom_vec_index_decreases;

/// One step of writing a document.
#[derive(Debug, PartialEq)]
pub enum WriteOp {
    /// The XML declaration, `<?xml version="1.0" encoding="utf-8"?>`.
    Declaration,
    /// An opening tag with its attributes.
    Start { name: String, attributes: Vec<(String, String)> },
    /// A self-closing tag with its attributes.
    Empty { name: String, attributes: Vec<(String, String)> },
    /// A closing tag.
    End { name: String },
    /// Character data, escaped when written. Empty text writes nothing but
    /// keeps the writer from indenting the event that follows.
    Text(String),
}

pub type Attrs = Seq<(Seq<char>, Seq<char>)>;

pub enum OpV {
    Declaration,
    Start(Seq<char>, Attrs),
    Empty(Seq<char>, Attrs),
    End(Seq<char>),
    Text(Seq<char>),
}

pub open spec fn pairs_view(s: Seq<(String, String)>) -> Attrs {
    s.map_values(|p: (String, String)| (p.0@, p.1@))
}

impl View for WriteOp {
    type V = OpV;

    open spec fn view(&self) -> OpV {
        match self {
            WriteOp::Declaration => OpV::Declaration,
            WriteOp::Start { name, attributes } => OpV::Start(name@, pairs_view(attributes@)),
            WriteOp::Empty { name, attributes } => OpV::Empty(name@, pairs_view(attributes@)),
            WriteOp::End { name } => OpV::End(name@),
            WriteOp::Text(t) => OpV::Text(t@),
        }
    }
}

pub open spec fn ops_view(s: Seq<WriteOp>) -> Seq<OpV> {
    s.map_values(|o: WriteOp| o@)
}

/// How an element is laid out.
#[derive(Clone, Copy, Debug, PartialEq, Eq, Structural)]
pub enum Layout {
    /// Indented, one element per line.
    Indented,
    /// The `DAV:owner` element: its start is indented, its content is kept
    /// as written.
    Owner,
    /// Nothing is indented.
    Flat,
}

pub open spec fn is_owner(n: NameV) -> bool {
    n.key() == dav_key("owner"@)
}

pub open spec fn is_error_element(n: NameV) -> bool {
    n.key() == dav_key("error"@)
}

/// Namespace URIs and the prefixes they are written with.
pub type Namespaces = Seq<(Seq<char>, Seq<char>)>;

/// Strict lexicographic order of texts, by code point.
pub open spec fn text_lt(a: Seq<char>, b: Seq<char>) -> bool
    decreases a.len(),
{
    if a.len() == 0 {
        b.len() > 0
    } else if b.len() == 0 {
        false
    } else if a[0] != b[0] {
        (a[0] as int) < (b[0] as int)
    } else {
        text_lt(a.drop_first(), b.drop_first())
    }
}

/// The index of the entry for `uri`, or -1.
pub open spec fn uri_index(ns: Namespaces, uri: Seq<char>) -> int
    decreases ns.len(),
{
    if ns.len() == 0 {
        -1
    } else if ns[0].0 == uri {
        0
    } else {
        let r = uri_index(ns.drop_first(), uri);
        if r < 0 {
            -1
        } else {
            r + 1
        }
    }
}

pub open spec fn prefix_taken(ns: Namespaces, p: Seq<char>) -> bool {
    exists|i: int| 0 <= i < ns.len() && #[trigger] ns[i].1 == p
}

/// The prefix `ns<i>`.
pub open spec fn generated_prefix(i: nat) -> Seq<char> {
    "ns"@ + decimal_text(i)
}

/// The first `i` from `from` on whose prefix `ns<i>` is free. When the first
/// `n` candidates are all taken, the `n` declarations hold them all, so the
/// next one is free and is not looked up.
pub open spec fn free_index(ns: Namespaces, from: nat) -> nat
    decreases ns.len() - from,
{
    if from >= ns.len() {
        from
    } else if prefix_taken(ns, generated_prefix(from)) {
        free_index(ns, from + 1)
    } else {
        from
    }
}

/// Where `uri` goes so that the URIs stay in order: before the first URI
/// that is not less.
pub open spec fn insert_position(ns: Namespaces, uri: Seq<char>) -> int
    decreases ns.len(),
{
    if ns.len() == 0 {
        0
    } else if !text_lt(ns[0].0, uri) {
        0
    } else {
        insert_position(ns.drop_first(), uri) + 1
    }
}

/// Declares the namespace of `n`, if it has one not yet declared: with the
/// name's own prefix where that is free, else with `ns<i>`.
pub open spec fn add_namespace(ns: Namespaces, n: NameV) -> Namespaces {
    match n.namespace {
        None => ns,
        Some(uri) => if uri_index(ns, uri) >= 0 {
            ns
        } else {
            let prefix = match n.prefix {
                Some(p) => if !prefix_taken(ns, p) {
                    p
                } else {
                    generated_prefix(free_index(ns, 0))
                },
                None => generated_prefix(free_index(ns, 0)),
            };
            let k = insert_position(ns, uri);
            ns.take(k).push((uri, prefix)) + ns.skip(k)
        },
    }
}

/// Declares every namespace of an element and its descendants, in document
/// order of first use.
pub open spec fn collect(ns: Namespaces, n: NameV, v: ValueV) -> Namespaces
    decreases v, 0int,
{
    let ns1 = add_namespace(ns, n);
    match v {
        ValueV::List(l) => collect_list(ns1, n, l, 0),
        ValueV::Elements(m) => collect_entries(ns1, m.entries, 0),
        ValueV::Mixed(items) => collect_items(ns1, items, 0),
        _ => ns1,
    }
}

pub open spec fn collect_list(ns: Namespaces, n: NameV, l: Seq<ValueV>, i: int) -> Namespaces
    decreases l, l.len() - i,
{
    if 0 <= i < l.len() {
        collect_list(collect(ns, n, l[i]), n, l, i + 1)
    } else {
        ns
    }
}

pub open spec fn collect_entries(ns: Namespaces, es: Seq<(NameV, ValueV)>, i: int) -> Namespaces
    decreases es, es.len() - i,
{
    if 0 <= i < es.len() {
        collect_entries(collect(ns, es[i].0, es[i].1), es, i + 1)
    } else {
        ns
    }
}

pub open spec fn collect_items(ns: Namespaces, items: Seq<ItemV>, i: int) -> Namespaces
    decreases items, items.len() - i,
{
    if 0 <= i < items.len() {
        match items[i] {
            ItemV::Element(n, v) => collect_items(collect(ns, n, v), items, i + 1),
            ItemV::Text(_) => collect_items(ns, items, i + 1),
        }
    } else {
        ns
    }
}

/// The name as written: with the prefix of its namespace.
pub open spec fn qualified(ns: Namespaces, n: NameV) -> Seq<char> {
    match n.namespace {
        Some(uri) => {
            let i = uri_index(ns, uri);
            if i >= 0 {
                ns[i].1 + ":"@ + n.local_name
            } else {
                n.local_name
            }
        },
        None => n.local_name,
    }
}

/// An event the writer must not indent: empty text goes first.
pub open spec fn unindented(op: OpV) -> Seq<OpV> {
    seq![OpV::Text(Seq::empty()), op]
}

pub open spec fn open_op(q: Seq<char>, layout: Layout) -> Seq<OpV> {
    match layout {
        Layout::Flat => unindented(OpV::Start(q, Seq::empty())),
        _ => seq![OpV::Start(q, Seq::empty())],
    }
}

pub open spec fn close_op(q: Seq<char>, layout: Layout) -> Seq<OpV> {
    match layout {
        Layout::Indented => seq![OpV::End(q)],
        _ => unindented(OpV::End(q)),
    }
}

pub open spec fn empty_op(q: Seq<char>, layout: Layout) -> Seq<OpV> {
    match layout {
        Layout::Flat => unindented(OpV::Empty(q, Seq::empty())),
        _ => seq![OpV::Empty(q, Seq::empty())],
    }
}

/// The layout of an element's children.
pub open spec fn child_layout(layout: Layout) -> Layout {
    match layout {
        Layout::Indented => Layout::Indented,
        _ => Layout::Flat,
    }
}

/// The layout an element is written in: an owner's among indented siblings
/// is its own.
pub open spec fn own_layout(n: NameV, layout: Layout) -> Layout {
    if layout is Indented && is_owner(n) {
        Layout::Owner
    } else {
        layout
    }
}

/// The events that write the element `n` with value `v`.
pub open spec fn element_ops(ns: Namespaces, n: NameV, v: ValueV, layout: Layout) -> Seq<OpV>
    decreases v, 0int,
{
    let lay = own_layout(n, layout);
    let q = qualified(ns, n);
    match v {
        ValueV::Empty => empty_op(q, lay),
        ValueV::Text(t) => open_op(q, lay) + seq![OpV::Text(t)] + close_op(q, lay),
        ValueV::List(l) => list_ops(ns, n, l, 0, lay),
        ValueV::Elements(m) => open_op(q, lay) + children_ops(ns, m, 0, child_layout(lay)) + close_op(q, lay),
        ValueV::Mixed(items) => open_op(q, lay) + mixed_ops(ns, items, 0) + close_op(q, lay),
    }
}

/// Each item of a list, as an element of the list's name.
pub open spec fn list_ops(ns: Namespaces, n: NameV, l: Seq<ValueV>, i: int, layout: Layout) -> Seq<OpV>
    decreases l, l.len() - i,
{
    if 0 <= i < l.len() {
        element_ops(ns, n, l[i], layout) + list_ops(ns, n, l, i + 1, layout)
    } else {
        Seq::empty()
    }
}

/// The children of a map from the `p`-th on, in document order.
pub open spec fn children_ops(ns: Namespaces, m: MapV, p: int, layout: Layout) -> Seq<OpV>
    decreases m, m.order.len() - p,
{
    if 0 <= p < m.order.len() {
        let i = m.order[p] as int;
        let c = count_of(m.order.take(p), i) as int;
        let rest = children_ops(ns, m, p + 1, layout);
        if 0 <= i < m.entries.len() {
            let e = m.entries[i];
            match e.1 {
                ValueV::List(l) => if 0 <= c < l.len() {
                    element_ops(ns, e.0, l[c], layout) + rest
                } else {
                    rest
                },
                _ => element_ops(ns, e.0, e.1, layout) + rest,
            }
        } else {
            rest
        }
    } else {
        Seq::empty()
    }
}

/// Mixed content from the `i`-th item on: text as it is, elements unindented.
pub open spec fn mixed_ops(ns: Namespaces, items: Seq<ItemV>, i: int) -> Seq<OpV>
    decreases items, items.len() - i,
{
    if 0 <= i < items.len() {
        match items[i] {
            ItemV::Text(t) => seq![OpV::Text(t)] + mixed_ops(ns, items, i + 1),
            ItemV::Element(n, v) => element_ops(ns, n, v, Layout::Flat) + mixed_ops(ns, items, i + 1),
        }
    } else {
        Seq::empty()
    }
}

/// The namespace declarations of the root element, in URI order.
pub open spec fn declarations(ns: Namespaces) -> Attrs {
    ns.map_values(|e: (Seq<char>, Seq<char>)| ("xmlns:"@ + e.1, e.0))
}

/// The events that write the root element `n` with value `v`; a list is no
/// single root.
pub open spec fn root_ops(ns: Namespaces, n: NameV, v: ValueV, element: Seq<char>) -> Result<Seq<OpV>, ErrorV> {
    let q = qualified(ns, n);
    let attrs = declarations(ns);
    let owner = is_owner(n);
    match v {
        ValueV::Empty => Ok(seq![OpV::Empty(q, attrs)]),
        ValueV::Text(t) => Ok(seq![OpV::Start(q, attrs), OpV::Text(t), OpV::End(q)]),
        ValueV::Elements(m) => Ok(
            seq![OpV::Start(q, attrs)] + if owner {
                children_ops(ns, m, 0, Layout::Flat) + unindented(OpV::End(q))
            } else {
                children_ops(ns, m, 0, Layout::Indented) + seq![OpV::End(q)]
            },
        ),
        ValueV::Mixed(items) => Ok(
            seq![OpV::Start(q, attrs)] + mixed_ops(ns, items, 0) + if owner {
                unindented(OpV::End(q))
            } else {
                seq![OpV::End(q)]
            },
        ),
        ValueV::List(_) => Err(ErrorV::InvalidValueType { element, expected: "a single root element"@ }),
    }
}

/// A `DAV:error` element must hold a readable error, and one that may be
/// written inside another element.
pub open spec fn error_check(n: NameV, v: ValueV) -> Option<ErrorV> {
    if is_error_element(n) {
        match dav_error_from(v) {
            Err(e) => Some(e),
            Ok(d) => dav_error_problem(d),
        }
    } else {
        None
    }
}

/// The first problem with an element and its descendants: a `DAV:error`
/// element that cannot be read. The content of `DAV:owner` is not looked
/// into.
pub open spec fn validate(n: NameV, v: ValueV) -> Option<ErrorV>
    decreases v, 0int,
{
    if is_owner(n) {
        None
    } else {
        match v {
            ValueV::List(l) => validate_list(n, l, 0),
            ValueV::Elements(m) => match error_check(n, v) {
                Some(e) => Some(e),
                None => validate_entries(m.entries, 0),
            },
            ValueV::Mixed(items) => match error_check(n, v) {
                Some(e) => Some(e),
                None => validate_items(items, 0),
            },
            _ => error_check(n, v),
        }
    }
}

pub open spec fn validate_list(n: NameV, l: Seq<ValueV>, i: int) -> Option<ErrorV>
    decreases l, l.len() - i,
{
    if 0 <= i < l.len() {
        match validate(n, l[i]) {
            Some(e) => Some(e),
            None => validate_list(n, l, i + 1),
        }
    } else {
        None
    }
}

pub open spec fn validate_entries(es: Seq<(NameV, ValueV)>, i: int) -> Option<ErrorV>
    decreases es, es.len() - i,
{
    if 0 <= i < es.len() {
        match validate(es[i].0, es[i].1) {
            Some(e) => Some(e),
            None => validate_entries(es, i + 1),
        }
    } else {
        None
    }
}

pub open spec fn validate_items(items: Seq<ItemV>, i: int) -> Option<ErrorV>
    decreases items, items.len() - i,
{
    if 0 <= i < items.len() {
        match items[i] {
            ItemV::Element(n, v) => match validate(n, v) {
                Some(e) => Some(e),
                None => validate_items(items, i + 1),
            },
            ItemV::Text(_) => validate_items(items, i + 1),
        }
    } else {
        None
    }
}

/// The first problem below the root: the elements inside the root are
/// checked as [`validate`] checks them, while the root itself is written as
/// it is (an error document may hold any conditions). A list in the root's
/// place has its items checked as [`validate`] checks them.
pub open spec fn validate_root(n: NameV, v: ValueV) -> Option<ErrorV> {
    if is_owner(n) {
        None
    } else {
        match v {
            ValueV::List(l) => validate_list(n, l, 0),
            ValueV::Elements(m) => validate_entries(m.entries, 0),
            ValueV::Mixed(items) => validate_items(items, 0),
            _ => None,
        }
    }
}

/// The events that write the document whose root is `n` with value `v`.
pub open spec fn document_ops(n: NameV, v: ValueV, element: Seq<char>) -> Result<Seq<OpV>, ErrorV> {
    match validate_root(n, v) {
        Some(e) => Err(e),
        None => {
            let ns = collect(Seq::empty(), n, v);
            match root_ops(ns, n, v, element) {
                Ok(ops) => Ok(seq![OpV::Declaration] + ops),
                Err(e) => Err(e),
            }
        },
    }
}


pub proof fn lemma_uri_index(ns: Namespaces, uri: Seq<char>)
    ensures
        -1 <= uri_index(ns, uri) < ns.len(),
        uri_index(ns, uri) >= 0 ==> ns[uri_index(ns, uri)].0 == uri,
        forall|j: int| 0 <= j < ns.len() && (uri_index(ns, uri) < 0 || j < uri_index(ns, uri)) ==> #[trigger] ns[j].0 != uri,
    decreases ns.len(),
{
    if ns.len() > 0 && ns[0].0 != uri {
        let t = ns.drop_first();
        lemma_uri_index(t, uri);
        assert forall|j: int| 1 <= j < ns.len() implies #[trigger] ns[j] == t[j - 1] by {}
    }
}

pub proof fn lemma_insert_position(ns: Namespaces, uri: Seq<char>)
    ensures
        0 <= insert_position(ns, uri) <= ns.len(),
        forall|j: int| 0 <= j < insert_position(ns, uri) ==> text_lt(#[trigger] ns[j].0, uri),
        insert_position(ns, uri) < ns.len() ==> !text_lt(ns[insert_position(ns, uri)].0, uri),
    decreases ns.len(),
{
    if ns.len() > 0 && text_lt(ns[0].0, uri) {
        let t = ns.drop_first();
        lemma_insert_position(t, uri);
        assert forall|j: int| 1 <= j < ns.len() implies #[trigger] ns[j] == t[j - 1] by {}
    }
}

pub open spec fn ns_view(ns: Seq<(String, String)>) -> Namespaces {
    pairs_view(ns)
}

pub proof fn lemma_pairs_view(s: Seq<(String, String)>)
    ensures
        pairs_view(s).len() == s.len(),
        forall|i: int| 0 <= i < s.len() ==> #[trigger] pairs_view(s)[i] == (s[i].0@, s[i].1@),
{
}

pub proof fn lemma_ops_view_push(s: Seq<WriteOp>, x: WriteOp)
    ensures
        ops_view(s.push(x)) == ops_view(s).push(x@),
{
    assert(ops_view(s.push(x)) =~= ops_view(s).push(x@));
}

/// Whether `a` comes before `b` in code-point order.
pub fn text_less(a: &str, b: &str) -> (r: bool)
    ensures
        r == text_lt(a@, b@),
{
    let x = crate::text::to_chars(a);
    let y = crate::text::to_chars(b);
    let mut i: usize = 0;
    assert(x@.subrange(0, x@.len() as int) =~= x@);
    assert(y@.subrange(0, y@.len() as int) =~= y@);
    loop
        invariant
            x@ == a@,
            y@ == b@,
            i <= x@.len(),
            i <= y@.len(),
            text_lt(a@, b@) == text_lt(x@.subrange(i as int, x@.len() as int), y@.subrange(i as int, y@.len() as int)),
        decreases x.len() - i,
    {
        let ghost xs = x@.subrange(i as int, x@.len() as int);
        let ghost ys = y@.subrange(i as int, y@.len() as int);
        if i == x.len() {
            return i < y.len();
        }
        if i == y.len() {
            return false;
        }
        assert(xs[0] == x@[i as int]);
        assert(ys[0] == y@[i as int]);
        if x[i] != y[i] {
            return x[i] < y[i];
        }
        assert(xs.drop_first() =~= x@.subrange(i + 1, x@.len() as int));
        assert(ys.drop_first() =~= y@.subrange(i + 1, y@.len() as int));
        i = i + 1;
    }
}

/// The index of the declaration of `uri`.
pub fn find_uri(ns: &Vec<(String, String)>, uri: &str) -> (r: Option<usize>)
    ensures
        match r {
            Some(i) => i as int == uri_index(ns_view(ns@), uri@) && i < ns@.len(),
            None => uri_index(ns_view(ns@), uri@) == -1,
        },
{
    proof {
        lemma_uri_index(ns_view(ns@), uri@);
        lemma_pairs_view(ns@);
    }
    let mut i: usize = 0;
    while i < ns.len()
        invariant
            i <= ns.len(),
            pairs_view(ns@).len() == ns@.len(),
            forall|k: int| 0 <= k < ns@.len() ==> #[trigger] pairs_view(ns@)[k] == (ns@[k].0@, ns@[k].1@),
            -1 <= uri_index(ns_view(ns@), uri@) < ns@.len(),
            uri_index(ns_view(ns@), uri@) >= 0 ==> ns_view(ns@)[uri_index(ns_view(ns@), uri@)].0 == uri@,
            forall|j: int| 0 <= j < ns@.len() && (uri_index(ns_view(ns@), uri@) < 0 || j < uri_index(ns_view(ns@), uri@)) ==> #[trigger] ns_view(ns@)[j].0 != uri@,
            forall|j: int| 0 <= j < i ==> #[trigger] ns_view(ns@)[j].0 != uri@,
        decreases ns.len() - i,
    {
        if crate::text::text_is(ns[i].0.as_str(), uri) {
            assert(ns_view(ns@)[i as int].0 == uri@);
            return Some(i);
        }
        i = i + 1;
    }
    None
}

/// Whether some declaration uses prefix `p`.
pub fn is_prefix_taken(ns: &Vec<(String, String)>, p: &str) -> (r: bool)
    ensures
        r == prefix_taken(ns_view(ns@), p@),
{
    proof {
        lemma_pairs_view(ns@);
    }
    let mut i: usize = 0;
    while i < ns.len()
        invariant
            i <= ns.len(),
            pairs_view(ns@).len() == ns@.len(),
            forall|k: int| 0 <= k < ns@.len() ==> #[trigger] pairs_view(ns@)[k] == (ns@[k].0@, ns@[k].1@),
            forall|j: int| 0 <= j < i ==> #[trigger] ns_view(ns@)[j].1 != p@,
        decreases ns.len() - i,
    {
        if crate::text::text_is(ns[i].1.as_str(), p) {
            assert(ns_view(ns@)[i as int].1 == p@);
            return true;
        }
        i = i + 1;
    }
    false
}

fn generated(i: usize) -> (r: String)
    ensures
        r@ == generated_prefix(i as nat),
{
    crate::text::concat("ns", crate::text::u64_text(i as u64).as_str())
}

/// Declares the namespace of `name`, if it has one not yet declared.
pub fn add_namespace_to(ns: &mut Vec<(String, String)>, name: &ElementName)
    ensures
        ns_view(final(ns)@) == add_namespace(ns_view(old(ns)@), name@),
{
    let uri = match &name.namespace {
        None => return,
        Some(uri) => uri,
    };
    if find_uri(ns, uri.as_str()).is_some() {
        return;
    }
    let prefix = match &name.prefix {
        Some(p) => if !is_prefix_taken(ns, p.as_str()) {
            p.clone()
        } else {
            generated(free_prefix(ns))
        },
        None => generated(free_prefix(ns)),
    };
    let ghost before = ns_view(ns@);
    proof {
        lemma_insert_position(before, uri@);
        lemma_pairs_view(ns@);
    }
    let mut k: usize = 0;
    loop
        invariant
            k <= ns.len(),
            before == ns_view(ns@),
            pairs_view(ns@).len() == ns@.len(),
            forall|j: int| 0 <= j < ns@.len() ==> #[trigger] pairs_view(ns@)[j] == (ns@[j].0@, ns@[j].1@),
            k <= insert_position(before, uri@),
            0 <= insert_position(before, uri@) <= before.len(),
            forall|j: int| 0 <= j < insert_position(before, uri@) ==> text_lt(#[trigger] before[j].0, uri@),
            insert_position(before, uri@) < before.len() ==> !text_lt(before[insert_position(before, uri@)].0, uri@),
        ensures
            k == insert_position(before, uri@),
        decreases ns.len() - k,
    {
        if k >= ns.len() {
            break;
        }
        assert(before[k as int].0 == ns@[k as int].0@);
        if !text_less(ns[k].0.as_str(), uri.as_str()) {
            break;
        }
        k = k + 1;
    }
    assert(k == insert_position(before, uri@));
    let ghost p = prefix@;
    ns.insert(k, (uri.clone(), prefix));
    proof {
        lemma_pairs_view(ns@);
        assert(ns_view(ns@) =~= before.take(k as int).push((uri@, p)) + before.skip(k as int));
    }
}

/// The first `i` whose prefix `ns<i>` is free.
fn free_prefix(ns: &Vec<(String, String)>) -> (r: usize)
    ensures
        r as nat == free_index(ns_view(ns@), 0),
{
    proof {
        lemma_pairs_view(ns@);
    }
    let mut i: usize = 0;
    loop
        invariant
            i <= ns.len(),
            free_index(ns_view(ns@), 0) == free_index(ns_view(ns@), i as nat),
            pairs_view(ns@).len() == ns@.len(),
        decreases ns.len() - i,
    {
        if i >= ns.len() || !is_prefix_taken(ns, generated(i).as_str()) {
            return i;
        }
        i = i + 1;
    }
}


/// Declares every namespace of an element and its descendants.
pub fn collect_namespaces(ns: &mut Vec<(String, String)>, name: &ElementName, value: &Value)
    ensures
        ns_view(final(ns)@) == collect(ns_view(old(ns)@), name@, value@),
    decreases value,
{
    let ghost target = collect(ns_view(ns@), name@, value@);
    add_namespace_to(ns, name);
    match value {
        Value::List(list) => {
            let l = list.as_vec();
            let ghost lv = values_view(l@);
            proof {
                lemma_values_view(l@);
            }
            let mut i: usize = 0;
            while i < l.len()
                invariant
                    i <= l.len(),
                    lv == values_view(l@),
                    lv.len() == l@.len(),
                    forall|j: int| 0 <= j < lv.len() ==> #[trigger] lv[j] == l@[j]@,
                    target == collect_list(ns_view(ns@), name@, lv, i as int),
                    *value == Value::List(*list),
                    l@ == list@,
                decreases l.len() - i,
            {
                assert(decreases_to!(*value => (*value)->List_0));
                proof {
                    list.lemma_item_decreases(i as int);
                }
                collect_namespaces(ns, name, &l[i]);
                i = i + 1;
            }
        },
        Value::Elements(m) => {
            let ghost es = m@.entries;
            proof {
                lemma_entries_view(m.entries@);
                lemma_map_view(*m);
            }
            let mut i: usize = 0;
            while i < m.entries.len()
                invariant
                    i <= m.entries.len(),
                    es == m@.entries,
                    es == entries_view(m.entries@),
                    es.len() == m.entries@.len(),
                    forall|j: int| 0 <= j < es.len() ==> #[trigger] es[j] == (m.entries@[j].0@, m.entries@[j].1@),
                    target == collect_entries(ns_view(ns@), es, i as int),
                    *value == Value::Elements(*m),
                decreases m.entries.len() - i,
            {
                assert(decreases_to!(*value => (*value)->Elements_0));
                assert(decreases_to!((*value)->Elements_0 => (*value)->Elements_0.entries));
                collect_namespaces(ns, &m.entries[i].0, &m.entries[i].1);
                i = i + 1;
            }
        },
        Value::Mixed(items) => {
            let ghost iv = items_view(items@);
            proof {
                lemma_items_view(items@);
            }
            let mut i: usize = 0;
            while i < items.len()
                invariant
                    i <= items.len(),
                    iv == items_view(items@),
                    iv.len() == items@.len(),
                    forall|j: int| 0 <= j < iv.len() ==> #[trigger] iv[j] == item_view(items@[j]),
                    target == collect_items(ns_view(ns@), iv, i as int),
                    *value == Value::Mixed(*items),
                decreases items.len() - i,
            {
                assert(decreases_to!(*value => (*value)->Mixed_0));
                match &items[i] {
                    ContentItem::Element { name, value } => collect_namespaces(ns, name, value),
                    ContentItem::Text(_) => {},
                }
                i = i + 1;
            }
        },
        _ => {},
    }
}

/// The name as written, with the prefix of its namespace.
pub fn qualified_name(ns: &Vec<(String, String)>, name: &ElementName) -> (r: String)
    ensures
        r@ == qualified(ns_view(ns@), name@),
{
    proof {
        lemma_pairs_view(ns@);
    }
    match &name.namespace {
        Some(uri) => match find_uri(ns, uri.as_str()) {
            Some(i) => {
                let mut q = ns[i].1.clone();
                q.append(":");
                q.append(name.local_name.as_str());
                q
            },
            None => name.local_name.clone(),
        },
        None => name.local_name.clone(),
    }
}

fn push_op(out: &mut Vec<WriteOp>, op: WriteOp)
    ensures
        ops_view(final(out)@) == ops_view(old(out)@).push(op@),
{
    proof {
        lemma_ops_view_push(out@, op);
    }
    out.push(op);
}

fn no_attributes() -> (r: Vec<(String, String)>)
    ensures
        pairs_view(r@) == Seq::<(Seq<char>, Seq<char>)>::empty(),
{
    let r: Vec<(String, String)> = Vec::new();
    assert(pairs_view(r@) =~= Seq::<(Seq<char>, Seq<char>)>::empty());
    r
}

fn push_unindented(out: &mut Vec<WriteOp>, op: WriteOp)
    ensures
        ops_view(final(out)@) == ops_view(old(out)@) + unindented(op@),
{
    let ghost start = ops_view(out@);
    push_op(out, WriteOp::Text(String::new()));
    push_op(out, op);
    assert(ops_view(out@) =~= start + unindented(op@));
}

fn open_tag(out: &mut Vec<WriteOp>, q: &String, layout: Layout)
    ensures
        ops_view(final(out)@) == ops_view(old(out)@) + open_op(q@, layout),
{
    let ghost start = ops_view(out@);
    let op = WriteOp::Start { name: q.clone(), attributes: no_attributes() };
    match layout {
        Layout::Flat => push_unindented(out, op),
        _ => {
            push_op(out, op);
            assert(ops_view(out@) =~= start + open_op(q@, layout));
        },
    }
}

fn close_tag(out: &mut Vec<WriteOp>, q: &String, layout: Layout)
    ensures
        ops_view(final(out)@) == ops_view(old(out)@) + close_op(q@, layout),
{
    let ghost start = ops_view(out@);
    let op = WriteOp::End { name: q.clone() };
    match layout {
        Layout::Indented => {
            push_op(out, op);
            assert(ops_view(out@) =~= start + close_op(q@, layout));
        },
        _ => push_unindented(out, op),
    }
}

fn empty_tag(out: &mut Vec<WriteOp>, q: &String, layout: Layout)
    ensures
        ops_view(final(out)@) == ops_view(old(out)@) + empty_op(q@, layout),
{
    let ghost start = ops_view(out@);
    let op = WriteOp::Empty { name: q.clone(), attributes: no_attributes() };
    match layout {
        Layout::Flat => push_unindented(out, op),
        _ => {
            push_op(out, op);
            assert(ops_view(out@) =~= start + empty_op(q@, layout));
        },
    }
}

/// Writes the element `name` with value `value`.
pub fn write_element(ns: &Vec<(String, String)>, name: &ElementName, value: &Value, layout: Layout, out: &mut Vec<WriteOp>)
    ensures
        ops_view(final(out)@) == ops_view(old(out)@) + element_ops(ns_view(ns@), name@, value@, layout),
    decreases value,
{
    let ghost start = ops_view(out@);
    let ghost nsv = ns_view(ns@);
    let lay = if matches!(layout, Layout::Indented) && name.is_dav("owner") {
        Layout::Owner
    } else {
        layout
    };
    assert(lay == own_layout(name@, layout));
    let q = qualified_name(ns, name);
    match value {
        Value::Empty => empty_tag(out, &q, lay),
        Value::Text(t) => {
            open_tag(out, &q, lay);
            push_op(out, WriteOp::Text(t.clone()));
            close_tag(out, &q, lay);
            assert(ops_view(out@) =~= start + element_ops(nsv, name@, value@, layout));
        },
        Value::List(list) => {
            let l = list.as_vec();
            let ghost lv = values_view(l@);
            proof {
                lemma_values_view(l@);
            }
            let mut i: usize = 0;
            assert(ops_view(out@) + list_ops(nsv, name@, lv, 0, lay) =~= start + element_ops(nsv, name@, value@, layout));
            while i < l.len()
                invariant
                    i <= l.len(),
                    nsv == ns_view(ns@),
                    lv == values_view(l@),
                    lv.len() == l@.len(),
                    forall|j: int| 0 <= j < lv.len() ==> #[trigger] lv[j] == l@[j]@,
                    ops_view(out@) + list_ops(nsv, name@, lv, i as int, lay) == start + element_ops(nsv, name@, value@, layout),
                    *value == Value::List(*list),
                    l@ == list@,
                decreases l.len() - i,
            {
                let ghost before = ops_view(out@);
                proof {
                    assert(decreases_to!(*value => (*value)->List_0));
                    list.lemma_item_decreases(i as int);
                }
                write_element(ns, name, &l[i], lay, out);
                assert(before + list_ops(nsv, name@, lv, i as int, lay) =~= ops_view(out@) + list_ops(nsv, name@, lv, i + 1, lay));
                i = i + 1;
            }
            assert(ops_view(out@) =~= ops_view(out@) + list_ops(nsv, name@, lv, i as int, lay));
        },
        Value::Elements(m) => {
            open_tag(out, &q, lay);
            let inner = match lay {
                Layout::Indented => Layout::Indented,
                _ => Layout::Flat,
            };
            write_children(ns, m, inner, out);
            close_tag(out, &q, lay);
            assert(ops_view(out@) =~= start + element_ops(nsv, name@, value@, layout));
        },
        Value::Mixed(items) => {
            open_tag(out, &q, lay);
            write_mixed(ns, items, out);
            close_tag(out, &q, lay);
            assert(ops_view(out@) =~= start + element_ops(nsv, name@, value@, layout));
        },
    }
}

/// Writes the children of a map in document order.
pub fn write_children(ns: &Vec<(String, String)>, m: &ValueMap, layout: Layout, out: &mut Vec<WriteOp>)
    ensures
        ops_view(final(out)@) == ops_view(old(out)@) + children_ops(ns_view(ns@), m@, 0, layout),
    decreases m,
{
    proof {
        use_type_invariant(m);
        lemma_entries_view(m.entries@);
        lemma_map_view(*m);
    }
    let ghost start = ops_view(out@);
    let ghost nsv = ns_view(ns@);
    let ghost mv = m@;
    let n = m.entries.len();
    let mut seen: Vec<usize> = vec![0; n];
    let mut p: usize = 0;
    assert(mv.order.take(0) =~= Seq::<usize>::empty());
    assert(ops_view(out@) + children_ops(nsv, mv, 0, layout) =~= start + children_ops(nsv, mv, 0, layout));
    while p < m.order.len()
        invariant
            mv == m@,
            mv.wf(),
            mv.entries == entries_view(m.entries@),
            nsv == ns_view(ns@),
            n == m.entries@.len(),
            entries_view(m.entries@).len() == n,
            seen@.len() == n,
            p <= m.order@.len(),
            m.order@ == mv.order,
            forall|i: int| 0 <= i < n ==> #[trigger] seen@[i] == count_of(mv.order.take(p as int), i),
            ops_view(out@) + children_ops(nsv, mv, p as int, layout) == start + children_ops(nsv, mv, 0, layout),
        decreases m.order.len() - p,
    {
        let i = m.order[p];
        proof {
            lemma_entries_view(m.entries@);
            lemma_count_take(mv.order, p as int);
            lemma_count_prefix(mv.order, p as int, i as int);
            lemma_count_le_len(mv.order, i as int);
        }
        let c = seen[i];
        let ghost before = ops_view(out@);
        match &m.entries[i].1 {
            Value::List(list) => {
                let l = list.as_vec();
                proof {
                    lemma_values_view(l@);
                    list.lemma_item_decreases(c as int);
                }
                write_element(ns, &m.entries[i].0, &l[c], layout, out);
            },
            other => {
                write_element(ns, &m.entries[i].0, other, layout, out);
            },
        }
        assert(before + children_ops(nsv, mv, p as int, layout) =~= ops_view(out@) + children_ops(nsv, mv, p + 1, layout));
        proof {
            assert forall|j: int| 0 <= j < n implies #[trigger] seen@.update(i as int, (c + 1) as usize)[j]
                == count_of(mv.order.take(p + 1), j) by {
                assert(mv.order.take(p + 1) =~= mv.order.take(p as int).push(mv.order[p as int]));
                lemma_count_push(mv.order.take(p as int), mv.order[p as int], j);
            }
        }
        seen.set(i, c + 1);
        p = p + 1;
    }
    assert(ops_view(out@) =~= ops_view(out@) + children_ops(nsv, mv, p as int, layout));
}

/// Writes mixed content: text as it is, elements unindented.
pub fn write_mixed(ns: &Vec<(String, String)>, items: &Vec<ContentItem>, out: &mut Vec<WriteOp>)
    ensures
        ops_view(final(out)@) == ops_view(old(out)@) + mixed_ops(ns_view(ns@), items_view(items@), 0),
    decreases items,
{
    let ghost start = ops_view(out@);
    let ghost nsv = ns_view(ns@);
    let ghost iv = items_view(items@);
    proof {
        lemma_items_view(items@);
    }
    let mut i: usize = 0;
    assert(ops_view(out@) + mixed_ops(nsv, iv, 0) =~= start + mixed_ops(nsv, iv, 0));
    while i < items.len()
        invariant
            i <= items.len(),
            nsv == ns_view(ns@),
            iv == items_view(items@),
            iv.len() == items@.len(),
            forall|j: int| 0 <= j < iv.len() ==> #[trigger] iv[j] == item_view(items@[j]),
            ops_view(out@) + mixed_ops(nsv, iv, i as int) == start + mixed_ops(nsv, iv, 0),
        decreases items.len() - i,
    {
        let ghost before = ops_view(out@);
        match &items[i] {
            ContentItem::Text(t) => push_op(out, WriteOp::Text(t.clone())),
            ContentItem::Element { name, value } => write_element(ns, name, value, Layout::Flat, out),
        }
        assert(before + mixed_ops(nsv, iv, i as int) =~= ops_view(out@) + mixed_ops(nsv, iv, i + 1));
        i = i + 1;
    }
    assert(ops_view(out@) =~= ops_view(out@) + mixed_ops(nsv, iv, i as int));
}


fn check_error_element(name: &ElementName, value: &Value) -> (r: Result<(), Error>)
    ensures
        match error_check(name@, value@) {
            None => r is Ok,
            Some(e) => (r matches Err(x) && x@ == e),
        },
{
    if name.is_dav("error") {
        match DavError::from_value(value) {
            Ok(d) => d.validate(),
            Err(e) => Err(e),
        }
    } else {
        Ok(())
    }
}

/// Checks an element and its descendants before they are written: every
/// `DAV:error` element outside `DAV:owner` must read as an error.
pub fn validate_value(name: &ElementName, value: &Value) -> (r: Result<(), Error>)
    ensures
        match validate(name@, value@) {
            None => r is Ok,
            Some(e) => (r matches Err(x) && x@ == e),
        },
    decreases value,
{
    if name.is_dav("owner") {
        return Ok(());
    }
    match value {
        Value::List(list) => {
            let l = list.as_vec();
            let ghost lv = values_view(l@);
            proof {
                lemma_values_view(l@);
            }
            let mut i: usize = 0;
            while i < l.len()
                invariant
                    i <= l.len(),
                    lv == values_view(l@),
                    lv.len() == l@.len(),
                    forall|j: int| 0 <= j < lv.len() ==> #[trigger] lv[j] == l@[j]@,
                    validate(name@, value@) == validate_list(name@, lv, i as int),
                    *value == Value::List(*list),
                    l@ == list@,
                decreases l.len() - i,
            {
                assert(decreases_to!(*value => (*value)->List_0));
                proof {
                    list.lemma_item_decreases(i as int);
                }
                match validate_value(name, &l[i]) {
                    Ok(()) => {},
                    Err(e) => return Err(e),
                }
                i = i + 1;
            }
            Ok(())
        },
        Value::Elements(m) => {
            match check_error_element(name, value) {
                Ok(()) => {},
                Err(e) => return Err(e),
            }
            let ghost es = m@.entries;
            proof {
                lemma_entries_view(m.entries@);
                lemma_map_view(*m);
            }
            let mut i: usize = 0;
            while i < m.entries.len()
                invariant
                    i <= m.entries.len(),
                    es == m@.entries,
                    es == entries_view(m.entries@),
                    es.len() == m.entries@.len(),
                    forall|j: int| 0 <= j < es.len() ==> #[trigger] es[j] == (m.entries@[j].0@, m.entries@[j].1@),
                    validate(name@, value@) == validate_entries(es, i as int),
                    *value == Value::Elements(*m),
                decreases m.entries.len() - i,
            {
                assert(decreases_to!(*value => (*value)->Elements_0));
                assert(decreases_to!((*value)->Elements_0 => (*value)->Elements_0.entries));
                match validate_value(&m.entries[i].0, &m.entries[i].1) {
                    Ok(()) => {},
                    Err(e) => return Err(e),
                }
                i = i + 1;
            }
            Ok(())
        },
        Value::Mixed(items) => {
            match check_error_element(name, value) {
                Ok(()) => {},
                Err(e) => return Err(e),
            }
            let ghost iv = items_view(items@);
            proof {
                lemma_items_view(items@);
            }
            let mut i: usize = 0;
            while i < items.len()
                invariant
                    i <= items.len(),
                    iv == items_view(items@),
                    iv.len() == items@.len(),
                    forall|j: int| 0 <= j < iv.len() ==> #[trigger] iv[j] == item_view(items@[j]),
                    validate(name@, value@) == validate_items(iv, i as int),
                    *value == Value::Mixed(*items),
                decreases items.len() - i,
            {
                assert(decreases_to!(*value => (*value)->Mixed_0));
                match &items[i] {
                    ContentItem::Element { name, value } => match validate_value(name, value) {
                        Ok(()) => {},
                        Err(e) => return Err(e),
                    },
                    ContentItem::Text(_) => {},
                }
                i = i + 1;
            }
            Ok(())
        },
        _ => check_error_element(name, value),
    }
}

/// Checks the elements inside the root, as [`validate_root`] says.
pub fn validate_root_value(name: &ElementName, value: &Value) -> (r: Result<(), Error>)
    ensures
        match validate_root(name@, value@) {
            None => r is Ok,
            Some(e) => (r matches Err(x) && x@ == e),
        },
{
    if name.is_dav("owner") {
        return Ok(());
    }
    match value {
        Value::List(_) => validate_value(name, value),
        Value::Elements(m) => {
            let ghost es = m@.entries;
            proof {
                lemma_entries_view(m.entries@);
                lemma_map_view(*m);
            }
            let mut i: usize = 0;
            while i < m.entries.len()
                invariant
                    i <= m.entries.len(),
                    es == m@.entries,
                    es == entries_view(m.entries@),
                    es.len() == m.entries@.len(),
                    forall|j: int| 0 <= j < es.len() ==> #[trigger] es[j] == (m.entries@[j].0@, m.entries@[j].1@),
                    validate_root(name@, value@) == validate_entries(es, i as int),
                decreases m.entries.len() - i,
            {
                match validate_value(&m.entries[i].0, &m.entries[i].1) {
                    Ok(()) => {},
                    Err(e) => return Err(e),
                }
                i = i + 1;
            }
            Ok(())
        },
        Value::Mixed(items) => {
            let ghost iv = items_view(items@);
            proof {
                lemma_items_view(items@);
            }
            let mut i: usize = 0;
            while i < items.len()
                invariant
                    i <= items.len(),
                    iv == items_view(items@),
                    iv.len() == items@.len(),
                    forall|j: int| 0 <= j < iv.len() ==> #[trigger] iv[j] == item_view(items@[j]),
                    validate_root(name@, value@) == validate_items(iv, i as int),
                decreases items.len() - i,
            {
                match &items[i] {
                    ContentItem::Element { name, value } => match validate_value(name, value) {
                        Ok(()) => {},
                        Err(e) => return Err(e),
                    },
                    ContentItem::Text(_) => {},
                }
                i = i + 1;
            }
            Ok(())
        },
        _ => Ok(()),
    }
}

fn declarations_of(ns: &Vec<(String, String)>) -> (r: Vec<(String, String)>)
    ensures
        pairs_view(r@) == declarations(ns_view(ns@)),
{
    proof {
        lemma_pairs_view(ns@);
    }
    let ghost target = declarations(ns_view(ns@));
    let mut r: Vec<(String, String)> = Vec::new();
    let mut i: usize = 0;
    while i < ns.len()
        invariant
            i <= ns.len(),
            target == declarations(ns_view(ns@)),
            pairs_view(ns@).len() == ns@.len(),
            forall|k: int| 0 <= k < ns@.len() ==> #[trigger] pairs_view(ns@)[k] == (ns@[k].0@, ns@[k].1@),
            pairs_view(r@) == target.subrange(0, i as int),
        decreases ns.len() - i,
    {
        let key = crate::text::concat("xmlns:", ns[i].1.as_str());
        let ghost before = r@;
        r.push((key, ns[i].0.clone()));
        proof {
            reveal_strlit("xmlns:");
            lemma_pairs_view(r@);
            lemma_pairs_view(before);
            assert(pairs_view(r@) =~= target.subrange(0, i + 1));
        }
        i = i + 1;
    }
    r
}

/// Writes the root element; a list is no single root.
pub fn write_root(ns: &Vec<(String, String)>, name: &ElementName, value: &Value, element: &'static str, out: &mut Vec<WriteOp>) -> (r: Result<(), Error>)
    ensures
        match root_ops(ns_view(ns@), name@, value@, element@) {
            Ok(ops) => r is Ok && ops_view(final(out)@) == ops_view(old(out)@) + ops,
            Err(e) => (r matches Err(x) && x@ == e),
        },
{
    let ghost start = ops_view(out@);
    let ghost nsv = ns_view(ns@);
    let q = qualified_name(ns, name);
    let owner = name.is_dav("owner");
    match value {
        Value::Empty => {
            push_op(out, WriteOp::Empty { name: q, attributes: declarations_of(ns) });
            assert(ops_view(out@) =~= start + seq![OpV::Empty(qualified(nsv, name@), declarations(nsv))]);
        },
        Value::Text(t) => {
            push_op(out, WriteOp::Start { name: q.clone(), attributes: declarations_of(ns) });
            push_op(out, WriteOp::Text(t.clone()));
            push_op(out, WriteOp::End { name: q });
            assert(ops_view(out@) =~= start + seq![OpV::Start(qualified(nsv, name@), declarations(nsv)), OpV::Text(t@), OpV::End(qualified(nsv, name@))]);
        },
        Value::Elements(m) => {
            push_op(out, WriteOp::Start { name: q.clone(), attributes: declarations_of(ns) });
            if owner {
                write_children(ns, m, Layout::Flat, out);
                push_unindented(out, WriteOp::End { name: q });
            } else {
                write_children(ns, m, Layout::Indented, out);
                push_op(out, WriteOp::End { name: q });
            }
            assert(ops_view(out@) =~= start + root_ops(nsv, name@, value@, element@)->Ok_0);
        },
        Value::Mixed(items) => {
            push_op(out, WriteOp::Start { name: q.clone(), attributes: declarations_of(ns) });
            write_mixed(ns, items, out);
            if owner {
                push_unindented(out, WriteOp::End { name: q });
            } else {
                push_op(out, WriteOp::End { name: q });
            }
            assert(ops_view(out@) =~= start + root_ops(nsv, name@, value@, element@)->Ok_0);
        },
        Value::List(_) => {
            return Err(crate::error::invalid_value_type(element, "a single root element"));
        },
    }
    Ok(())
}

/// The events that write a document whose root element is `name` with value
/// `value`; `element` names the root in errors.
pub fn write_events(name: &ElementName, value: &Value, element: &'static str) -> (r: Result<Vec<WriteOp>, Error>)
    ensures
        match document_ops(name@, value@, element@) {
            Ok(ops) => (r matches Ok(v) && ops_view(v@) == ops),
            Err(e) => (r matches Err(x) && x@ == e),
        },
{
    match validate_root_value(name, value) {
        Ok(()) => {},
        Err(e) => return Err(e),
    }
    let mut ns: Vec<(String, String)> = Vec::new();
    assert(ns_view(ns@) =~= Seq::<(Seq<char>, Seq<char>)>::empty());
    collect_namespaces(&mut ns, name, value);
    let mut out: Vec<WriteOp> = Vec::new();
    assert(ops_view(out@) =~= Seq::<OpV>::empty());
    push_op(&mut out, WriteOp::Declaration);
    match write_root(&ns, name, value, element, &mut out) {
        Ok(()) => Ok(out),
        Err(e) => Err(e),
    }
}

/// Writes a document whose root element is `name` with value `value`:
/// the bytes `quick-xml` writes, indented by two spaces, of the events of
/// [`write_events`].
pub fn write_xml(name: &ElementName, value: &Value, element: &'static str) -> (r: Result<Vec<u8>, Error>)
    ensures
        match document_ops(name@, value@, element@) {
            Ok(ops) => r matches Ok(b) && b@ == written_bytes(ops),
            Err(e) => r matches Err(x) && x@ == e,
        },
{
    let ops = match write_events(name, value, element) {
        Ok(ops) => ops,
        Err(e) => return Err(e),
    };
    let ghost all = ops_view(ops@);
    let mut writer = crate::quick::open_writer();
    let mut i: usize = 0;
    assert(all.subrange(0, 0) =~= Seq::<OpV>::empty());
    while i < ops.len()
        invariant
            i <= ops.len(),
            all == ops_view(ops@),
            writer@ == all.subrange(0, i as int),
        decreases ops.len() - i,
    {
        crate::quick::write_op(&mut writer, &ops[i]);
        assert(all.subrange(0, i + 1) =~= all.subrange(0, i as int).push(ops@[i as int]@));
        i = i + 1;
    }
    assert(all.subrange(0, all.len() as int) =~= all);
    Ok(crate::quick::writer_output(writer))
}

/// The namespace URIs are in strictly increasing order.
pub open spec fn sorted_uris(ns: Namespaces) -> bool {
    forall|i: int, j: int| 0 <= i < j < ns.len() ==> text_lt(#[trigger] ns[i].0, #[trigger] ns[j].0)
}

proof fn lemma_text_lt_irreflexive(a: Seq<char>)
    ensures
        !text_lt(a, a),
    decreases a.len(),
{
    if a.len() > 0 {
        lemma_text_lt_irreflexive(a.drop_first());
    }
}

proof fn lemma_text_lt_transitive(a: Seq<char>, b: Seq<char>, c: Seq<char>)
    requires
        text_lt(a, b),
        text_lt(b, c),
    ensures
        text_lt(a, c),
    decreases a.len(),
{
    if a.len() > 0 && b.len() > 0 && c.len() > 0 && a[0] == b[0] && b[0] == c[0] {
        lemma_text_lt_transitive(a.drop_first(), b.drop_first(), c.drop_first());
    }
}

proof fn lemma_text_lt_total(a: Seq<char>, b: Seq<char>)
    requires
        a != b,
    ensures
        text_lt(a, b) || text_lt(b, a),
    decreases a.len(),
{
    if a.len() > 0 && b.len() > 0 && a[0] == b[0] {
        if a.drop_first() == b.drop_first() {
            assert(a =~= seq![a[0]] + a.drop_first());
            assert(b =~= seq![b[0]] + b.drop_first());
        }
        lemma_text_lt_total(a.drop_first(), b.drop_first());
    } else if a.len() > 0 && b.len() > 0 {
        assert((a[0] as int) != (b[0] as int));
    } else if a.len() == 0 && b.len() == 0 {
        assert(a =~= b);
    }
}

/// Declaring a namespace keeps the URIs in order.
proof fn lemma_add_namespace_sorted(ns: Namespaces, n: NameV)
    requires
        sorted_uris(ns),
    ensures
        sorted_uris(add_namespace(ns, n)),
{
    match n.namespace {
        None => {},
        Some(uri) => {
            if uri_index(ns, uri) < 0 {
                lemma_uri_index(ns, uri);
                lemma_insert_position(ns, uri);
                let k = insert_position(ns, uri);
                let r = add_namespace(ns, n);
                let e = r[k];
                assert(r.len() == ns.len() + 1);
                assert(e.0 == uri);
                assert forall|j: int| 0 <= j < k implies #[trigger] r[j] == ns[j] by {}
                assert forall|j: int| k < j < r.len() implies #[trigger] r[j] == ns[j - 1] by {}
                assert forall|j: int| k <= j < ns.len() implies text_lt(uri, #[trigger] ns[j].0) by {
                    assert(ns[k].0 != uri);
                    lemma_text_lt_total(ns[k].0, uri);
                    if j > k {
                        lemma_text_lt_transitive(uri, ns[k].0, ns[j].0);
                    }
                }
                assert forall|i: int, j: int| 0 <= i < j < r.len() implies text_lt(#[trigger] r[i].0, #[trigger] r[j].0) by {
                    if j < k {
                    } else if j == k {
                    } else if i < k {
                        assert(text_lt(ns[i].0, uri));
                        assert(text_lt(uri, ns[j - 1].0));
                        lemma_text_lt_transitive(ns[i].0, uri, ns[j - 1].0);
                    } else if i == k {
                    } else {
                    }
                }
            }
        },
    }
}

/// Collecting the namespaces of an element keeps the URIs in order.
pub proof fn lemma_collect_sorted(ns: Namespaces, n: NameV, v: ValueV)
    requires
        sorted_uris(ns),
    ensures
        sorted_uris(collect(ns, n, v)),
    decreases v, 0int,
{
    lemma_add_namespace_sorted(ns, n);
    let ns1 = add_namespace(ns, n);
    match v {
        ValueV::List(l) => lemma_collect_list_sorted(ns1, n, l, 0),
        ValueV::Elements(m) => lemma_collect_entries_sorted(ns1, m.entries, 0),
        ValueV::Mixed(items) => lemma_collect_items_sorted(ns1, items, 0),
        _ => {},
    }
}

proof fn lemma_collect_list_sorted(ns: Namespaces, n: NameV, l: Seq<ValueV>, i: int)
    requires
        sorted_uris(ns),
    ensures
        sorted_uris(collect_list(ns, n, l, i)),
    decreases l, l.len() - i,
{
    if 0 <= i < l.len() {
        assert(decreases_to!(l => l[i]));
        lemma_collect_sorted(ns, n, l[i]);
        lemma_collect_list_sorted(collect(ns, n, l[i]), n, l, i + 1);
    }
}

proof fn lemma_collect_entries_sorted(ns: Namespaces, es: Seq<(NameV, ValueV)>, i: int)
    requires
        sorted_uris(ns),
    ensures
        sorted_uris(collect_entries(ns, es, i)),
    decreases es, es.len() - i,
{
    if 0 <= i < es.len() {
        assert(decreases_to!(es => es[i]));
        assert(decreases_to!(es[i] => es[i].1));
        lemma_collect_sorted(ns, es[i].0, es[i].1);
        lemma_collect_entries_sorted(collect(ns, es[i].0, es[i].1), es, i + 1);
    }
}

proof fn lemma_collect_items_sorted(ns: Namespaces, items: Seq<ItemV>, i: int)
    requires
        sorted_uris(ns),
    ensures
        sorted_uris(collect_items(ns, items, i)),
    decreases items, items.len() - i,
{
    if 0 <= i < items.len() {
        match items[i] {
            ItemV::Element(n, v) => {
                assert(decreases_to!(items => items[i]));
                lemma_collect_sorted(ns, n, v);
                lemma_collect_items_sorted(collect(ns, n, v), items, i + 1);
            },
            ItemV::Text(_) => lemma_collect_items_sorted(ns, items, i + 1),
        }
    }
}

/// A document declares its namespaces in increasing order of their URIs,
/// each once.
pub proof fn lemma_declarations_sorted(n: NameV, v: ValueV)
    ensures
        sorted_uris(collect(Seq::empty(), n, v)),
{
    lemma_collect_sorted(Seq::empty(), n, v);
}

/// Whether no two declarations share a prefix.
pub open spec fn distinct_prefixes(ns: Namespaces) -> bool {
    forall|i: int, j: int| 0 <= i < j < ns.len() ==> #[trigger] ns[i].1 != #[trigger] ns[j].1
}

/// Different numbers give different generated prefixes.
proof fn lemma_generated_prefix_injective(i: nat, j: nat)
    ensures
        generated_prefix(i) == generated_prefix(j) ==> i == j,
{
    if generated_prefix(i) == generated_prefix(j) {
        reveal_strlit("ns");
        assert(generated_prefix(i).subrange(2, generated_prefix(i).len() as int) =~= decimal_text(i));
        assert(generated_prefix(j).subrange(2, generated_prefix(j).len() as int) =~= decimal_text(j));
        crate::text::lemma_decimal_text_digits(i);
        crate::text::lemma_decimal_text_digits(j);
    }
}

/// The set of the first `n` generated prefixes has `n` members.
proof fn lemma_generated_set(n: nat)
    ensures
        Set::new(|p: Seq<char>| exists|i: nat| i < n && p == generated_prefix(i)).finite(),
        Set::new(|p: Seq<char>| exists|i: nat| i < n && p == generated_prefix(i)).len() == n,
    decreases n,
{
    let g = Set::new(|p: Seq<char>| exists|i: nat| i < n && p == generated_prefix(i));
    if n == 0 {
        assert(g =~= Set::<Seq<char>>::empty());
    } else {
        let m = (n - 1) as nat;
        let h = Set::new(|p: Seq<char>| exists|i: nat| i < m && p == generated_prefix(i));
        lemma_generated_set(m);
        assert(g =~= h.insert(generated_prefix(m)));
        assert(!h.contains(generated_prefix(m))) by {
            if h.contains(generated_prefix(m)) {
                let i = choose|i: nat| i < m && generated_prefix(m) == generated_prefix(i);
                lemma_generated_prefix_injective(i, m);
            }
        }
    }
}

/// The index `free_index` settles on from `from` on: every index between
/// is taken.
proof fn lemma_free_index_taken(ns: Namespaces, from: nat)
    ensures
        free_index(ns, from) >= from,
        forall|i: nat| from <= i < free_index(ns, from) ==> prefix_taken(ns, #[trigger] generated_prefix(i)),
        free_index(ns, from) < ns.len() ==> !prefix_taken(ns, generated_prefix(free_index(ns, from))),
    decreases ns.len() - from,
{
    if from < ns.len() && prefix_taken(ns, generated_prefix(from)) {
        lemma_free_index_taken(ns, from + 1);
    }
}

/// The prefix a new namespace gets is `ns<i>` for the least `i` whose
/// prefix no declaration has, when no two declarations share a prefix.
pub proof fn lemma_free_index_least(ns: Namespaces)
    requires
        distinct_prefixes(ns),
    ensures
        !prefix_taken(ns, generated_prefix(free_index(ns, 0))),
        forall|i: nat| i < free_index(ns, 0) ==> prefix_taken(ns, #[trigger] generated_prefix(i)),
{
    lemma_free_index_taken(ns, 0);
    let f = free_index(ns, 0);
    if f >= ns.len() && prefix_taken(ns, generated_prefix(f)) {
        let n = (f + 1) as nat;
        let g = Set::new(|p: Seq<char>| exists|i: nat| i < n && p == generated_prefix(i));
        let prefixes = ns.map_values(|e: (Seq<char>, Seq<char>)| e.1);
        lemma_generated_set(n);
        assert(g.subset_of(prefixes.to_set())) by {
            assert forall|p: Seq<char>| g.contains(p) implies prefixes.to_set().contains(p) by {
                let i = choose|i: nat| i < n && p == generated_prefix(i);
                assert(prefix_taken(ns, generated_prefix(i)));
                let k = choose|k: int| 0 <= k < ns.len() && #[trigger] ns[k].1 == generated_prefix(i);
                assert(prefixes[k] == p);
            }
        }
        prefixes.lemma_cardinality_of_set();
        vstd::set_lib::lemma_len_subset(g, prefixes.to_set());
    }
}

/// Declaring a namespace keeps the prefixes distinct.
pub proof fn lemma_add_namespace_distinct(ns: Namespaces, n: NameV)
    requires
        distinct_prefixes(ns),
    ensures
        distinct_prefixes(add_namespace(ns, n)),
{
    match n.namespace {
        None => {},
        Some(uri) => if uri_index(ns, uri) < 0 {
            let prefix = match n.prefix {
                Some(p) => if !prefix_taken(ns, p) {
                    p
                } else {
                    generated_prefix(free_index(ns, 0))
                },
                None => generated_prefix(free_index(ns, 0)),
            };
            lemma_free_index_least(ns);
            assert(!prefix_taken(ns, prefix));
            lemma_insert_position(ns, uri);
            let k = insert_position(ns, uri);
            let r = ns.take(k).push((uri, prefix)) + ns.skip(k);
            assert forall|i: int, j: int| 0 <= i < j < r.len() implies #[trigger] r[i].1 != #[trigger] r[j].1 by {
                if i < k && j < k {
                    assert(r[i] == ns[i] && r[j] == ns[j]);
                } else if i < k && j == k {
                    assert(r[i] == ns[i]);
                } else if i < k {
                    assert(r[i] == ns[i] && r[j] == ns[j - 1]);
                } else if i == k {
                    assert(r[j] == ns[j - 1]);
                } else {
                    assert(r[i] == ns[i - 1] && r[j] == ns[j - 1]);
                }
            }
        },
    }
}

/// Collecting the namespaces of an element keeps the prefixes distinct.
pub proof fn lemma_collect_distinct(ns: Namespaces, n: NameV, v: ValueV)
    requires
        distinct_prefixes(ns),
    ensures
        distinct_prefixes(collect(ns, n, v)),
    decreases v, 0int,
{
    lemma_add_namespace_distinct(ns, n);
    let ns1 = add_namespace(ns, n);
    match v {
        ValueV::List(l) => lemma_collect_list_distinct(ns1, n, l, 0),
        ValueV::Elements(m) => lemma_collect_entries_distinct(ns1, m.entries, 0),
        ValueV::Mixed(items) => lemma_collect_items_distinct(ns1, items, 0),
        _ => {},
    }
}

proof fn lemma_collect_list_distinct(ns: Namespaces, n: NameV, l: Seq<ValueV>, i: int)
    requires
        distinct_prefixes(ns),
    ensures
        distinct_prefixes(collect_list(ns, n, l, i)),
    decreases l, l.len() - i,
{
    if 0 <= i < l.len() {
        assert(decreases_to!(l => l[i]));
        lemma_collect_distinct(ns, n, l[i]);
        lemma_collect_list_distinct(collect(ns, n, l[i]), n, l, i + 1);
    }
}

proof fn lemma_collect_entries_distinct(ns: Namespaces, es: Seq<(NameV, ValueV)>, i: int)
    requires
        distinct_prefixes(ns),
    ensures
        distinct_prefixes(collect_entries(ns, es, i)),
    decreases es, es.len() - i,
{
    if 0 <= i < es.len() {
        assert(decreases_to!(es => es[i]));
        assert(decreases_to!(es[i] => es[i].1));
        lemma_collect_distinct(ns, es[i].0, es[i].1);
        lemma_collect_entries_distinct(collect(ns, es[i].0, es[i].1), es, i + 1);
    }
}

proof fn lemma_collect_items_distinct(ns: Namespaces, items: Seq<ItemV>, i: int)
    requires
        distinct_prefixes(ns),
    ensures
        distinct_prefixes(collect_items(ns, items, i)),
    decreases items, items.len() - i,
{
    if 0 <= i < items.len() {
        match items[i] {
            ItemV::Element(n, v) => {
                assert(decreases_to!(items => items[i]));
                lemma_collect_distinct(ns, n, v);
                lemma_collect_items_distinct(collect(ns, n, v), items, i + 1);
            },
            ItemV::Text(_) => lemma_collect_items_distinct(ns, items, i + 1),
        }
    }
}

/// The namespaces a document declares have pairwise distinct prefixes,
/// whatever prefixes its names ask for.
pub proof fn lemma_declarations_distinct(n: NameV, v: ValueV)
    ensures
        distinct_prefixes(collect(Seq::empty(), n, v)),
{
    lemma_collect_distinct(Seq::empty(), n, v);
}

} // verus!
