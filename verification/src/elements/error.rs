//! The `error` element and its pre- and postcondition codes.
use vstd::prelude::*;

use crate::element::{lemma_seq_view, lemma_seq_view_push, lemma_seq_view_subrange, list_value_under, list_value_under_spec, parse_all, seq_view, siblings, Element};
use crate::elements::href::{Href, HrefV};
use crate::error::{Error, ErrorV};
use crate::name::{dav_key, dav_name, dav_ns, ElementName, NameV};
use crate::text::string_of;
use crate::value::{lemma_entries_view, lemma_values_view, MapV, Value, ValueMap, ValueV};

verus! {

/// A precondition or postcondition code (RFC 4918, section 16).
#[derive(Debug, PartialEq)]
pub enum Condition {
    /// `DAV:lock-token-matches-request-uri` (UNLOCK).
    LockTokenMatchesRequestUri,
    /// `DAV:lock-token-submitted`, with the locked resources the server
    /// names; an empty list is accepted, as in the RFC's own examples.
    LockTokenSubmitted(Vec<Href>),
    /// `DAV:no-conflicting-lock`, with the conflicting resources if known.
    NoConflictingLock(Vec<Href>),
    /// `DAV:no-external-entities`.
    NoExternalEntities,
    /// `DAV:preserved-live-properties`.
    PreservedLiveProperties,
    /// `DAV:propfind-finite-depth`.
    PropfindFiniteDepth,
    /// `DAV:cannot-modify-protected-property`.
    CannotModifyProtectedProperty,
    /// Any other condition, kept as it was written.
    Other {
        /// The condition element's name.
        name: ElementName,
        /// Its content.
        value: Value,
    },
}

pub enum ConditionV {
    LockTokenMatchesRequestUri,
    LockTokenSubmitted(Seq<HrefV>),
    NoConflictingLock(Seq<HrefV>),
    NoExternalEntities,
    PreservedLiveProperties,
    PropfindFiniteDepth,
    CannotModifyProtectedProperty,
    Other(NameV, ValueV),
}

impl View for Condition {
    type V = ConditionV;

    open spec fn view(&self) -> ConditionV {
        match self {
            Condition::LockTokenMatchesRequestUri => ConditionV::LockTokenMatchesRequestUri,
            Condition::LockTokenSubmitted(h) => ConditionV::LockTokenSubmitted(seq_view(h@)),
            Condition::NoConflictingLock(h) => ConditionV::NoConflictingLock(seq_view(h@)),
            Condition::NoExternalEntities => ConditionV::NoExternalEntities,
            Condition::PreservedLiveProperties => ConditionV::PreservedLiveProperties,
            Condition::PropfindFiniteDepth => ConditionV::PropfindFiniteDepth,
            Condition::CannotModifyProtectedProperty => ConditionV::CannotModifyProtectedProperty,
            Condition::Other { name, value } => ConditionV::Other(name@, value@),
        }
    }
}

/// The `error` element (RFC 4918, section 14.5): the condition codes, as
/// grouped by name in the document.
#[derive(Debug, PartialEq)]
pub struct DavError {
    /// Pre- and postcondition codes.
    pub conditions: Vec<Condition>,
}

pub struct DavErrorV {
    pub conditions: Seq<ConditionV>,
}

impl View for DavError {
    type V = DavErrorV;

    open spec fn view(&self) -> DavErrorV {
        DavErrorV { conditions: seq_view(self.conditions@) }
    }
}

/// The local name of a condition's element.
pub open spec fn condition_name(c: ConditionV) -> Seq<char> {
    match c {
        ConditionV::LockTokenMatchesRequestUri => "lock-token-matches-request-uri"@,
        ConditionV::LockTokenSubmitted(_) => "lock-token-submitted"@,
        ConditionV::NoConflictingLock(_) => "no-conflicting-lock"@,
        ConditionV::NoExternalEntities => "no-external-entities"@,
        ConditionV::PreservedLiveProperties => "preserved-live-properties"@,
        ConditionV::PropfindFiniteDepth => "propfind-finite-depth"@,
        ConditionV::CannotModifyProtectedProperty => "cannot-modify-protected-property"@,
        ConditionV::Other(n, _) => n.local_name,
    }
}

/// The resources a condition names: none for an empty element, else the
/// `href` children.
pub open spec fn condition_hrefs(v: ValueV) -> Result<Seq<HrefV>, ErrorV> {
    match v {
        ValueV::Empty => Ok(Seq::empty()),
        ValueV::Elements(m) => parse_all::<Href>(siblings(m.get(dav_key("href"@)))),
        _ => Err(ErrorV::InvalidValueType { element: "value"@, expected: "child elements"@ }),
    }
}

/// The condition an element of the `error` element stands for.
pub open spec fn condition_from(n: NameV, v: ValueV) -> Result<ConditionV, ErrorV> {
    if n.namespace != Some(dav_ns()) {
        Ok(ConditionV::Other(n, v))
    } else if n.local_name == "lock-token-matches-request-uri"@ {
        Ok(ConditionV::LockTokenMatchesRequestUri)
    } else if n.local_name == "lock-token-submitted"@ {
        match condition_hrefs(v) {
            Ok(h) => Ok(ConditionV::LockTokenSubmitted(h)),
            Err(e) => Err(e),
        }
    } else if n.local_name == "no-conflicting-lock"@ {
        match condition_hrefs(v) {
            Ok(h) => Ok(ConditionV::NoConflictingLock(h)),
            Err(e) => Err(e),
        }
    } else if n.local_name == "no-external-entities"@ {
        Ok(ConditionV::NoExternalEntities)
    } else if n.local_name == "preserved-live-properties"@ {
        Ok(ConditionV::PreservedLiveProperties)
    } else if n.local_name == "propfind-finite-depth"@ {
        Ok(ConditionV::PropfindFiniteDepth)
    } else if n.local_name == "cannot-modify-protected-property"@ {
        Ok(ConditionV::CannotModifyProtectedProperty)
    } else {
        Ok(ConditionV::Other(n, v))
    }
}

/// The conditions the children stand for, in document order.
pub open spec fn conditions_in(children: Seq<(NameV, ValueV)>) -> Result<Seq<ConditionV>, ErrorV>
    decreases children.len(),
{
    if children.len() == 0 {
        Ok(Seq::empty())
    } else {
        match conditions_in(children.drop_last()) {
            Err(e) => Err(e),
            Ok(cs) => match condition_from(children.last().0, children.last().1) {
                Err(e) => Err(e),
                Ok(c) => Ok(cs.push(c)),
            },
        }
    }
}

/// The element and value a condition is written as.
pub open spec fn condition_entry(c: ConditionV) -> (NameV, ValueV) {
    match c {
        ConditionV::LockTokenSubmitted(h) => (dav_name("lock-token-submitted"@), list_value_under_spec::<Href>(h)),
        ConditionV::NoConflictingLock(h) => (dav_name("no-conflicting-lock"@), list_value_under_spec::<Href>(h)),
        ConditionV::Other(n, v) => (n, v),
        _ => (dav_name(condition_name(c)), ValueV::Empty),
    }
}

/// The map the conditions are written into, in order.
pub open spec fn conditions_map(cs: Seq<ConditionV>) -> MapV
    decreases cs.len(),
{
    if cs.len() == 0 {
        MapV::empty()
    } else {
        let e = condition_entry(cs.last());
        conditions_map(cs.drop_last()).insert_raw(e.0, e.1)
    }
}

pub fn copy_hrefs(h: &Vec<Href>) -> (r: Vec<Href>)
    ensures
        seq_view(r@) == seq_view(h@),
{
    let mut r: Vec<Href> = Vec::new();
    let mut i: usize = 0;
    while i < h.len()
        invariant
            i <= h.len(),
            seq_view(r@) == seq_view(h@.subrange(0, i as int)),
        decreases h.len() - i,
    {
        let ghost before = r@;
        let c = h[i].copy();
        r.push(c);
        proof {
            lemma_seq_view_push(before, c);
            lemma_seq_view_subrange(h@, 0, i as int);
            lemma_seq_view_subrange(h@, 0, i + 1);
            lemma_seq_view(h@);
            assert(seq_view(h@).subrange(0, i + 1) =~= seq_view(h@).subrange(0, i as int).push(h@[i as int]@));
        }
        i = i + 1;
    }
    assert(h@.subrange(0, h@.len() as int) =~= h@);
    r
}

impl Condition {
    /// The local name of the condition element.
    pub fn name(&self) -> (r: String)
        ensures
            r@ == condition_name(self@),
    {
        match self {
            Condition::LockTokenMatchesRequestUri => string_of("lock-token-matches-request-uri"),
            Condition::LockTokenSubmitted(_) => string_of("lock-token-submitted"),
            Condition::NoConflictingLock(_) => string_of("no-conflicting-lock"),
            Condition::NoExternalEntities => string_of("no-external-entities"),
            Condition::PreservedLiveProperties => string_of("preserved-live-properties"),
            Condition::PropfindFiniteDepth => string_of("propfind-finite-depth"),
            Condition::CannotModifyProtectedProperty => string_of("cannot-modify-protected-property"),
            Condition::Other { name, .. } => name.local_name.clone(),
        }
    }

    fn hrefs(value: &Value) -> (r: Result<Vec<Href>, Error>)
        ensures
            match condition_hrefs(value@) {
                Ok(h) => (r matches Ok(x) && seq_view(x@) == h),
                Err(e) => (r matches Err(x) && x@ == e),
            },
    {
        match value {
            Value::Empty => {
                let r: Vec<Href> = Vec::new();
                assert(seq_view(r@) =~= Seq::<HrefV>::empty());
                Ok(r)
            },
            other => match other.as_map() {
                Ok(m) => m.get_all::<Href>(),
                Err(e) => Err(e),
            },
        }
    }

    /// The condition an element of the `error` element stands for.
    pub fn from_entry(name: &ElementName, value: &Value) -> (r: Result<Condition, Error>)
        ensures
            match condition_from(name@, value@) {
                Ok(c) => (r matches Ok(x) && x@ == c),
                Err(e) => (r matches Err(x) && x@ == e),
            },
    {
        if !name.in_dav() {
            return Ok(Condition::Other { name: name.copy(), value: value.copy() });
        }
        let local = name.local_name.as_str();
        if crate::text::text_is(local, "lock-token-matches-request-uri") {
            Ok(Condition::LockTokenMatchesRequestUri)
        } else if crate::text::text_is(local, "lock-token-submitted") {
            match Condition::hrefs(value) {
                Ok(h) => Ok(Condition::LockTokenSubmitted(h)),
                Err(e) => Err(e),
            }
        } else if crate::text::text_is(local, "no-conflicting-lock") {
            match Condition::hrefs(value) {
                Ok(h) => Ok(Condition::NoConflictingLock(h)),
                Err(e) => Err(e),
            }
        } else if crate::text::text_is(local, "no-external-entities") {
            Ok(Condition::NoExternalEntities)
        } else if crate::text::text_is(local, "preserved-live-properties") {
            Ok(Condition::PreservedLiveProperties)
        } else if crate::text::text_is(local, "propfind-finite-depth") {
            Ok(Condition::PropfindFiniteDepth)
        } else if crate::text::text_is(local, "cannot-modify-protected-property") {
            Ok(Condition::CannotModifyProtectedProperty)
        } else {
            Ok(Condition::Other { name: name.copy(), value: value.copy() })
        }
    }

    /// The element and value the condition is written as.
    pub fn into_entry(self) -> (r: (ElementName, Value))
        ensures
            (r.0@, r.1@) == condition_entry(self@),
    {
        match self {
            Condition::LockTokenSubmitted(h) => (ElementName::dav("lock-token-submitted"), list_value_under::<Href>(h)),
            Condition::NoConflictingLock(h) => (ElementName::dav("no-conflicting-lock"), list_value_under::<Href>(h)),
            Condition::Other { name, value } => (name, value),
            Condition::LockTokenMatchesRequestUri => (ElementName::dav("lock-token-matches-request-uri"), Value::Empty),
            Condition::NoExternalEntities => (ElementName::dav("no-external-entities"), Value::Empty),
            Condition::PreservedLiveProperties => (ElementName::dav("preserved-live-properties"), Value::Empty),
            Condition::PropfindFiniteDepth => (ElementName::dav("propfind-finite-depth"), Value::Empty),
            Condition::CannotModifyProtectedProperty => (ElementName::dav("cannot-modify-protected-property"), Value::Empty),
        }
    }

    pub fn copy(&self) -> (r: Condition)
        ensures
            r@ == self@,
    {
        match self {
            Condition::LockTokenMatchesRequestUri => Condition::LockTokenMatchesRequestUri,
            Condition::LockTokenSubmitted(h) => Condition::LockTokenSubmitted(copy_hrefs(h)),
            Condition::NoConflictingLock(h) => Condition::NoConflictingLock(copy_hrefs(h)),
            Condition::NoExternalEntities => Condition::NoExternalEntities,
            Condition::PreservedLiveProperties => Condition::PreservedLiveProperties,
            Condition::PropfindFiniteDepth => Condition::PropfindFiniteDepth,
            Condition::CannotModifyProtectedProperty => Condition::CannotModifyProtectedProperty,
            Condition::Other { name, value } => Condition::Other { name: name.copy(), value: value.copy() },
        }
    }
}

impl DavError {
    /// An error with one condition.
    pub fn single(condition: Condition) -> (r: DavError)
        ensures
            r@.conditions == seq![condition@],
    {
        let mut conditions = Vec::new();
        conditions.push(condition);
        assert(seq_view(conditions@) =~= seq![condition@]);
        DavError { conditions }
    }

    /// Whether a condition with local name `name` is present.
    pub fn contains(&self, name: &str) -> (r: bool)
        ensures
            r == exists|i: int| 0 <= i < self@.conditions.len() && condition_name(#[trigger] self@.conditions[i]) == name@,
    {
        let mut i: usize = 0;
        while i < self.conditions.len()
            invariant
                i <= self.conditions.len(),
                forall|j: int| 0 <= j < i ==> condition_name(#[trigger] self@.conditions[j]) != name@,
            decreases self.conditions.len() - i,
        {
            let n = self.conditions[i].name();
            if crate::text::text_is(n.as_str(), name) {
                assert(condition_name(self@.conditions[i as int]) == name@);
                return true;
            }
            i = i + 1;
        }
        false
    }
}

/// Reading stops at the first child that is not a condition.
pub proof fn lemma_conditions_prefix_err(ch: Seq<(NameV, ValueV)>, k: int)
    requires
        0 <= k <= ch.len(),
        conditions_in(ch.subrange(0, k)) is Err,
    ensures
        conditions_in(ch) == conditions_in(ch.subrange(0, k)),
    decreases ch.len() - k,
{
    if k == ch.len() {
        assert(ch.subrange(0, k) =~= ch);
    } else {
        assert(ch.subrange(0, k + 1).drop_last() =~= ch.subrange(0, k));
        lemma_conditions_prefix_err(ch, k + 1);
    }
}

/// The conditions of the children of an `error` element.
pub open spec fn dav_error_from(v: ValueV) -> Result<DavErrorV, ErrorV> {
    match v {
        ValueV::Empty => Ok(DavErrorV { conditions: Seq::empty() }),
        ValueV::Elements(m) => match conditions_in(m.ordered()) {
            Ok(cs) => Ok(DavErrorV { conditions: cs }),
            Err(e) => Err(e),
        },
        _ => Err(ErrorV::InvalidValueType { element: "error"@, expected: "child elements"@ }),
    }
}

impl Element for DavError {
    open spec fn spec_local_name() -> Seq<char> {
        "error"@
    }

    fn local_name() -> (r: &'static str) {
        "error"
    }

    open spec fn spec_from_value(v: ValueV) -> Result<DavErrorV, ErrorV> {
        dav_error_from(v)
    }

    fn from_value(v: &Value) -> (r: Result<DavError, Error>) {
        let map = match v {
            Value::Empty => {
                let conditions: Vec<Condition> = Vec::new();
                assert(seq_view(conditions@) =~= Seq::<ConditionV>::empty());
                return Ok(DavError { conditions });
            },
            other => match other.as_map_of_name("error") {
                Ok(m) => m,
                Err(e) => return Err(e),
            },
        };
        let children = map.iter_ordered();
        let ghost ch = map@.ordered();
        let mut conditions: Vec<Condition> = Vec::new();
        assert(ch.subrange(0, 0) =~= Seq::<(NameV, ValueV)>::empty());
        assert(seq_view(conditions@) =~= Seq::<ConditionV>::empty());
        let mut i: usize = 0;
        while i < children.len()
            invariant
                i <= children.len(),
                v@ == ValueV::Elements(map@),
                ch == map@.ordered(),
                ch.len() == children@.len(),
                forall|p: int| 0 <= p < ch.len() ==> #[trigger] ch[p] == (children@[p].0@, children@[p].1@),
                conditions_in(ch.subrange(0, i as int)) == Ok::<Seq<ConditionV>, ErrorV>(seq_view(conditions@)),
            decreases children.len() - i,
        {
            assert(ch[i as int] == map@.ordered_at(i as int));
            assert(ch.subrange(0, i + 1).drop_last() =~= ch.subrange(0, i as int));
            assert(ch.subrange(0, i + 1).last() == ch[i as int]);
            let (name, value) = children[i];
            match Condition::from_entry(name, value) {
                Ok(c) => {
                    let ghost before = seq_view(conditions@);
                    conditions.push(c);
                    assert(seq_view(conditions@) =~= before.push(c@));
                },
                Err(e) => {
                    proof {
                        lemma_conditions_prefix_err(ch, i as int + 1);
                    }
                    return Err(e);
                },
            }
            i = i + 1;
        }
        assert(ch.subrange(0, ch.len() as int) =~= ch);
        Ok(DavError { conditions })
    }

    open spec fn spec_into_value(x: DavErrorV) -> ValueV {
        if x.conditions.len() == 0 {
            ValueV::Empty
        } else {
            ValueV::Elements(conditions_map(x.conditions))
        }
    }

    fn into_value(self) -> (r: Value) {
        if self.conditions.len() == 0 {
            return Value::Empty;
        }
        let ghost cs = self@.conditions;
        let mut map = ValueMap::new();
        let mut rest = self.conditions;
        let ghost n = cs.len();
        assert(n <= usize::MAX);
        assert(seq_view(rest@) =~= cs.subrange(0, n as int));
        assert(cs.subrange(0, 0) =~= Seq::<ConditionV>::empty());
        let mut k: usize = 0;
        while rest.len() > 0
            invariant
                n == cs.len(),
                n <= usize::MAX,
                k + rest@.len() == n,
                seq_view(rest@) == cs.subrange(k as int, n as int),
                map@ == conditions_map(cs.subrange(0, k as int)),
            decreases rest.len(),
        {
            let ghost old_rest = rest@;
            proof {
                lemma_seq_view(old_rest);
                lemma_seq_view_subrange(old_rest, 1, old_rest.len() as int);
            }
            assert(seq_view(old_rest)[0] == cs[k as int]);
            let c = rest.remove(0);
            assert(c == old_rest[0]);
            assert(c@ == cs[k as int]);
            let (name, value) = c.into_entry();
            map.insert_raw(name, value);
            assert(cs.subrange(0, k + 1).drop_last() =~= cs.subrange(0, k as int));
            assert(seq_view(rest@) =~= cs.subrange(k + 1, n as int));
            k = k + 1;
        }
        assert(cs.subrange(0, n as int) =~= cs);
        Value::Elements(map)
    }
}

/// A condition that RFC 4918 requires to name resources but names none.
pub open spec fn lacks_required_href(c: ConditionV) -> bool {
    c matches ConditionV::LockTokenSubmitted(h) && h.len() == 0
}

/// What keeps an error from being written inside another element: a
/// `lock-token-submitted` condition without an `href`.
pub open spec fn dav_error_problem(d: DavErrorV) -> Option<ErrorV> {
    if exists|i: int| 0 <= i < d.conditions.len() && lacks_required_href(#[trigger] d.conditions[i]) {
        Some(ErrorV::MissingElement { parent: "lock-token-submitted"@, element: "href"@ })
    } else {
        None
    }
}

impl DavError {
    /// Checks the error before it is written inside another element: RFC
    /// 4918 requires `lock-token-submitted` to name at least one resource.
    pub fn validate(&self) -> (r: Result<(), Error>)
        ensures
            match dav_error_problem(self@) {
                None => r is Ok,
                Some(e) => (r matches Err(x) && x@ == e),
            },
    {
        proof {
            lemma_seq_view(self.conditions@);
        }
        let mut i: usize = 0;
        while i < self.conditions.len()
            invariant
                i <= self.conditions.len(),
                self@.conditions.len() == self.conditions@.len(),
                forall|j: int| 0 <= j < self.conditions@.len() ==> #[trigger] self@.conditions[j] == self.conditions@[j]@,
                forall|j: int| 0 <= j < i ==> !lacks_required_href(#[trigger] self@.conditions[j]),
            decreases self.conditions.len() - i,
        {
            match &self.conditions[i] {
                Condition::LockTokenSubmitted(h) => {
                    if h.len() == 0 {
                        proof {
                            lemma_seq_view(h@);
                        }
                        assert(lacks_required_href(self@.conditions[i as int]));
                        return Err(crate::error::missing_element("lock-token-submitted", "href"));
                    }
                    proof {
                        lemma_seq_view(h@);
                    }
                },
                _ => {},
            }
            i = i + 1;
        }
        Ok(())
    }
}

impl crate::element::Duplicate for Condition {
    fn duplicate(&self) -> (r: Condition) {
        self.copy()
    }
}

impl DavError {
    /// A copy.
    pub fn copy(&self) -> (r: DavError)
        ensures
            r@ == self@,
    {
        DavError { conditions: crate::element::duplicate_all(&self.conditions) }
    }
}

/// Whether a local name is that of one of the conditions this library
/// names.
pub open spec fn known_condition(local: Seq<char>) -> bool {
    ||| local == "lock-token-matches-request-uri"@
    ||| local == "lock-token-submitted"@
    ||| local == "no-conflicting-lock"@
    ||| local == "no-external-entities"@
    ||| local == "preserved-live-properties"@
    ||| local == "propfind-finite-depth"@
    ||| local == "cannot-modify-protected-property"@
}

/// Whether a condition reads back from the element it is written as: its
/// `href`s read back, and any other condition is not named like one of
/// those this library names, and is not a repeated element.
pub open spec fn condition_reads_back(c: ConditionV) -> bool {
    match c {
        ConditionV::LockTokenSubmitted(h) => forall|i: int| 0 <= i < h.len() ==> #[trigger] Href::spec_from_value(Href::spec_into_value(h[i])) == Ok::<HrefV, ErrorV>(h[i]),
        ConditionV::NoConflictingLock(h) => forall|i: int| 0 <= i < h.len() ==> #[trigger] Href::spec_from_value(Href::spec_into_value(h[i])) == Ok::<HrefV, ErrorV>(h[i]),
        ConditionV::Other(n, v) => !(v is List) && !(n.namespace == Some(dav_ns()) && known_condition(n.local_name)),
        _ => true,
    }
}

/// Whether conditions written under the same name are written with the
/// same prefix.
pub open spec fn consistent_names(cs: Seq<ConditionV>) -> bool {
    forall|i: int, j: int|
        0 <= i < cs.len() && 0 <= j < cs.len() && #[trigger] condition_entry(cs[i]).0.key() == #[trigger] condition_entry(
            cs[j],
        ).0.key() ==> condition_entry(cs[i]).0 == condition_entry(cs[j]).0
}

proof fn lemma_condition_names()
    ensures
        "lock-token-matches-request-uri"@ != "lock-token-submitted"@,
        "lock-token-matches-request-uri"@ != "no-conflicting-lock"@,
        "lock-token-submitted"@ != "no-conflicting-lock"@,
        "lock-token-matches-request-uri"@ != "no-external-entities"@,
        "lock-token-submitted"@ != "no-external-entities"@,
        "no-conflicting-lock"@ != "no-external-entities"@,
        "preserved-live-properties"@ != "lock-token-matches-request-uri"@,
        "preserved-live-properties"@ != "lock-token-submitted"@,
        "preserved-live-properties"@ != "no-conflicting-lock"@,
        "preserved-live-properties"@ != "no-external-entities"@,
        "propfind-finite-depth"@ != "lock-token-matches-request-uri"@,
        "propfind-finite-depth"@ != "lock-token-submitted"@,
        "propfind-finite-depth"@ != "no-conflicting-lock"@,
        "propfind-finite-depth"@ != "no-external-entities"@,
        "propfind-finite-depth"@ != "preserved-live-properties"@,
        "cannot-modify-protected-property"@ != "lock-token-matches-request-uri"@,
        "cannot-modify-protected-property"@ != "lock-token-submitted"@,
        "cannot-modify-protected-property"@ != "no-conflicting-lock"@,
        "cannot-modify-protected-property"@ != "no-external-entities"@,
        "cannot-modify-protected-property"@ != "preserved-live-properties"@,
        "cannot-modify-protected-property"@ != "propfind-finite-depth"@,
{
    reveal_strlit("lock-token-matches-request-uri");
    reveal_strlit("lock-token-submitted");
    reveal_strlit("no-conflicting-lock");
    reveal_strlit("no-external-entities");
    reveal_strlit("preserved-live-properties");
    reveal_strlit("propfind-finite-depth");
    reveal_strlit("cannot-modify-protected-property");
    assert("lock-token-matches-request-uri"@.len() == 30);
    assert("lock-token-submitted"@.len() == 20);
    assert("no-conflicting-lock"@.len() == 19);
    assert("no-external-entities"@.len() == 20);
    assert("preserved-live-properties"@.len() == 25);
    assert("propfind-finite-depth"@.len() == 21);
    assert("cannot-modify-protected-property"@.len() == 32);
    assert("lock-token-submitted"@[0] != "no-external-entities"@[0]);
}

/// A condition reads back from the element it is written as.
proof fn lemma_condition_round_trip(c: ConditionV)
    requires
        condition_reads_back(c),
    ensures
        condition_from(condition_entry(c).0, condition_entry(c).1) == Ok::<ConditionV, ErrorV>(c),
        !(condition_entry(c).1 is List),
{
    lemma_condition_names();
    match c {
        ConditionV::LockTokenSubmitted(h) => {
            crate::element::lemma_list_round_trip::<Href>("lock-token-submitted"@, h);
        },
        ConditionV::NoConflictingLock(h) => {
            crate::element::lemma_list_round_trip::<Href>("no-conflicting-lock"@, h);
        },
        _ => {},
    }
}

/// The map of the conditions is well formed, every name in it is that of
/// one of them, and its children are their entries in order.
proof fn lemma_conditions_map(cs: Seq<ConditionV>)
    requires
        consistent_names(cs),
        cs.len() < usize::MAX,
        forall|i: int| 0 <= i < cs.len() ==> !(condition_entry(#[trigger] cs[i]).1 is List),
    ensures
        conditions_map(cs).wf(),
        conditions_map(cs).entries.len() <= cs.len(),
        forall|t: int| 0 <= t < conditions_map(cs).entries.len() ==> exists|j: int|
            0 <= j < cs.len() && #[trigger] conditions_map(cs).entries[t].0 == condition_entry(cs[j]).0,
        conditions_map(cs).ordered() == cs.map_values(|c: ConditionV| condition_entry(c)),
    decreases cs.len(),
{
    if cs.len() == 0 {
        assert(MapV::empty().ordered() =~= Seq::<(NameV, ValueV)>::empty());
        assert(cs.map_values(|c: ConditionV| condition_entry(c)) =~= Seq::<(NameV, ValueV)>::empty());
    } else {
        let front = cs.drop_last();
        assert(consistent_names(front)) by {
            assert forall|i: int, j: int|
                0 <= i < front.len() && 0 <= j < front.len() && #[trigger] condition_entry(front[i]).0.key()
                    == #[trigger] condition_entry(front[j]).0.key() implies condition_entry(front[i]).0 == condition_entry(front[j]).0 by {
                assert(front[i] == cs[i] && front[j] == cs[j]);
            }
        }
        assert forall|i: int| 0 <= i < front.len() implies !(condition_entry(#[trigger] front[i]).1 is List) by {
            assert(front[i] == cs[i]);
        }
        lemma_conditions_map(front);
        let m = conditions_map(front);
        let last = cs[cs.len() - 1];
        let e = condition_entry(last);
        assert(!(e.1 is List));
        crate::value::lemma_find_key(m.entries, e.0.key());
        let i = m.find(e.0.key());
        crate::value::lemma_insert_raw_wf(m, e.0, e.1);
        crate::value::lemma_insert_raw_ordered(m, e.0, e.1);
        if i >= 0 {
            let j = choose|j: int| 0 <= j < front.len() && #[trigger] m.entries[i].0 == condition_entry(front[j]).0;
            assert(front[j] == cs[j]);
            assert(condition_entry(cs[j]).0.key() == condition_entry(cs[cs.len() - 1]).0.key());
            assert(m.entries[i].0 == e.0);
        }
        let r = conditions_map(cs);
        assert(r == m.insert_raw(e.0, e.1));
        assert forall|t: int| 0 <= t < r.entries.len() implies exists|j: int|
            0 <= j < cs.len() && #[trigger] r.entries[t].0 == condition_entry(cs[j]).0 by {
            if t < m.entries.len() {
                assert(r.entries[t].0 == m.entries[t].0);
                let j = choose|j: int| 0 <= j < front.len() && #[trigger] m.entries[t].0 == condition_entry(front[j]).0;
                assert(front[j] == cs[j]);
            } else {
                assert(r.entries[t].0 == condition_entry(cs[cs.len() - 1]).0);
            }
        }
        assert(cs.map_values(|c: ConditionV| condition_entry(c)) =~= front.map_values(|c: ConditionV| condition_entry(c)).push(e));
    }
}

/// Reading the entries of conditions that each read back gives them back.
proof fn lemma_conditions_in_entries(cs: Seq<ConditionV>)
    requires
        forall|i: int| 0 <= i < cs.len() ==> #[trigger] condition_reads_back(cs[i]),
    ensures
        conditions_in(cs.map_values(|c: ConditionV| condition_entry(c))) == Ok::<Seq<ConditionV>, ErrorV>(cs),
    decreases cs.len(),
{
    if cs.len() > 0 {
        let front = cs.drop_last();
        assert forall|i: int| 0 <= i < front.len() implies #[trigger] condition_reads_back(front[i]) by {
            assert(front[i] == cs[i]);
        }
        lemma_conditions_in_entries(front);
        let es = cs.map_values(|c: ConditionV| condition_entry(c));
        assert(es.drop_last() =~= front.map_values(|c: ConditionV| condition_entry(c)));
        assert(condition_reads_back(cs[cs.len() - 1]));
        lemma_condition_round_trip(cs.last());
        assert(es.last() == condition_entry(cs.last()));
        assert(front.push(cs.last()) =~= cs);
    } else {
        assert(cs.map_values(|c: ConditionV| condition_entry(c)).len() == 0);
        assert(cs =~= Seq::<ConditionV>::empty());
    }
}

/// An `error` element reads back from the value it is written as, in
/// order, when each condition reads back and conditions of one name are
/// written with one prefix.
pub proof fn lemma_dav_error_round_trip(x: DavErrorV)
    requires
        x.conditions.len() < usize::MAX,
        consistent_names(x.conditions),
        forall|i: int| 0 <= i < x.conditions.len() ==> #[trigger] condition_reads_back(x.conditions[i]),
    ensures
        DavError::spec_from_value(DavError::spec_into_value(x)) == Ok::<DavErrorV, ErrorV>(x),
{
    if x.conditions.len() > 0 {
        assert forall|i: int| 0 <= i < x.conditions.len() implies !(condition_entry(#[trigger] x.conditions[i]).1 is List) by {
            assert(condition_reads_back(x.conditions[i]));
            lemma_condition_round_trip(x.conditions[i]);
        }
        lemma_conditions_map(x.conditions);
        lemma_conditions_in_entries(x.conditions);
    } else {
        assert(x.conditions =~= Seq::<ConditionV>::empty());
    }
}

} // verus!
