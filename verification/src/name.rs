//! Qualified XML element names.
use vstd::prelude::*;
use vstd::std_specs::cmp::PartialEqSpecImpl;

use crate::text::{string_of, text_is};

verus! {

/// The `DAV:` namespace URI.
pub const DAV_NAMESPACE: &'static str = "DAV:";

/// The prefix this crate uses when writing `DAV:` elements.
pub const DAV_PREFIX: &'static str = "D";

pub open spec fn dav_ns() -> Seq<char> {
    seq!['D', 'A', 'V', ':']
}

pub open spec fn dav_prefix() -> Seq<char> {
    seq!['D']
}

pub proof fn lemma_dav_literals()
    ensures
        "DAV:"@ == dav_ns(),
        "D"@ == dav_prefix(),
{
    reveal_strlit("DAV:");
    reveal_strlit("D");
    assert("DAV:"@ =~= dav_ns());
    assert("D"@ =~= dav_prefix());
}

pub open spec fn opt_view(o: Option<String>) -> Option<Seq<char>> {
    match o {
        Some(s) => Some(s@),
        None => None,
    }
}

/// The abstract content of an element name.
pub struct NameV {
    pub namespace: Option<Seq<char>>,
    pub prefix: Option<Seq<char>>,
    pub local_name: Seq<char>,
}

/// What identifies an element: its namespace and local name; the prefix does
/// not take part.
pub type NameKey = (Option<Seq<char>>, Seq<char>);

impl NameV {
    pub open spec fn key(self) -> NameKey {
        (self.namespace, self.local_name)
    }
}

/// The name of an XML element: an optional namespace URI, the prefix it was
/// written with, and the local name.
#[derive(Debug)]
pub struct ElementName {
    /// The namespace URI, if the name is namespaced.
    pub namespace: Option<String>,
    /// The prefix used for the namespace, if any.
    pub prefix: Option<String>,
    /// The local part of the name.
    pub local_name: String,
}

impl View for ElementName {
    type V = NameV;

    open spec fn view(&self) -> NameV {
        NameV {
            namespace: opt_view(self.namespace),
            prefix: opt_view(self.prefix),
            local_name: self.local_name@,
        }
    }
}

pub open spec fn dav_name(local: Seq<char>) -> NameV {
    NameV { namespace: Some(dav_ns()), prefix: Some(dav_prefix()), local_name: local }
}

pub open spec fn dav_key(local: Seq<char>) -> NameKey {
    (Some(dav_ns()), local)
}

pub fn copy_opt(o: &Option<String>) -> (r: Option<String>)
    ensures
        opt_view(r) == opt_view(*o),
{
    match o {
        Some(s) => Some(s.clone()),
        None => None,
    }
}

pub fn opt_eq(a: &Option<String>, b: &Option<String>) -> (r: bool)
    ensures
        r == (opt_view(*a) == opt_view(*b)),
{
    match (a, b) {
        (Some(x), Some(y)) => x.eq(y),
        (None, None) => true,
        _ => false,
    }
}

impl ElementName {
    /// A name in the `DAV:` namespace with the `D` prefix.
    pub fn dav(local: &str) -> (r: Self)
        ensures
            r@ == dav_name(local@),
    {
        proof {
            lemma_dav_literals();
        }
        ElementName {
            namespace: Some(string_of("DAV:")),
            prefix: Some(string_of("D")),
            local_name: string_of(local),
        }
    }

    /// A copy of this name.
    pub fn copy(&self) -> (r: Self)
        ensures
            r@ == self@,
    {
        ElementName {
            namespace: copy_opt(&self.namespace),
            prefix: copy_opt(&self.prefix),
            local_name: self.local_name.clone(),
        }
    }

    /// Whether both names denote the same element (namespace and local name).
    pub fn same_element(&self, other: &Self) -> (r: bool)
        ensures
            r == (self@.key() == other@.key()),
    {
        opt_eq(&self.namespace, &other.namespace) && self.local_name.eq(&other.local_name)
    }

    /// Whether this is the `DAV:` element with local name `local`.
    pub fn is_dav(&self, local: &str) -> (r: bool)
        ensures
            r == (self@.key() == dav_key(local@)),
    {
        proof {
            lemma_dav_literals();
        }
        match &self.namespace {
            Some(ns) => text_is(ns.as_str(), "DAV:") && text_is(self.local_name.as_str(), local),
            None => false,
        }
    }

    /// Whether this name is in the `DAV:` namespace.
    pub fn in_dav(&self) -> (r: bool)
        ensures
            r == (self@.namespace == Some(dav_ns())),
    {
        proof {
            lemma_dav_literals();
        }
        match &self.namespace {
            Some(ns) => text_is(ns.as_str(), "DAV:"),
            None => false,
        }
    }
}

impl Clone for ElementName {
    fn clone(&self) -> (r: Self)
        ensures
            r@ == self@,
    {
        self.copy()
    }
}

impl PartialEq for ElementName {
    fn eq(&self, other: &Self) -> (r: bool) {
        self.same_element(other)
    }
}

impl PartialEqSpecImpl for ElementName {
    open spec fn obeys_eq_spec() -> bool {
        true
    }

    open spec fn eq_spec(&self, other: &Self) -> bool {
        self@.key() == other@.key()
    }
}

impl Eq for ElementName {

}

} // verus!
