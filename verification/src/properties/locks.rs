//! The locks a resource supports and the locks it holds.
use vstd::prelude::*;

use crate::element::{children_of, list_value_under, list_value_under_spec, read_children, seq_view, Element};
use crate::elements::activelock::{ActiveLock, ActiveLockV};
use crate::elements::lock::{LockEntry, LockScope, LockType};
use crate::elements::href::{Href, HrefV};
use crate::elements::timeout::{Timeout, MAX_TIMEOUT_SECONDS};
use crate::error::{Error, ErrorV};
use crate::value::{Value, ValueV};

verus! {

/// The `supportedlock` property: the kinds of lock a resource supports.
#[derive(Debug, PartialEq, Eq)]
pub struct SupportedLock(pub Vec<LockEntry>);

impl View for SupportedLock {
    type V = Seq<LockEntry>;

    open spec fn view(&self) -> Seq<LockEntry> {
        seq_view(self.0@)
    }
}

impl SupportedLock {
    /// Whether locks of scope `scope` and type `kind` are supported.
    pub fn supports(&self, scope: LockScope, kind: LockType) -> (r: bool)
        ensures
            r == exists|i: int| 0 <= i < self@.len() && #[trigger] self@[i] == (LockEntry { lockscope: scope, locktype: kind }),
    {
        proof {
            crate::element::lemma_seq_view(self.0@);
        }
        let mut i: usize = 0;
        while i < self.0.len()
            invariant
                i <= self.0.len(),
                self@.len() == self.0@.len(),
                forall|j: int| 0 <= j < self@.len() ==> #[trigger] self@[j] == self.0@[j],
                forall|j: int| 0 <= j < i ==> #[trigger] self@[j] != (LockEntry { lockscope: scope, locktype: kind }),
            decreases self.0.len() - i,
        {
            let e = self.0[i];
            let same_scope = match (e.lockscope, scope) {
                (LockScope::Exclusive, LockScope::Exclusive) => true,
                (LockScope::Shared, LockScope::Shared) => true,
                _ => false,
            };
            let same_type = match (e.locktype, kind) {
                (LockType::Write, LockType::Write) => true,
            };
            if same_scope && same_type {
                assert(self@[i as int] == (LockEntry { lockscope: scope, locktype: kind }));
                return true;
            }
            i = i + 1;
        }
        false
    }
}

impl Element for SupportedLock {
    open spec fn spec_local_name() -> Seq<char> {
        "supportedlock"@
    }

    fn local_name() -> (r: &'static str) {
        "supportedlock"
    }

    open spec fn spec_from_value(v: ValueV) -> Result<Seq<LockEntry>, ErrorV> {
        children_of::<LockEntry>("supportedlock"@, v)
    }

    fn from_value(v: &Value) -> (r: Result<SupportedLock, Error>) {
        match read_children::<LockEntry>(v, "supportedlock") {
            Ok(entries) => Ok(SupportedLock(entries)),
            Err(e) => Err(e),
        }
    }

    open spec fn spec_into_value(x: Seq<LockEntry>) -> ValueV {
        list_value_under_spec::<LockEntry>(x)
    }

    fn into_value(self) -> (r: Value) {
        list_value_under::<LockEntry>(self.0)
    }
}

/// The `lockdiscovery` property: the locks held on a resource.
#[derive(Debug, PartialEq, Eq)]
pub struct LockDiscovery(pub Vec<ActiveLock>);

impl View for LockDiscovery {
    type V = Seq<ActiveLockV>;

    open spec fn view(&self) -> Seq<ActiveLockV> {
        seq_view(self.0@)
    }
}

impl Element for LockDiscovery {
    open spec fn spec_local_name() -> Seq<char> {
        "lockdiscovery"@
    }

    fn local_name() -> (r: &'static str) {
        "lockdiscovery"
    }

    open spec fn spec_from_value(v: ValueV) -> Result<Seq<ActiveLockV>, ErrorV> {
        children_of::<ActiveLock>("lockdiscovery"@, v)
    }

    fn from_value(v: &Value) -> (r: Result<LockDiscovery, Error>) {
        match read_children::<ActiveLock>(v, "lockdiscovery") {
            Ok(locks) => Ok(LockDiscovery(locks)),
            Err(e) => Err(e),
        }
    }

    open spec fn spec_into_value(x: Seq<ActiveLockV>) -> ValueV {
        list_value_under_spec::<ActiveLock>(x)
    }

    fn into_value(self) -> (r: Value) {
        list_value_under::<ActiveLock>(self.0)
    }
}

impl crate::element::Duplicate for LockEntry {
    fn duplicate(&self) -> (r: LockEntry) {
        *self
    }
}

impl SupportedLock {
    /// A copy.
    pub fn copy(&self) -> (r: SupportedLock)
        ensures
            r@ == self@,
    {
        SupportedLock(crate::element::duplicate_all(&self.0))
    }
}

impl LockDiscovery {
    /// A copy.
    pub fn copy(&self) -> (r: LockDiscovery)
        ensures
            r@ == self@,
    {
        LockDiscovery(crate::element::duplicate_all(&self.0))
    }
}

impl Default for SupportedLock {
    fn default() -> (r: SupportedLock)
        ensures
            r@ == Seq::<LockEntry>::empty(),
    {
        let entries: Vec<LockEntry> = Vec::new();
        let r = SupportedLock(entries);
        assert(r@ =~= Seq::<LockEntry>::empty());
        r
    }
}

impl Default for LockDiscovery {
    fn default() -> (r: LockDiscovery)
        ensures
            r@ == Seq::<ActiveLockV>::empty(),
    {
        let locks: Vec<ActiveLock> = Vec::new();
        let r = LockDiscovery(locks);
        assert(r@ =~= Seq::<ActiveLockV>::empty());
        r
    }
}

/// The supported locks read back from the value they are written as.
pub proof fn lemma_supportedlock_round_trip(xs: Seq<LockEntry>)
    ensures
        SupportedLock::spec_from_value(SupportedLock::spec_into_value(xs)) == Ok::<Seq<LockEntry>, ErrorV>(xs),
{
    assert forall|i: int| 0 <= i < xs.len() implies #[trigger] LockEntry::spec_from_value(LockEntry::spec_into_value(xs[i])) == Ok::<LockEntry, ErrorV>(xs[i]) by {
        crate::elements::lock::lemma_lockentry_round_trip(xs[i]);
    }
    crate::element::lemma_list_round_trip::<LockEntry>("supportedlock"@, xs);
}

/// The active locks read back from the value they are written as, when
/// each reads back from its own.
pub proof fn lemma_lockdiscovery_round_trip(xs: Seq<ActiveLockV>)
    requires
        forall|i: int| 0 <= i < xs.len() ==> {
            &&& Href::spec_from_value(Href::spec_into_value(#[trigger] xs[i].lockroot)) == Ok::<HrefV, ErrorV>(xs[i].lockroot)
            &&& xs[i].locktoken matches Some(h) ==> Href::spec_from_value(Href::spec_into_value(h)) == Ok::<HrefV, ErrorV>(h)
            &&& xs[i].timeout matches Some(Timeout::Seconds(n)) ==> n <= MAX_TIMEOUT_SECONDS
        },
    ensures
        LockDiscovery::spec_from_value(LockDiscovery::spec_into_value(xs)) == Ok::<Seq<ActiveLockV>, ErrorV>(xs),
{
    assert forall|i: int| 0 <= i < xs.len() implies #[trigger] ActiveLock::spec_from_value(ActiveLock::spec_into_value(xs[i])) == Ok::<ActiveLockV, ErrorV>(xs[i]) by {
        assert(Href::spec_from_value(Href::spec_into_value(xs[i].lockroot)) == Ok::<HrefV, ErrorV>(xs[i].lockroot));
        crate::elements::activelock::lemma_active_lock_round_trip(xs[i]);
    }
    crate::element::lemma_list_round_trip::<ActiveLock>("lockdiscovery"@, xs);
}

} // verus!
