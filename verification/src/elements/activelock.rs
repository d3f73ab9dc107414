//! Active locks and lock requests.
use vstd::prelude::*;

use crate::element::{map_of, opt_seq_view, optional_child, required_child, Element};
use crate::elements::depth::Depth;
use crate::elements::href::{Href, HrefV};
use crate::elements::lock::{LockScope, LockType};
use crate::elements::timeout::{Timeout, MAX_TIMEOUT_SECONDS};
use crate::elements::wrapped::{LockRoot, LockToken, Owner};
use crate::error::{Error, ErrorV};
use crate::name::{dav_key, dav_name, NameKey};
use crate::value::{MapV, Value, ValueMap, ValueV};

verus! {

/// The `activelock` element: a lock held on a resource.
#[derive(Debug, PartialEq, Eq)]
pub struct ActiveLock {
    pub lockscope: LockScope,
    pub locktype: LockType,
    pub depth: Depth,
    pub owner: Option<Owner>,
    pub timeout: Option<Timeout>,
    pub locktoken: Option<LockToken>,
    pub lockroot: LockRoot,
}

pub struct ActiveLockV {
    pub lockscope: LockScope,
    pub locktype: LockType,
    pub depth: Depth,
    pub owner: Option<ValueV>,
    pub timeout: Option<Timeout>,
    pub locktoken: Option<HrefV>,
    pub lockroot: HrefV,
}

impl View for ActiveLock {
    type V = ActiveLockV;

    open spec fn view(&self) -> ActiveLockV {
        ActiveLockV {
            lockscope: self.lockscope,
            locktype: self.locktype,
            depth: self.depth,
            owner: opt_seq_view(self.owner),
            timeout: self.timeout,
            locktoken: opt_seq_view(self.locktoken),
            lockroot: self.lockroot@,
        }
    }
}

pub open spec fn active_lock_from(v: ValueV) -> Result<ActiveLockV, ErrorV> {
    match map_of("activelock"@, v) {
        Err(e) => Err(e),
        Ok(m) => match required_child::<LockScope>(m, "activelock"@) {
            Err(e) => Err(e),
            Ok(lockscope) => match required_child::<LockType>(m, "activelock"@) {
                Err(e) => Err(e),
                Ok(locktype) => match required_child::<Depth>(m, "activelock"@) {
                    Err(e) => Err(e),
                    Ok(depth) => match optional_child::<Owner>(m) {
                        Err(e) => Err(e),
                        Ok(owner) => match optional_child::<Timeout>(m) {
                            Err(e) => Err(e),
                            Ok(timeout) => match optional_child::<LockToken>(m) {
                                Err(e) => Err(e),
                                Ok(locktoken) => match required_child::<LockRoot>(m, "activelock"@) {
                                    Err(e) => Err(e),
                                    Ok(lockroot) => Ok(
                                        ActiveLockV { lockscope, locktype, depth, owner, timeout, locktoken, lockroot },
                                    ),
                                },
                            },
                        },
                    },
                },
            },
        },
    }
}

pub open spec fn insert_opt<T>(m: MapV, local: Seq<char>, x: Option<T>, f: spec_fn(T) -> ValueV) -> MapV {
    match x {
        Some(y) => m.insert(dav_name(local), f(y)),
        None => m,
    }
}

pub open spec fn active_lock_value(x: ActiveLockV) -> ValueV {
    let m0 = MapV::empty().insert(dav_name("locktype"@), LockType::spec_into_value(x.locktype)).insert(
        dav_name("lockscope"@),
        LockScope::spec_into_value(x.lockscope),
    ).insert(dav_name("depth"@), Depth::spec_into_value(x.depth));
    let m1 = insert_opt(m0, "owner"@, x.owner, |o: ValueV| Owner::spec_into_value(o));
    let m2 = insert_opt(m1, "timeout"@, x.timeout, |t: Timeout| Timeout::spec_into_value(t));
    let m3 = insert_opt(m2, "locktoken"@, x.locktoken, |h: HrefV| LockToken::spec_into_value(h));
    ValueV::Elements(m3.insert(dav_name("lockroot"@), LockRoot::spec_into_value(x.lockroot)))
}

impl Element for ActiveLock {
    open spec fn spec_local_name() -> Seq<char> {
        "activelock"@
    }

    fn local_name() -> (r: &'static str) {
        "activelock"
    }

    open spec fn spec_from_value(v: ValueV) -> Result<ActiveLockV, ErrorV> {
        active_lock_from(v)
    }

    fn from_value(v: &Value) -> (r: Result<ActiveLock, Error>) {
        let m = match v.as_map_of_name("activelock") {
            Ok(m) => m,
            Err(e) => return Err(e),
        };
        let lockscope = match m.get_required_in::<LockScope>("activelock") {
            Ok(x) => x,
            Err(e) => return Err(e),
        };
        let locktype = match m.get_required_in::<LockType>("activelock") {
            Ok(x) => x,
            Err(e) => return Err(e),
        };
        let depth = match m.get_required_in::<Depth>("activelock") {
            Ok(x) => x,
            Err(e) => return Err(e),
        };
        let owner = match m.get_optional_child::<Owner>() {
            Ok(x) => x,
            Err(e) => return Err(e),
        };
        let timeout = match m.get_optional_child::<Timeout>() {
            Ok(x) => x,
            Err(e) => return Err(e),
        };
        let locktoken = match m.get_optional_child::<LockToken>() {
            Ok(x) => x,
            Err(e) => return Err(e),
        };
        let lockroot = match m.get_required_in::<LockRoot>("activelock") {
            Ok(x) => x,
            Err(e) => return Err(e),
        };
        Ok(ActiveLock { lockscope, locktype, depth, owner, timeout, locktoken, lockroot })
    }

    open spec fn spec_into_value(x: ActiveLockV) -> ValueV {
        active_lock_value(x)
    }

    fn into_value(self) -> (r: Value) {
        let mut map = ValueMap::new();
        map.insert::<LockType>(self.locktype.into_value());
        map.insert::<LockScope>(self.lockscope.into_value());
        map.insert::<Depth>(self.depth.into_value());
        match self.owner {
            Some(o) => map.insert::<Owner>(o.into_value()),
            None => {},
        }
        match self.timeout {
            Some(t) => map.insert::<Timeout>(t.into_value()),
            None => {},
        }
        match self.locktoken {
            Some(t) => map.insert::<LockToken>(t.into_value()),
            None => {},
        }
        map.insert::<LockRoot>(self.lockroot.into_value());
        Value::Elements(map)
    }
}

/// The `lockinfo` element: what a LOCK request asks for.
#[derive(Debug, PartialEq)]
pub struct LockInfo {
    pub lockscope: LockScope,
    pub locktype: LockType,
    pub owner: Option<Owner>,
}

pub struct LockInfoV {
    pub lockscope: LockScope,
    pub locktype: LockType,
    pub owner: Option<ValueV>,
}

impl View for LockInfo {
    type V = LockInfoV;

    open spec fn view(&self) -> LockInfoV {
        LockInfoV { lockscope: self.lockscope, locktype: self.locktype, owner: opt_seq_view(self.owner) }
    }
}

impl LockInfo {
    /// An exclusive write lock, without an owner.
    pub fn exclusive_write() -> (r: LockInfo)
        ensures
            r@ == (LockInfoV { lockscope: LockScope::Exclusive, locktype: LockType::Write, owner: None }),
    {
        LockInfo { lockscope: LockScope::Exclusive, locktype: LockType::Write, owner: None }
    }

    /// A shared write lock, without an owner.
    pub fn shared_write() -> (r: LockInfo)
        ensures
            r@ == (LockInfoV { lockscope: LockScope::Shared, locktype: LockType::Write, owner: None }),
    {
        LockInfo { lockscope: LockScope::Shared, locktype: LockType::Write, owner: None }
    }

    /// The same request with `owner` as its owner.
    pub fn with_owner(self, owner: Owner) -> (r: LockInfo)
        ensures
            r@ == (LockInfoV { owner: Some(owner@), ..self@ }),
    {
        LockInfo { lockscope: self.lockscope, locktype: self.locktype, owner: Some(owner) }
    }
}

pub open spec fn lock_info_from(v: ValueV) -> Result<LockInfoV, ErrorV> {
    match map_of("lockinfo"@, v) {
        Err(e) => Err(e),
        Ok(m) => match required_child::<LockScope>(m, "lockinfo"@) {
            Err(e) => Err(e),
            Ok(lockscope) => match required_child::<LockType>(m, "lockinfo"@) {
                Err(e) => Err(e),
                Ok(locktype) => match optional_child::<Owner>(m) {
                    Err(e) => Err(e),
                    Ok(owner) => Ok(LockInfoV { lockscope, locktype, owner }),
                },
            },
        },
    }
}

pub open spec fn lock_info_value(x: LockInfoV) -> ValueV {
    let m0 = MapV::empty().insert(dav_name("lockscope"@), LockScope::spec_into_value(x.lockscope)).insert(
        dav_name("locktype"@),
        LockType::spec_into_value(x.locktype),
    );
    ValueV::Elements(insert_opt(m0, "owner"@, x.owner, |o: ValueV| o))
}

impl Element for LockInfo {
    open spec fn spec_local_name() -> Seq<char> {
        "lockinfo"@
    }

    fn local_name() -> (r: &'static str) {
        "lockinfo"
    }

    open spec fn spec_from_value(v: ValueV) -> Result<LockInfoV, ErrorV> {
        lock_info_from(v)
    }

    fn from_value(v: &Value) -> (r: Result<LockInfo, Error>) {
        let m = match v.as_map_of_name("lockinfo") {
            Ok(m) => m,
            Err(e) => return Err(e),
        };
        let lockscope = match m.get_required_in::<LockScope>("lockinfo") {
            Ok(x) => x,
            Err(e) => return Err(e),
        };
        let locktype = match m.get_required_in::<LockType>("lockinfo") {
            Ok(x) => x,
            Err(e) => return Err(e),
        };
        let owner = match m.get_optional_child::<Owner>() {
            Ok(x) => x,
            Err(e) => return Err(e),
        };
        Ok(LockInfo { lockscope, locktype, owner })
    }

    open spec fn spec_into_value(x: LockInfoV) -> ValueV {
        lock_info_value(x)
    }

    fn into_value(self) -> (r: Value) {
        let mut map = ValueMap::new();
        map.insert::<LockScope>(self.lockscope.into_value());
        map.insert::<LockType>(self.locktype.into_value());
        match self.owner {
            Some(o) => map.insert::<Owner>(o.into_value()),
            None => {},
        }
        Value::Elements(map)
    }
}

impl ActiveLock {
    /// A copy.
    pub fn copy(&self) -> (r: ActiveLock)
        ensures
            r@ == self@,
    {
        ActiveLock {
            lockscope: self.lockscope,
            locktype: self.locktype,
            depth: self.depth,
            owner: match &self.owner {
                Some(o) => Some(o.copy()),
                None => None,
            },
            timeout: self.timeout,
            locktoken: match &self.locktoken {
                Some(t) => Some(t.copy()),
                None => None,
            },
            lockroot: self.lockroot.copy(),
        }
    }
}

impl crate::element::Duplicate for ActiveLock {
    fn duplicate(&self) -> (r: ActiveLock) {
        self.copy()
    }
}

impl LockInfo {
    /// A copy.
    pub fn copy(&self) -> (r: LockInfo)
        ensures
            r@ == self@,
    {
        LockInfo {
            lockscope: self.lockscope,
            locktype: self.locktype,
            owner: match &self.owner {
                Some(o) => Some(o.copy()),
                None => None,
            },
        }
    }
}

/// Looking a name up after an optional insertion.
proof fn lemma_insert_opt_get<T>(m: MapV, local: Seq<char>, x: Option<T>, f: spec_fn(T) -> ValueV, k: NameKey)
    ensures
        insert_opt(m, local, x, f).get(k) == match x {
            Some(y) => if dav_key(local) == k {
                Some(f(y))
            } else {
                m.get(k)
            },
            None => m.get(k),
        },
{
    match x {
        Some(y) => crate::value::lemma_insert_get(m, dav_name(local), f(y), k),
        None => {},
    }
}

/// The names of the children of `activelock` differ from each other.
proof fn lemma_active_lock_names()
    ensures
        dav_key("lockscope"@) != dav_key("locktype"@),
        dav_key("lockscope"@) != dav_key("depth"@),
        dav_key("lockscope"@) != dav_key("owner"@),
        dav_key("lockscope"@) != dav_key("timeout"@),
        dav_key("lockscope"@) != dav_key("locktoken"@),
        dav_key("lockscope"@) != dav_key("lockroot"@),
        dav_key("locktype"@) != dav_key("depth"@),
        dav_key("locktype"@) != dav_key("owner"@),
        dav_key("locktype"@) != dav_key("timeout"@),
        dav_key("locktype"@) != dav_key("locktoken"@),
        dav_key("locktype"@) != dav_key("lockroot"@),
        dav_key("depth"@) != dav_key("owner"@),
        dav_key("depth"@) != dav_key("timeout"@),
        dav_key("depth"@) != dav_key("locktoken"@),
        dav_key("depth"@) != dav_key("lockroot"@),
        dav_key("owner"@) != dav_key("timeout"@),
        dav_key("owner"@) != dav_key("locktoken"@),
        dav_key("owner"@) != dav_key("lockroot"@),
        dav_key("timeout"@) != dav_key("locktoken"@),
        dav_key("timeout"@) != dav_key("lockroot"@),
        dav_key("locktoken"@) != dav_key("lockroot"@),
{
    reveal_strlit("lockscope");
    reveal_strlit("locktype");
    reveal_strlit("depth");
    reveal_strlit("owner");
    reveal_strlit("timeout");
    reveal_strlit("locktoken");
    reveal_strlit("lockroot");
    assert("lockscope"@.len() == 9 && "locktoken"@.len() == 9);
    assert("locktype"@.len() == 8 && "lockroot"@.len() == 8);
    assert("depth"@.len() == 5 && "owner"@.len() == 5);
    assert("timeout"@.len() == 7);
    assert("lockscope"@[4] != "locktoken"@[4]);
    assert("locktype"@[4] != "lockroot"@[4]);
    assert("depth"@[0] != "owner"@[0]);
}

/// An active lock reads back from the value it is written as, when its
/// `href`s read back from theirs and its timeout is within the limit.
pub proof fn lemma_active_lock_round_trip(x: ActiveLockV)
    requires
        Href::spec_from_value(Href::spec_into_value(x.lockroot)) == Ok::<HrefV, ErrorV>(x.lockroot),
        x.locktoken matches Some(h) ==> Href::spec_from_value(Href::spec_into_value(h)) == Ok::<HrefV, ErrorV>(h),
        x.timeout matches Some(Timeout::Seconds(n)) ==> n <= MAX_TIMEOUT_SECONDS,
    ensures
        ActiveLock::spec_from_value(ActiveLock::spec_into_value(x)) == Ok::<ActiveLockV, ErrorV>(x),
{
    lemma_active_lock_names();
    let a = MapV::empty().insert(dav_name("locktype"@), LockType::spec_into_value(x.locktype));
    let b = a.insert(dav_name("lockscope"@), LockScope::spec_into_value(x.lockscope));
    let m0 = b.insert(dav_name("depth"@), Depth::spec_into_value(x.depth));
    let fo = |o: ValueV| Owner::spec_into_value(o);
    let ft = |t: Timeout| Timeout::spec_into_value(t);
    let fl = |h: HrefV| LockToken::spec_into_value(h);
    let m1 = insert_opt(m0, "owner"@, x.owner, fo);
    let m2 = insert_opt(m1, "timeout"@, x.timeout, ft);
    let m3 = insert_opt(m2, "locktoken"@, x.locktoken, fl);
    let m = m3.insert(dav_name("lockroot"@), LockRoot::spec_into_value(x.lockroot));
    assert(active_lock_value(x) == ValueV::Elements(m));
    let keys = seq![
        dav_key("lockscope"@),
        dav_key("locktype"@),
        dav_key("depth"@),
        dav_key("owner"@),
        dav_key("timeout"@),
        dav_key("locktoken"@),
        dav_key("lockroot"@),
    ];
    assert forall|i: int| 0 <= i < 7 implies #[trigger] m.get(keys[i]) == if i == 0 {
        Some(LockScope::spec_into_value(x.lockscope))
    } else if i == 1 {
        Some(LockType::spec_into_value(x.locktype))
    } else if i == 2 {
        Some(Depth::spec_into_value(x.depth))
    } else if i == 3 {
        match x.owner {
            Some(o) => Some(fo(o)),
            None => None,
        }
    } else if i == 4 {
        match x.timeout {
            Some(t) => Some(ft(t)),
            None => None,
        }
    } else if i == 5 {
        match x.locktoken {
            Some(h) => Some(fl(h)),
            None => None,
        }
    } else {
        Some(LockRoot::spec_into_value(x.lockroot))
    } by {
        let k = keys[i];
        crate::value::lemma_single_get(dav_name("locktype"@), LockType::spec_into_value(x.locktype), k);
        crate::value::lemma_insert_get(a, dav_name("lockscope"@), LockScope::spec_into_value(x.lockscope), k);
        crate::value::lemma_insert_get(b, dav_name("depth"@), Depth::spec_into_value(x.depth), k);
        lemma_insert_opt_get(m0, "owner"@, x.owner, fo, k);
        lemma_insert_opt_get(m1, "timeout"@, x.timeout, ft, k);
        lemma_insert_opt_get(m2, "locktoken"@, x.locktoken, fl, k);
        crate::value::lemma_insert_get(m3, dav_name("lockroot"@), LockRoot::spec_into_value(x.lockroot), k);
    }
    assert(m.get(keys[0]) == Some(LockScope::spec_into_value(x.lockscope)));
    assert(m.get(keys[1]) == Some(LockType::spec_into_value(x.locktype)));
    assert(m.get(keys[2]) == Some(Depth::spec_into_value(x.depth)));
    assert(m.get(keys[3]) == opt_map_value(x.owner, fo));
    assert(m.get(keys[4]) == opt_map_value(x.timeout, ft));
    assert(m.get(keys[5]) == opt_map_value(x.locktoken, fl));
    assert(m.get(keys[6]) == Some(LockRoot::spec_into_value(x.lockroot)));
    crate::elements::lock::lemma_lockscope_round_trip(x.lockscope);
    crate::elements::lock::lemma_locktype_round_trip(x.locktype);
    crate::elements::depth::lemma_depth_round_trip(x.depth);
    crate::elements::wrapped::lemma_href_child_round_trip("lockroot"@, x.lockroot);
    match x.owner {
        Some(o) => crate::elements::wrapped::lemma_text_elements_round_trip(Seq::empty(), o),
        None => {},
    }
    match x.timeout {
        Some(t) => crate::elements::timeout::lemma_timeout_round_trip(t),
        None => {},
    }
    match x.locktoken {
        Some(h) => crate::elements::wrapped::lemma_href_child_round_trip("locktoken"@, h),
        None => {},
    }
}

pub open spec fn opt_map_value<T>(x: Option<T>, f: spec_fn(T) -> ValueV) -> Option<ValueV> {
    match x {
        Some(y) => Some(f(y)),
        None => None,
    }
}

/// A lock request reads back from the value it is written as.
pub proof fn lemma_lock_info_round_trip(x: LockInfoV)
    ensures
        LockInfo::spec_from_value(LockInfo::spec_into_value(x)) == Ok::<LockInfoV, ErrorV>(x),
{
    lemma_active_lock_names();
    let m0 = MapV::empty().insert(dav_name("lockscope"@), LockScope::spec_into_value(x.lockscope)).insert(
        dav_name("locktype"@),
        LockType::spec_into_value(x.locktype),
    );
    let f = |o: ValueV| o;
    let m = insert_opt(m0, "owner"@, x.owner, f);
    assert(lock_info_value(x) == ValueV::Elements(m));
    let a = MapV::empty().insert(dav_name("lockscope"@), LockScope::spec_into_value(x.lockscope));
    let keys = seq![dav_key("lockscope"@), dav_key("locktype"@), dav_key("owner"@)];
    assert forall|i: int| 0 <= i < 3 implies #[trigger] m.get(keys[i]) == if i == 0 {
        Some(LockScope::spec_into_value(x.lockscope))
    } else if i == 1 {
        Some(LockType::spec_into_value(x.locktype))
    } else {
        opt_map_value(x.owner, f)
    } by {
        let k = keys[i];
        crate::value::lemma_single_get(dav_name("lockscope"@), LockScope::spec_into_value(x.lockscope), k);
        crate::value::lemma_insert_get(a, dav_name("locktype"@), LockType::spec_into_value(x.locktype), k);
        lemma_insert_opt_get(m0, "owner"@, x.owner, f, k);
    }
    assert(m.get(keys[0]) == Some(LockScope::spec_into_value(x.lockscope)));
    assert(m.get(keys[1]) == Some(LockType::spec_into_value(x.locktype)));
    assert(m.get(keys[2]) == opt_map_value(x.owner, f));
    crate::elements::lock::lemma_lockscope_round_trip(x.lockscope);
    crate::elements::lock::lemma_locktype_round_trip(x.locktype);
    match x.owner {
        Some(o) => crate::elements::wrapped::lemma_text_elements_round_trip(Seq::empty(), o),
        None => {},
    }
}

} // verus!
