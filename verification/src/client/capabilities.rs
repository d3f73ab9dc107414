//! What a server advertises in its `DAV` and `Allow` headers.
use vstd::prelude::*;

use crate::client::headers::DavHeader;
use crate::element::seq_view;
use crate::text::text_is;

verus! {

/// The compliance classes and the methods a server advertises
/// (RFC 4918, section 10.1).
#[derive(Debug, PartialEq)]
pub struct Capabilities {
    /// The `DAV` header's classes.
    pub dav: DavHeader,
    /// The methods of the `Allow` header, as their names.
    pub allow: Vec<String>,
}

pub struct CapabilitiesV {
    pub dav: Seq<Seq<char>>,
    pub allow: Seq<Seq<char>>,
}

impl View for Capabilities {
    type V = CapabilitiesV;

    open spec fn view(&self) -> CapabilitiesV {
        CapabilitiesV { dav: self.dav@, allow: seq_view(self.allow@) }
    }
}

impl Capabilities {
    /// Whether class `2` (locking) is advertised.
    pub fn supports_locking(&self) -> (r: bool)
        ensures
            r == self@.dav.contains("2"@),
    {
        self.dav.supports_locking()
    }

    /// Whether `method` is among the allowed methods.
    pub fn allows(&self, method: &str) -> (r: bool)
        ensures
            r == self@.allow.contains(method@),
    {
        proof {
            crate::element::lemma_seq_view(self.allow@);
        }
        let mut i: usize = 0;
        while i < self.allow.len()
            invariant
                i <= self.allow@.len(),
                self@.allow == seq_view(self.allow@),
                self@.allow.len() == self.allow@.len(),
                forall|j: int| 0 <= j < self.allow@.len() ==> #[trigger] self@.allow[j] == self.allow@[j]@,
                forall|j: int| 0 <= j < i ==> self@.allow[j] != method@,
            decreases self.allow.len() - i,
        {
            if text_is(self.allow[i].as_str(), method) {
                assert(self@.allow[i as int] == method@);
                return true;
            }
            i = i + 1;
        }
        false
    }
}

} // verus!
