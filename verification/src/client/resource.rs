//! One resource of a `multistatus` answer, with its common properties read
//! out.
use vstd::prelude::*;

use crate::element::{lemma_seq_view, seq_view, Element};
use crate::elements::href::{Href, HrefV};
use crate::elements::multistatus::{status_success, Multistatus, PropstatV, Response, ResponseV};
use crate::elements::prop::{property, Prop};
use crate::elements::wrapped::DisplayName;
use crate::error::Error as XmlError;
use crate::properties::dates::{CreationDate, DateTime, LastModified};
use crate::properties::etag::{ETag, ETagV};
use crate::properties::length::{ContentLength, ContentType};
use crate::properties::resourcetype::ResourceType;
use crate::text::{from_chars, string_of, to_chars, utf8_text};
use crate::value::{MapV, ValueMap};
use crate::name::dav_key;

verus! {

/// The value of a hexadecimal digit.
pub open spec fn hex_value(b: u8) -> Option<u8> {
    if 48 <= b <= 57 {
        Some((b - 48) as u8)
    } else if 97 <= b <= 102 {
        Some((b - 87) as u8)
    } else if 65 <= b <= 70 {
        Some((b - 55) as u8)
    } else {
        None
    }
}

/// The byte that the two bytes after a `%` stand for, when both are
/// hexadecimal digits.
pub open spec fn escape_value(b1: u8, b2: u8) -> Option<u8> {
    match (hex_value(b1), hex_value(b2)) {
        (Some(h), Some(l)) => Some((16 * h + l) as u8),
        _ => None,
    }
}

/// The bytes with each valid `%` escape replaced by the byte it stands
/// for; a `%` without a valid escape after it stays as it is.
pub open spec fn percent_decoded(b: Seq<u8>) -> Seq<u8>
    decreases b.len(),
{
    if b.len() == 0 {
        Seq::empty()
    } else if b[0] == 37 && b.len() >= 3 && escape_value(b[1], b[2]) is Some {
        seq![escape_value(b[1], b[2])->0] + percent_decoded(b.subrange(3, b.len() as int))
    } else {
        seq![b[0]] + percent_decoded(b.subrange(1, b.len() as int))
    }
}

/// The text percent-decoded, or the text itself when the decoded bytes are
/// not UTF-8.
pub open spec fn percent_decode_spec(s: Seq<char>) -> Seq<char> {
    let d = percent_decoded(vstd::utf8::encode_utf8(s));
    if vstd::utf8::valid_utf8(d) {
        vstd::utf8::decode_utf8(d)
    } else {
        s
    }
}

fn hex(b: u8) -> (r: Option<u8>)
    ensures
        r == hex_value(b),
{
    if 48 <= b && b <= 57 {
        Some(b - 48)
    } else if 97 <= b && b <= 102 {
        Some(b - 87)
    } else if 65 <= b && b <= 70 {
        Some(b - 55)
    } else {
        None
    }
}

fn escape(b1: u8, b2: u8) -> (r: Option<u8>)
    ensures
        r == escape_value(b1, b2),
{
    match (hex(b1), hex(b2)) {
        (Some(h), Some(l)) => Some(16 * h + l),
        _ => None,
    }
}

/// Percent-decodes a path segment; a `%` without two hexadecimal digits
/// after it is kept, and decoded bytes that are not UTF-8 leave the text
/// as it was.
pub fn percent_decode(input: &str) -> (r: String)
    ensures
        r@ == percent_decode_spec(input@),
{
    let bytes = input.as_bytes();
    let n = bytes.len();
    let mut decoded: Vec<u8> = Vec::new();
    let mut i: usize = 0;
    assert(bytes@.subrange(0, n as int) =~= bytes@);
    while i < n
        invariant
            i <= n,
            n == bytes@.len(),
            decoded@ + percent_decoded(bytes@.subrange(i as int, n as int)) == percent_decoded(bytes@),
        decreases n - i,
    {
        let ghost rest = bytes@.subrange(i as int, n as int);
        if bytes[i] == 37 && n - i >= 3 {
            match escape(bytes[i + 1], bytes[i + 2]) {
                Some(b) => {
                    decoded.push(b);
                    assert(rest.subrange(3, rest.len() as int) =~= bytes@.subrange(i + 3, n as int));
                    assert(decoded@ + percent_decoded(bytes@.subrange(i + 3, n as int)) =~= percent_decoded(bytes@));
                    i = i + 3;
                    continue;
                },
                None => {},
            }
        }
        decoded.push(bytes[i]);
        assert(rest.subrange(1, rest.len() as int) =~= bytes@.subrange(i + 1, n as int));
        assert(decoded@ + percent_decoded(bytes@.subrange(i + 1, n as int)) =~= percent_decoded(bytes@));
        i = i + 1;
    }
    assert(decoded@ =~= percent_decoded(bytes@));
    match utf8_text(decoded.as_slice()) {
        Ok(t) => string_of(t),
        Err(_) => string_of(input),
    }
}

/// The text without its trailing slashes.
pub open spec fn without_trailing_slashes(p: Seq<char>) -> Seq<char>
    decreases p.len(),
{
    if p.len() > 0 && p.last() == '/' {
        without_trailing_slashes(p.drop_last())
    } else {
        p
    }
}

/// The characters after the last slash.
pub open spec fn after_last_slash(p: Seq<char>) -> Seq<char>
    decreases p.len(),
{
    if p.len() > 0 && p.last() != '/' {
        after_last_slash(p.drop_last()).push(p.last())
    } else {
        Seq::empty()
    }
}

/// The last non-empty segment of a path, percent-decoded (empty when the
/// path has none).
pub open spec fn last_segment_spec(p: Seq<char>) -> Seq<char> {
    percent_decode_spec(after_last_slash(without_trailing_slashes(p)))
}

/// The last non-empty segment of `path`, percent-decoded.
pub fn last_segment(path: &str) -> (r: String)
    ensures
        r@ == last_segment_spec(path@),
{
    let cs = to_chars(path);
    let mut e: usize = cs.len();
    assert(cs@.subrange(0, e as int) =~= cs@);
    while e > 0 && cs[e - 1] == '/'
        invariant
            e <= cs@.len(),
            without_trailing_slashes(cs@) == without_trailing_slashes(cs@.subrange(0, e as int)),
        decreases e,
    {
        assert(cs@.subrange(0, e as int).drop_last() =~= cs@.subrange(0, e - 1));
        e = e - 1;
    }
    assert(without_trailing_slashes(cs@.subrange(0, e as int)) == cs@.subrange(0, e as int));
    let mut st: usize = e;
    assert(cs@.subrange(st as int, e as int) =~= Seq::<char>::empty());
    assert(cs@.subrange(0, e as int) + Seq::<char>::empty() =~= cs@.subrange(0, e as int));
    while st > 0 && cs[st - 1] != '/'
        invariant
            st <= e <= cs@.len(),
            after_last_slash(cs@.subrange(0, e as int)) == after_last_slash(cs@.subrange(0, st as int)) + cs@.subrange(st as int, e as int),
        decreases st,
    {
        let ghost pre = cs@.subrange(0, st as int);
        assert(pre.drop_last() =~= cs@.subrange(0, st - 1));
        assert(cs@.subrange(st - 1, e as int) =~= seq![pre.last()] + cs@.subrange(st as int, e as int));
        assert(after_last_slash(pre) == after_last_slash(pre.drop_last()).push(pre.last()));
        assert(after_last_slash(pre.drop_last()).push(pre.last()) + cs@.subrange(st as int, e as int)
            =~= after_last_slash(pre.drop_last()) + cs@.subrange(st - 1, e as int));
        st = st - 1;
    }
    assert(after_last_slash(cs@.subrange(0, st as int)) =~= Seq::<char>::empty());
    assert(Seq::<char>::empty() + cs@.subrange(st as int, e as int) =~= cs@.subrange(st as int, e as int));
    let seg = crate::text::subchars(cs.as_slice(), st, e);
    let text = from_chars(seg.as_slice());
    percent_decode(text.as_str())
}

/// The successful `propstat` blocks' properties, merged in order into one
/// map (a name seen again adds to the list under it).
pub open spec fn merge_entries(acc: MapV, es: Seq<(crate::name::NameV, crate::value::ValueV)>) -> MapV
    decreases es.len(),
{
    if es.len() == 0 {
        acc
    } else {
        merge_entries(acc, es.drop_last()).insert_raw(es.last().0, es.last().1)
    }
}

pub open spec fn merged_props(ps: Seq<PropstatV>) -> MapV
    decreases ps.len(),
{
    if ps.len() == 0 {
        MapV::empty()
    } else if status_success(ps.last().status) {
        merge_entries(merged_props(ps.drop_last()), ps.last().prop.ordered())
    } else {
        merged_props(ps.drop_last())
    }
}

/// A property read as its type, or nothing when it is absent, empty or
/// invalid.
pub open spec fn read_ok<P: Element>(m: MapV) -> Option<P::V> {
    match property::<P>(m) {
        Some(Some(Ok(x))) => Some(x),
        _ => None,
    }
}

/// The path of an `href` (empty for one that is not a URI).
pub open spec fn href_path(h: HrefV) -> Seq<char> {
    match h {
        HrefV::Uri(p) => p.path,
        HrefV::Raw(_) => Seq::empty(),
    }
}

/// One resource of a `multistatus` answer.
#[derive(Debug, PartialEq)]
pub struct Resource {
    /// The resource's URI as the answer gave it.
    pub href: Href,
    /// Whether `resourcetype` names a collection, or the path ends in `/`.
    pub is_collection: bool,
    /// The `displayname` property, when present and valid.
    pub display_name: Option<String>,
    /// The `getcontentlength` property, when present and valid.
    pub content_length: Option<u64>,
    /// The `getcontenttype` property, when present and valid.
    pub content_type: Option<ContentType>,
    /// The `getetag` property, when present and valid.
    pub etag: Option<ETag>,
    /// The `getlastmodified` property, when present and valid.
    pub last_modified: Option<LastModified>,
    /// The `creationdate` property, when present and valid.
    pub creation_date: Option<CreationDate>,
    /// Every property of the successful `propstat` blocks.
    pub prop: Prop,
    name: String,
}

pub struct ResourceV {
    pub href: HrefV,
    pub is_collection: bool,
    pub display_name: Option<Seq<char>>,
    pub content_length: Option<u64>,
    pub content_type: Option<Seq<char>>,
    pub etag: Option<ETagV>,
    pub last_modified: Option<u64>,
    pub creation_date: Option<DateTime>,
    pub prop: MapV,
    pub name: Seq<char>,
}

impl View for Resource {
    type V = ResourceV;

    closed spec fn view(&self) -> ResourceV {
        ResourceV {
            href: self.href@,
            is_collection: self.is_collection,
            display_name: match self.display_name {
                Some(d) => Some(d@),
                None => None,
            },
            content_length: self.content_length,
            content_type: match self.content_type {
                Some(c) => Some(c@),
                None => None,
            },
            etag: match self.etag {
                Some(e) => Some(e@),
                None => None,
            },
            last_modified: match self.last_modified {
                Some(l) => Some(l@),
                None => None,
            },
            creation_date: match self.creation_date {
                Some(c) => Some(c@),
                None => None,
            },
            prop: self.prop@,
            name: self.name@,
        }
    }
}

/// The resource a `propstat` response describes.
pub open spec fn resource_of(href: HrefV, ps: Seq<PropstatV>) -> ResourceV {
    let m = merged_props(ps);
    let path = href_path(href);
    ResourceV {
        href,
        is_collection: (match read_ok::<ResourceType>(m) {
            Some(t) => t.get(dav_key("collection"@)) is Some,
            None => false,
        }) || (path.len() > 0 && path.last() == '/'),
        display_name: read_ok::<DisplayName>(m),
        content_length: read_ok::<ContentLength>(m),
        content_type: read_ok::<ContentType>(m),
        etag: read_ok::<ETag>(m),
        last_modified: read_ok::<LastModified>(m),
        creation_date: read_ok::<CreationDate>(m),
        prop: m,
        name: last_segment_spec(path),
    }
}

/// The resources of the `propstat` responses, in order.
pub open spec fn resources_of(rs: Seq<ResponseV>) -> Seq<ResourceV>
    decreases rs.len(),
{
    if rs.len() == 0 {
        Seq::empty()
    } else {
        match rs.last() {
            ResponseV::Propstat { href, propstat, .. } => resources_of(rs.drop_last()).push(resource_of(href, propstat)),
            ResponseV::Status { .. } => resources_of(rs.drop_last()),
        }
    }
}

fn value_of<P>(read: Option<Option<Result<P, XmlError>>>) -> (r: Option<P>)
    ensures
        r == match read {
            Some(Some(Ok(x))) => Some(x),
            _ => None::<P>,
        },
{
    match read {
        Some(Some(Ok(x))) => Some(x),
        _ => None,
    }
}

fn merge_into(map: &mut ValueMap, from: &ValueMap)
    ensures
        final(map)@ == merge_entries(old(map)@, from@.ordered()),
{
    let entries = from.iter_ordered();
    let ghost es = from@.ordered();
    let mut i: usize = 0;
    assert(es.subrange(0, 0) =~= Seq::<(crate::name::NameV, crate::value::ValueV)>::empty());
    while i < entries.len()
        invariant
            i <= entries@.len(),
            es == from@.ordered(),
            es.len() == entries@.len(),
            forall|p: int| 0 <= p < entries@.len() ==> (entries@[p].0@, entries@[p].1@) == #[trigger] from@.ordered_at(p),
            map@ == merge_entries(old(map)@, es.subrange(0, i as int)),
        decreases entries.len() - i,
    {
        let (name, value) = entries[i];
        assert(es[i as int] == from@.ordered_at(i as int));
        assert(es.subrange(0, i + 1).drop_last() =~= es.subrange(0, i as int));
        map.insert_raw(name.copy(), value.copy());
        i = i + 1;
    }
    assert(es.subrange(0, es.len() as int) =~= es);
}

impl Resource {
    /// The resource a response describes; a response that gives one status
    /// for several resources carries no properties and gives none.
    pub fn from_response(response: &Response) -> (r: Option<Resource>)
        ensures
            match response@ {
                ResponseV::Propstat { href, propstat, .. } => r matches Some(x) && x@ == resource_of(href, propstat),
                ResponseV::Status { .. } => r is None,
            },
    {
        let (href, propstat) = match response {
            Response::Propstat { href, propstat, .. } => (href, propstat.as_vec()),
            Response::Status { .. } => return None,
        };
        let ghost ps = seq_view(propstat@);
        proof {
            lemma_seq_view(propstat@);
        }
        let mut map = ValueMap::new();
        let mut i: usize = 0;
        assert(ps.subrange(0, 0) =~= Seq::<PropstatV>::empty());
        while i < propstat.len()
            invariant
                i <= propstat@.len(),
                ps == seq_view(propstat@),
                ps.len() == propstat@.len(),
                forall|j: int| 0 <= j < ps.len() ==> #[trigger] ps[j] == propstat@[j]@,
                map@ == merged_props(ps.subrange(0, i as int)),
            decreases propstat.len() - i,
        {
            assert(ps.subrange(0, i + 1).drop_last() =~= ps.subrange(0, i as int));
            assert(ps[i as int] == propstat@[i as int]@);
            if propstat[i].status.is_success() {
                merge_into(&mut map, &propstat[i].prop.0);
            }
            i = i + 1;
        }
        assert(ps.subrange(0, ps.len() as int) =~= ps);
        let prop = Prop(map);
        let path = href.path();
        let trailing = crate::text::ends_with_char(path.as_str(), '/');
        let collection = match value_of(prop.resourcetype()) {
            Some(t) => t.is_collection(),
            None => false,
        };
        let display_name = match value_of(prop.displayname()) {
            Some(d) => Some(d.0),
            None => None,
        };
        let content_length = match value_of(prop.getcontentlength()) {
            Some(c) => Some(c.0),
            None => None,
        };
        let content_type = value_of(prop.getcontenttype());
        let etag = value_of(prop.getetag());
        let last_modified = value_of(prop.getlastmodified());
        let creation_date = value_of(prop.creationdate());
        let name = last_segment(path.as_str());
        Some(Resource {
            href: href.copy(),
            is_collection: collection || trailing,
            display_name,
            content_length,
            content_type,
            etag,
            last_modified,
            creation_date,
            prop,
            name,
        })
    }

    /// The resources of every response that carries properties, in order.
    pub fn from_multistatus(multistatus: &Multistatus) -> (r: Vec<Resource>)
        ensures
            seq_view(r@) == resources_of(multistatus@.response),
    {
        let ghost rs = multistatus@.response;
        proof {
            lemma_seq_view(multistatus.response@);
        }
        let mut out: Vec<Resource> = Vec::new();
        let mut i: usize = 0;
        assert(rs.subrange(0, 0) =~= Seq::<ResponseV>::empty());
        while i < multistatus.response.len()
            invariant
                i <= multistatus.response@.len(),
                rs == multistatus@.response,
                rs.len() == multistatus.response@.len(),
                forall|j: int| 0 <= j < rs.len() ==> #[trigger] rs[j] == multistatus.response@[j]@,
                seq_view(out@) == resources_of(rs.subrange(0, i as int)),
            decreases multistatus.response.len() - i,
        {
            assert(rs.subrange(0, i + 1).drop_last() =~= rs.subrange(0, i as int));
            assert(rs[i as int] == multistatus.response@[i as int]@);
            match Resource::from_response(&multistatus.response[i]) {
                Some(x) => {
                    let ghost before = out@;
                    out.push(x);
                    proof {
                        crate::element::lemma_seq_view_push(before, x);
                    }
                },
                None => {},
            }
            i = i + 1;
        }
        assert(rs.subrange(0, rs.len() as int) =~= rs);
        out
    }

    /// The resource's URI path.
    pub fn path(&self) -> (r: String)
        ensures
            r@ == href_path(self@.href),
    {
        self.href.path()
    }

    /// The last non-empty segment of the path, percent-decoded.
    pub fn name(&self) -> (r: &str)
        ensures
            r@ == self@.name,
    {
        self.name.as_str()
    }
}

/// Bytes without a `%` are left as they are.
pub proof fn lemma_percent_decoded_plain(b: Seq<u8>)
    requires
        forall|i: int| 0 <= i < b.len() ==> b[i] != 37,
    ensures
        percent_decoded(b) == b,
    decreases b.len(),
{
    if b.len() > 0 {
        let rest = b.subrange(1, b.len() as int);
        assert forall|i: int| 0 <= i < rest.len() implies rest[i] != 37 by {
            assert(rest[i] == b[i + 1]);
        }
        lemma_percent_decoded_plain(rest);
        assert(seq![b[0]] + rest =~= b);
    }
}

} // verus!
