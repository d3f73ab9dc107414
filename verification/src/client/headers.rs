//! Typed values of the headers of RFC 4918, section 10.
use vstd::prelude::*;

use crate::element::seq_view;
use crate::elements::href::{UriParts, UriPartsV};
use crate::elements::timeout::{parse_timeout, timeout_text, Timeout, MAX_TIMEOUT_SECONDS};
use crate::properties::etag::{etag_text, ETag, ETagV};
use crate::text::{
    comma_pieces, comma_pieces_trimmed, comma_state, from_chars, is_ws, joined, lemma_joined_push, string_of,
    text_is, to_chars, trim, trim_chars, trimmed_all,
};

verus! {

/// The `DAV` header's name (section 10.1).
pub const DAV: &'static str = "dav";

/// The `Depth` header's name (section 10.2).
pub const DEPTH: &'static str = "depth";

/// The `Destination` header's name (section 10.3).
pub const DESTINATION: &'static str = "destination";

/// The `If` header's name (section 10.4).
pub const IF: &'static str = "if";

/// The `Lock-Token` header's name (section 10.5).
pub const LOCK_TOKEN: &'static str = "lock-token";

/// The `Overwrite` header's name (section 10.6).
pub const OVERWRITE: &'static str = "overwrite";

/// The `Timeout` header's name (section 10.7).
pub const TIMEOUT: &'static str = "timeout";

/// A header value that does not follow the grammar of its header.
#[derive(Debug, PartialEq)]
pub struct InvalidHeader {
    /// The header's name, as RFC 4918 writes it.
    pub header: String,
    /// The value as it was received.
    pub value: String,
}

pub struct InvalidHeaderV {
    pub header: Seq<char>,
    pub value: Seq<char>,
}

impl View for InvalidHeader {
    type V = InvalidHeaderV;

    open spec fn view(&self) -> InvalidHeaderV {
        InvalidHeaderV { header: self.header@, value: self.value@ }
    }
}

/// The message of an invalid header value.
pub open spec fn invalid_header_message(e: InvalidHeaderV) -> Seq<char> {
    "invalid "@ + e.header + " header: "@ + e.value
}

impl InvalidHeader {
    /// The value `value` of header `header` is invalid.
    pub fn new(header: &str, value: &str) -> (r: InvalidHeader)
        ensures
            r@ == (InvalidHeaderV { header: header@, value: value@ }),
    {
        InvalidHeader { header: string_of(header), value: string_of(value) }
    }

    /// `invalid <header> header: <value>`.
    pub fn to_string(&self) -> (r: String)
        ensures
            r@ == invalid_header_message(self@),
    {
        let mut r = string_of("invalid ");
        r.append(self.header.as_str());
        r.append(" header: ");
        r.append(self.value.as_str());
        r
    }
}

/// The `Overwrite` header (section 10.6).
#[derive(Clone, Copy, Debug, PartialEq, Eq, Structural)]
pub enum Overwrite {
    /// `T`: an existing destination is replaced.
    True,
    /// `F`: the request fails when the destination exists.
    False,
}

impl Default for Overwrite {
    fn default() -> (r: Overwrite)
        ensures
            r == Overwrite::True,
    {
        Overwrite::True
    }
}

/// The header text of an `Overwrite` value.
pub open spec fn overwrite_text(o: Overwrite) -> Seq<char> {
    match o {
        Overwrite::True => "T"@,
        Overwrite::False => "F"@,
    }
}

/// The `Overwrite` value a header text names, in either case.
pub open spec fn parse_overwrite(s: Seq<char>) -> Option<Overwrite> {
    if s == "T"@ || s == "t"@ {
        Some(Overwrite::True)
    } else if s == "F"@ || s == "f"@ {
        Some(Overwrite::False)
    } else {
        None
    }
}

impl Overwrite {
    /// `T` or `F`.
    pub fn to_string(&self) -> (r: String)
        ensures
            r@ == overwrite_text(*self),
    {
        match self {
            Overwrite::True => string_of("T"),
            Overwrite::False => string_of("F"),
        }
    }

    /// Reads `T`, `t`, `F` or `f`; any other text is an error naming it.
    pub fn from_str(s: &str) -> (r: Result<Overwrite, InvalidHeader>)
        ensures
            match parse_overwrite(s@) {
                Some(o) => r matches Ok(x) && x == o,
                None => r matches Err(e) && e@ == (InvalidHeaderV { header: "Overwrite"@, value: s@ }),
            },
    {
        if text_is(s, "T") || text_is(s, "t") {
            Ok(Overwrite::True)
        } else if text_is(s, "F") || text_is(s, "f") {
            Ok(Overwrite::False)
        } else {
            Err(InvalidHeader::new("Overwrite", s))
        }
    }
}

/// Reading back what an `Overwrite` value is written as gives the value.
pub proof fn lemma_overwrite_round_trip(o: Overwrite)
    ensures
        parse_overwrite(overwrite_text(o)) == Some(o),
{
    reveal_strlit("T");
    reveal_strlit("t");
    reveal_strlit("F");
    reveal_strlit("f");
    assert("F"@[0] != "T"@[0] && "F"@[0] != "t"@[0]);
    assert("F"@ != "T"@ && "F"@ != "t"@);
}

/// One condition of an [`IfList`].
#[derive(Debug, PartialEq)]
pub enum IfCondition {
    /// A state token, usually a lock token, without its `<` `>`.
    Token { token: String, not: bool },
    /// An entity tag.
    ETag { etag: ETag, not: bool },
}

pub enum IfConditionV {
    Token { token: Seq<char>, not: bool },
    ETag { etag: ETagV, not: bool },
}

impl View for IfCondition {
    type V = IfConditionV;

    open spec fn view(&self) -> IfConditionV {
        match self {
            IfCondition::Token { token, not } => IfConditionV::Token { token: token@, not: *not },
            IfCondition::ETag { etag, not } => IfConditionV::ETag { etag: etag@, not: *not },
        }
    }
}

impl IfCondition {
    /// A copy.
    pub fn copy(&self) -> (r: IfCondition)
        ensures
            r@ == self@,
    {
        match self {
            IfCondition::Token { token, not } => IfCondition::Token { token: token.clone(), not: *not },
            IfCondition::ETag { etag, not } => IfCondition::ETag { etag: etag.copy(), not: *not },
        }
    }
}

/// One parenthesised list of an [`If`] header, tagged with a resource or
/// not.
#[derive(Debug, PartialEq)]
pub struct IfList {
    resource: Option<UriParts>,
    conditions: Vec<IfCondition>,
}

pub struct IfListV {
    pub resource: Option<UriPartsV>,
    pub conditions: Seq<IfConditionV>,
}

impl View for IfList {
    type V = IfListV;

    closed spec fn view(&self) -> IfListV {
        IfListV {
            resource: match self.resource {
                Some(u) => Some(u@),
                None => None,
            },
            conditions: seq_view(self.conditions@),
        }
    }
}

/// `Not ` before a negated condition.
pub open spec fn not_text(not: bool) -> Seq<char> {
    if not {
        "Not "@
    } else {
        Seq::empty()
    }
}

/// How a condition is written: `<token>` or `[etag]`, after `Not ` when
/// negated.
pub open spec fn condition_text(c: IfConditionV) -> Seq<char> {
    match c {
        IfConditionV::Token { token, not } => not_text(not) + "<"@ + token + ">"@,
        IfConditionV::ETag { etag, not } => not_text(not) + "["@ + etag_text(etag) + "]"@,
    }
}

/// How a list is written: `<resource> ` when tagged, then its conditions
/// in parentheses, separated by spaces.
pub open spec fn list_text(l: IfListV) -> Seq<char> {
    (match l.resource {
        Some(u) => "<"@ + u.text + "> "@,
        None => Seq::empty(),
    }) + "("@ + joined(l.conditions.map_values(|c: IfConditionV| condition_text(c)), " "@) + ")"@
}

impl IfList {
    /// A list that applies to the resource the request is for.
    pub fn untagged() -> (r: IfList)
        ensures
            r@ == (IfListV { resource: None, conditions: Seq::empty() }),
    {
        let conditions: Vec<IfCondition> = Vec::new();
        let r = IfList { resource: None, conditions };
        assert(seq_view(r.conditions@) =~= Seq::<IfConditionV>::empty());
        r
    }

    /// A list tagged with `resource`.
    pub fn tagged(resource: UriParts) -> (r: IfList)
        ensures
            r@ == (IfListV { resource: Some(resource@), conditions: Seq::empty() }),
    {
        let conditions: Vec<IfCondition> = Vec::new();
        let r = IfList { resource: Some(resource), conditions };
        assert(seq_view(r.conditions@) =~= Seq::<IfConditionV>::empty());
        r
    }

    fn with_condition(self, c: IfCondition) -> (r: IfList)
        ensures
            r@ == (IfListV { resource: self@.resource, conditions: self@.conditions.push(c@) }),
    {
        let IfList { resource, mut conditions } = self;
        let ghost before = conditions@;
        conditions.push(c);
        proof {
            crate::element::lemma_seq_view_push(before, c);
        }
        IfList { resource, conditions }
    }

    /// Requires the state token `token`.
    pub fn token(self, token: &str) -> (r: IfList)
        ensures
            r@ == (IfListV {
                resource: self@.resource,
                conditions: self@.conditions.push(IfConditionV::Token { token: token@, not: false }),
            }),
    {
        self.with_condition(IfCondition::Token { token: string_of(token), not: false })
    }

    /// Requires the absence of the state token `token`.
    pub fn not_token(self, token: &str) -> (r: IfList)
        ensures
            r@ == (IfListV {
                resource: self@.resource,
                conditions: self@.conditions.push(IfConditionV::Token { token: token@, not: true }),
            }),
    {
        self.with_condition(IfCondition::Token { token: string_of(token), not: true })
    }

    /// Requires the entity tag `etag` to match.
    pub fn etag(self, etag: ETag) -> (r: IfList)
        ensures
            r@ == (IfListV {
                resource: self@.resource,
                conditions: self@.conditions.push(IfConditionV::ETag { etag: etag@, not: false }),
            }),
    {
        self.with_condition(IfCondition::ETag { etag, not: false })
    }

    /// Requires the entity tag `etag` not to match.
    pub fn not_etag(self, etag: ETag) -> (r: IfList)
        ensures
            r@ == (IfListV {
                resource: self@.resource,
                conditions: self@.conditions.push(IfConditionV::ETag { etag: etag@, not: true }),
            }),
    {
        self.with_condition(IfCondition::ETag { etag, not: true })
    }

    /// A copy.
    pub fn copy(&self) -> (r: IfList)
        ensures
            r@ == self@,
    {
        let resource = match &self.resource {
            Some(u) => Some(u.copy()),
            None => None,
        };
        let mut conditions: Vec<IfCondition> = Vec::new();
        let mut i: usize = 0;
        while i < self.conditions.len()
            invariant
                i <= self.conditions@.len(),
                conditions@.len() == i,
                forall|j: int| 0 <= j < i ==> #[trigger] conditions@[j]@ == self.conditions@[j]@,
            decreases self.conditions.len() - i,
        {
            conditions.push(self.conditions[i].copy());
            i = i + 1;
        }
        let r = IfList { resource, conditions };
        proof {
            crate::element::lemma_seq_view(r.conditions@);
            crate::element::lemma_seq_view(self.conditions@);
        }
        assert(seq_view(r.conditions@) =~= seq_view(self.conditions@));
        r
    }

    /// How this list is written in an `If` header.
    pub fn to_string(&self) -> (r: String)
        ensures
            r@ == list_text(self@),
    {
        let mut r = String::new();
        match &self.resource {
            Some(u) => {
                r.append("<");
                r.append(u.text.as_str());
                r.append("> ");
            },
            None => {},
        }
        let ghost head = r@;
        r.append("(");
        let ghost texts = self@.conditions.map_values(|c: IfConditionV| condition_text(c));
        let mut body = String::new();
        let mut i: usize = 0;
        assert(texts.subrange(0, 0) =~= Seq::<Seq<char>>::empty());
        while i < self.conditions.len()
            invariant
                i <= self.conditions@.len(),
                texts == self@.conditions.map_values(|c: IfConditionV| condition_text(c)),
                self@.conditions == seq_view(self.conditions@),
                texts.len() == self.conditions@.len(),
                body@ == joined(texts.subrange(0, i as int), " "@),
            decreases self.conditions.len() - i,
        {
            proof {
                crate::element::lemma_seq_view(self.conditions@);
                lemma_joined_push(texts.subrange(0, i as int), " "@, texts[i as int]);
            }
            assert(texts.subrange(0, i + 1) =~= texts.subrange(0, i as int).push(texts[i as int]));
            if i > 0 {
                body.append(" ");
            }
            match &self.conditions[i] {
                IfCondition::Token { token, not } => {
                    if *not {
                        body.append("Not ");
                    }
                    body.append("<");
                    body.append(token.as_str());
                    body.append(">");
                },
                IfCondition::ETag { etag, not } => {
                    if *not {
                        body.append("Not ");
                    }
                    body.append("[");
                    let t = etag.to_string();
                    body.append(t.as_str());
                    body.append("]");
                },
            }
            i = i + 1;
        }
        assert(texts.subrange(0, texts.len() as int) =~= texts);
        r.append(body.as_str());
        r.append(")");
        r
    }
}

/// The `If` header (section 10.4): its lists, in order.
#[derive(Debug, PartialEq)]
pub struct If {
    lists: Vec<IfList>,
}

impl View for If {
    type V = Seq<IfListV>;

    closed spec fn view(&self) -> Seq<IfListV> {
        seq_view(self.lists@)
    }
}

/// How an `If` header is written: its lists separated by spaces.
pub open spec fn if_text(lists: Seq<IfListV>) -> Seq<char> {
    joined(lists.map_values(|l: IfListV| list_text(l)), " "@)
}

impl If {
    /// A header with no lists.
    pub fn new() -> (r: If)
        ensures
            r@ == Seq::<IfListV>::empty(),
    {
        let lists: Vec<IfList> = Vec::new();
        let r = If { lists };
        assert(seq_view(r.lists@) =~= Seq::<IfListV>::empty());
        r
    }

    /// `(<token>)`: one untagged list requiring `token`.
    pub fn untagged(token: &str) -> (r: If)
        ensures
            r@ == seq![IfListV { resource: None, conditions: seq![IfConditionV::Token { token: token@, not: false }] }],
    {
        let r = If::new().with_list(IfList::untagged().token(token));
        assert(r@ =~= seq![IfListV { resource: None, conditions: seq![IfConditionV::Token { token: token@, not: false }] }]);
        r
    }

    /// `<resource> (<token>)`: one list tagged with `resource`, requiring
    /// `token`.
    pub fn tagged(resource: UriParts, token: &str) -> (r: If)
        ensures
            r@ == seq![IfListV {
                resource: Some(resource@),
                conditions: seq![IfConditionV::Token { token: token@, not: false }],
            }],
    {
        let ghost u = resource@;
        let r = If::new().with_list(IfList::tagged(resource).token(token));
        assert(r@ =~= seq![IfListV {
            resource: Some(u),
            conditions: seq![IfConditionV::Token { token: token@, not: false }],
        }]);
        r
    }

    /// Appends `list`.
    pub fn with_list(self, list: IfList) -> (r: If)
        ensures
            r@ == self@.push(list@),
    {
        let mut lists = self.lists;
        let ghost before = lists@;
        lists.push(list);
        proof {
            crate::element::lemma_seq_view_push(before, list);
        }
        If { lists }
    }

    /// A copy.
    pub fn copy(&self) -> (r: If)
        ensures
            r@ == self@,
    {
        let mut lists: Vec<IfList> = Vec::new();
        let mut i: usize = 0;
        while i < self.lists.len()
            invariant
                i <= self.lists@.len(),
                lists@.len() == i,
                forall|j: int| 0 <= j < i ==> #[trigger] lists@[j]@ == self.lists@[j]@,
            decreases self.lists.len() - i,
        {
            lists.push(self.lists[i].copy());
            i = i + 1;
        }
        let r = If { lists };
        proof {
            crate::element::lemma_seq_view(r.lists@);
            crate::element::lemma_seq_view(self.lists@);
        }
        assert(seq_view(r.lists@) =~= seq_view(self.lists@));
        r
    }

    /// Whether the header has no lists.
    pub fn is_empty(&self) -> (r: bool)
        ensures
            r == (self@.len() == 0),
    {
        proof {
            crate::element::lemma_seq_view(self.lists@);
        }
        self.lists.len() == 0
    }

    /// The header's text.
    pub fn to_string(&self) -> (r: String)
        ensures
            r@ == if_text(self@),
    {
        let ghost texts = self@.map_values(|l: IfListV| list_text(l));
        let mut r = String::new();
        let mut i: usize = 0;
        assert(texts.subrange(0, 0) =~= Seq::<Seq<char>>::empty());
        while i < self.lists.len()
            invariant
                i <= self.lists@.len(),
                texts == self@.map_values(|l: IfListV| list_text(l)),
                self@ == seq_view(self.lists@),
                texts.len() == self.lists@.len(),
                r@ == joined(texts.subrange(0, i as int), " "@),
            decreases self.lists.len() - i,
        {
            proof {
                crate::element::lemma_seq_view(self.lists@);
                lemma_joined_push(texts.subrange(0, i as int), " "@, texts[i as int]);
            }
            assert(texts.subrange(0, i + 1) =~= texts.subrange(0, i as int).push(texts[i as int]));
            if i > 0 {
                r.append(" ");
            }
            let t = self.lists[i].to_string();
            r.append(t.as_str());
            i = i + 1;
        }
        assert(texts.subrange(0, texts.len() as int) =~= texts);
        r
    }
}

/// The `Lock-Token` header (section 10.5): the token, without the `<` `>`
/// of its coded URL.
#[derive(Debug, PartialEq)]
pub struct LockTokenHeader(pub String);

impl View for LockTokenHeader {
    type V = Seq<char>;

    open spec fn view(&self) -> Seq<char> {
        self.0@
    }
}

/// The token a `Lock-Token` header names. The text is trimmed; a `<` at
/// its start and a `>` at its end are taken off together (and what is
/// inside is trimmed again), while one of them alone makes the text
/// invalid, as does an empty token.
pub open spec fn parse_lock_token(s: Seq<char>) -> Option<Seq<char>> {
    let t = trim(s);
    let open = t.len() > 0 && t[0] == '<';
    let close = t.len() > 0 && t.last() == '>';
    let token = if open && close {
        Some(trim(t.subrange(1, t.len() - 1)))
    } else if !open && !close {
        Some(t)
    } else {
        None
    };
    match token {
        Some(k) => if k.len() == 0 {
            None
        } else {
            Some(k)
        },
        None => None,
    }
}

impl LockTokenHeader {
    /// `<token>`.
    pub fn to_string(&self) -> (r: String)
        ensures
            r@ == "<"@ + self@ + ">"@,
    {
        let mut r = string_of("<");
        r.append(self.0.as_str());
        r.append(">");
        r
    }

    /// Reads a coded URL, or a bare token.
    pub fn from_str(s: &str) -> (r: Result<LockTokenHeader, InvalidHeader>)
        ensures
            match parse_lock_token(s@) {
                Some(k) => r matches Ok(x) && x@ == k,
                None => r matches Err(e) && e@ == (InvalidHeaderV { header: "Lock-Token"@, value: s@ }),
            },
    {
        let chars = to_chars(s);
        let t = trim_chars(chars.as_slice());
        let n = t.len();
        let open = n > 0 && t[0] == '<';
        let close = n > 0 && t[n - 1] == '>';
        let token = if open && close {
            let inner = crate::text::subchars(t.as_slice(), 1, n - 1);
            trim_chars(inner.as_slice())
        } else if !open && !close {
            t
        } else {
            return Err(InvalidHeader::new("Lock-Token", s));
        };
        if token.len() == 0 {
            return Err(InvalidHeader::new("Lock-Token", s));
        }
        Ok(LockTokenHeader(from_chars(token.as_slice())))
    }
}

/// Reading back a written `Lock-Token` header gives its token, when the
/// token is not empty and has no whitespace at either end.
pub proof fn lemma_lock_token_round_trip(k: Seq<char>)
    requires
        k.len() > 0,
        !is_ws(k[0]),
        !is_ws(k.last()),
    ensures
        parse_lock_token("<"@ + k + ">"@) == Some(k),
{
    reveal_strlit("<");
    reveal_strlit(">");
    let s = "<"@ + k + ">"@;
    crate::text::lemma_trim_plain(s);
    crate::text::lemma_trim_plain(k);
    assert(s.subrange(1, s.len() - 1) =~= k);
}

/// The non-empty pieces, in order.
pub open spec fn nonempty_pieces(ps: Seq<Seq<char>>) -> Seq<Seq<char>>
    decreases ps.len(),
{
    if ps.len() == 0 {
        Seq::empty()
    } else if ps.last().len() > 0 {
        nonempty_pieces(ps.drop_last()).push(ps.last())
    } else {
        nonempty_pieces(ps.drop_last())
    }
}

/// The compliance classes a `DAV` header lists: its comma-separated
/// pieces, trimmed, without the empty ones.
pub open spec fn dav_classes(s: Seq<char>) -> Seq<Seq<char>> {
    nonempty_pieces(trimmed_all(comma_pieces(s)))
}

/// The `DAV` response header (section 10.1): the compliance classes the
/// server advertises.
#[derive(Debug, PartialEq)]
pub struct DavHeader {
    /// The classes, such as `1`, `2`, `3` or `extended-mkcol`.
    pub classes: Vec<String>,
}

impl View for DavHeader {
    type V = Seq<Seq<char>>;

    open spec fn view(&self) -> Seq<Seq<char>> {
        seq_view(self.classes@)
    }
}

impl Default for DavHeader {
    fn default() -> (r: DavHeader)
        ensures
            r@ == Seq::<Seq<char>>::empty(),
    {
        let classes: Vec<String> = Vec::new();
        let r = DavHeader { classes };
        assert(r@ =~= Seq::<Seq<char>>::empty());
        r
    }
}

impl DavHeader {
    /// Whether class `2` (locking) is advertised.
    pub fn supports_locking(&self) -> (r: bool)
        ensures
            r == self@.contains("2"@),
    {
        let mut i: usize = 0;
        while i < self.classes.len()
            invariant
                i <= self.classes@.len(),
                forall|j: int| 0 <= j < i ==> self.classes@[j]@ != "2"@,
            decreases self.classes.len() - i,
        {
            if text_is(self.classes[i].as_str(), "2") {
                proof {
                    crate::element::lemma_seq_view(self.classes@);
                }
                assert(self@[i as int] == "2"@);
                return true;
            }
            i = i + 1;
        }
        proof {
            crate::element::lemma_seq_view(self.classes@);
        }
        assert(!self@.contains("2"@));
        false
    }

    /// Reads the comma-separated classes; no text is invalid.
    pub fn from_str(s: &str) -> (r: Result<DavHeader, InvalidHeader>)
        ensures
            r matches Ok(h) && h@ == dav_classes(s@),
    {
        let pieces = comma_pieces_trimmed(s);
        let ghost ps = trimmed_all(comma_pieces(s@));
        let mut classes: Vec<String> = Vec::new();
        let mut i: usize = 0;
        assert(ps.subrange(0, 0) =~= Seq::<Seq<char>>::empty());
        while i < pieces.len()
            invariant
                i <= pieces@.len(),
                ps == trimmed_all(comma_pieces(s@)),
                pieces@.len() == ps.len(),
                forall|j: int| 0 <= j < pieces@.len() ==> #[trigger] pieces@[j]@ == ps[j],
                seq_view(classes@) == nonempty_pieces(ps.subrange(0, i as int)),
            decreases pieces.len() - i,
        {
            assert(ps.subrange(0, i + 1).drop_last() =~= ps.subrange(0, i as int));
            assert(ps.subrange(0, i + 1).last() == pieces@[i as int]@);
            if !pieces[i].as_str().is_empty() {
                let ghost before = classes@;
                let c = pieces[i].clone();
                classes.push(c);
                proof {
                    crate::element::lemma_seq_view_push(before, c);
                }
            }
            i = i + 1;
        }
        assert(ps.subrange(0, ps.len() as int) =~= ps);
        Ok(DavHeader { classes })
    }
}

/// The timeouts the pieces name, or `None` when one of them is not a
/// timeout.
pub open spec fn timeouts_of(ps: Seq<Seq<char>>) -> Option<Seq<Timeout>>
    decreases ps.len(),
{
    if ps.len() == 0 {
        Some(Seq::empty())
    } else {
        match timeouts_of(ps.drop_last()) {
            None => None,
            Some(ts) => match parse_timeout(ps.last()) {
                Ok(t) => Some(ts.push(t)),
                Err(_) => None,
            },
        }
    }
}

proof fn lemma_timeouts_prefix_none(ps: Seq<Seq<char>>, k: int, j: int)
    requires
        0 <= k <= j <= ps.len(),
        timeouts_of(ps.subrange(0, k)) is None,
    ensures
        timeouts_of(ps.subrange(0, j)) is None,
    decreases j - k,
{
    if j > k {
        lemma_timeouts_prefix_none(ps, k, j - 1);
        assert(ps.subrange(0, j).drop_last() =~= ps.subrange(0, j - 1));
    }
}

/// How a list of timeouts is written: separated by `, `.
pub open spec fn timeouts_text(ts: Seq<Timeout>) -> Seq<char> {
    joined(ts.map_values(|t: Timeout| timeout_text(t)), ", "@)
}

/// The `Timeout` request header (section 10.7): the timeouts asked for,
/// the most wanted first.
#[derive(Debug, PartialEq)]
pub struct TimeoutHeader(pub Vec<Timeout>);

impl View for TimeoutHeader {
    type V = Seq<Timeout>;

    open spec fn view(&self) -> Seq<Timeout> {
        self.0@
    }
}

impl TimeoutHeader {
    /// The timeouts separated by `, `.
    pub fn to_string(&self) -> (r: String)
        ensures
            r@ == timeouts_text(self@),
    {
        let ghost texts = self@.map_values(|t: Timeout| timeout_text(t));
        let mut r = String::new();
        let mut i: usize = 0;
        assert(texts.subrange(0, 0) =~= Seq::<Seq<char>>::empty());
        while i < self.0.len()
            invariant
                i <= self.0@.len(),
                texts == self@.map_values(|t: Timeout| timeout_text(t)),
                texts.len() == self.0@.len(),
                r@ == joined(texts.subrange(0, i as int), ", "@),
            decreases self.0.len() - i,
        {
            proof {
                lemma_joined_push(texts.subrange(0, i as int), ", "@, texts[i as int]);
            }
            assert(texts.subrange(0, i + 1) =~= texts.subrange(0, i as int).push(texts[i as int]));
            if i > 0 {
                r.append(", ");
            }
            let t = self.0[i].to_string();
            r.append(t.as_str());
            i = i + 1;
        }
        assert(texts.subrange(0, texts.len() as int) =~= texts);
        r
    }

    /// Reads the comma-separated timeouts; when one of them is invalid,
    /// the error holds the whole header text.
    pub fn from_str(s: &str) -> (r: Result<TimeoutHeader, InvalidHeader>)
        ensures
            match timeouts_of(trimmed_all(comma_pieces(s@))) {
                Some(ts) => r matches Ok(h) && h@ == ts,
                None => r matches Err(e) && e@ == (InvalidHeaderV { header: "Timeout"@, value: s@ }),
            },
    {
        let pieces = comma_pieces_trimmed(s);
        let ghost ps = trimmed_all(comma_pieces(s@));
        let mut ts: Vec<Timeout> = Vec::new();
        let mut i: usize = 0;
        assert(ps.subrange(0, 0) =~= Seq::<Seq<char>>::empty());
        while i < pieces.len()
            invariant
                i <= pieces@.len(),
                ps == trimmed_all(comma_pieces(s@)),
                pieces@.len() == ps.len(),
                forall|j: int| 0 <= j < pieces@.len() ==> #[trigger] pieces@[j]@ == ps[j],
                timeouts_of(ps.subrange(0, i as int)) == Some(ts@),
            decreases pieces.len() - i,
        {
            assert(ps.subrange(0, i + 1).drop_last() =~= ps.subrange(0, i as int));
            assert(ps.subrange(0, i + 1).last() == pieces@[i as int]@);
            match Timeout::from_str(pieces[i].as_str()) {
                Ok(t) => {
                    ts.push(t);
                },
                Err(_) => {
                    proof {
                        lemma_timeouts_prefix_none(ps, i + 1, ps.len() as int);
                        assert(ps.subrange(0, ps.len() as int) =~= ps);
                    }
                    return Err(InvalidHeader::new("Timeout", s));
                },
            }
            i = i + 1;
        }
        assert(ps.subrange(0, ps.len() as int) =~= ps);
        Ok(TimeoutHeader(ts))
    }
}

impl std::str::FromStr for Overwrite {
    type Err = InvalidHeader;

    fn from_str(s: &str) -> Result<Overwrite, InvalidHeader> {
        Overwrite::from_str(s)
    }
}

impl std::str::FromStr for LockTokenHeader {
    type Err = InvalidHeader;

    fn from_str(s: &str) -> Result<LockTokenHeader, InvalidHeader> {
        LockTokenHeader::from_str(s)
    }
}

impl std::str::FromStr for DavHeader {
    type Err = InvalidHeader;

    fn from_str(s: &str) -> Result<DavHeader, InvalidHeader> {
        DavHeader::from_str(s)
    }
}

impl std::str::FromStr for TimeoutHeader {
    type Err = InvalidHeader;

    fn from_str(s: &str) -> Result<TimeoutHeader, InvalidHeader> {
        TimeoutHeader::from_str(s)
    }
}

/// A timeout as it is written: one longer than the RFC allows is written as
/// the limit.
pub open spec fn clamped(t: Timeout) -> Timeout {
    match t {
        Timeout::Seconds(n) => if n > MAX_TIMEOUT_SECONDS {
            Timeout::Seconds(MAX_TIMEOUT_SECONDS)
        } else {
            t
        },
        Timeout::Infinite => t,
    }
}

/// Whether a text has no comma.
pub open spec fn comma_free(t: Seq<char>) -> bool {
    forall|i: int| 0 <= i < t.len() ==> t[i] != ','
}

proof fn lemma_comma_state_plain(s: Seq<char>, t: Seq<char>)
    requires
        comma_free(t),
    ensures
        comma_state(s + t) == (comma_state(s).0, comma_state(s).1 + t),
    decreases t.len(),
{
    if t.len() == 0 {
        assert(s + t =~= s);
        assert(comma_state(s).1 + t =~= comma_state(s).1);
    } else {
        lemma_comma_state_plain(s, t.drop_last());
        assert((s + t).drop_last() =~= s + t.drop_last());
        assert((s + t).last() == t.last());
        assert((comma_state(s).1 + t.drop_last()).push(t.last()) =~= comma_state(s).1 + t);
    }
}

/// The pieces of texts joined with `, `: the first text, then each other
/// one after a space.
pub open spec fn spaced(ps: Seq<Seq<char>>) -> Seq<Seq<char>> {
    Seq::new(ps.len(), |i: int| if i == 0 { ps[0] } else { " "@ + ps[i] })
}

proof fn lemma_comma_pieces_joined(ps: Seq<Seq<char>>)
    requires
        ps.len() > 0,
        forall|i: int| 0 <= i < ps.len() ==> comma_free(#[trigger] ps[i]),
    ensures
        comma_pieces(joined(ps, ", "@)) == spaced(ps),
    decreases ps.len(),
{
    reveal_strlit(", ");
    reveal_strlit(" ");
    if ps.len() == 1 {
        lemma_comma_state_plain(Seq::empty(), ps[0]);
        assert(Seq::<char>::empty() + ps[0] =~= ps[0]);
        assert(comma_state(Seq::<char>::empty()) == (Seq::<Seq<char>>::empty(), Seq::<char>::empty()));
        assert(spaced(ps) =~= seq![ps[0]]);
        assert(comma_pieces(ps[0]) =~= seq![ps[0]]);
    } else {
        let front = ps.drop_last();
        assert forall|i: int| 0 <= i < front.len() implies comma_free(#[trigger] front[i]) by {
            assert(front[i] == ps[i]);
        }
        lemma_comma_pieces_joined(front);
        let j = joined(front, ", "@);
        let tail = " "@ + ps.last();
        assert(ps[ps.len() - 1] == ps.last());
        assert(comma_free(tail)) by {
            assert forall|i: int| 0 <= i < tail.len() implies tail[i] != ',' by {
                if i > 0 {
                    assert(tail[i] == ps.last()[i - 1]);
                }
            }
        }
        assert(joined(ps, ", "@) =~= j.push(',') + tail);
        assert(j.push(',').drop_last() =~= j);
        lemma_comma_state_plain(j.push(','), tail);
        assert(Seq::<char>::empty() + tail =~= tail);
        assert(spaced(ps) =~= spaced(front).push(tail));
        assert(comma_pieces(joined(ps, ", "@)) =~= comma_pieces(j).push(tail));
    }
}

/// What every written timeout text is like: no comma, not empty, and no
/// whitespace at either end.
proof fn lemma_timeout_text_plain(t: Timeout)
    ensures
        comma_free(timeout_text(t)),
        timeout_text(t).len() > 0,
        !is_ws(timeout_text(t)[0]),
        !is_ws(timeout_text(t).last()),
{
    reveal_strlit("Infinite");
    reveal_strlit("Second-");
    match t {
        Timeout::Infinite => {},
        Timeout::Seconds(n) => {
            let m: u64 = if n > MAX_TIMEOUT_SECONDS {
                MAX_TIMEOUT_SECONDS
            } else {
                n
            };
            let d = crate::text::decimal_text(m as nat);
            crate::text::lemma_decimal_text_digits(m as nat);
            let s = "Second-"@ + d;
            assert(timeout_text(t) == s);
            assert forall|i: int| 0 <= i < s.len() implies s[i] != ',' by {
                if i >= 7 {
                    assert(s[i] == d[i - 7]);
                    assert(crate::text::is_digit(d[i - 7]));
                }
            }
            assert(crate::text::is_digit(d[d.len() - 1]));
        },
    }
}

proof fn lemma_timeouts_of_texts(ts: Seq<Timeout>)
    ensures
        timeouts_of(ts.map_values(|t: Timeout| timeout_text(t))) == Some(ts.map_values(|t: Timeout| clamped(t))),
    decreases ts.len(),
{
    let texts = ts.map_values(|t: Timeout| timeout_text(t));
    if ts.len() == 0 {
        assert(texts.len() == 0);
        assert(ts.map_values(|t: Timeout| clamped(t)) =~= Seq::<Timeout>::empty());
    } else {
        lemma_timeouts_of_texts(ts.drop_last());
        assert(texts.drop_last() =~= ts.drop_last().map_values(|t: Timeout| timeout_text(t)));
        assert(texts.last() == timeout_text(ts.last()));
        crate::elements::timeout::lemma_timeout_text_round_trip(ts.last());
        assert(ts.drop_last().map_values(|t: Timeout| clamped(t)).push(clamped(ts.last())) =~= ts.map_values(
            |t: Timeout| clamped(t),
        ));
    }
}

/// Reading back a written `Timeout` header gives its timeouts, one longer
/// than the RFC allows as the limit, when it has at least one.
pub proof fn lemma_timeout_header_round_trip(ts: Seq<Timeout>)
    requires
        ts.len() > 0,
    ensures
        timeouts_of(trimmed_all(comma_pieces(timeouts_text(ts)))) == Some(ts.map_values(|t: Timeout| clamped(t))),
{
    let texts = ts.map_values(|t: Timeout| timeout_text(t));
    assert forall|i: int| 0 <= i < texts.len() implies comma_free(#[trigger] texts[i]) by {
        lemma_timeout_text_plain(ts[i]);
    }
    lemma_comma_pieces_joined(texts);
    reveal_strlit(" ");
    assert(trimmed_all(spaced(texts)) =~= texts) by {
        assert forall|i: int| 0 <= i < texts.len() implies #[trigger] trim(spaced(texts)[i]) == texts[i] by {
            lemma_timeout_text_plain(ts[i]);
            crate::text::lemma_trim_plain(texts[i]);
            if i > 0 {
                let p = " "@ + texts[i];
                assert(p.drop_first() =~= texts[i]);
                assert(crate::text::trim_start(p) == crate::text::trim_start(texts[i]));
            }
        }
    }
    lemma_timeouts_of_texts(ts);
}

/// A header with one untagged list requiring a token is written as
/// `(<token>)`.
pub proof fn lemma_untagged_if_text(token: Seq<char>)
    ensures
        if_text(seq![IfListV { resource: None, conditions: seq![IfConditionV::Token { token, not: false }] }])
            == "(<"@ + token + ">)"@,
{
    reveal_strlit("(<");
    reveal_strlit(">)");
    reveal_strlit("(");
    reveal_strlit(")");
    reveal_strlit("<");
    reveal_strlit(">");
    let c = IfConditionV::Token { token, not: false };
    let l = IfListV { resource: None, conditions: seq![c] };
    assert(seq![c].map_values(|x: IfConditionV| condition_text(x)) =~= seq![condition_text(c)]);
    assert(seq![l].map_values(|x: IfListV| list_text(x)) =~= seq![list_text(l)]);
    assert(not_text(false) =~= Seq::<char>::empty());
    assert(list_text(l) =~= "(<"@ + token + ">)"@);
}

} // verus!
