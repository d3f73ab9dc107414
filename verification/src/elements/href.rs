//! The `href` element: a URI reference.
use vstd::prelude::*;

use crate::element::Element;
use crate::error::{res_view, Error, ErrorV};
use crate::name::opt_view;
use crate::text::{string_of, subchars, to_chars};
use crate::value::{Value, ValueV};

verus! {

/// The parts of a URI that [`http::Uri`] parsed.
#[derive(Debug, PartialEq, Eq)]
pub struct UriParts {
    /// The scheme, if the URI has one.
    pub scheme: Option<String>,
    /// The host, if the URI has an authority.
    pub host: Option<String>,
    /// The path (empty when the URI has none).
    pub path: String,
    /// The URI as `http::Uri` displays it.
    pub text: String,
}

pub struct UriPartsV {
    pub scheme: Option<Seq<char>>,
    pub host: Option<Seq<char>>,
    pub path: Seq<char>,
    pub text: Seq<char>,
}

impl View for UriParts {
    type V = UriPartsV;

    open spec fn view(&self) -> UriPartsV {
        UriPartsV {
            scheme: opt_view(self.scheme),
            host: opt_view(self.host),
            path: self.path@,
            text: self.text@,
        }
    }
}

impl UriParts {
    /// Parses a URI reference as `http::Uri` does, or gives its error's
    /// message.
    pub fn parse(text: &str) -> (r: Result<UriParts, String>)
        ensures
            match r {
                Ok(p) => parsed_uri(text@) == Ok::<UriPartsV, Seq<char>>(p@),
                Err(m) => parsed_uri(text@) == Err::<UriPartsV, Seq<char>>(m@),
            },
    {
        parse_uri(text)
    }

    /// A copy.
    pub fn copy(&self) -> (r: Self)
        ensures
            r@ == self@,
    {
        UriParts {
            scheme: crate::name::copy_opt(&self.scheme),
            host: crate::name::copy_opt(&self.host),
            path: self.path.clone(),
            text: self.text.clone(),
        }
    }
}

/// What `http::Uri` makes of a text: its parts, or the error's message.
pub uninterp spec fn parsed_uri(text: Seq<char>) -> Result<UriPartsV, Seq<char>>;

/// Parses a URI reference with `http::Uri::from_str`, handing back the parts
/// this crate reads of it, or the error's message.
#[verifier::external_body]
pub(crate) fn parse_uri(text: &str) -> (r: Result<UriParts, String>)
    ensures
        match r {
            Ok(p) => parsed_uri(text@) == Ok::<UriPartsV, Seq<char>>(p@),
            Err(m) => parsed_uri(text@) == Err::<UriPartsV, Seq<char>>(m@),
        },
{
    match text.parse::<http::Uri>() {
        Ok(uri) => Ok(UriParts {
            scheme: uri.scheme_str().map(str::to_owned),
            host: uri.host().map(str::to_owned),
            path: uri.path().to_owned(),
            text: uri.to_string(),
        }),
        Err(error) => Err(error.to_string()),
    }
}

/// The `href` XML element as defined in
/// [RFC 4918](http://webdav.org/specs/rfc4918.html#ELEMENT_href).
#[derive(Debug, PartialEq, Eq)]
pub enum Href {
    /// A URI that `http::Uri` parses.
    Uri(UriParts),
    /// An opaque URI reference that `http::Uri` cannot parse.
    Raw(String),
}

pub enum HrefV {
    Uri(UriPartsV),
    Raw(Seq<char>),
}

impl View for Href {
    type V = HrefV;

    open spec fn view(&self) -> HrefV {
        match self {
            Href::Uri(p) => HrefV::Uri(p@),
            Href::Raw(s) => HrefV::Raw(s@),
        }
    }
}

/// The text of a URI reference that `http::Uri` rejects.
#[derive(Debug, PartialEq)]
pub struct InvalidHref(pub String);

pub open spec fn is_alpha(c: char) -> bool {
    ('a' <= c && c <= 'z') || ('A' <= c && c <= 'Z')
}

pub open spec fn is_alnum(c: char) -> bool {
    is_alpha(c) || ('0' <= c && c <= '9')
}

pub open spec fn is_hex(c: char) -> bool {
    ('0' <= c && c <= '9') || ('a' <= c && c <= 'f') || ('A' <= c && c <= 'F')
}

/// Unreserved, sub-delimiter and path characters of RFC 3986.
pub open spec fn is_uri_char(c: char) -> bool {
    is_alnum(c) || c == '-' || c == '.' || c == '_' || c == '~' || c == '!' || c == '$' || c
        == '&' || c == '\'' || c == '(' || c == ')' || c == '*' || c == '+' || c == ',' || c
        == ';' || c == '=' || c == ':' || c == '@' || c == '/' || c == '?'
}

/// A scheme: a letter, then letters, digits, `+`, `-` and `.`.
pub open spec fn is_scheme(s: Seq<char>) -> bool {
    &&& s.len() > 0
    &&& is_alpha(s[0])
    &&& forall|i: int|
        1 <= i < s.len() ==> is_alnum(#[trigger] s[i]) || s[i] == '+' || s[i] == '-' || s[i]
            == '.'
}

/// The text from `i` on is made of URI characters and `%` escapes.
pub open spec fn is_component_from(s: Seq<char>, i: int) -> bool
    decreases s.len() - i,
{
    if i < 0 || i >= s.len() {
        true
    } else if s[i] == '%' {
        i + 3 <= s.len() && is_hex(s[i + 1]) && is_hex(s[i + 2]) && is_component_from(s, i + 3)
    } else {
        is_uri_char(s[i]) && is_component_from(s, i + 1)
    }
}

pub open spec fn is_component(s: Seq<char>) -> bool {
    is_component_from(s, 0)
}

/// The index of the first `c` in `s`, or -1.
pub open spec fn index_of(s: Seq<char>, c: char) -> int
    decreases s.len(),
{
    if s.len() == 0 {
        -1
    } else if s[0] == c {
        0
    } else {
        let r = index_of(s.subrange(1, s.len() as int), c);
        if r < 0 {
            -1
        } else {
            r + 1
        }
    }
}

/// The index of the first `?` or `#` in `s`, or its length.
pub open spec fn path_end(s: Seq<char>) -> int
    decreases s.len(),
{
    if s.len() == 0 {
        0
    } else if s[0] == '?' || s[0] == '#' {
        0
    } else {
        path_end(s.subrange(1, s.len() as int)) + 1
    }
}

/// An opaque URI such as `urn:uuid:...`: a scheme, a colon, a path that does
/// not start with `/`, and an optional query and fragment.
pub open spec fn is_opaque_uri(v: Seq<char>) -> bool {
    let c = index_of(v, ':');
    if c < 0 {
        false
    } else {
        let rest = v.subrange(c + 1, v.len() as int);
        let e = path_end(rest);
        let path = rest.subrange(0, e);
        let suffix = rest.subrange(e, rest.len() as int);
        &&& is_scheme(v.subrange(0, c))
        &&& path.len() > 0
        &&& path[0] != '/'
        &&& is_component(path)
        &&& if suffix.len() > 0 && suffix[0] == '?' {
            let qf = suffix.subrange(1, suffix.len() as int);
            let h = index_of(qf, '#');
            if h >= 0 {
                is_component(qf.subrange(0, h)) && is_component(qf.subrange(h + 1, qf.len() as int))
            } else {
                is_component(qf)
            }
        } else if suffix.len() > 0 && suffix[0] == '#' {
            is_component(suffix.subrange(1, suffix.len() as int))
        } else {
            true
        }
    }
}

/// What parsing a text as an `href` gives.
pub open spec fn parse_href(s: Seq<char>) -> Result<HrefV, Seq<char>> {
    match parsed_uri(s) {
        Ok(p) => Ok(HrefV::Uri(p)),
        Err(m) => if is_opaque_uri(s) {
            Ok(HrefV::Raw(s))
        } else {
            Err(m)
        },
    }
}

/// The text of an `href`.
pub open spec fn href_text(h: HrefV) -> Seq<char> {
    match h {
        HrefV::Uri(p) => p.text,
        HrefV::Raw(s) => s,
    }
}

pub proof fn lemma_index_of(s: Seq<char>, c: char)
    ensures
        -1 <= index_of(s, c) < s.len(),
        index_of(s, c) >= 0 ==> s[index_of(s, c)] == c,
        forall|j: int| 0 <= j < s.len() && (index_of(s, c) < 0 || j < index_of(s, c)) ==> #[trigger] s[j] != c,
    decreases s.len(),
{
    if s.len() > 0 && s[0] != c {
        let t = s.subrange(1, s.len() as int);
        lemma_index_of(t, c);
        assert forall|j: int| 1 <= j < s.len() implies #[trigger] s[j] == t[j - 1] by {}
    }
}

pub proof fn lemma_path_end(s: Seq<char>)
    ensures
        0 <= path_end(s) <= s.len(),
        path_end(s) < s.len() ==> s[path_end(s)] == '?' || s[path_end(s)] == '#',
        forall|j: int| 0 <= j < path_end(s) ==> #[trigger] s[j] != '?' && s[j] != '#',
    decreases s.len(),
{
    if s.len() > 0 && s[0] != '?' && s[0] != '#' {
        let t = s.subrange(1, s.len() as int);
        lemma_path_end(t);
        assert forall|j: int| 1 <= j < s.len() implies #[trigger] s[j] == t[j - 1] by {}
    }
}

pub fn find_char(s: &[char], c: char) -> (r: Option<usize>)
    ensures
        match r {
            Some(i) => i as int == index_of(s@, c) && i < s@.len() && s@[i as int] == c,
            None => index_of(s@, c) == -1,
        },
{
    proof {
        lemma_index_of(s@, c);
    }
    let mut i: usize = 0;
    while i < s.len()
        invariant
            i <= s.len(),
            -1 <= index_of(s@, c) < s@.len(),
            index_of(s@, c) >= 0 ==> s@[index_of(s@, c)] == c,
            forall|j: int| 0 <= j < s@.len() && (index_of(s@, c) < 0 || j < index_of(s@, c)) ==> #[trigger] s@[j] != c,
            forall|j: int| 0 <= j < i ==> #[trigger] s@[j] != c,
        decreases s.len() - i,
    {
        if s[i] == c {
            return Some(i);
        }
        i = i + 1;
    }
    None
}

fn find_path_end(s: &[char]) -> (r: usize)
    ensures
        r as int == path_end(s@),
        r <= s@.len(),
{
    proof {
        lemma_path_end(s@);
    }
    let mut i: usize = 0;
    while i < s.len()
        invariant
            i <= s.len(),
            0 <= path_end(s@) <= s@.len(),
            path_end(s@) < s@.len() ==> s@[path_end(s@)] == '?' || s@[path_end(s@)] == '#',
            forall|j: int| 0 <= j < path_end(s@) ==> #[trigger] s@[j] != '?' && s@[j] != '#',
            forall|j: int| 0 <= j < i ==> #[trigger] s@[j] != '?' && s@[j] != '#',
        decreases s.len() - i,
    {
        if s[i] == '?' || s[i] == '#' {
            return i;
        }
        i = i + 1;
    }
    i
}

pub fn is_alpha_char(c: char) -> (r: bool)
    ensures
        r == is_alpha(c),
{
    ('a' <= c && c <= 'z') || ('A' <= c && c <= 'Z')
}

pub fn is_alnum_char(c: char) -> (r: bool)
    ensures
        r == is_alnum(c),
{
    is_alpha_char(c) || ('0' <= c && c <= '9')
}

pub fn is_hex_char(c: char) -> (r: bool)
    ensures
        r == is_hex(c),
{
    ('0' <= c && c <= '9') || ('a' <= c && c <= 'f') || ('A' <= c && c <= 'F')
}

/// Whether `c` may stand unescaped in a URI component.
pub fn is_uri_character(c: char) -> (r: bool)
    ensures
        r == is_uri_char(c),
{
    is_alnum_char(c) || c == '-' || c == '.' || c == '_' || c == '~' || c == '!' || c == '$' || c
        == '&' || c == '\'' || c == '(' || c == ')' || c == '*' || c == '+' || c == ',' || c
        == ';' || c == '=' || c == ':' || c == '@' || c == '/' || c == '?'
}

/// Whether `s` is a URI scheme.
pub fn is_valid_scheme(s: &[char]) -> (r: bool)
    ensures
        r == is_scheme(s@),
{
    if s.len() == 0 || !is_alpha_char(s[0]) {
        return false;
    }
    let mut i: usize = 1;
    while i < s.len()
        invariant
            1 <= i <= s.len(),
            forall|j: int| 1 <= j < i ==> is_alnum(#[trigger] s@[j]) || s@[j] == '+' || s@[j] == '-' || s@[j] == '.',
        decreases s.len() - i,
    {
        let c = s[i];
        if !(is_alnum_char(c) || c == '+' || c == '-' || c == '.') {
            return false;
        }
        i = i + 1;
    }
    true
}

/// Whether `s` is made of URI characters and well-formed `%` escapes.
pub fn is_valid_uri_component(s: &[char]) -> (r: bool)
    ensures
        r == is_component(s@),
{
    let mut i: usize = 0;
    while i < s.len()
        invariant
            i <= s.len(),
            is_component(s@) == is_component_from(s@, i as int),
        decreases s.len() - i,
    {
        if s[i] == '%' {
            if s.len() - i < 3 || !is_hex_char(s[i + 1]) || !is_hex_char(s[i + 2]) {
                return false;
            }
            i = i + 3;
        } else {
            if !is_uri_character(s[i]) {
                return false;
            }
            i = i + 1;
        }
    }
    true
}

/// Whether `v` is an opaque URI such as `urn:uuid:...`.
pub fn is_valid_opaque_uri(v: &[char]) -> (r: bool)
    ensures
        r == is_opaque_uri(v@),
{
    let c = match find_char(v, ':') {
        Some(c) => c,
        None => return false,
    };
    let n = v.len();
    assert(c < n);
    let rest = subchars(v, c + 1, n);
    let scheme = subchars(v, 0, c);
    if !is_valid_scheme(scheme.as_slice()) {
        return false;
    }
    let e = find_path_end(rest.as_slice());
    let path = subchars(rest.as_slice(), 0, e);
    let suffix = subchars(rest.as_slice(), e, rest.len());
    if path.len() == 0 || path[0] == '/' || !is_valid_uri_component(path.as_slice()) {
        return false;
    }
    if suffix.len() > 0 && suffix[0] == '?' {
        let qf = subchars(suffix.as_slice(), 1, suffix.len());
        match find_char(qf.as_slice(), '#') {
            Some(h) => {
                let q = subchars(qf.as_slice(), 0, h);
                let f = subchars(qf.as_slice(), h + 1, qf.len());
                is_valid_uri_component(q.as_slice()) && is_valid_uri_component(f.as_slice())
            },
            None => is_valid_uri_component(qf.as_slice()),
        }
    } else if suffix.len() > 0 && suffix[0] == '#' {
        let f = subchars(suffix.as_slice(), 1, suffix.len());
        is_valid_uri_component(f.as_slice())
    } else {
        true
    }
}

impl Href {
    /// Parses a URI reference: what `http::Uri` accepts, else an opaque URI.
    pub fn from_str(value: &str) -> (r: Result<Href, InvalidHref>)
        ensures
            match parse_href(value@) {
                Ok(h) => (r matches Ok(x) && x@ == h),
                Err(m) => (r matches Err(e) && e.0@ == m),
            },
    {
        match parse_uri(value) {
            Ok(parts) => Ok(Href::Uri(parts)),
            Err(m) => {
                let chars = to_chars(value);
                if is_valid_opaque_uri(chars.as_slice()) {
                    Ok(Href::Raw(string_of(value)))
                } else {
                    Err(InvalidHref(m))
                }
            },
        }
    }

    /// The URI scheme, if present.
    pub fn scheme_str(&self) -> (r: Option<String>)
        ensures
            opt_view(r) == match self@ {
                HrefV::Uri(p) => p.scheme,
                HrefV::Raw(s) => {
                    let c = index_of(s, ':');
                    if c > 0 {
                        Some(s.subrange(0, c))
                    } else {
                        None
                    }
                },
            },
    {
        match self {
            Href::Uri(p) => crate::name::copy_opt(&p.scheme),
            Href::Raw(s) => {
                let chars = to_chars(s.as_str());
                match find_char(chars.as_slice(), ':') {
                    Some(c) => if c > 0 {
                        let head = subchars(chars.as_slice(), 0, c);
                        Some(crate::text::from_chars(head.as_slice()))
                    } else {
                        None
                    },
                    None => None,
                }
            },
        }
    }

    /// The URI host, if present.
    pub fn host(&self) -> (r: Option<String>)
        ensures
            opt_view(r) == match self@ {
                HrefV::Uri(p) => p.host,
                HrefV::Raw(_) => None,
            },
    {
        match self {
            Href::Uri(p) => crate::name::copy_opt(&p.host),
            Href::Raw(_) => None,
        }
    }

    /// The URI path (empty for an opaque URI).
    pub fn path(&self) -> (r: String)
        ensures
            r@ == match self@ {
                HrefV::Uri(p) => p.path,
                HrefV::Raw(_) => Seq::empty(),
            },
    {
        match self {
            Href::Uri(p) => p.path.clone(),
            Href::Raw(_) => String::new(),
        }
    }

    /// The text of the reference.
    pub fn to_string(&self) -> (r: String)
        ensures
            r@ == href_text(self@),
    {
        match self {
            Href::Uri(p) => p.text.clone(),
            Href::Raw(s) => s.clone(),
        }
    }

    pub fn copy(&self) -> (r: Href)
        ensures
            r@ == self@,
    {
        match self {
            Href::Uri(p) => Href::Uri(p.copy()),
            Href::Raw(s) => Href::Raw(s.clone()),
        }
    }
}

impl Element for Href {
    open spec fn spec_local_name() -> Seq<char> {
        "href"@
    }

    fn local_name() -> (r: &'static str) {
        "href"
    }

    open spec fn spec_from_value(v: ValueV) -> Result<HrefV, ErrorV> {
        match v {
            ValueV::Text(t) => match parse_href(t) {
                Ok(h) => Ok(h),
                Err(m) => Err(ErrorV::InvalidElement { element: "href"@, source: m }),
            },
            _ => Err(ErrorV::InvalidValueType { element: "href"@, expected: "text"@ }),
        }
    }

    fn from_value(v: &Value) -> (r: Result<Href, Error>) {
        let text = match v.as_str_of_name("href") {
            Ok(t) => t,
            Err(e) => return Err(e),
        };
        match Href::from_str(text.as_str()) {
            Ok(h) => Ok(h),
            Err(InvalidHref(m)) => Err(Error::invalid("href", m)),
        }
    }

    open spec fn spec_into_value(x: HrefV) -> ValueV {
        ValueV::Text(href_text(x))
    }

    fn into_value(self) -> (r: Value) {
        Value::Text(self.to_string())
    }
}

impl std::str::FromStr for Href {
    type Err = InvalidHref;

    fn from_str(s: &str) -> Result<Href, InvalidHref> {
        Href::from_str(s)
    }
}

impl crate::element::Duplicate for Href {
    fn duplicate(&self) -> (r: Href) {
        self.copy()
    }
}

} // verus!
