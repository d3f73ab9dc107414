//! HTTP status lines.
use vstd::prelude::*;

use crate::element::Element;
use crate::elements::href::{find_char, index_of};
use crate::error::{Error, ErrorV};
use crate::name::opt_view;
use crate::text::{
    concat, decimal_text, from_chars, string_of, subchars, text_is, to_chars, trim, trim_text,
    u64_text,
};
use crate::value::{Value, ValueV};

verus! {

/// An HTTP protocol version.
#[derive(Clone, Copy, Debug, PartialEq, Eq, Hash)]
pub enum HttpVersion {
    Http09,
    Http10,
    Http11,
    Http2,
    Http3,
}

/// The `status` element: an HTTP status line such as `HTTP/1.1 200 OK`.
#[derive(Debug, PartialEq)]
pub struct Status {
    /// The status code, from 100 to 999.
    pub code: u16,
    /// The protocol version.
    pub version: HttpVersion,
    /// The reason phrase, if any.
    pub reason: Option<String>,
}

pub struct StatusV {
    pub code: u16,
    pub version: HttpVersion,
    pub reason: Option<Seq<char>>,
}

impl View for Status {
    type V = StatusV;

    open spec fn view(&self) -> StatusV {
        StatusV { code: self.code, version: self.version, reason: opt_view(self.reason) }
    }
}

/// A status line that cannot be parsed; it holds the text.
#[derive(Debug, PartialEq)]
pub struct InvalidStatus(pub String);

pub open spec fn version_of(t: Seq<char>) -> Option<HttpVersion> {
    if t == "HTTP/0.9"@ {
        Some(HttpVersion::Http09)
    } else if t == "HTTP/1.0"@ {
        Some(HttpVersion::Http10)
    } else if t == "HTTP/1.1"@ {
        Some(HttpVersion::Http11)
    } else if t == "HTTP/2"@ || t == "HTTP/2.0"@ {
        Some(HttpVersion::Http2)
    } else if t == "HTTP/3"@ || t == "HTTP/3.0"@ {
        Some(HttpVersion::Http3)
    } else {
        None
    }
}

/// The version as `http::Version` displays it.
pub open spec fn version_text(v: HttpVersion) -> Seq<char> {
    match v {
        HttpVersion::Http09 => "HTTP/0.9"@,
        HttpVersion::Http10 => "HTTP/1.0"@,
        HttpVersion::Http11 => "HTTP/1.1"@,
        HttpVersion::Http2 => "HTTP/2.0"@,
        HttpVersion::Http3 => "HTTP/3.0"@,
    }
}

pub open spec fn digit_of(c: char) -> int {
    c as int - '0' as int
}

/// A status code as `http::StatusCode` reads one: three digits, the first
/// not zero.
pub open spec fn status_code_of(t: Seq<char>) -> Option<u16> {
    if t.len() == 3 && '1' <= t[0] <= '9' && '0' <= t[1] <= '9' && '0' <= t[2] <= '9' {
        Some((digit_of(t[0]) * 100 + digit_of(t[1]) * 10 + digit_of(t[2])) as u16)
    } else {
        None
    }
}

/// What parsing a status line gives: the version, a space, the code, and
/// optionally a space and the reason; anything else is the text itself.
pub open spec fn parse_status(s: Seq<char>) -> Result<StatusV, Seq<char>> {
    let t = trim(s);
    let i = index_of(t, ' ');
    let version = if i < 0 {
        t
    } else {
        t.subrange(0, i)
    };
    match version_of(version) {
        None => Err(s),
        Some(v) => if i < 0 {
            Err(s)
        } else {
            let rest = t.subrange(i + 1, t.len() as int);
            let j = index_of(rest, ' ');
            let code = if j < 0 {
                rest
            } else {
                rest.subrange(0, j)
            };
            match status_code_of(code) {
                None => Err(s),
                Some(c) => {
                    let reason = if j < 0 {
                        None
                    } else {
                        let r = trim(rest.subrange(j + 1, rest.len() as int));
                        if r.len() == 0 {
                            None
                        } else {
                            Some(r)
                        }
                    };
                    Ok(StatusV { code: c, version: v, reason })
                },
            }
        },
    }
}

/// The status line: version, code and reason.
pub open spec fn status_text(s: StatusV) -> Seq<char> {
    version_text(s.version) + " "@ + decimal_text(s.code as nat) + match s.reason {
        Some(r) => " "@ + r,
        None => Seq::empty(),
    }
}

pub open spec fn invalid_status_message(t: Seq<char>) -> Seq<char> {
    "invalid status: "@ + t
}

/// The reason phrase `http::StatusCode::canonical_reason` gives a code.
pub uninterp spec fn canonical_reason_of(code: u16) -> Option<Seq<char>>;

/// The standard reason phrase of a status code
/// (`http::StatusCode::canonical_reason`), if it has one.
#[verifier::external_body]
pub(crate) fn canonical_reason(code: u16) -> (r: Option<&'static str>)
    requires
        100 <= code <= 999,
    ensures
        match r {
            Some(t) => canonical_reason_of(code) == Some(t@),
            None => canonical_reason_of(code) is None,
        },
{
    http::StatusCode::from_u16(code).ok().and_then(|status| status.canonical_reason())
}

impl InvalidStatus {
    /// The error's message.
    pub fn to_string(&self) -> (r: String)
        ensures
            r@ == invalid_status_message(self.0@),
    {
        concat("invalid status: ", self.0.as_str())
    }
}

fn parse_version(t: &str) -> (r: Option<HttpVersion>)
    ensures
        r == version_of(t@),
{
    if text_is(t, "HTTP/0.9") {
        Some(HttpVersion::Http09)
    } else if text_is(t, "HTTP/1.0") {
        Some(HttpVersion::Http10)
    } else if text_is(t, "HTTP/1.1") {
        Some(HttpVersion::Http11)
    } else if text_is(t, "HTTP/2") || text_is(t, "HTTP/2.0") {
        Some(HttpVersion::Http2)
    } else if text_is(t, "HTTP/3") || text_is(t, "HTTP/3.0") {
        Some(HttpVersion::Http3)
    } else {
        None
    }
}

/// Reads a status code: three digits, the first not zero.
pub fn parse_status_code(t: &[char]) -> (r: Option<u16>)
    ensures
        r == status_code_of(t@),
{
    if t.len() == 3 && '1' <= t[0] && t[0] <= '9' && '0' <= t[1] && t[1] <= '9' && '0' <= t[2]
        && t[2] <= '9' {
        let a = (t[0] as u32 - '0' as u32) as u16;
        let b = (t[1] as u32 - '0' as u32) as u16;
        let c = (t[2] as u32 - '0' as u32) as u16;
        Some(a * 100 + b * 10 + c)
    } else {
        None
    }
}

fn version_string(v: HttpVersion) -> (r: String)
    ensures
        r@ == version_text(v),
{
    match v {
        HttpVersion::Http09 => string_of("HTTP/0.9"),
        HttpVersion::Http10 => string_of("HTTP/1.0"),
        HttpVersion::Http11 => string_of("HTTP/1.1"),
        HttpVersion::Http2 => string_of("HTTP/2.0"),
        HttpVersion::Http3 => string_of("HTTP/3.0"),
    }
}

impl Status {
    /// The status with code `code` over HTTP/1.1, with its standard reason
    /// phrase.
    pub fn new(code: u16) -> (r: Status)
        requires
            100 <= code <= 999,
        ensures
            r@ == (StatusV {
                code,
                version: HttpVersion::Http11,
                reason: canonical_reason_of(code),
            }),
    {
        Status {
            code,
            version: HttpVersion::Http11,
            reason: match canonical_reason(code) {
                Some(t) => Some(string_of(t)),
                None => None,
            },
        }
    }

    /// Whether the code is in the 2xx range.
    pub fn is_success(&self) -> (r: bool)
        ensures
            r == (200 <= self.code < 300),
    {
        200 <= self.code && self.code < 300
    }

    /// Parses a status line.
    pub fn from_str(s: &str) -> (r: Result<Status, InvalidStatus>)
        ensures
            match parse_status(s@) {
                Ok(x) => (r matches Ok(st) && st@ == x),
                Err(m) => (r matches Err(e) && e.0@ == m),
            },
    {
        let t = trim_text(s);
        let chars = to_chars(t.as_str());
        let found = find_char(chars.as_slice(), ' ');
        let version_chars = match found {
            Some(i) => subchars(chars.as_slice(), 0, i),
            None => subchars(chars.as_slice(), 0, chars.len()),
        };
        assert(chars@.subrange(0, chars@.len() as int) =~= chars@);
        let version = match parse_version(from_chars(version_chars.as_slice()).as_str()) {
            Some(v) => v,
            None => return Err(InvalidStatus(string_of(s))),
        };
        let i = match found {
            Some(i) => i,
            None => return Err(InvalidStatus(string_of(s))),
        };
        let rest = subchars(chars.as_slice(), i + 1, chars.len());
        let found2 = find_char(rest.as_slice(), ' ');
        let code_chars = match found2 {
            Some(j) => subchars(rest.as_slice(), 0, j),
            None => subchars(rest.as_slice(), 0, rest.len()),
        };
        assert(rest@.subrange(0, rest@.len() as int) =~= rest@);
        let code = match parse_status_code(code_chars.as_slice()) {
            Some(c) => c,
            None => return Err(InvalidStatus(string_of(s))),
        };
        let reason = match found2 {
            None => None,
            Some(j) => {
                let r = trim_text(from_chars(subchars(rest.as_slice(), j + 1, rest.len()).as_slice()).as_str());
                if r.as_str().is_empty() {
                    None
                } else {
                    Some(r)
                }
            },
        };
        Ok(Status { code, version, reason })
    }

    /// The status line.
    pub fn to_string(&self) -> (r: String)
        ensures
            r@ == status_text(self@),
    {
        let mut line = version_string(self.version);
        line.append(" ");
        line.append(u64_text(self.code as u64).as_str());
        match &self.reason {
            Some(reason) => {
                line.append(" ");
                line.append(reason.as_str());
            },
            None => {},
        }
        proof {
            reveal_strlit(" ");
        }
        assert(line@ =~= status_text(self@));
        line
    }

    pub fn copy(&self) -> (r: Status)
        ensures
            r@ == self@,
    {
        Status { code: self.code, version: self.version, reason: crate::name::copy_opt(&self.reason) }
    }
}

impl Element for Status {
    open spec fn spec_local_name() -> Seq<char> {
        "status"@
    }

    fn local_name() -> (r: &'static str) {
        "status"
    }

    open spec fn spec_from_value(v: ValueV) -> Result<StatusV, ErrorV> {
        match v {
            ValueV::Text(t) => match parse_status(t) {
                Ok(x) => Ok(x),
                Err(m) => Err(ErrorV::InvalidElement { element: "status"@, source: invalid_status_message(m) }),
            },
            _ => Err(ErrorV::InvalidValueType { element: "status"@, expected: "text"@ }),
        }
    }

    fn from_value(v: &Value) -> (r: Result<Status, Error>) {
        let text = match v.as_str_of_name("status") {
            Ok(t) => t,
            Err(e) => return Err(e),
        };
        match Status::from_str(text.as_str()) {
            Ok(s) => Ok(s),
            Err(e) => Err(Error::invalid("status", e.to_string())),
        }
    }

    open spec fn spec_into_value(x: StatusV) -> ValueV {
        ValueV::Text(status_text(x))
    }

    fn into_value(self) -> (r: Value) {
        Value::Text(self.to_string())
    }
}

impl std::str::FromStr for Status {
    type Err = InvalidStatus;

    fn from_str(s: &str) -> Result<Status, InvalidStatus> {
        Status::from_str(s)
    }
}

/// The text of a version has no space, and reads back as the version.
proof fn lemma_version_text(v: HttpVersion)
    ensures
        version_text(v).len() == 8,
        version_text(v)[0] == 'H',
        forall|i: int| 0 <= i < 8 ==> #[trigger] version_text(v)[i] != ' ',
        version_of(version_text(v)) == Some(v),
{
    reveal_strlit("HTTP/0.9");
    reveal_strlit("HTTP/1.0");
    reveal_strlit("HTTP/1.1");
    reveal_strlit("HTTP/2");
    reveal_strlit("HTTP/2.0");
    reveal_strlit("HTTP/3");
    reveal_strlit("HTTP/3.0");
    assert("HTTP/0.9"@ != "HTTP/1.0"@ && "HTTP/0.9"@ != "HTTP/1.1"@ && "HTTP/1.0"@ != "HTTP/1.1"@) by {
        assert("HTTP/0.9"@[5] != "HTTP/1.0"@[5]);
        assert("HTTP/0.9"@[5] != "HTTP/1.1"@[5]);
        assert("HTTP/1.0"@[7] != "HTTP/1.1"@[7]);
    }
    assert("HTTP/2.0"@ != "HTTP/0.9"@ && "HTTP/2.0"@ != "HTTP/1.0"@ && "HTTP/2.0"@ != "HTTP/1.1"@) by {
        assert("HTTP/2.0"@[5] != "HTTP/0.9"@[5]);
        assert("HTTP/2.0"@[5] != "HTTP/1.0"@[5]);
        assert("HTTP/2.0"@[5] != "HTTP/1.1"@[5]);
    }
    assert("HTTP/3.0"@ != "HTTP/0.9"@ && "HTTP/3.0"@ != "HTTP/1.0"@ && "HTTP/3.0"@ != "HTTP/1.1"@) by {
        assert("HTTP/3.0"@[5] != "HTTP/0.9"@[5]);
        assert("HTTP/3.0"@[5] != "HTTP/1.0"@[5]);
        assert("HTTP/3.0"@[5] != "HTTP/1.1"@[5]);
    }
    assert("HTTP/3.0"@ != "HTTP/2"@ && "HTTP/3.0"@ != "HTTP/2.0"@) by {
        assert("HTTP/3.0"@.len() != "HTTP/2"@.len());
        assert("HTTP/3.0"@[5] != "HTTP/2.0"@[5]);
    }
}

/// A code from 100 to 999 is written as three digits that read back as it.
proof fn lemma_code_text(c: u16)
    requires
        100 <= c <= 999,
    ensures
        decimal_text(c as nat).len() == 3,
        forall|i: int| 0 <= i < 3 ==> #[trigger] decimal_text(c as nat)[i] != ' ' && !crate::text::is_ws(decimal_text(c as nat)[i]),
        status_code_of(decimal_text(c as nat)) == Some(c),
{
    let n = c as nat;
    let d = decimal_text(n);
    assert(n / 10 >= 10 && n / 10 / 10 < 10);
    assert(decimal_text(n / 10) == decimal_text(n / 10 / 10).push(crate::text::digit_char(n / 10 % 10)));
    assert(decimal_text(n / 10 / 10) == seq![crate::text::digit_char(n / 10 / 10)]);
    assert(d == decimal_text(n / 10).push(crate::text::digit_char(n % 10)));
    assert(d[0] == crate::text::digit_char(n / 10 / 10));
    assert(d[1] == crate::text::digit_char(n / 10 % 10));
    assert(d[2] == crate::text::digit_char(n % 10));
    assert(1 <= n / 10 / 10 <= 9);
    assert(n / 10 / 10 * 100 + n / 10 % 10 * 10 + n % 10 == n) by (nonlinear_arith)
        requires
            100 <= n <= 999,
    ;
}

/// A status line reads back from the value it is written as, when its
/// code is from 100 to 999 and its reason, if any, is not empty and has
/// no whitespace at either end.
pub proof fn lemma_status_round_trip(s: StatusV)
    requires
        100 <= s.code <= 999,
        s.reason matches Some(r) ==> r.len() > 0 && !crate::text::is_ws(r[0]) && !crate::text::is_ws(r.last()),
    ensures
        Status::spec_from_value(Status::spec_into_value(s)) == Ok::<StatusV, ErrorV>(s),
{
    reveal_strlit(" ");
    lemma_version_text(s.version);
    lemma_code_text(s.code);
    let vt = version_text(s.version);
    let dt = decimal_text(s.code as nat);
    let tail = match s.reason {
        Some(r) => " "@ + r,
        None => Seq::<char>::empty(),
    };
    let t = status_text(s);
    assert(t =~= vt + " "@ + dt + tail);
    assert(t[0] == 'H');
    assert(!crate::text::is_ws(t.last())) by {
        match s.reason {
            Some(r) => assert(t.last() == r.last()),
            None => assert(t.last() == dt[2]),
        }
    }
    crate::text::lemma_trim_plain(t);
    crate::elements::href::lemma_index_of(t, ' ');
    assert(t[8] == ' ');
    assert forall|j: int| 0 <= j < 8 implies #[trigger] t[j] != ' ' by {
        assert(t[j] == vt[j]);
    }
    assert(index_of(t, ' ') == 8);
    assert(t.subrange(0, 8) =~= vt);
    let rest = t.subrange(9, t.len() as int);
    assert(rest =~= dt + tail);
    crate::elements::href::lemma_index_of(rest, ' ');
    assert forall|j: int| 0 <= j < 3 implies #[trigger] rest[j] != ' ' by {
        assert(rest[j] == dt[j]);
    }
    match s.reason {
        Some(r) => {
            assert(rest[3] == ' ');
            assert(index_of(rest, ' ') == 3);
            assert(rest.subrange(0, 3) =~= dt);
            assert(rest.subrange(4, rest.len() as int) =~= r);
            crate::text::lemma_trim_plain(r);
        },
        None => {
            assert(rest =~= dt);
            assert(index_of(rest, ' ') < 0);
        },
    }
}

} // verus!
