//! Lock timeouts.
use vstd::prelude::*;

use crate::element::Element;
use crate::elements::href::{find_char, index_of, lemma_index_of};
use crate::error::{Error, ErrorV};
use crate::text::{
    concat, decimal_text, eq_ignore_case, from_chars, lemma_decimal_text_digits,
    lemma_parse_decimal_text, lemma_trim_plain, parse_u64_spec, parse_u64_text, string_of,
    subchars, text_eq_ignore_case, to_chars, trim, trim_text, u64_error_message, u64_text, is_ws,
};
use crate::value::{Value, ValueV};

verus! {

/// The longest timeout RFC 4918 allows, in seconds.
pub const MAX_TIMEOUT_SECONDS: u64 = 4294967295;

/// The `timeout` element (RFC 4918, section 10.7).
#[derive(Clone, Copy, Debug, PartialEq, Eq, Hash)]
pub enum Timeout {
    /// No timeout.
    Infinite,
    /// A number of seconds.
    Seconds(u64),
}

impl View for Timeout {
    type V = Timeout;

    open spec fn view(&self) -> Timeout {
        *self
    }
}

/// A timeout that cannot be parsed; it holds the reason.
#[derive(Debug, PartialEq)]
pub struct InvalidTimeout(pub String);

/// What parsing a timeout gives: the timeout, or the error's text.
pub open spec fn parse_timeout(s: Seq<char>) -> Result<Timeout, Seq<char>> {
    let t = trim(s);
    if eq_ignore_case(t, "Infinite"@) {
        Ok(Timeout::Infinite)
    } else {
        let c = index_of(t, '-');
        if c < 0 {
            Err(t)
        } else if !eq_ignore_case(t.subrange(0, c), "Second"@) {
            Err(t)
        } else {
            let digits = t.subrange(c + 1, t.len() as int);
            match parse_u64_spec(digits) {
                None => Err(t + ": "@ + u64_error_message(digits)),
                Some(n) => if n > MAX_TIMEOUT_SECONDS {
                    Err(t)
                } else {
                    Ok(Timeout::Seconds(n))
                },
            }
        }
    }
}

/// The timeout as RFC 4918 writes it; seconds beyond the limit are capped.
pub open spec fn timeout_text(t: Timeout) -> Seq<char> {
    match t {
        Timeout::Infinite => "Infinite"@,
        Timeout::Seconds(n) => "Second-"@ + decimal_text(
            if n > MAX_TIMEOUT_SECONDS {
                MAX_TIMEOUT_SECONDS as nat
            } else {
                n as nat
            },
        ),
    }
}

pub open spec fn invalid_timeout_message(t: Seq<char>) -> Seq<char> {
    "invalid timeout: "@ + t
}

impl InvalidTimeout {
    /// The error's message.
    pub fn to_string(&self) -> (r: String)
        ensures
            r@ == invalid_timeout_message(self.0@),
    {
        concat("invalid timeout: ", self.0.as_str())
    }
}

/// What `Duration::as_secs` gives for a duration: its whole seconds.
pub uninterp spec fn whole_seconds_of(duration: std::time::Duration) -> u64;

/// The whole seconds of a duration (`Duration::as_secs`).
#[verifier::external_body]
fn whole_seconds(duration: &std::time::Duration) -> (r: u64)
    ensures
        r == whole_seconds_of(*duration),
{
    duration.as_secs()
}

impl Timeout {
    /// A timeout of `seconds`, capped at the longest one RFC 4918 allows.
    pub fn from_seconds(seconds: u64) -> (r: Timeout)
        ensures
            r == Timeout::Seconds(if seconds > MAX_TIMEOUT_SECONDS {
                MAX_TIMEOUT_SECONDS
            } else {
                seconds
            }),
    {
        Timeout::Seconds(if seconds > MAX_TIMEOUT_SECONDS {
            MAX_TIMEOUT_SECONDS
        } else {
            seconds
        })
    }

    /// A timeout of the whole seconds of `duration`, capped at the longest
    /// one RFC 4918 allows.
    pub fn from_duration(duration: std::time::Duration) -> (r: Timeout)
        ensures
            r == Timeout::Seconds(if whole_seconds_of(duration) > MAX_TIMEOUT_SECONDS {
                MAX_TIMEOUT_SECONDS
            } else {
                whole_seconds_of(duration)
            }),
    {
        Timeout::from_seconds(whole_seconds(&duration))
    }

    /// Parses `Infinite` or `Second-n` (without case), around whitespace.
    pub fn from_str(s: &str) -> (r: Result<Timeout, InvalidTimeout>)
        ensures
            match parse_timeout(s@) {
                Ok(t) => r == Ok::<Timeout, InvalidTimeout>(t),
                Err(m) => (r matches Err(e) && e.0@ == m),
            },
    {
        let t = trim_text(s);
        if text_eq_ignore_case(t.as_str(), "Infinite") {
            return Ok(Timeout::Infinite);
        }
        let chars = to_chars(t.as_str());
        let c = match find_char(chars.as_slice(), '-') {
            Some(c) => c,
            None => return Err(InvalidTimeout(t)),
        };
        let prefix = from_chars(subchars(chars.as_slice(), 0, c).as_slice());
        if !text_eq_ignore_case(prefix.as_str(), "Second") {
            return Err(InvalidTimeout(t));
        }
        let digits = from_chars(subchars(chars.as_slice(), c + 1, chars.len()).as_slice());
        match parse_u64_text(digits.as_str()) {
            Err(m) => {
                let mut message = concat(t.as_str(), ": ");
                message.append(m.as_str());
                Err(InvalidTimeout(message))
            },
            Ok(n) => if n > MAX_TIMEOUT_SECONDS {
                Err(InvalidTimeout(t))
            } else {
                Ok(Timeout::Seconds(n))
            },
        }
    }

    /// The timeout as RFC 4918 writes it.
    pub fn to_string(&self) -> (r: String)
        ensures
            r@ == timeout_text(*self),
    {
        match self {
            Timeout::Infinite => string_of("Infinite"),
            Timeout::Seconds(n) => {
                let capped = if *n > MAX_TIMEOUT_SECONDS {
                    MAX_TIMEOUT_SECONDS
                } else {
                    *n
                };
                concat("Second-", u64_text(capped).as_str())
            },
        }
    }
}

impl Element for Timeout {
    open spec fn spec_local_name() -> Seq<char> {
        "timeout"@
    }

    fn local_name() -> (r: &'static str) {
        "timeout"
    }

    open spec fn spec_from_value(v: ValueV) -> Result<Timeout, ErrorV> {
        match v {
            ValueV::Text(t) => match parse_timeout(t) {
                Ok(x) => Ok(x),
                Err(m) => Err(ErrorV::InvalidElement { element: "timeout"@, source: invalid_timeout_message(m) }),
            },
            _ => Err(ErrorV::InvalidValueType { element: "timeout"@, expected: "text"@ }),
        }
    }

    fn from_value(v: &Value) -> (r: Result<Timeout, Error>) {
        let text = match v.as_str_of_name("timeout") {
            Ok(t) => t,
            Err(e) => return Err(e),
        };
        match Timeout::from_str(text.as_str()) {
            Ok(t) => Ok(t),
            Err(e) => Err(Error::invalid("timeout", e.to_string())),
        }
    }

    open spec fn spec_into_value(x: Timeout) -> ValueV {
        ValueV::Text(timeout_text(x))
    }

    fn into_value(self) -> (r: Value) {
        Value::Text(self.to_string())
    }
}

/// A timeout within the RFC's limit parses back from its text; a longer one
/// parses back as the limit.
pub proof fn lemma_timeout_text_round_trip(t: Timeout)
    ensures
        parse_timeout(timeout_text(t)) == Ok::<Timeout, Seq<char>>(match t {
            Timeout::Seconds(n) => if n > MAX_TIMEOUT_SECONDS {
                Timeout::Seconds(MAX_TIMEOUT_SECONDS)
            } else {
                t
            },
            Timeout::Infinite => t,
        }),
{
    reveal_strlit("Infinite");
    reveal_strlit("Second-");
    reveal_strlit("Second");
    match t {
        Timeout::Infinite => {
            lemma_trim_plain("Infinite"@);
            assert(eq_ignore_case("Infinite"@, "Infinite"@));
        },
        Timeout::Seconds(n) => {
            let m: u64 = if n > MAX_TIMEOUT_SECONDS {
                MAX_TIMEOUT_SECONDS
            } else {
                n
            };
            let d = decimal_text(m as nat);
            let s = "Second-"@ + d;
            lemma_decimal_text_digits(m as nat);
            lemma_parse_decimal_text(m);
            assert(!is_ws(d.last())) by {
                assert(crate::text::is_digit(d[d.len() - 1]));
            }
            lemma_trim_plain(s);
            assert(s.len() != "Infinite"@.len() || s[1] != "Infinite"@[1]);
            assert(!eq_ignore_case(s, "Infinite"@)) by {
                if s.len() == "Infinite"@.len() {
                    assert(crate::text::ascii_lower(s[1]) != crate::text::ascii_lower("Infinite"@[1]));
                }
            }
            lemma_index_of(s, '-');
            assert(s[6] == '-');
            assert forall|j: int| 7 <= j < s.len() implies #[trigger] s[j] != '-' by {
                assert(s[j] == d[j - 7]);
                assert(crate::text::is_digit(d[j - 7]));
            }
            assert(index_of(s, '-') == 6);
            assert(s.subrange(0, 6) =~= "Second"@);
            assert(eq_ignore_case("Second"@, "Second"@));
            assert(s.subrange(7, s.len() as int) =~= d);
        },
    }
}

/// A timeout reads back from the value it is written as, a longer one than
/// the RFC allows as the limit.
pub proof fn lemma_timeout_round_trip(t: Timeout)
    ensures
        Timeout::spec_from_value(Timeout::spec_into_value(t)) == Ok::<Timeout, ErrorV>(match t {
            Timeout::Seconds(n) => if n > MAX_TIMEOUT_SECONDS {
                Timeout::Seconds(MAX_TIMEOUT_SECONDS)
            } else {
                t
            },
            Timeout::Infinite => t,
        }),
{
    lemma_timeout_text_round_trip(t);
}

impl std::str::FromStr for Timeout {
    type Err = InvalidTimeout;

    fn from_str(s: &str) -> Result<Timeout, InvalidTimeout> {
        Timeout::from_str(s)
    }
}

} // verus!
