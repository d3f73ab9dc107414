//! Creation and modification dates.
use vstd::prelude::*;

use crate::element::Element;
use crate::error::{Error, ErrorV};
use crate::value::{Value, ValueV};

verus! {

/// A date and time with a UTC offset, in its parts.
#[derive(Clone, Copy, Debug, PartialEq, Eq)]
pub struct DateTime {
    pub year: i32,
    pub month: u8,
    pub day: u8,
    pub hour: u8,
    pub minute: u8,
    pub second: u8,
    pub nanosecond: u32,
    /// The offset from UTC, in seconds.
    pub offset_seconds: i32,
}

impl View for DateTime {
    type V = DateTime;

    open spec fn view(&self) -> DateTime {
        *self
    }
}

/// What `time::OffsetDateTime::parse` with the RFC 3339 format makes of a
/// text: the date's parts, or the error's message.
pub uninterp spec fn rfc3339_parsed(text: Seq<char>) -> Result<DateTime, Seq<char>>;

/// What formatting a date with the RFC 3339 format gives, if it can be
/// formatted.
pub uninterp spec fn rfc3339_formatted(date: DateTime) -> Option<Seq<char>>;

/// Parses an RFC 3339 date (`time::OffsetDateTime::parse`) into its parts.
#[verifier::external_body]
fn parse_rfc3339(text: &str) -> (r: Result<DateTime, String>)
    ensures
        match r {
            Ok(d) => rfc3339_parsed(text@) == Ok::<DateTime, Seq<char>>(d),
            Err(m) => rfc3339_parsed(text@) == Err::<DateTime, Seq<char>>(m@),
        },
{
    time::OffsetDateTime::parse(text, &time::format_description::well_known::Rfc3339).map(|d| DateTime {
        year: d.year(), month: u8::from(d.month()), day: d.day(), hour: d.hour(), minute: d.minute(),
        second: d.second(), nanosecond: d.nanosecond(), offset_seconds: d.offset().whole_seconds(),
    }).map_err(|error| error.to_string())
}

/// Formats a date in the RFC 3339 format
/// (`time::OffsetDateTime::format`); `None` where its parts make no date or
/// the format cannot hold it.
#[verifier::external_body]
fn format_rfc3339(date: DateTime) -> (r: Option<String>)
    ensures
        match r {
            Some(t) => rfc3339_formatted(date) == Some(t@),
            None => rfc3339_formatted(date) is None,
        },
{
    let month = time::Month::try_from(date.month).ok()?;
    let day = time::Date::from_calendar_date(date.year, month, date.day).ok()?;
    let at = day.with_hms_nano(date.hour, date.minute, date.second, date.nanosecond).ok()?;
    let offset = time::UtcOffset::from_whole_seconds(date.offset_seconds).ok()?;
    at.assume_offset(offset).format(&time::format_description::well_known::Rfc3339).ok()
}

/// The `creationdate` property, an RFC 3339 date.
#[derive(Clone, Copy, Debug, PartialEq, Eq)]
pub struct CreationDate(pub DateTime);

impl View for CreationDate {
    type V = DateTime;

    open spec fn view(&self) -> DateTime {
        self.0
    }
}

impl Element for CreationDate {
    open spec fn spec_local_name() -> Seq<char> {
        "creationdate"@
    }

    fn local_name() -> (r: &'static str) {
        "creationdate"
    }

    open spec fn spec_from_value(v: ValueV) -> Result<DateTime, ErrorV> {
        match v {
            ValueV::Text(t) => match rfc3339_parsed(t) {
                Ok(d) => Ok(d),
                Err(m) => Err(ErrorV::InvalidElement { element: "creationdate"@, source: m }),
            },
            _ => Err(ErrorV::InvalidValueType { element: "creationdate"@, expected: "text"@ }),
        }
    }

    fn from_value(v: &Value) -> (r: Result<CreationDate, Error>) {
        let text = match v.as_str_of_name("creationdate") {
            Ok(t) => t,
            Err(e) => return Err(e),
        };
        match parse_rfc3339(text.as_str()) {
            Ok(d) => Ok(CreationDate(d)),
            Err(m) => Err(Error::invalid("creationdate", m)),
        }
    }

    /// The date's text; nothing where it cannot be formatted.
    open spec fn spec_into_value(x: DateTime) -> ValueV {
        match rfc3339_formatted(x) {
            Some(t) => ValueV::Text(t),
            None => ValueV::Empty,
        }
    }

    fn into_value(self) -> (r: Value) {
        match format_rfc3339(self.0) {
            Some(t) => Value::Text(t),
            None => Value::Empty,
        }
    }
}

/// The last second `httpdate` can write: the end of the year 9999.
pub const LAST_HTTP_DATE: u64 = 253402300799;

/// What `httpdate::parse_http_date` makes of a text: the seconds since the
/// UNIX epoch, or the error's message.
pub uninterp spec fn http_date_parsed(text: Seq<char>) -> Result<u64, Seq<char>>;

/// What `httpdate::fmt_http_date` writes for a number of seconds since the
/// UNIX epoch.
pub uninterp spec fn http_date_text(seconds: u64) -> Seq<char>;

/// Parses an HTTP date (`httpdate::parse_http_date`) into seconds since the
/// UNIX epoch; such a date lies between 1970 and the end of 9999.
#[verifier::external_body]
fn parse_http_date(text: &str) -> (r: Result<u64, String>)
    ensures
        match r {
            Ok(s) => http_date_parsed(text@) == Ok::<u64, Seq<char>>(s) && s <= LAST_HTTP_DATE,
            Err(m) => http_date_parsed(text@) == Err::<u64, Seq<char>>(m@),
        },
{
    httpdate::parse_http_date(text).map(|t| t.duration_since(std::time::UNIX_EPOCH).unwrap_or_default().as_secs()).map_err(|error| error.to_string())
}

/// Formats seconds since the UNIX epoch as an HTTP date
/// (`httpdate::fmt_http_date`), which it can do up to the end of 9999.
#[verifier::external_body]
fn format_http_date(seconds: u64) -> (r: String)
    requires
        seconds <= LAST_HTTP_DATE,
    ensures
        r@ == http_date_text(seconds),
{
    httpdate::fmt_http_date(std::time::UNIX_EPOCH + std::time::Duration::from_secs(seconds))
}

/// The `getlastmodified` property, an HTTP date held as seconds since the
/// UNIX epoch.
#[derive(Clone, Copy, Debug, PartialEq, Eq)]
pub struct LastModified {
    seconds: u64,
}

impl View for LastModified {
    type V = u64;

    closed spec fn view(&self) -> u64 {
        self.seconds
    }
}

impl LastModified {
    #[verifier::type_invariant]
    spec fn within_range(self) -> bool {
        self.seconds <= LAST_HTTP_DATE
    }

    /// The date `seconds` after the UNIX epoch, if an HTTP date can hold it.
    pub fn from_unix_seconds(seconds: u64) -> (r: Option<LastModified>)
        ensures
            seconds <= LAST_HTTP_DATE <==> r is Some,
            r matches Some(d) ==> d@ == seconds,
    {
        if seconds <= LAST_HTTP_DATE {
            Some(LastModified { seconds })
        } else {
            None
        }
    }

    /// The seconds since the UNIX epoch.
    pub fn unix_seconds(&self) -> (r: u64)
        ensures
            r == self@,
            r <= LAST_HTTP_DATE,
    {
        proof {
            use_type_invariant(self);
        }
        self.seconds
    }
}

impl Element for LastModified {
    open spec fn spec_local_name() -> Seq<char> {
        "getlastmodified"@
    }

    fn local_name() -> (r: &'static str) {
        "getlastmodified"
    }

    open spec fn spec_from_value(v: ValueV) -> Result<u64, ErrorV> {
        match v {
            ValueV::Text(t) => match http_date_parsed(t) {
                Ok(s) => Ok(s),
                Err(m) => Err(ErrorV::InvalidElement { element: "getlastmodified"@, source: m }),
            },
            _ => Err(ErrorV::InvalidValueType { element: "getlastmodified"@, expected: "text"@ }),
        }
    }

    fn from_value(v: &Value) -> (r: Result<LastModified, Error>) {
        let text = match v.as_str_of_name("getlastmodified") {
            Ok(t) => t,
            Err(e) => return Err(e),
        };
        match parse_http_date(text.as_str()) {
            Ok(seconds) => Ok(LastModified { seconds }),
            Err(m) => Err(Error::invalid("getlastmodified", m)),
        }
    }

    open spec fn spec_into_value(x: u64) -> ValueV {
        ValueV::Text(http_date_text(x))
    }

    fn into_value(self) -> (r: Value) {
        let seconds = self.unix_seconds();
        Value::Text(format_http_date(seconds))
    }
}

} // verus!
