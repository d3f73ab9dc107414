use dav_xml::elements::{Href, HttpVersion, Status, UriParts};
use dav_xml::properties::{ContentType, CreationDate, DateTime, ETag};
use dav_xml::{Element, ElementName, Error, FromXml, IntoXml, Value, ValueMap};

#[test]
fn parses_status_line() {
    let status: Status = "HTTP/1.1 404 Not Found".parse().unwrap();
    assert_eq!(status.code, 404);
    assert_eq!(status.version, HttpVersion::Http11);
    assert_eq!(status.reason.as_deref(), Some("Not Found"));
}

#[test]
fn parses_without_reason() {
    let status: Status = "HTTP/1.0 200".parse().unwrap();
    assert_eq!(status.version, HttpVersion::Http10);
    assert_eq!(status.reason, None);
}

#[test]
fn rejects_non_http_version() {
    "GARBAGE 200 OK".parse::<Status>().unwrap_err();
    "HTTP/9 200 OK".parse::<Status>().unwrap_err();
}

#[test]
fn rejects_bad_code() {
    "HTTP/1.1 9999 X".parse::<Status>().unwrap_err();
    "HTTP/1.1".parse::<Status>().unwrap_err();
}

#[test]
fn displays_canonical_line() {
    assert_eq!(Status::new(200).to_string(), "HTTP/1.1 200 OK");
}

#[test]
fn round_trips_through_value() {
    let value: Value = Status::new(403).into_value();
    assert_eq!(Status::from_value(&value).unwrap().code, 403);
}

#[test]
fn value_error_names_status() {
    let error = Status::from_value(&Value::Text("nope".into())).unwrap_err();
    assert!(matches!(error, Error::InvalidElement { element: "status", .. }));
}

#[test]
fn parses_absolute_and_relative() {
    let absolute = Href::from_xml(br#"<D:href xmlns:D="DAV:">http://x/a%20b</D:href>"#.to_vec()).unwrap();
    assert_eq!(absolute.path(), "/a%20b");
    let relative = Href::from_xml(br#"<D:href xmlns:D="DAV:">/a/b/</D:href>"#.to_vec()).unwrap();
    assert_eq!(relative.path(), "/a/b/");
}

#[test]
fn converts_http_uri() {
    let href = Href::Uri(UriParts::parse("https://example.org/a").unwrap());
    assert_eq!(href.host().as_deref(), Some("example.org"));
}

#[test]
fn http_uri_rejects_opaque_urn() {
    UriParts::parse("urn:uuid:e71d4fae-5dec-22d6-fea5-00a0c91e6be4").unwrap_err();
}

#[test]
fn preserves_opaque_urn_as_raw_text() {
    let text = "urn:uuid:e71d4fae-5dec-22d6-fea5-00a0c91e6be4";
    let href = Href::from_xml(format!("<D:href xmlns:D=\"DAV:\">{text}</D:href>").into_bytes()).unwrap();
    assert_eq!(href, Href::Raw(text.into()));
    assert_eq!(href.scheme_str().as_deref(), Some("urn"));
    assert_eq!(href.host(), None);
    assert_eq!(href.path(), "");
    assert_eq!(href.to_string(), text);
    assert_eq!(Href::from_xml(href.copy().into_xml().unwrap()).unwrap(), href);
}

#[test]
fn rejects_spaces_and_malformed_percent_escapes() {
    for text in [
        "https://example.org/a b",
        "urn:uuid:e71d4fae-5dec-22d6-fea5-00a0c91e6be4%2",
        "urn:uuid:e71d4fae-5dec-22d6-fea5-00a0c91e6be4%zz",
    ] {
        Href::from_str(text).unwrap_err();
    }
}

#[test]
fn represents_http_uri_as_uri_variant() {
    let href = Href::Uri(UriParts::parse("https://example.org/a").unwrap());
    assert!(matches!(href, Href::Uri(_)));
}

#[test]
fn rejects_non_text() {
    let error = Href::from_xml(br#"<D:href xmlns:D="DAV:"><x/></D:href>"#.to_vec()).unwrap_err();
    assert!(matches!(error, Error::InvalidValueType { element: "href", .. }));
}

#[test]
fn writes_text() {
    let xml = "/a".parse::<Href>().unwrap().into_xml().unwrap();
    assert!(std::str::from_utf8(&xml).unwrap().contains("<D:href xmlns:D=\"DAV:\">/a</D:href>"));
}

#[test]
fn parses_strong_and_weak() {
    let strong = ETag::from_value(&Value::Text("\"abc\"".into())).unwrap();
    assert_eq!(strong, ETag::strong("abc"));
    let weak = ETag::from_value(&Value::Text("W/\"abc\"".into())).unwrap();
    assert_eq!(weak, ETag::weak("abc"));
}

#[test]
fn parses_unquoted_leniently() {
    let etag = ETag::from_value(&Value::Text("abc".into())).unwrap();
    assert_eq!(etag, ETag::strong("abc"));
}

#[test]
fn displays_quoted() {
    assert_eq!(ETag::strong("x").to_string(), "\"x\"");
    assert_eq!(ETag::weak("x").to_string(), "W/\"x\"");
}

#[test]
fn getetag_round_trips() {
    let value: Value = ETag::weak("q").into_value();
    assert_eq!(ETag::from_value(&value).unwrap(), ETag::weak("q"));
}

#[test]
fn parses_rfc3339() {
    let date = CreationDate::from_value(&Value::Text("1997-12-01T17:42:21-08:00".into())).unwrap();
    assert_eq!(
        date.0,
        DateTime { year: 1997, month: 12, day: 1, hour: 17, minute: 42, second: 21, nanosecond: 0, offset_seconds: -8 * 3600 }
    );
}

#[test]
fn rejects_http_date() {
    let error = CreationDate::from_value(&Value::Text("Mon, 12 Jan 1998 09:25:56 GMT".into())).unwrap_err();
    assert!(matches!(error, Error::InvalidElement { element: "creationdate", .. }));
}

#[test]
fn writes_rfc3339() {
    let value: Value = CreationDate(DateTime {
        year: 2020,
        month: 1,
        day: 2,
        hour: 3,
        minute: 4,
        second: 5,
        nanosecond: 0,
        offset_seconds: 0,
    })
    .into_value();
    assert_eq!(value, Value::Text("2020-01-02T03:04:05Z".into()));
}

#[test]
fn parses_and_writes_mime() {
    let content_type = ContentType::from_value(&Value::Text("text/html; charset=utf-8".into())).unwrap();
    assert_eq!(content_type.0, "text/html; charset=utf-8".parse::<mime::Mime>().unwrap().to_string());
    assert_eq!(content_type.into_value(), Value::Text("text/html; charset=utf-8".into()));
}

#[test]
fn rejects_invalid_mime() {
    ContentType::from_value(&Value::Text("not a mime".into())).unwrap_err();
}

fn href_key() -> ElementName {
    ElementName { namespace: Some("DAV:".into()), prefix: None, local_name: "href".into() }
}

#[test]
fn insert_raw_keeps_single_value() {
    let mut map = ValueMap::new();
    map.insert_raw(href_key(), Value::Text("/a".into()));
    assert_eq!(map.get::<Href>().unwrap().unwrap().path(), "/a");
}

#[test]
fn insert_raw_flattens_three_siblings() {
    let mut map = ValueMap::new();
    for path in ["/a", "/b", "/c"] {
        map.insert_raw(href_key(), Value::Text(path.into()));
    }
    let hrefs = map.get_all::<Href>().unwrap();
    let paths: Vec<_> = hrefs.iter().map(|href| href.path().to_string()).collect();
    assert_eq!(paths, ["/a", "/b", "/c"]);
    let list = map.get_value(&href_key()).unwrap().as_list().unwrap();
    assert!(list.iter().all(|v| !v.is_list()), "no nested lists");
}

#[test]
fn get_optional_distinguishes_empty() {
    let mut map = ValueMap::new();
    map.insert_raw(href_key(), Value::Empty);
    assert!(matches!(map.get_optional::<Href>(), Some(None)));
}

#[test]
fn get_all_on_absent_is_empty_vec() {
    let map = ValueMap::new();
    assert!(map.get_all::<Href>().unwrap().is_empty());
}

#[test]
fn lookup_ignores_prefix() {
    let mut map = ValueMap::new();
    map.insert_raw(
        ElementName { namespace: Some("DAV:".into()), prefix: Some("lp1".into()), local_name: "href".into() },
        Value::Text("/x".into()),
    );
    assert!(map.get::<Href>().is_some());
}

#[test]
fn insert_replaces_existing() {
    let mut map = ValueMap::new();
    map.insert::<Href>(Value::Text("/a".into()));
    map.insert::<Href>(Value::Text("/b".into()));
    assert_eq!(map.get_all::<Href>().unwrap().len(), 1);
    assert_eq!(map.get::<Href>().unwrap().unwrap().path(), "/b");
}

#[test]
fn invalid_element_names_the_element() {
    let error = Error::invalid("href", "boom".to_string());
    assert_eq!(error.to_string(), "invalid `href` element: boom");
}

#[test]
fn missing_element_names_parent_and_child() {
    let error = Error::MissingElement { parent: "propstat", element: "status" };
    assert_eq!(error.to_string(), "missing `status` element inside `propstat`");
}

#[test]
fn invalid_value_type_names_expectation() {
    let error = Error::InvalidValueType { element: "href", expected: "text" };
    assert_eq!(error.to_string(), "`href` element: expected text");
}
