use dav_xml::elements::{ActiveLock, Condition, DavError, Depth, Href, LockEntry, LockRoot, LockScope, LockType};
use dav_xml::properties::{ContentLength, DisplayName, LastModified, LockDiscovery, ResourceType, SupportedLock};
use dav_xml::{Element, FromXml, IntoXml, Value};

fn active_lock(path: &str) -> ActiveLock {
    ActiveLock {
        lockscope: LockScope::Shared,
        locktype: LockType::Write,
        depth: Depth::Zero,
        owner: None,
        timeout: None,
        locktoken: None,
        lockroot: LockRoot(path.parse::<Href>().unwrap()),
    }
}

#[test]
fn empty_means_no_locks() {
    let ld = LockDiscovery::from_value(&Value::Empty).unwrap();
    assert!(ld.0.is_empty());
}

#[test]
fn parses_two_active_locks() {
    let xml = br#"<D:lockdiscovery xmlns:D="DAV:">
  <D:activelock><D:locktype><D:write/></D:locktype><D:lockscope><D:shared/></D:lockscope><D:depth>0</D:depth><D:lockroot><D:href>/a</D:href></D:lockroot></D:activelock>
  <D:activelock><D:locktype><D:write/></D:locktype><D:lockscope><D:shared/></D:lockscope><D:depth>0</D:depth><D:lockroot><D:href>/a</D:href></D:lockroot></D:activelock>
</D:lockdiscovery>"#;
    let ld = LockDiscovery::from_xml(xml.to_vec()).unwrap();
    assert_eq!(ld.0.len(), 2);
}

#[test]
fn empty_serializes_as_empty_element() {
    let value: Value = LockDiscovery(Vec::new()).into_value();
    assert_eq!(value, Value::Empty);
}

#[test]
fn lockdiscovery_writes_empty_element() {
    let xml = String::from_utf8(LockDiscovery::default().into_xml().unwrap()).unwrap();
    assert!(xml.ends_with(r#"<D:lockdiscovery xmlns:D="DAV:"/>"#));
}

#[test]
fn round_trips_one_active_lock() {
    let lock_discovery = LockDiscovery(vec![active_lock("/a")]);
    let xml = lock_discovery.copy().into_xml().unwrap();
    assert_eq!(LockDiscovery::from_xml(xml).unwrap(), lock_discovery);
}

#[test]
fn round_trips_multiple_active_locks() {
    let lock_discovery = LockDiscovery(vec![active_lock("/a"), active_lock("/b")]);
    let xml = lock_discovery.copy().into_xml().unwrap();
    assert_eq!(LockDiscovery::from_xml(xml).unwrap(), lock_discovery);
}

#[test]
fn lockdiscovery_implements_eq() {
    fn assert_eq<T: Eq>() {}
    assert_eq::<LockDiscovery>();
}

const RFC_15_10: &str = r#"<D:supportedlock xmlns:D="DAV:">
  <D:lockentry><D:lockscope><D:exclusive/></D:lockscope><D:locktype><D:write/></D:locktype></D:lockentry>
  <D:lockentry><D:lockscope><D:shared/></D:lockscope><D:locktype><D:write/></D:locktype></D:lockentry>
</D:supportedlock>"#;

#[test]
fn supportedlock_parses_rfc_example() {
    let sl = SupportedLock::from_xml(RFC_15_10.as_bytes().to_vec()).unwrap();
    assert_eq!(sl.0.len(), 2);
    assert!(sl.supports(LockScope::Exclusive, LockType::Write));
    assert!(sl.supports(LockScope::Shared, LockType::Write));
}

#[test]
fn empty_supports_nothing() {
    let sl = SupportedLock::from_value(&Value::Empty).unwrap();
    assert!(!sl.supports(LockScope::Exclusive, LockType::Write));
}

#[test]
fn supportedlock_writes_empty_element() {
    let xml = String::from_utf8(SupportedLock::default().into_xml().unwrap()).unwrap();
    assert!(xml.ends_with(r#"<D:supportedlock xmlns:D="DAV:"/>"#));
}

#[test]
fn round_trips_one_lock_entry() {
    let supported_lock = SupportedLock(vec![LockEntry { lockscope: LockScope::Exclusive, locktype: LockType::Write }]);
    let xml = supported_lock.copy().into_xml().unwrap();
    assert_eq!(SupportedLock::from_xml(xml).unwrap(), supported_lock);
}

#[test]
fn round_trips_multiple_lock_entries() {
    let supported_lock = SupportedLock(vec![
        LockEntry { lockscope: LockScope::Exclusive, locktype: LockType::Write },
        LockEntry { lockscope: LockScope::Shared, locktype: LockType::Write },
    ]);
    let xml = supported_lock.copy().into_xml().unwrap();
    assert_eq!(SupportedLock::from_xml(xml).unwrap(), supported_lock);
}

#[test]
fn supportedlock_implements_eq() {
    fn assert_eq<T: Eq>() {}
    assert_eq::<SupportedLock>();
}

#[test]
fn empty_is_not_collection() {
    let resource_type = ResourceType::from_value(&Value::Empty).unwrap();
    assert!(!resource_type.is_collection());
}

#[test]
fn collection_child_is_collection() {
    let resource_type =
        ResourceType::from_xml(br#"<D:resourcetype xmlns:D="DAV:"><D:collection/></D:resourcetype>"#.to_vec()).unwrap();
    assert!(resource_type.is_collection());
}

#[test]
fn foreign_child_is_kept() {
    let resource_type = ResourceType::from_xml(
        br#"<D:resourcetype xmlns:D="DAV:" xmlns:C="urn:ietf:params:xml:ns:caldav"><D:collection/><C:calendar/></D:resourcetype>"#
            .to_vec(),
    )
    .unwrap();
    assert!(resource_type.is_collection());
    assert_eq!(resource_type.0.len(), 2);
}

#[test]
fn constructors() {
    assert!(ResourceType::collection().is_collection());
    assert!(!ResourceType::resource().is_collection());
    let value: Value = ResourceType::resource().into_value();
    assert_eq!(value, Value::Empty);
}

#[test]
fn parses_text() {
    assert_eq!(DisplayName::from_value(&Value::Text("Example".into())).unwrap().0, "Example");
}

#[test]
fn parses_non_negative_integer() {
    assert_eq!(ContentLength::from_value(&Value::Text("4525".into())).unwrap().0, 4525);
}

#[test]
fn rejects_invalid_integer() {
    ContentLength::from_value(&Value::Text("-1".into())).unwrap_err();
    ContentLength::from_value(&Value::Text("abc".into())).unwrap_err();
}

#[test]
fn parses_and_writes_http_date() {
    let date = "Mon, 12 Jan 1998 09:25:56 GMT";
    let last_modified = LastModified::from_value(&Value::Text(date.into())).unwrap();
    assert_eq!(last_modified.into_value(), Value::Text(date.into()));
}

#[test]
fn rejects_rfc3339() {
    LastModified::from_value(&Value::Text("1998-01-12T09:25:56Z".into())).unwrap_err();
}

const RFC_9_10_10: &str = r#"<?xml version="1.0" encoding="utf-8" ?>
<D:error xmlns:D="DAV:">
  <D:lock-token-submitted>
    <D:href>/workspace/webdav/</D:href>
  </D:lock-token-submitted>
</D:error>"#;

#[test]
fn parses_lock_token_submitted_with_hrefs() {
    let error = DavError::from_xml(RFC_9_10_10.as_bytes().to_vec()).unwrap();
    assert_eq!(error.conditions.len(), 1);
    let Condition::LockTokenSubmitted(hrefs) = &error.conditions[0] else {
        panic!();
    };
    assert_eq!(hrefs[0].path(), "/workspace/webdav/");
    assert!(error.contains("lock-token-submitted"));
}

#[test]
fn parses_every_named_condition() {
    for (name, expected) in [
        ("lock-token-matches-request-uri", Condition::LockTokenMatchesRequestUri),
        ("no-external-entities", Condition::NoExternalEntities),
        ("preserved-live-properties", Condition::PreservedLiveProperties),
        ("propfind-finite-depth", Condition::PropfindFiniteDepth),
        ("cannot-modify-protected-property", Condition::CannotModifyProtectedProperty),
    ] {
        let xml = format!(r#"<D:error xmlns:D="DAV:"><D:{name}/></D:error>"#);
        let error = DavError::from_xml(xml.into_bytes()).unwrap();
        assert_eq!(error.conditions, vec![expected]);
    }
}

#[test]
fn no_conflicting_lock_may_have_no_hrefs() {
    let error = DavError::from_xml(br#"<D:error xmlns:D="DAV:"><D:no-conflicting-lock/></D:error>"#.to_vec()).unwrap();
    assert_eq!(error.conditions, vec![Condition::NoConflictingLock(Vec::new())]);
}

#[test]
fn accepts_empty_lock_token_submitted_from_rfc_examples() {
    let error = DavError::from_xml(br#"<D:error xmlns:D="DAV:"><D:lock-token-submitted/></D:error>"#.to_vec()).unwrap();
    assert_eq!(error.conditions, vec![Condition::LockTokenSubmitted(Vec::new())]);
}

#[test]
fn serializes_empty_lock_token_submitted_from_rfc_examples() {
    let error = DavError::single(Condition::LockTokenSubmitted(Vec::new()));
    assert_eq!(DavError::from_xml(error.copy().into_xml().unwrap()).unwrap(), error);
}

#[test]
fn parses_multiple_lock_token_submitted_hrefs() {
    let error = DavError::from_xml(
        br#"<D:error xmlns:D="DAV:"><D:lock-token-submitted><D:href>/a</D:href><D:href>/b</D:href></D:lock-token-submitted></D:error>"#
            .to_vec(),
    )
    .unwrap();
    let Condition::LockTokenSubmitted(hrefs) = &error.conditions[0] else {
        panic!();
    };
    assert_eq!(hrefs.iter().map(Href::path).collect::<Vec<_>>(), vec!["/a", "/b"]);
}

#[test]
fn round_trips_raw_lock_token_submitted_href() {
    let error = DavError::from_xml(
        br#"<D:error xmlns:D="DAV:"><D:lock-token-submitted><D:href>urn:uuid:e71d4fae-5dec-22d6-fea5-00a0c91e6be4</D:href></D:lock-token-submitted></D:error>"#
            .to_vec(),
    )
    .unwrap();
    assert!(matches!(
        error.conditions[0],
        Condition::LockTokenSubmitted(ref hrefs) if matches!(hrefs.as_slice(), [Href::Raw(value)] if value == "urn:uuid:e71d4fae-5dec-22d6-fea5-00a0c91e6be4")
    ));
    assert_eq!(DavError::from_xml(error.copy().into_xml().unwrap()).unwrap(), error);
}

#[test]
fn unknown_conditions_are_kept() {
    let xml = br#"<D:error xmlns:D="DAV:" xmlns:C="urn:ietf:params:xml:ns:caldav"><C:valid-calendar-data/></D:error>"#;
    let error = DavError::from_xml(xml.to_vec()).unwrap();
    assert_eq!(error.conditions[0].name(), "valid-calendar-data");
    assert!(
        matches!(&error.conditions[0], Condition::Other { name, .. } if name.namespace.as_deref() == Some("urn:ietf:params:xml:ns:caldav"))
    );
}

#[test]
fn round_trips_unknown_condition_raw_value() {
    let xml = br#"<D:error xmlns:D="DAV:" xmlns:C="urn:ietf:params:xml:ns:caldav"><C:valid-calendar-data>opaque-value</C:valid-calendar-data></D:error>"#;
    let error = DavError::from_xml(xml.to_vec()).unwrap();
    assert_eq!(DavError::from_xml(error.copy().into_xml().unwrap()).unwrap(), error);
}

#[test]
fn empty_error_has_no_conditions() {
    let error = DavError::from_xml(br#"<D:error xmlns:D="DAV:"/>"#.to_vec()).unwrap();
    assert!(error.conditions.is_empty());
}

#[test]
fn error_round_trips() {
    let error = DavError::from_xml(RFC_9_10_10.as_bytes().to_vec()).unwrap();
    assert_eq!(DavError::from_xml(error.copy().into_xml().unwrap()).unwrap(), error);
    let other = DavError::single(Condition::PropfindFiniteDepth);
    assert_eq!(DavError::from_xml(other.copy().into_xml().unwrap()).unwrap(), other);
}
