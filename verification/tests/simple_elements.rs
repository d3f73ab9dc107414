use dav_xml::elements::{
    AllProp, Collection, Depth, Exclusive, LockEntry, LockScope, LockType, PropName, Shared, Timeout, Write,
};
use dav_xml::{Error, FromXml, IntoXml};

#[test]
fn allprop_parses_writes_and_round_trips() {
    let allprop = AllProp::from_xml(br#"<D:allprop xmlns:D="DAV:"/>"#.to_vec()).unwrap();
    let output = allprop.into_xml().unwrap();
    assert_eq!(AllProp::from_xml(output).unwrap(), AllProp);
}

#[test]
fn propname_parses_writes_and_round_trips() {
    let propname = PropName::from_xml(br#"<D:propname xmlns:D="DAV:"/>"#.to_vec()).unwrap();
    let output = propname.into_xml().unwrap();
    assert_eq!(PropName::from_xml(output).unwrap(), PropName);
}

#[test]
fn exclusive_parses_empty_element() {
    let parsed = Exclusive::from_xml(br#"<D:exclusive xmlns:D="DAV:"/>"#.to_vec()).unwrap();
    assert_eq!(parsed, Exclusive);
}

#[test]
fn exclusive_rejects_text_content() {
    let error = Exclusive::from_xml(br#"<D:exclusive xmlns:D="DAV:">x</D:exclusive>"#.to_vec()).unwrap_err();
    assert!(matches!(error, Error::InvalidValueType { element: "exclusive", .. }));
}

#[test]
fn exclusive_writes_self_closing() {
    let xml = Exclusive.into_xml().unwrap();
    assert!(std::str::from_utf8(&xml).unwrap().ends_with(r#"<D:exclusive xmlns:D="DAV:"/>"#));
}

#[test]
fn shared_parses_empty_element() {
    let parsed = Shared::from_xml(br#"<D:shared xmlns:D="DAV:"/>"#.to_vec()).unwrap();
    assert_eq!(parsed, Shared);
}

#[test]
fn shared_rejects_text_content() {
    let error = Shared::from_xml(br#"<D:shared xmlns:D="DAV:">x</D:shared>"#.to_vec()).unwrap_err();
    assert!(matches!(error, Error::InvalidValueType { element: "shared", .. }));
}

#[test]
fn shared_writes_self_closing() {
    let xml = Shared.into_xml().unwrap();
    assert!(std::str::from_utf8(&xml).unwrap().ends_with(r#"<D:shared xmlns:D="DAV:"/>"#));
}

#[test]
fn write_parses_empty_element() {
    let parsed = Write::from_xml(br#"<D:write xmlns:D="DAV:"/>"#.to_vec()).unwrap();
    assert_eq!(parsed, Write);
}

#[test]
fn write_rejects_text_content() {
    let error = Write::from_xml(br#"<D:write xmlns:D="DAV:">x</D:write>"#.to_vec()).unwrap_err();
    assert!(matches!(error, Error::InvalidValueType { element: "write", .. }));
}

#[test]
fn write_writes_self_closing() {
    let xml = Write.into_xml().unwrap();
    assert!(std::str::from_utf8(&xml).unwrap().ends_with(r#"<D:write xmlns:D="DAV:"/>"#));
}

#[test]
fn collection_parses_writes_and_round_trips() {
    let collection = Collection::from_xml(br#"<D:collection xmlns:D="DAV:"/>"#.to_vec()).unwrap();
    let output = collection.into_xml().unwrap();
    assert_eq!(Collection::from_xml(output).unwrap(), Collection);
}

#[test]
fn accepts_extension_children() {
    let collection = Collection::from_xml(
        br#"<D:collection xmlns:D="DAV:" xmlns:Z="urn:example">
  <Z:extension/>
</D:collection>"#
            .to_vec(),
    )
    .unwrap();
    assert_eq!(collection, Collection);
}

#[test]
fn parses_exclusive_and_shared() {
    let e = LockScope::from_xml(br#"<D:lockscope xmlns:D="DAV:"><D:exclusive/></D:lockscope>"#.to_vec()).unwrap();
    assert_eq!(e, LockScope::Exclusive);
    let s = LockScope::from_xml(br#"<D:lockscope xmlns:D="DAV:"><D:shared/></D:lockscope>"#.to_vec()).unwrap();
    assert_eq!(s, LockScope::Shared);
}

#[test]
fn rejects_both_or_neither() {
    let both = LockScope::from_xml(br#"<D:lockscope xmlns:D="DAV:"><D:shared/><D:exclusive/></D:lockscope>"#.to_vec())
        .unwrap_err();
    assert!(matches!(both, Error::ConflictingElements { parent: "lockscope", .. }));
    let none = LockScope::from_xml(br#"<D:lockscope xmlns:D="DAV:"><D:x/></D:lockscope>"#.to_vec()).unwrap_err();
    assert!(matches!(none, Error::MissingElement { parent: "lockscope", .. }));
}

#[test]
fn lockscope_round_trips() {
    for scope in [LockScope::Exclusive, LockScope::Shared] {
        let xml = scope.into_xml().unwrap();
        assert_eq!(LockScope::from_xml(xml).unwrap(), scope);
    }
}

#[test]
fn parses_write() {
    let locktype = LockType::from_xml(br#"<D:locktype xmlns:D="DAV:"><D:write/></D:locktype>"#.to_vec()).unwrap();
    assert_eq!(locktype, LockType::Write);
}

#[test]
fn rejects_missing_write() {
    let error = LockType::from_xml(br#"<D:locktype xmlns:D="DAV:"></D:locktype>"#.to_vec()).unwrap_err();
    assert!(matches!(error, Error::MissingElement { parent: "locktype", element: "write" }));
}

#[test]
fn locktype_round_trips() {
    let xml = LockType::Write.into_xml().unwrap();
    assert_eq!(LockType::from_xml(xml).unwrap(), LockType::Write);
}

#[test]
fn lockentry_parses_rfc_example() {
    let xml = br#"<D:lockentry xmlns:D="DAV:"><D:lockscope><D:exclusive/></D:lockscope><D:locktype><D:write/></D:locktype></D:lockentry>"#;
    let entry = LockEntry::from_xml(xml.to_vec()).unwrap();
    assert_eq!(entry, LockEntry { lockscope: LockScope::Exclusive, locktype: LockType::Write });
}

#[test]
fn missing_locktype_is_reported() {
    let xml = br#"<D:lockentry xmlns:D="DAV:"><D:lockscope><D:shared/></D:lockscope></D:lockentry>"#;
    let error = LockEntry::from_xml(xml.to_vec()).unwrap_err();
    assert!(matches!(error, Error::MissingElement { parent: "lockentry", element: "locktype" }));
}

#[test]
fn lockentry_round_trips() {
    let entry = LockEntry { lockscope: LockScope::Shared, locktype: LockType::Write };
    assert_eq!(LockEntry::from_xml(entry.into_xml().unwrap()).unwrap(), entry);
}

#[test]
fn parses_all_values() {
    for (text, depth) in [("0", Depth::Zero), ("1", Depth::One), ("infinity", Depth::Infinity), ("Infinity", Depth::Infinity)] {
        let xml = format!(r#"<D:depth xmlns:D="DAV:">{text}</D:depth>"#);
        assert_eq!(Depth::from_xml(xml.into_bytes()).unwrap(), depth);
    }
}

#[test]
fn rejects_other_values() {
    let error = Depth::from_xml(br#"<D:depth xmlns:D="DAV:">2</D:depth>"#.to_vec()).unwrap_err();
    assert!(matches!(error, Error::InvalidElement { element: "depth", .. }));
}

#[test]
fn displays_header_value() {
    assert_eq!(Depth::Zero.to_string(), "0");
    assert_eq!(Depth::One.to_string(), "1");
    assert_eq!(Depth::Infinity.to_string(), "infinity");
}

#[test]
fn depth_round_trips() {
    for depth in [Depth::Zero, Depth::One, Depth::Infinity] {
        assert_eq!(Depth::from_xml(depth.into_xml().unwrap()).unwrap(), depth);
    }
}

#[test]
fn parses_second_and_infinite() {
    assert_eq!("Second-604800".parse::<Timeout>().unwrap(), Timeout::Seconds(604_800));
    assert_eq!("Infinite".parse::<Timeout>().unwrap(), Timeout::Infinite);
    assert_eq!("second-5".parse::<Timeout>().unwrap(), Timeout::Seconds(5));
}

#[test]
fn rejects_garbage() {
    "Second-".parse::<Timeout>().unwrap_err();
    "Minute-5".parse::<Timeout>().unwrap_err();
    "Second-x".parse::<Timeout>().unwrap_err();
}

#[test]
fn enforces_rfc_seconds_limit() {
    let maximum = u64::from(u32::MAX);
    assert_eq!(format!("Second-{maximum}").parse::<Timeout>().unwrap(), Timeout::Seconds(maximum));
    format!("Second-{}", maximum + 1).parse::<Timeout>().unwrap_err();
}

#[test]
fn displays() {
    assert_eq!(Timeout::Seconds(10).to_string(), "Second-10");
    assert_eq!(Timeout::Infinite.to_string(), "Infinite");
}

#[test]
fn from_duration_rounds_down() {
    assert_eq!(Timeout::from_duration(std::time::Duration::from_millis(1500)), Timeout::Seconds(1));
    assert_eq!(
        Timeout::from_duration(std::time::Duration::from_secs(u64::from(u32::MAX) + 1)),
        Timeout::Seconds(u64::from(u32::MAX))
    );
}

#[test]
fn displays_only_rfc_valid_seconds() {
    assert_eq!(Timeout::Seconds(u64::from(u32::MAX) + 1).to_string(), format!("Second-{}", u64::from(u32::MAX)));
}

#[test]
fn round_trips_through_xml() {
    let xml = Timeout::Seconds(3).into_xml().unwrap();
    assert_eq!(Timeout::from_xml(xml).unwrap(), Timeout::Seconds(3));
}
