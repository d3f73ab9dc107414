use dav_xml::elements::{
    ActiveLock, Condition, DavError, Depth, Include, LockInfo, LockRoot, LockScope, LockToken, LockType, Multistatus, Owner, Prop,
    PropFind, PropertyUpdate, PropertyUpdateItem, Propstat, Remove, Response, SetProp, Timeout,
};
use dav_xml::properties::DisplayName;
use dav_xml::{Element, Error, FromXml, IntoXml, Value};

const RFC_9_10_8: &str = r#"<D:activelock xmlns:D="DAV:">
  <D:locktype><D:write/></D:locktype>
  <D:lockscope><D:exclusive/></D:lockscope>
  <D:depth>infinity</D:depth>
  <D:owner>
    <D:href>http://example.org/~ejw/contact.html</D:href>
  </D:owner>
  <D:timeout>Second-604800</D:timeout>
  <D:locktoken>
    <D:href>urn:uuid:e71d4fae-5dec-22d6-fea5-00a0c91e6be4</D:href>
  </D:locktoken>
  <D:lockroot>
    <D:href>http://example.com/workspace/webdav/proposal.doc</D:href>
  </D:lockroot>
</D:activelock>"#;

#[test]
fn activelock_parses_rfc_example() {
    let lock = ActiveLock::from_xml(RFC_9_10_8.as_bytes().to_vec()).unwrap();
    assert_eq!(lock.lockscope, LockScope::Exclusive);
    assert_eq!(lock.locktype, LockType::Write);
    assert_eq!(lock.depth, Depth::Infinity);
    assert_eq!(lock.timeout, Some(Timeout::Seconds(604_800)));
    assert_eq!(lock.locktoken.unwrap().0.to_string(), "urn:uuid:e71d4fae-5dec-22d6-fea5-00a0c91e6be4");
    assert_eq!(lock.lockroot.0.path(), "/workspace/webdav/proposal.doc");
}

#[test]
fn optional_children_may_be_absent() {
    let xml = br#"<D:activelock xmlns:D="DAV:"><D:locktype><D:write/></D:locktype><D:lockscope><D:shared/></D:lockscope><D:depth>0</D:depth><D:lockroot><D:href>/x</D:href></D:lockroot></D:activelock>"#;
    let lock = ActiveLock::from_xml(xml.to_vec()).unwrap();
    assert_eq!(lock.owner, None);
    assert_eq!(lock.timeout, None);
    assert_eq!(lock.locktoken, None);
}

#[test]
fn missing_lockroot_is_reported() {
    let xml = br#"<D:activelock xmlns:D="DAV:"><D:locktype><D:write/></D:locktype><D:lockscope><D:shared/></D:lockscope><D:depth>0</D:depth></D:activelock>"#;
    let error = ActiveLock::from_xml(xml.to_vec()).unwrap_err();
    assert!(matches!(error, Error::MissingElement { parent: "activelock", element: "lockroot" }));
}

#[test]
fn activelock_round_trips() {
    let lock = ActiveLock::from_xml(RFC_9_10_8.as_bytes().to_vec()).unwrap();
    assert_eq!(ActiveLock::from_xml(lock.copy().into_xml().unwrap()).unwrap(), lock);
}

const RFC_9_10_7: &str = r#"<?xml version="1.0" encoding="utf-8" ?>
<D:lockinfo xmlns:D='DAV:'>
  <D:lockscope><D:exclusive/></D:lockscope>
  <D:locktype><D:write/></D:locktype>
  <D:owner>
    <D:href>http://example.org/~ejw/contact.html</D:href>
  </D:owner>
</D:lockinfo>"#;

#[test]
fn lockinfo_parses_rfc_example() {
    let info = LockInfo::from_xml(RFC_9_10_7.as_bytes().to_vec()).unwrap();
    assert_eq!(info.lockscope, LockScope::Exclusive);
    assert_eq!(info.locktype, LockType::Write);
    assert!(info.owner.unwrap().as_href().is_some());
}

#[test]
fn owner_is_optional() {
    let xml = br#"<D:lockinfo xmlns:D="DAV:"><D:lockscope><D:shared/></D:lockscope><D:locktype><D:write/></D:locktype></D:lockinfo>"#;
    let info = LockInfo::from_xml(xml.to_vec()).unwrap();
    assert_eq!(info, LockInfo::shared_write());
}

#[test]
fn writes_request_body() {
    let info = LockInfo::exclusive_write().with_owner(Owner::href("/me".parse().unwrap()));
    let xml = info.copy().into_xml().unwrap();
    let text = std::str::from_utf8(&xml).unwrap();
    assert!(text.contains("<D:lockinfo xmlns:D=\"DAV:\">"), "{text}");
    assert!(text.contains("<D:exclusive/>"), "{text}");
    assert!(text.contains("<D:href>/me</D:href>"), "{text}");
    assert_eq!(LockInfo::from_xml(xml).unwrap(), info);
}

const LOCKROOT_XML: &[u8] =
    br#"<D:lockroot xmlns:D="DAV:"><D:href>urn:uuid:e71d4fae-5dec-22d6-fea5-00a0c91e6be4</D:href></D:lockroot>"#;

#[test]
fn lockroot_parses_href() {
    let root = LockRoot::from_xml(LOCKROOT_XML.to_vec()).unwrap();
    assert_eq!(root.0.scheme_str().as_deref(), Some("urn"));
}

#[test]
fn lockroot_missing_href_is_reported() {
    let error = LockRoot::from_xml(br#"<D:lockroot xmlns:D="DAV:"/>"#.to_vec()).unwrap_err();
    assert!(matches!(error, Error::MissingElement { parent: "lockroot", element: "href" }));
}

#[test]
fn lockroot_round_trips() {
    let root = LockRoot::from_xml(LOCKROOT_XML.to_vec()).unwrap();
    assert_eq!(LockRoot::from_xml(root.copy().into_xml().unwrap()).unwrap(), root);
}

const LOCKTOKEN_XML: &[u8] =
    br#"<D:locktoken xmlns:D="DAV:"><D:href>urn:uuid:e71d4fae-5dec-22d6-fea5-00a0c91e6be4</D:href></D:locktoken>"#;

#[test]
fn locktoken_parses_href() {
    let token = LockToken::from_xml(LOCKTOKEN_XML.to_vec()).unwrap();
    assert_eq!(token.0.scheme_str().as_deref(), Some("urn"));
}

#[test]
fn locktoken_missing_href_is_reported() {
    let error = LockToken::from_xml(br#"<D:locktoken xmlns:D="DAV:"/>"#.to_vec()).unwrap_err();
    assert!(matches!(error, Error::MissingElement { parent: "locktoken", element: "href" }));
}

#[test]
fn locktoken_round_trips() {
    let token = LockToken::from_xml(LOCKTOKEN_XML.to_vec()).unwrap();
    assert_eq!(LockToken::from_xml(token.copy().into_xml().unwrap()).unwrap(), token);
}

#[test]
fn parses_href_owner() {
    let xml = br#"<D:owner xmlns:D="DAV:"><D:href>http://example.org/~ejw/contact.html</D:href></D:owner>"#;
    let owner = Owner::from_xml(xml.to_vec()).unwrap();
    assert_eq!(owner.as_href().unwrap().host().as_deref(), Some("example.org"));
}

#[test]
fn parses_text_owner() {
    let owner = Owner::from_xml(br#"<D:owner xmlns:D="DAV:">Jane</D:owner>"#.to_vec()).unwrap();
    assert_eq!(owner.as_text().map(|t| t.as_str()), Some("Jane"));
    assert!(owner.as_href().is_none());
}

#[test]
fn parses_empty_owner() {
    let owner = Owner::from_xml(br#"<D:owner xmlns:D="DAV:"/>"#.to_vec()).unwrap();
    assert_eq!(owner, Owner(Value::Empty));
}

#[test]
fn round_trips_constructors() {
    for owner in [Owner::text("Jane"), Owner::href("/u".parse().unwrap())] {
        let xml = owner.copy().into_xml().unwrap();
        assert_eq!(Owner::from_xml(xml).unwrap(), owner);
    }
}

const APACHE: &str = r#"<D:prop xmlns:D="DAV:" xmlns:lp1="DAV:" xmlns:lp2="http://apache.org/dav/props/">
  <lp1:resourcetype><D:collection/></lp1:resourcetype>
  <lp1:creationdate>2024-01-01T00:00:00Z</lp1:creationdate>
  <lp1:getlastmodified>Mon, 01 Jan 2024 00:00:00 GMT</lp1:getlastmodified>
  <lp1:getetag>"abc"</lp1:getetag>
  <lp1:getcontentlength>12</lp1:getcontentlength>
  <D:getcontenttype>text/plain</D:getcontenttype>
  <D:displayname>x</D:displayname>
  <D:getcontentlanguage>en</D:getcontentlanguage>
  <lp2:executable>F</lp2:executable>
  <D:lockdiscovery/>
  <D:supportedlock/>
</D:prop>"#;

#[test]
fn typed_getters_read_every_property() {
    let prop = Prop::from_xml(APACHE.as_bytes().to_vec()).unwrap();
    assert!(prop.resourcetype().unwrap().unwrap().unwrap().is_collection());
    prop.creationdate().unwrap().unwrap().unwrap();
    prop.getlastmodified().unwrap().unwrap().unwrap();
    assert_eq!(prop.getetag().unwrap().unwrap().unwrap().tag, "abc");
    assert_eq!(prop.getcontentlength().unwrap().unwrap().unwrap().0, 12);
    assert_eq!(prop.getcontenttype().unwrap().unwrap().unwrap().0, mime::TEXT_PLAIN.to_string());
    assert_eq!(prop.displayname().unwrap().unwrap().unwrap().0, "x");
    assert_eq!(prop.getcontentlanguage().unwrap().unwrap().unwrap().0, "en");
    assert!(matches!(prop.lockdiscovery(), Some(None)));
    assert!(matches!(prop.supportedlock(), Some(None)));
}

#[test]
fn absent_is_none_and_empty_is_some_none() {
    let prop = Prop::from_xml(br#"<D:prop xmlns:D="DAV:"><D:displayname/></D:prop>"#.to_vec()).unwrap();
    assert!(matches!(prop.displayname(), Some(None)));
    assert!(prop.getetag().is_none());
}

#[test]
fn typed_getters_read_populated_lock_properties() {
    let prop = Prop::from_xml(
        br#"<D:prop xmlns:D="DAV:">
  <D:lockdiscovery><D:activelock><D:lockscope><D:shared/></D:lockscope><D:locktype><D:write/></D:locktype><D:depth>0</D:depth><D:lockroot><D:href>/locked</D:href></D:lockroot></D:activelock></D:lockdiscovery>
  <D:supportedlock><D:lockentry><D:lockscope><D:exclusive/></D:lockscope><D:locktype><D:write/></D:locktype></D:lockentry></D:supportedlock>
</D:prop>"#
            .to_vec(),
    )
    .unwrap();
    let lock_discovery = prop.lockdiscovery().unwrap().unwrap().unwrap();
    let supported_lock = prop.supportedlock().unwrap().unwrap().unwrap();
    assert_eq!(lock_discovery.0.len(), 1);
    assert_eq!(lock_discovery.0[0].lockroot.0.path(), "/locked");
    assert!(supported_lock.supports(LockScope::Exclusive, LockType::Write));
}

#[test]
fn names_lists_every_child_including_foreign() {
    let prop = Prop::from_xml(APACHE.as_bytes().to_vec()).unwrap();
    assert_eq!(prop.names().len(), 11);
    assert!(prop.names().iter().any(|name| name.local_name == "executable"));
}

#[test]
fn rejects_nested_empty_lock_token_submitted() {
    let mut prop = Prop::new();
    prop.insert::<DavError>(DavError::single(Condition::LockTokenSubmitted(Vec::new())).into_value());
    let error = prop.into_xml().unwrap_err();
    assert!(matches!(error, Error::MissingElement { parent: "lock-token-submitted", element: "href" }));
}

#[test]
fn serializes_nested_empty_no_conflicting_lock() {
    let mut prop = Prop::new();
    prop.insert::<DavError>(DavError::single(Condition::NoConflictingLock(Vec::new())).into_value());
    prop.into_xml().unwrap();
}

#[test]
fn set_parses_writes_and_round_trips() {
    let set = SetProp::from_xml(br#"<D:set xmlns:D="DAV:"><D:prop><D:x>1</D:x></D:prop></D:set>"#.to_vec()).unwrap();
    let output = set.copy().into_xml().unwrap();
    assert_eq!(SetProp::from_xml(output).unwrap(), set);
}

#[test]
fn set_missing_prop_is_reported() {
    let error = SetProp::from_xml(br#"<D:set xmlns:D="DAV:"/>"#.to_vec()).unwrap_err();
    assert!(matches!(error, Error::MissingElement { parent: "set", element: "prop" }));
}

#[test]
fn parses_writes_and_round_trips_empty_property_names() {
    let remove = Remove::from_xml(br#"<D:remove xmlns:D="DAV:"><D:prop><D:x/></D:prop></D:remove>"#.to_vec()).unwrap();
    let output = remove.copy().into_xml().unwrap();
    assert_eq!(Remove::from_xml(output).unwrap(), remove);
}

#[test]
fn serializes_populated_prop_children_as_empty_names() {
    let remove = Remove::from_xml(br#"<D:remove xmlns:D="DAV:"><D:prop><D:x>1</D:x></D:prop></D:remove>"#.to_vec()).unwrap();
    let output = remove.into_xml().unwrap();
    let expected = Remove::from_xml(br#"<D:remove xmlns:D="DAV:"><D:prop><D:x/></D:prop></D:remove>"#.to_vec()).unwrap();
    assert_eq!(Remove::from_xml(output).unwrap(), expected);
}

#[test]
fn remove_missing_prop_is_reported() {
    let error = Remove::from_xml(br#"<D:remove xmlns:D="DAV:"/>"#.to_vec()).unwrap_err();
    assert!(matches!(error, Error::MissingElement { parent: "remove", element: "prop" }));
}

const RFC_9_2_2: &str = r#"<?xml version="1.0" encoding="utf-8" ?>
<D:propertyupdate xmlns:D="DAV:" xmlns:Z="http://ns.example.com/z/">
  <D:set>
    <D:prop>
      <Z:Authors>
        <Z:Author>Jim Whitehead</Z:Author>
        <Z:Author>Roy Fielding</Z:Author>
      </Z:Authors>
    </D:prop>
  </D:set>
  <D:remove>
    <D:prop><Z:Copyright-Owner/></D:prop>
  </D:remove>
</D:propertyupdate>"#;

#[test]
fn parses_rfc_example_in_order() {
    let update = PropertyUpdate::from_xml(RFC_9_2_2.as_bytes().to_vec()).unwrap();
    assert_eq!(update.0.len(), 2);
    assert!(matches!(update.0[0], PropertyUpdateItem::SetProps(_)));
    assert!(matches!(update.0[1], PropertyUpdateItem::Remove(_)));
}

#[test]
fn keeps_interleaved_order() {
    let xml = br#"<D:propertyupdate xmlns:D="DAV:"><D:remove><D:prop><D:a/></D:prop></D:remove><D:set><D:prop><D:b>1</D:b></D:prop></D:set><D:remove><D:prop><D:c/></D:prop></D:remove></D:propertyupdate>"#;
    let update = PropertyUpdate::from_xml(xml.to_vec()).unwrap();
    let kinds: Vec<_> = update.0.iter().map(|item| matches!(item, PropertyUpdateItem::SetProps(_))).collect();
    assert_eq!(kinds, [false, true, false]);
}

#[test]
fn builder_writes_set_then_remove() {
    let update = PropertyUpdate::new()
        .set(Prop::builder().property(DisplayName("new".into())).build())
        .remove(Prop::builder().name::<DisplayName>().build());
    let xml = update.copy().into_xml().unwrap();
    let text = std::str::from_utf8(&xml).unwrap();
    assert!(text.contains("<D:set>"), "{text}");
    assert!(text.contains("<D:displayname>new</D:displayname>"), "{text}");
    assert!(text.contains("<D:remove>"), "{text}");
    assert_eq!(PropertyUpdate::from_xml(xml).unwrap(), update);
}

#[test]
fn empty_update_is_rejected() {
    let error = PropertyUpdate::from_xml(br#"<D:propertyupdate xmlns:D="DAV:"> </D:propertyupdate>"#.to_vec()).unwrap_err();
    assert!(matches!(error, Error::MissingElement { parent: "propertyupdate", element: "set or remove" }));
}

#[test]
fn parses_propname() {
    let propfind = PropFind::from_xml(br#"<D:propfind xmlns:D="DAV:"><D:propname/></D:propfind>"#.to_vec()).unwrap();
    assert_eq!(propfind, PropFind::PropName);
}

#[test]
fn parses_allprop_with_include() {
    let xml = r#"<D:propfind xmlns:D="DAV:"><D:allprop/><D:include><D:supported-live-property-set/></D:include></D:propfind>"#;
    let propfind = PropFind::from_xml(xml.as_bytes().to_vec()).unwrap();
    let PropFind::AllProp { including: Some(including) } = propfind else {
        panic!("expected allprop with include")
    };
    assert_eq!(including.0.len(), 1);
    assert_eq!(including.0[0].local_name, "supported-live-property-set");
}

#[test]
fn parses_prop() {
    let xml = r#"<D:propfind xmlns:D="DAV:"><D:prop><D:displayname/></D:prop></D:propfind>"#;
    let PropFind::Prop(prop) = PropFind::from_xml(xml.as_bytes().to_vec()).unwrap() else {
        panic!("expected prop")
    };
    assert!(prop.get::<DisplayName>().is_some());
}

#[test]
fn rejects_conflicts() {
    let xml = r#"<D:propfind xmlns:D="DAV:"><D:propname/><D:allprop/></D:propfind>"#;
    let error = PropFind::from_xml(xml.as_bytes().to_vec()).unwrap_err();
    assert!(matches!(error, Error::ConflictingElements { parent: "propfind", .. }));
}

#[test]
fn writes_allprop_document() {
    let xml = PropFind::AllProp { including: None }.into_xml().unwrap();
    let xml = std::str::from_utf8(&xml).unwrap();
    assert!(xml.contains("<D:propfind xmlns:D=\"DAV:\">"), "{xml}");
    assert!(xml.contains("<D:allprop/>"), "{xml}");
}

#[test]
fn round_trips_all_variants() {
    let mut prop = Prop::new();
    prop.insert::<DisplayName>(Value::Empty);
    for propfind in [PropFind::PropName, PropFind::AllProp { including: None }, PropFind::Prop(prop.copy())] {
        let xml = propfind.copy().into_xml().unwrap();
        assert_eq!(PropFind::from_xml(xml).unwrap(), propfind);
    }
}

#[test]
fn include_parses_writes_and_round_trips() {
    let including = Include::from_xml(br#"<D:include xmlns:D="DAV:"><D:displayname/></D:include>"#.to_vec()).unwrap();
    assert_eq!(including.0.len(), 1);
    let output = including.copy().into_xml().unwrap();
    assert_eq!(Include::from_xml(output).unwrap(), including);
}

#[test]
fn propstat_parses_writes_and_round_trips() {
    let xml = r#"<D:propstat xmlns:D="DAV:"><D:prop/><D:status>HTTP/1.1 200 OK</D:status></D:propstat>"#;
    let propstat = Propstat::from_xml(xml.as_bytes().to_vec()).unwrap();
    let output = propstat.copy().into_xml().unwrap();
    assert_eq!(Propstat::from_xml(output).unwrap(), propstat);
}

#[test]
fn parses_propstat_variant_with_multiple_propstats() {
    let xml = r#"<D:response xmlns:D="DAV:">
  <D:href>/a</D:href>
  <D:propstat><D:prop><D:displayname>a</D:displayname></D:prop><D:status>HTTP/1.1 200 OK</D:status></D:propstat>
  <D:propstat><D:prop><D:getetag/></D:prop><D:status>HTTP/1.1 404 Not Found</D:status></D:propstat>
  <D:propstat><D:prop><D:foo/></D:prop><D:status>HTTP/1.1 403 Forbidden</D:status></D:propstat>
  <D:responsedescription>x</D:responsedescription>
</D:response>"#;
    let response = Response::from_xml(xml.as_bytes().to_vec()).unwrap();
    let Response::Propstat { href, propstat, responsedescription } = response else {
        panic!("expected propstat response")
    };
    assert_eq!(href.path(), "/a");
    assert_eq!(propstat.len(), 3);
    assert_eq!(responsedescription.unwrap().0, "x");
}

#[test]
fn parses_status_variant_with_multiple_hrefs() {
    let xml = r#"<D:response xmlns:D="DAV:">
  <D:href>/a</D:href><D:href>/b</D:href><D:href>/c</D:href>
  <D:status>HTTP/1.1 424 Failed Dependency</D:status>
</D:response>"#;
    let response = Response::from_xml(xml.as_bytes().to_vec()).unwrap();
    let Response::Status { href, status, .. } = response else {
        panic!("expected status response")
    };
    assert_eq!(href.len(), 3);
    assert_eq!(status.code, 424);
}

#[test]
fn response_missing_href_is_reported() {
    let xml = r#"<D:response xmlns:D="DAV:"><D:status>HTTP/1.1 200 OK</D:status></D:response>"#;
    let error = Response::from_xml(xml.as_bytes().to_vec()).unwrap_err();
    assert!(matches!(error, Error::MissingElement { parent: "response", element: "href" }));
}

#[test]
fn round_trips_both_variants() {
    for xml in [
        r#"<D:response xmlns:D="DAV:"><D:href>/a</D:href><D:propstat><D:prop/><D:status>HTTP/1.1 200 OK</D:status></D:propstat></D:response>"#,
        r#"<D:response xmlns:D="DAV:"><D:href>/a</D:href><D:href>/b</D:href><D:status>HTTP/1.1 200 OK</D:status></D:response>"#,
    ] {
        let response = Response::from_xml(xml.as_bytes().to_vec()).unwrap();
        let output = response.copy().into_xml().unwrap();
        assert_eq!(Response::from_xml(output).unwrap(), response);
    }
}

const THREE: &str = r#"<?xml version="1.0"?>
<D:multistatus xmlns:D="DAV:">
  <D:response><D:href>/a</D:href><D:status>HTTP/1.1 200 OK</D:status></D:response>
  <D:response><D:href>/b</D:href><D:status>HTTP/1.1 404 Not Found</D:status></D:response>
  <D:response><D:href>/c</D:href><D:status>HTTP/1.1 200 OK</D:status></D:response>
  <D:responsedescription>done</D:responsedescription>
</D:multistatus>"#;

#[test]
fn parses_three_responses_flat() {
    let multistatus = Multistatus::from_xml(THREE.as_bytes().to_vec()).unwrap();
    assert_eq!(multistatus.response.len(), 3);
    assert_eq!(multistatus.responsedescription.unwrap().0, "done");
}

#[test]
fn parses_empty_multistatus() {
    let multistatus = Multistatus::from_xml(br#"<D:multistatus xmlns:D="DAV:"/>"#.to_vec()).unwrap();
    assert!(multistatus.response.is_empty());
    let multistatus = Multistatus::from_xml(br#"<D:multistatus xmlns:D="DAV:"> </D:multistatus>"#.to_vec()).unwrap();
    assert!(multistatus.response.is_empty());
}

#[test]
fn failures_lists_non_success() {
    let multistatus = Multistatus::from_xml(THREE.as_bytes().to_vec()).unwrap();
    let failing: Vec<_> = multistatus.failures().iter().map(|(href, status)| (href.path(), status.code)).collect();
    assert_eq!(failing, [("/b".to_owned(), 404)]);
}

#[test]
fn multistatus_round_trips() {
    let multistatus = Multistatus::from_xml(THREE.as_bytes().to_vec()).unwrap();
    let xml = multistatus.copy().into_xml().unwrap();
    assert_eq!(Multistatus::from_xml(xml).unwrap(), multistatus);
}
