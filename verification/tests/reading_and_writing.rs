use dav_xml::elements::{Condition, DavError, LockInfo, Owner};
use dav_xml::read::read_xml;
use dav_xml::value::{ContentItem, NonEmptyVec};
use dav_xml::write::write_xml;
use dav_xml::{Element, ElementName, Error, Value, ValueMap};

fn key(namespace: Option<&str>, local_name: &str) -> ElementName {
    ElementName { namespace: namespace.map(Into::into), prefix: None, local_name: local_name.into() }
}

fn root(xml: &str) -> ValueMap {
    let value = read_xml(xml.as_bytes()).unwrap();
    let Value::Elements(map) = value else {
        panic!("root is a map")
    };
    map
}

#[test]
fn reads_empty_text_and_nested_elements() {
    let map = root(r#"<a xmlns="DAV:"><b/><c>text</c><d><e/></d></a>"#);
    let a = map.get_value(&key(Some("DAV:"), "a")).unwrap().as_map().unwrap();
    assert_eq!(a.get_value(&key(Some("DAV:"), "b")), Some(&Value::Empty));
    assert_eq!(a.get_value(&key(Some("DAV:"), "c")), Some(&Value::Text("text".into())));
    assert!(a.get_value(&key(Some("DAV:"), "d")).unwrap().is_map());
}

#[test]
fn same_namespace_different_prefixes_share_key() {
    let map = root(r#"<D:a xmlns:D="DAV:" xmlns:lp1="DAV:"><lp1:x>1</lp1:x><D:x>2</D:x></D:a>"#);
    let a = map.get_value(&key(Some("DAV:"), "a")).unwrap().as_map().unwrap();
    let x = a.get_value(&key(Some("DAV:"), "x")).unwrap();
    assert!(x.is_list());
}

#[test]
fn undeclared_prefix_keeps_qualified_name() {
    let map = root(r#"<a xmlns="DAV:"><foo:bar/></a>"#);
    let a = map.get_value(&key(Some("DAV:"), "a")).unwrap().as_map().unwrap();
    assert!(a.get_value(&key(None, "foo:bar")).is_some());
}

#[test]
fn empty_namespace_uri_is_rejected() {
    let error = read_xml(br#"<x:a xmlns:x=""/>"#).unwrap_err();
    assert!(matches!(error, Error::InvalidNamespace(_)));
}

#[test]
fn joins_text_split_by_entities_and_cdata() {
    let map = root("<a>x &amp; y &#38; <![CDATA[<z>]]> w</a>");
    assert_eq!(map.get_value(&key(None, "a")), Some(&Value::Text("x & y & <z> w".into())));
}

#[test]
fn unknown_entity_is_an_error() {
    let error = read_xml(b"<a>&nope;</a>").unwrap_err();
    assert!(matches!(error, Error::UnknownEntity(name) if name == "nope"));
}

#[test]
fn mismatched_closing_tag_is_an_error() {
    let error = read_xml(b"<a><b></a></b>").unwrap_err();
    assert!(matches!(error, Error::UnexpectedTag { .. } | Error::Xml(_)));
}

#[test]
fn invalid_utf8_is_an_error() {
    let error = read_xml(&[0xff, 0xfe, b'<']).unwrap_err();
    assert!(matches!(error, Error::Utf8(_)));
}

#[test]
fn comments_pis_and_doctype_are_skipped() {
    let map = root("<?xml version=\"1.0\"?><!DOCTYPE a><!-- c --><a><?pi x?><b/></a>");
    assert!(map.get_value(&key(None, "a")).is_some());
}

#[test]
fn whitespace_only_text_is_ignored() {
    let map = root("<a>\n  <b/>\n</a>");
    assert!(map.get_value(&key(None, "a")).is_some());
}

#[test]
fn leading_cdata_is_text() {
    let map = root("<a><![CDATA[hi]]></a>");
    assert_eq!(map.get_value(&key(None, "a")), Some(&Value::Text("hi".into())));
}

#[test]
fn accumulates_adjacent_text_chunks_in_one_pending_run() {
    let xml = format!("<a>{}</a>", "&amp;".repeat(4096));
    let map = root(&xml);
    assert_eq!(map.get_value(&key(None, "a")), Some(&Value::Text("&".repeat(4096))));
}

fn name(ns: &str, prefix: &str, local: &str) -> ElementName {
    ElementName { namespace: Some(ns.into()), prefix: Some(prefix.into()), local_name: local.into() }
}

fn render_result(value: Value) -> Result<String, Error> {
    write_xml(&ElementName::dav("root"), &value, "root").map(|out| String::from_utf8(out).unwrap())
}

fn render(value: Value) -> String {
    render_result(value).unwrap()
}

#[test]
fn declares_namespaces_in_sorted_order() {
    let mut map = ValueMap::new();
    map.insert_raw(name("urn:z", "z", "a"), Value::Empty);
    map.insert_raw(name("urn:a", "a", "b"), Value::Empty);
    let xml = render(Value::Elements(map));
    assert_eq!(
        xml,
        "<?xml version=\"1.0\" encoding=\"utf-8\"?>\n\
         <D:root xmlns:D=\"DAV:\" xmlns:a=\"urn:a\" xmlns:z=\"urn:z\">\n  \
         <z:a/>\n  <a:b/>\n</D:root>"
    );
}

#[test]
fn serializes_repeated_error_siblings() {
    let mut map = ValueMap::new();
    let error_name = name("DAV:", "D", DavError::local_name());
    map.insert_raw(error_name.copy(), DavError::single(Condition::PropfindFiniteDepth).into_value());
    map.insert_raw(error_name, DavError::single(Condition::NoExternalEntities).into_value());
    let xml = render(Value::Elements(map));
    assert_eq!(xml.matches("<D:error").count(), 2);
}

#[test]
fn writes_interleaved_siblings_in_order() {
    let mut map = ValueMap::new();
    let alpha = name("DAV:", "D", "alpha");
    map.insert_raw(alpha.copy(), Value::Text("first".into()));
    map.insert_raw(name("DAV:", "D", "beta"), Value::Empty);
    map.insert_raw(alpha, Value::Text("second".into()));
    let xml = render(Value::Elements(map));
    let alpha_first = xml.find("<D:alpha>first</D:alpha>").unwrap();
    let beta = xml.find("<D:beta/>").unwrap();
    let alpha_second = xml.find("<D:alpha>second</D:alpha>").unwrap();
    assert!(alpha_first < beta && beta < alpha_second, "{xml}");
}

#[test]
fn writes_list_then_raw_siblings_in_order() {
    let mut map = ValueMap::new();
    map.insert_named(
        ElementName::dav("alpha"),
        Value::List(NonEmptyVec::try_from_vec(vec![Value::Text("first".into()), Value::Text("second".into())]).unwrap()),
    );
    map.insert_raw(name("DAV:", "D", "alpha"), Value::Text("third".into()));
    let xml = render(Value::Elements(map));
    assert!(xml.contains("<D:alpha>first</D:alpha>"), "{xml}");
    assert!(xml.contains("<D:alpha>second</D:alpha>"), "{xml}");
    assert!(xml.contains("<D:alpha>third</D:alpha>"), "{xml}");
    let first = xml.find("<D:alpha>first</D:alpha>").unwrap();
    let second = xml.find("<D:alpha>second</D:alpha>").unwrap();
    let third = xml.find("<D:alpha>third</D:alpha>").unwrap();
    assert!(first < second && second < third, "{xml}");
}

#[test]
fn renames_colliding_prefixes() {
    let mut map = ValueMap::new();
    map.insert_raw(name("urn:one", "x", "a"), Value::Empty);
    map.insert_raw(name("urn:two", "x", "b"), Value::Empty);
    let xml = render(Value::Elements(map));
    assert!(xml.contains("xmlns:x=\"urn:one\""), "{xml}");
    assert!(xml.contains("xmlns:ns0=\"urn:two\""), "{xml}");
    assert!(xml.contains("<ns0:b/>"), "{xml}");
}

#[test]
fn prefix_less_namespace_gets_generated_prefix() {
    let mut map = ValueMap::new();
    map.insert_raw(ElementName { namespace: Some("urn:n".into()), prefix: None, local_name: "a".into() }, Value::Empty);
    let xml = render(Value::Elements(map));
    assert!(xml.contains("xmlns:ns0=\"urn:n\""), "{xml}");
}

#[test]
fn generated_prefix_skips_one_taken() {
    let mut map = ValueMap::new();
    map.insert_raw(name("urn:a", "ns0", "a"), Value::Empty);
    map.insert_raw(ElementName { namespace: Some("urn:b".into()), prefix: None, local_name: "b".into() }, Value::Empty);
    let xml = render(Value::Elements(map));
    assert!(xml.contains("xmlns:ns0=\"urn:a\""), "{xml}");
    assert!(xml.contains("xmlns:ns1=\"urn:b\""), "{xml}");
}

#[test]
fn escapes_text() {
    let mut map = ValueMap::new();
    map.insert_raw(name("DAV:", "D", "t"), Value::Text("a & <b>".into()));
    let xml = render(Value::Elements(map));
    assert!(xml.contains("<D:t>a &amp; &lt;b&gt;</D:t>"), "{xml}");
}

#[test]
fn empty_root_is_self_closing() {
    let xml = render(Value::Empty);
    assert!(xml.ends_with("<D:root xmlns:D=\"DAV:\"/>"), "{xml}");
}

#[test]
fn text_root_is_written() {
    let xml = render(Value::Text("hi".into()));
    assert!(xml.ends_with("<D:root xmlns:D=\"DAV:\">hi</D:root>"), "{xml}");
}

#[test]
fn list_root_is_an_error() {
    let list = Value::List(NonEmptyVec::new(Value::Empty));
    let error = render_result(list).unwrap_err();
    assert!(matches!(error, Error::InvalidValueType { element: "root", .. }));
}

#[test]
fn mixed_error_is_validated_as_an_error_container() {
    let mut map = ValueMap::new();
    map.insert_raw(
        name("DAV:", "D", DavError::local_name()),
        Value::Mixed(vec![ContentItem::Element { name: name("DAV:", "D", "propfind-finite-depth"), value: Value::Empty }]),
    );
    let error = render_result(Value::Elements(map)).unwrap_err();
    assert!(matches!(error, Error::InvalidValueType { element: "error", expected: "child elements" }));
}

#[test]
fn list_root_items_are_validated_first() {
    let mut map = ValueMap::new();
    map.insert_raw(
        name("DAV:", "D", DavError::local_name()),
        Value::Mixed(vec![ContentItem::Element { name: name("DAV:", "D", "propfind-finite-depth"), value: Value::Empty }]),
    );
    let list = Value::List(NonEmptyVec::new(Value::Elements(map)));
    let error = render_result(list).unwrap_err();
    assert!(matches!(error, Error::InvalidValueType { element: "error", expected: "child elements" }));
}

#[test]
fn preserves_opaque_dav_error_content_inside_owner() {
    let mut map = ValueMap::new();
    map.insert_raw(
        name("DAV:", "D", "owner"),
        Value::Mixed(vec![
            ContentItem::Text("\n  ".into()),
            ContentItem::Element {
                name: name("DAV:", "D", DavError::local_name()),
                value: Value::Mixed(vec![
                    ContentItem::Text("\n    ".into()),
                    ContentItem::Element { name: name("DAV:", "D", "propfind-finite-depth"), value: Value::Empty },
                    ContentItem::Text("\n  ".into()),
                ]),
            },
            ContentItem::Text("\n".into()),
        ]),
    );
    render_result(Value::Elements(map)).unwrap();
}

#[test]
fn indents_owner_start_while_preserving_owner_content() {
    let info = LockInfo::exclusive_write().with_owner(Owner::text("\n  Jane\n"));
    let out = write_xml(&ElementName::dav("lockinfo"), &info.into_value(), "lockinfo").unwrap();
    assert_eq!(
        String::from_utf8(out).unwrap(),
        [
            "<?xml version=\"1.0\" encoding=\"utf-8\"?>\n",
            "<D:lockinfo xmlns:D=\"DAV:\">\n",
            "  <D:lockscope>\n",
            "    <D:exclusive/>\n",
            "  </D:lockscope>\n",
            "  <D:locktype>\n",
            "    <D:write/>\n",
            "  </D:locktype>\n",
            "  <D:owner>\n",
            "  Jane\n",
            "</D:owner>\n",
            "</D:lockinfo>",
        ]
        .concat()
    );
}

#[test]
fn unnamespaced_names_are_written_bare() {
    let mut map = ValueMap::new();
    map.insert_raw(ElementName { namespace: None, prefix: None, local_name: "plain".into() }, Value::Empty);
    let xml = render(Value::Elements(map));
    assert!(xml.contains("<plain/>"), "{xml}");
}

#[test]
fn taken_prefix_gets_a_generated_one() {
    let mut map = ValueMap::new();
    map.insert_raw(name("urn:a", "D", "b"), Value::Empty);
    map.insert_raw(name("urn:c", "D", "d"), Value::Empty);
    let xml = render(Value::Elements(map));
    assert!(xml.contains("xmlns:D=\"DAV:\""), "{xml}");
    assert!(xml.contains("xmlns:ns0=\"urn:a\""), "{xml}");
    assert!(xml.contains("xmlns:ns1=\"urn:c\""), "{xml}");
    assert!(xml.contains("<ns0:b/>") && xml.contains("<ns1:d/>"), "{xml}");
}
