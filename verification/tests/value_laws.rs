use dav_xml::elements::{
    Condition, DavError, HttpVersion, Include, LockInfo, Multistatus, Owner, Prop, PropFind, PropertyUpdate,
    PropertyUpdateItem, Propstat, Response, Status,
};
use dav_xml::properties::{DisplayName, ResourceType};
use dav_xml::value::NonEmptyVec;
use dav_xml::{Element, ElementName, FromXml, Value};

fn href(text: &str) -> dav_xml::elements::Href {
    dav_xml::elements::Href::from_xml(format!(r#"<D:href xmlns:D="DAV:">{text}</D:href>"#).into_bytes()).unwrap()
}

fn status(code: u16, reason: Option<&str>) -> Status {
    Status { code, version: HttpVersion::Http11, reason: reason.map(str::to_string) }
}

#[test]
fn status_reads_back_from_its_value() {
    for s in [status(423, Some("Locked")), status(207, None), status(999, Some("Made Up Reason"))] {
        let expected = s.copy();
        let value = s.into_value();
        assert_eq!(Status::from_value(&value).unwrap(), expected);
    }
}

#[test]
fn status_with_padded_reason_does_not_read_back() {
    let value = status(200, Some(" OK ")).into_value();
    assert_eq!(Status::from_value(&value).unwrap().reason.as_deref(), Some("OK"));
}

#[test]
fn lockinfo_with_owner_reads_back() {
    let info = LockInfo::exclusive_write().with_owner(Owner::text("alice"));
    let expected = info.copy();
    assert_eq!(LockInfo::from_value(&info.into_value()).unwrap(), expected);
}

#[test]
fn propfind_reads_back_in_every_form() {
    let extra = Include(vec![ElementName::dav("supportedlock"), ElementName::dav("lockdiscovery")]);
    let forms = [
        PropFind::PropName,
        PropFind::AllProp { including: None },
        PropFind::AllProp { including: Some(extra) },
        PropFind::Prop(Prop::builder().name::<DisplayName>().build()),
    ];
    for form in forms {
        let expected = form.copy();
        assert_eq!(PropFind::from_value(&form.into_value()).unwrap(), expected);
    }
}

#[test]
fn dav_error_with_two_conditions_reads_back() {
    let error = DavError {
        conditions: vec![Condition::LockTokenSubmitted(vec![href("/a"), href("/b")]), Condition::PropfindFiniteDepth],
    };
    let expected = error.copy();
    assert_eq!(DavError::from_value(&error.into_value()).unwrap(), expected);
}

#[test]
fn property_update_reads_back_with_removals_as_names() {
    let set = Prop::builder().property(DisplayName("Name".to_string())).build();
    let removed = Prop::builder().property(DisplayName("Gone".to_string())).build();
    let update = PropertyUpdate::new().set(set).remove(removed).set(Prop::builder().name::<DisplayName>().build());
    let back = PropertyUpdate::from_value(&update.into_value()).unwrap();
    assert_eq!(back.0.len(), 3);
    match &back.0[1] {
        PropertyUpdateItem::Remove(r) => {
            let value = r.0.get::<DisplayName>();
            assert!(matches!(value, Some(None)), "the removal keeps the name, with no value");
        },
        PropertyUpdateItem::SetProps(_) => panic!("order kept"),
    }
    match &back.0[0] {
        PropertyUpdateItem::SetProps(s) => assert_eq!(s.0.displayname().unwrap().unwrap().unwrap().0, "Name"),
        PropertyUpdateItem::Remove(_) => panic!("order kept"),
    }
}

#[test]
fn resource_type_reads_back() {
    let collection = ResourceType::collection();
    let value = collection.into_value();
    assert!(ResourceType::from_value(&value).unwrap().is_collection());
    let plain = ResourceType::resource().into_value();
    assert!(matches!(plain, Value::Empty));
    assert!(!ResourceType::from_value(&plain).unwrap().is_collection());
}

#[test]
fn multistatus_with_both_kinds_of_response_reads_back() {
    let ms = Multistatus {
        response: vec![
            Response::Propstat {
                href: href("/d/"),
                propstat: NonEmptyVec::new(Propstat {
                    prop: Prop::builder().name::<DisplayName>().build(),
                    status: status(200, Some("OK")),
                    responsedescription: None,
                }),
                responsedescription: None,
            },
            Response::Status {
                href: NonEmptyVec::try_from_vec(vec![href("/d/x"), href("/d/y")]).unwrap(),
                status: status(423, Some("Locked")),
                responsedescription: None,
            },
        ],
        responsedescription: None,
    };
    let expected = ms.copy();
    assert_eq!(Multistatus::from_value(&ms.into_value()).unwrap(), expected);
}

#[test]
fn dav_error_conditions_keep_document_order() {
    let xml = r#"<D:error xmlns:D="DAV:"><D:propfind-finite-depth/><D:no-external-entities/><D:propfind-finite-depth/></D:error>"#;
    let error = DavError::from_xml(xml.as_bytes().to_vec()).unwrap();
    assert_eq!(
        error.conditions,
        vec![Condition::PropfindFiniteDepth, Condition::NoExternalEntities, Condition::PropfindFiniteDepth]
    );
    let expected = error.copy();
    assert_eq!(DavError::from_value(&error.into_value()).unwrap(), expected);
}

#[test]
fn non_empty_list_refuses_no_items() {
    assert!(NonEmptyVec::<Value>::try_from_vec(Vec::new()).is_none());
    let list = NonEmptyVec::new(Value::Empty).pushed(Value::Text("x".into()));
    assert_eq!(list.len(), 2);
    assert_eq!(list.into_vec(), vec![Value::Empty, Value::Text("x".into())]);
}
