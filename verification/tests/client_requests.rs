use dav_xml::client::headers::{If, LockTokenHeader, Overwrite};
use dav_xml::client::request::APPLICATION_XML;
use dav_xml::client::{Auth, Error, HttpRequest, RequestContext};
use dav_xml::elements::{Depth, LockInfo, Prop, PropFind, PropertyUpdate, Timeout};
use dav_xml::properties::DisplayName;
use dav_xml::FromXml;

fn ctx<'a>(auth: &'a Auth, if_header: Option<&'a If>, extra: &'a Vec<(String, String)>) -> RequestContext<'a> {
    RequestContext { auth, if_header, extra }
}

fn header<'r>(request: &'r HttpRequest, name: &str) -> Option<&'r str> {
    request.headers.iter().find(|(n, _)| n == name).map(|(_, v)| v.as_str())
}

fn count(request: &HttpRequest, name: &str) -> usize {
    request.headers.iter().filter(|(n, _)| n == name).count()
}

#[test]
fn base_applies_auth_if_and_extra_headers() {
    let auth = Auth::basic("a", "b");
    let cond = If::untagged("t");
    let extra = vec![("x-custom".to_string(), "1".to_string())];
    let request = ctx(&auth, Some(&cond), &extra).get("http://h/p").unwrap();
    assert_eq!(request.method, "GET");
    assert_eq!(request.uri.text, "http://h/p");
    assert_eq!(header(&request, "authorization"), Some("Basic YTpi"));
    assert_eq!(header(&request, "if"), Some("(<t>)"));
    assert_eq!(header(&request, "x-custom"), Some("1"));
}

#[test]
fn extra_headers_override_authorization_and_if() {
    let auth = Auth::basic("a", "b");
    let cond = If::untagged("t");
    let extra = vec![
        ("authorization".to_string(), "Bearer overridden".to_string()),
        ("if".to_string(), "(<override>)".to_string()),
    ];
    let request = ctx(&auth, Some(&cond), &extra).get("http://h/p").unwrap();
    assert_eq!(count(&request, "authorization"), 1);
    assert_eq!(count(&request, "if"), 1);
    assert_eq!(header(&request, "authorization"), Some("Bearer overridden"));
    assert_eq!(header(&request, "if"), Some("(<override>)"));
}

#[test]
fn invalid_url_is_reported() {
    let auth = Auth::Anonymous;
    let extra = Vec::new();
    assert!(matches!(ctx(&auth, None, &extra).get("http://h /p"), Err(Error::InvalidUrl(_))));
}

#[test]
fn propfind_sets_depth_and_body() {
    let auth = Auth::Anonymous;
    let extra = Vec::new();
    let request = ctx(&auth, None, &extra).propfind("http://h/", PropFind::AllProp { including: None }, Depth::One).unwrap();
    assert_eq!(request.method, "PROPFIND");
    assert_eq!(header(&request, "depth"), Some("1"));
    assert_eq!(header(&request, "content-type"), Some(APPLICATION_XML));
    assert_eq!(PropFind::from_xml(request.body.clone()).unwrap(), PropFind::AllProp { including: None });
}

#[test]
fn proppatch_sends_propertyupdate() {
    let auth = Auth::Anonymous;
    let extra = Vec::new();
    let update = PropertyUpdate::new().remove(Prop::builder().name::<DisplayName>().build());
    let request = ctx(&auth, None, &extra).proppatch("http://h/x", update.copy()).unwrap();
    assert_eq!(request.method, "PROPPATCH");
    assert_eq!(PropertyUpdate::from_xml(request.body.clone()).unwrap(), update);
}

#[test]
fn mkcol_delete_head_have_no_body() {
    let auth = Auth::Anonymous;
    let extra = Vec::new();
    let c = ctx(&auth, None, &extra);
    for (request, method) in [
        (c.mkcol("http://h/d/").unwrap(), "MKCOL"),
        (c.delete("http://h/d/").unwrap(), "DELETE"),
        (c.head("http://h/f").unwrap(), "HEAD"),
    ] {
        assert_eq!(request.method, method);
        assert!(request.body.is_empty());
        assert_eq!(header(&request, "depth"), None);
    }
}

#[test]
fn put_sets_content_type_and_body() {
    let auth = Auth::Anonymous;
    let extra = Vec::new();
    let request = ctx(&auth, None, &extra).put("http://h/f", b"hi".to_vec(), "text/plain").unwrap();
    assert_eq!(request.method, "PUT");
    assert_eq!(header(&request, "content-type"), Some("text/plain"));
    assert_eq!(request.body, b"hi");
}

#[test]
fn copy_and_move_set_destination_depth_overwrite() {
    let auth = Auth::Anonymous;
    let extra = Vec::new();
    let c = ctx(&auth, None, &extra);
    let copy = c.copy("http://h/a", "http://h/b", Depth::Infinity, Overwrite::False).unwrap();
    assert_eq!(copy.method, "COPY");
    assert_eq!(header(&copy, "destination"), Some("http://h/b"));
    assert_eq!(header(&copy, "depth"), Some("infinity"));
    assert_eq!(header(&copy, "overwrite"), Some("F"));
    let mv = c.mv("http://h/a", "http://h/b", Overwrite::True).unwrap();
    assert_eq!(mv.method, "MOVE");
    assert_eq!(header(&mv, "overwrite"), Some("T"));
    assert_eq!(header(&mv, "depth"), None);
}

#[test]
fn copy_rejects_depth_one() {
    let auth = Auth::Anonymous;
    let extra = Vec::new();
    assert!(matches!(
        ctx(&auth, None, &extra).copy("http://h/a", "http://h/b", Depth::One, Overwrite::True),
        Err(Error::InvalidArgument(_))
    ));
}

#[test]
fn lock_sends_lockinfo_timeout_depth() {
    let auth = Auth::Anonymous;
    let extra = Vec::new();
    let request = ctx(&auth, None, &extra)
        .lock("http://h/a", LockInfo::exclusive_write(), Some(Timeout::Seconds(60)), Depth::Zero)
        .unwrap();
    assert_eq!(request.method, "LOCK");
    assert_eq!(header(&request, "timeout"), Some("Second-60"));
    assert_eq!(header(&request, "depth"), Some("0"));
    assert_eq!(LockInfo::from_xml(request.body.clone()).unwrap(), LockInfo::exclusive_write());
}

#[test]
fn lock_rejects_depth_one() {
    let auth = Auth::Anonymous;
    let extra = Vec::new();
    assert!(matches!(
        ctx(&auth, None, &extra).lock("http://h/a", LockInfo::exclusive_write(), None, Depth::One),
        Err(Error::InvalidArgument(_))
    ));
}

#[test]
fn refresh_lock_uses_if_header_and_no_body() {
    let auth = Auth::Anonymous;
    let extra = Vec::new();
    let token = LockTokenHeader("urn:uuid:1".into());
    let request = ctx(&auth, None, &extra).refresh_lock("http://h/a", &token, Some(Timeout::Infinite)).unwrap();
    assert_eq!(request.method, "LOCK");
    assert_eq!(header(&request, "if"), Some("(<urn:uuid:1>)"));
    assert_eq!(header(&request, "timeout"), Some("Infinite"));
    assert!(request.body.is_empty());
}

#[test]
fn refresh_lock_merges_existing_if() {
    let auth = Auth::Anonymous;
    let extra = Vec::new();
    let existing = If::untagged("urn:uuid:existing");
    let token = LockTokenHeader("urn:uuid:1".into());
    let request = ctx(&auth, Some(&existing), &extra).refresh_lock("http://h/a", &token, None).unwrap();
    assert_eq!(request.method, "LOCK");
    assert_eq!(header(&request, "if"), Some("(<urn:uuid:existing>) (<urn:uuid:1>)"));
}

#[test]
fn unlock_sets_lock_token_header() {
    let auth = Auth::Anonymous;
    let extra = Vec::new();
    let request = ctx(&auth, None, &extra).unlock("http://h/a", &LockTokenHeader("urn:uuid:1".into())).unwrap();
    assert_eq!(request.method, "UNLOCK");
    assert_eq!(header(&request, "lock-token"), Some("<urn:uuid:1>"));
}

#[test]
fn options_has_no_body() {
    let auth = Auth::Anonymous;
    let extra = Vec::new();
    let request = ctx(&auth, None, &extra).options("http://h/").unwrap();
    assert_eq!(request.method, "OPTIONS");
}

#[test]
fn invalid_if_header_is_reported() {
    let auth = Auth::Anonymous;
    let extra = Vec::new();
    let cond = If::untagged("bad\ntoken");
    assert!(matches!(ctx(&auth, Some(&cond), &extra).get("http://h/p"), Err(Error::InvalidHeader(_))));
}

#[test]
fn invalid_content_type_is_an_http_error() {
    let auth = Auth::Anonymous;
    let extra = Vec::new();
    let error = ctx(&auth, None, &extra).put("http://h/f", Vec::new(), "text/plain\n").unwrap_err();
    assert!(matches!(error, Error::Http(ref m) if m == "failed to parse header value"));
}

#[test]
fn invalid_destination_is_reported() {
    let auth = Auth::Anonymous;
    let extra = Vec::new();
    let error = ctx(&auth, None, &extra).mv("http://h/a", "http://h /b", Overwrite::True).unwrap_err();
    assert!(matches!(error, Error::InvalidUrl(_)));
}
