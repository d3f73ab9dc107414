use dav_xml::client::auth::base64;
use dav_xml::client::headers::{DavHeader, If, IfList, LockTokenHeader, Overwrite, TimeoutHeader};
use dav_xml::client::resource::{last_segment, percent_decode};
use dav_xml::client::response::{
    capabilities, ensure_success, exists_result, lock_discovery, lock_result, multistatus, ok_or_multistatus, stat_result,
};
use dav_xml::client::transport::{TransportError, TransportErrorKind};
use dav_xml::client::{Auth, Error, HttpResponse, Resource};
use dav_xml::elements::{Multistatus, Timeout, UriParts};
use dav_xml::properties::{ETag, LockDiscovery};
use dav_xml::FromXml;

#[test]
fn overwrite_round_trips() {
    assert_eq!(Overwrite::True.to_string(), "T");
    assert_eq!("F".parse::<Overwrite>().unwrap(), Overwrite::False);
    "x".parse::<Overwrite>().unwrap_err();
}

#[test]
fn untagged_if_list() {
    let header = If::untagged("urn:uuid:181d4fae-7d8c-11d0-a765-00a0c91e6bf2");
    assert_eq!(header.to_string(), "(<urn:uuid:181d4fae-7d8c-11d0-a765-00a0c91e6bf2>)");
}

#[test]
fn tagged_if_list_with_not_and_etag() {
    let header = If::new().with_list(
        IfList::tagged(UriParts::parse("http://www.example.com/specs/rfc2518.doc").unwrap())
            .token("urn:uuid:181d4fae-7d8c-11d0-a765-00a0c91e6bf2")
            .not_etag(ETag::strong("4217")),
    );
    assert_eq!(
        header.to_string(),
        "<http://www.example.com/specs/rfc2518.doc> (<urn:uuid:181d4fae-7d8c-11d0-a765-00a0c91e6bf2> Not [\"4217\"])"
    );
}

#[test]
fn multiple_lists_are_space_separated() {
    let header = If::new().with_list(IfList::untagged().token("a")).with_list(IfList::untagged().token("b"));
    assert_eq!(header.to_string(), "(<a>) (<b>)");
}

#[test]
fn lock_token_header_round_trips() {
    let token: LockTokenHeader = "<urn:x>".parse().unwrap();
    assert_eq!(token.0, "urn:x");
    assert_eq!(token.to_string(), "<urn:x>");
    assert_eq!("urn:y".parse::<LockTokenHeader>().unwrap().0, "urn:y");
}

#[test]
fn lock_token_header_rejects_asymmetric_brackets() {
    "<urn:x".parse::<LockTokenHeader>().unwrap_err();
    "urn:x>".parse::<LockTokenHeader>().unwrap_err();
    "<".parse::<LockTokenHeader>().unwrap_err();
    ">".parse::<LockTokenHeader>().unwrap_err();
}

#[test]
fn dav_header_lists_classes() {
    let dav: DavHeader = "1, 2, 3, extended-mkcol".parse().unwrap();
    assert_eq!(dav.classes, ["1", "2", "3", "extended-mkcol"]);
    assert!(dav.supports_locking());
    assert!(!"1".parse::<DavHeader>().unwrap().supports_locking());
}

fn header_of(timeouts: Vec<Timeout>) -> TimeoutHeader {
    TimeoutHeader(timeouts)
}

#[test]
fn timeout_header_round_trips() {
    let header = TimeoutHeader(vec![Timeout::Seconds(600), Timeout::Infinite]);
    assert_eq!(header.to_string(), "Second-600, Infinite");
    assert_eq!("Second-5, Infinite".parse::<TimeoutHeader>().unwrap(), header_of(vec![Timeout::Seconds(5), Timeout::Infinite]));
}

#[test]
fn timeout_header_rejects_garbage_and_reports_the_original_value() {
    let error = "Second-abc".parse::<TimeoutHeader>().unwrap_err();
    assert_eq!(error.to_string(), "invalid Timeout header: Second-abc");
}

#[test]
fn lock_token_header_rejects_empty_coded_url() {
    "< >".parse::<LockTokenHeader>().unwrap_err();
    assert_eq!(" < urn:z > ".parse::<LockTokenHeader>().unwrap().0, "urn:z");
}

#[test]
fn basic_encodes_rfc7617_example() {
    let auth = Auth::basic("Aladdin", "open sesame");
    assert_eq!(auth.header_value().unwrap(), "Basic QWxhZGRpbjpvcGVuIHNlc2FtZQ==");
}

#[test]
fn base64_test_vectors() {
    for (input, expected) in
        [("", ""), ("f", "Zg=="), ("fo", "Zm8="), ("foo", "Zm9v"), ("foob", "Zm9vYg=="), ("fooba", "Zm9vYmE="), ("foobar", "Zm9vYmFy")]
    {
        assert_eq!(base64(input.as_bytes()), expected);
    }
}

#[test]
fn bearer_and_none() {
    assert_eq!(Auth::bearer("tok").header_value().unwrap(), "Bearer tok");
    assert!(Auth::Anonymous.header_value().is_none());
}

#[test]
fn debug_hides_secrets() {
    let text = Auth::basic("u", "p").debug_text();
    assert!(!text.contains('p'), "{text}");
}

#[test]
fn debug_text_writes_as_debug_does() {
    assert_eq!(Auth::basic("a\"b", "p").debug_text(), r#"Basic { username: "a\"b", secret: "***" }"#);
    assert_eq!(Auth::Anonymous.debug_text(), "None");
    assert_eq!(Auth::bearer("t").debug_text(), "Bearer(***)");
}

#[test]
fn only_authorization_is_sensitive() {
    assert!(dav_xml::client::auth::is_sensitive_header("authorization"));
    assert!(!dav_xml::client::auth::is_sensitive_header("depth"));
}

#[test]
fn control_characters_make_no_header_value() {
    assert!(Auth::bearer("to\nk").header_value().is_none());
}

fn response(status: u16, content_type: &str, body: &str) -> HttpResponse {
    HttpResponse {
        status,
        headers: vec![("content-type".to_string(), Some(content_type.to_string()))],
        body: body.as_bytes().to_vec(),
    }
}

#[test]
fn parses_dav_and_allow_headers() {
    let response = HttpResponse {
        status: 200,
        headers: vec![
            ("dav".to_string(), Some("1, 2".to_string())),
            ("allow".to_string(), Some("OPTIONS, GET, PROPFIND, LOCK".to_string())),
        ],
        body: Vec::new(),
    };
    let caps = capabilities(response).unwrap();
    assert!(caps.supports_locking());
    assert!(caps.allows("PROPFIND"));
    assert!(!caps.allows("DELETE"));
    assert_eq!(caps.allow.len(), 4);
}

#[test]
fn missing_headers_yield_empty_capabilities() {
    let response = HttpResponse { status: 200, headers: Vec::new(), body: Vec::new() };
    let caps = capabilities(response).unwrap();
    assert!(caps.dav.classes.is_empty());
    assert!(caps.allow.is_empty());
}

#[test]
fn repeated_dav_headers_are_joined_and_bad_methods_skipped() {
    let response = HttpResponse {
        status: 200,
        headers: vec![
            ("dav".to_string(), Some("1".to_string())),
            ("dav".to_string(), Some("2".to_string())),
            ("allow".to_string(), Some("GET, BAD METHOD,, PUT".to_string())),
        ],
        body: Vec::new(),
    };
    let caps = capabilities(response).unwrap();
    assert_eq!(caps.dav.classes, ["1", "2"]);
    assert_eq!(caps.allow, ["GET", "PUT"]);
}

const MS_FAIL: &str = r#"<D:multistatus xmlns:D="DAV:"><D:response><D:href>/a</D:href><D:status>HTTP/1.1 423 Locked</D:status></D:response></D:multistatus>"#;
const MS_OK: &str = r#"<D:multistatus xmlns:D="DAV:"><D:response><D:href>/a</D:href><D:propstat><D:prop/><D:status>HTTP/1.1 200 OK</D:status></D:propstat></D:response></D:multistatus>"#;

#[test]
fn success_passes_through() {
    assert_eq!(ensure_success(response(204, "", "")).unwrap().status, 204);
}

#[test]
fn failure_with_dav_error_body_is_typed() {
    let body = r#"<D:error xmlns:D="DAV:"><D:lock-token-submitted><D:href>/a</D:href></D:lock-token-submitted></D:error>"#;
    let error = ensure_success(response(423, "application/xml; charset=utf-8", body)).unwrap_err();
    assert_eq!(error.status().unwrap(), 423);
    assert!(error.dav_error().unwrap().contains("lock-token-submitted"));
}

#[test]
fn failure_with_html_body_keeps_raw_body() {
    let error = ensure_success(response(500, "text/html", "<html/>")).unwrap_err();
    let Error::Status { error: None, body, .. } = error else { panic!() };
    assert_eq!(body, b"<html/>");
}

#[test]
fn failure_with_unparseable_xml_keeps_raw_body() {
    let error = ensure_success(response(400, "text/xml", "<broken")).unwrap_err();
    assert!(matches!(error, Error::Status { error: None, .. }));
}

#[test]
fn multistatus_requires_207() {
    multistatus(response(200, "text/xml", MS_OK)).unwrap_err();
    assert_eq!(multistatus(response(207, "text/xml", MS_OK)).unwrap().response.len(), 1);
}

#[test]
fn ok_or_multistatus_maps_failures() {
    ok_or_multistatus(response(204, "", "")).unwrap();
    ok_or_multistatus(response(207, "text/xml", MS_OK)).unwrap();
    let error = ok_or_multistatus(response(207, "text/xml", MS_FAIL)).unwrap_err();
    assert!(matches!(error, Error::Multistatus(ms) if ms.failures().len() == 1));
}

#[test]
fn lock_discovery_reads_prop_and_header() {
    let body = r#"<D:prop xmlns:D="DAV:"><D:lockdiscovery><D:activelock><D:locktype><D:write/></D:locktype><D:lockscope><D:exclusive/></D:lockscope><D:depth>infinity</D:depth><D:timeout>Second-604800</D:timeout><D:locktoken><D:href>urn:uuid:1</D:href></D:locktoken><D:lockroot><D:href>/a</D:href></D:lockroot></D:activelock></D:lockdiscovery></D:prop>"#;
    let mut resp = response(200, "application/xml", body);
    resp.headers.push(("lock-token".to_string(), Some("<urn:uuid:1>".to_string())));
    let (discovery, token) = lock_discovery(resp).unwrap();
    assert_eq!(discovery.0.len(), 1);
    assert_eq!(token.unwrap().0, "urn:uuid:1");
}

#[test]
fn lock_discovery_without_header_is_none() {
    let body = r#"<D:prop xmlns:D="DAV:"><D:lockdiscovery/></D:prop>"#;
    let (discovery, token) = lock_discovery(response(200, "application/xml", body)).unwrap();
    assert!(discovery.0.is_empty());
    assert!(token.is_none());
}

#[test]
fn lock_token_comes_from_header_then_body_then_fallback() {
    let body = r#"<D:lockdiscovery xmlns:D="DAV:"><D:activelock><D:locktype><D:write/></D:locktype><D:lockscope><D:exclusive/></D:lockscope><D:depth>0</D:depth><D:locktoken><D:href>urn:uuid:body</D:href></D:locktoken><D:lockroot><D:href>/a</D:href></D:lockroot></D:activelock></D:lockdiscovery>"#;
    let discovery = LockDiscovery::from_xml(body.as_bytes().to_vec()).unwrap();
    let from_header =
        lock_result(discovery.copy(), Some(LockTokenHeader("urn:uuid:header".into())), None).unwrap();
    assert_eq!(from_header.token.0, "urn:uuid:header");
    let from_body = lock_result(discovery, None, Some(LockTokenHeader("urn:uuid:old".into()))).unwrap();
    assert_eq!(from_body.token.0, "urn:uuid:body");
    let fallback = lock_result(LockDiscovery::default(), None, Some(LockTokenHeader("urn:uuid:old".into()))).unwrap();
    assert_eq!(fallback.token.0, "urn:uuid:old");
    assert!(matches!(lock_result(LockDiscovery::default(), None, None), Err(Error::MissingLockToken)));
}

#[test]
fn not_found_means_no_resource() {
    let missing = stat_result(Err(Error::Status { status: 404, error: None, body: Vec::new() })).unwrap();
    assert!(missing.is_none());
    assert!(!exists_result(Err(Error::Status { status: 404, error: None, body: Vec::new() })).unwrap());
    assert!(exists_result(Ok(response(200, "", ""))).unwrap());
    assert!(matches!(exists_result(Err(Error::MissingLockToken)), Err(Error::MissingLockToken)));
    let found = stat_result(Ok(Multistatus::from_xml(MS_OK.as_bytes().to_vec()).unwrap())).unwrap().unwrap();
    assert_eq!(found.path(), "/a");
}

#[test]
fn error_messages() {
    let status = Error::Status { status: 423, error: None, body: Vec::new() };
    assert_eq!(status.to_string(), "server returned 423 Locked");
    assert_eq!(Error::MissingLockToken.to_string(), "missing lock token");
    assert_eq!(Error::InvalidArgument("COPY depth must be 0 or infinity").to_string(), "invalid argument: COPY depth must be 0 or infinity");
    assert!(Error::MissingLockToken.status().is_none());
    assert!(Error::MissingLockToken.dav_error().is_none());
    let transport = Error::Transport(TransportError::new(TransportErrorKind::Timeout, "slow"));
    assert_eq!(transport.to_string(), "transport error (Timeout): slow");
}

#[test]
fn transport_errors_keep_their_kind() {
    let error = TransportError::new(TransportErrorKind::Connect, "refused");
    assert_eq!(error.kind(), TransportErrorKind::Connect);
    assert_eq!(error.message(), "refused");
    assert_eq!(TransportErrorKind::classify(false, true, true), TransportErrorKind::Timeout);
    assert_eq!(TransportErrorKind::classify(false, false, false), TransportErrorKind::Other);
}

const LISTING: &str = r#"<D:multistatus xmlns:D="DAV:">
  <D:response>
    <D:href>/dir/</D:href>
    <D:propstat>
      <D:prop><D:resourcetype><D:collection/></D:resourcetype><D:displayname>dir</D:displayname></D:prop>
      <D:status>HTTP/1.1 200 OK</D:status>
    </D:propstat>
    <D:propstat>
      <D:prop><D:getcontentlength/></D:prop>
      <D:status>HTTP/1.1 404 Not Found</D:status>
    </D:propstat>
  </D:response>
  <D:response>
    <D:href>/dir/file.txt</D:href>
    <D:propstat>
      <D:prop>
        <D:resourcetype/>
        <D:getcontentlength>12</D:getcontentlength>
        <D:getcontenttype>text/plain</D:getcontenttype>
        <D:getetag>"e1"</D:getetag>
        <D:getlastmodified>Mon, 01 Jan 2024 00:00:00 GMT</D:getlastmodified>
        <D:creationdate>2024-01-01T00:00:00Z</D:creationdate>
      </D:prop>
      <D:status>HTTP/1.1 200 OK</D:status>
    </D:propstat>
  </D:response>
  <D:response>
    <D:href>/gone</D:href>
    <D:status>HTTP/1.1 404 Not Found</D:status>
  </D:response>
</D:multistatus>"#;

#[test]
fn flattens_successful_propstats_only() {
    let ms = Multistatus::from_xml(LISTING.as_bytes().to_vec()).unwrap();
    let resources = Resource::from_multistatus(&ms);
    assert_eq!(resources.len(), 2, "status-only responses are skipped");
    let dir = &resources[0];
    assert!(dir.is_collection);
    assert_eq!(dir.display_name.as_deref(), Some("dir"));
    assert_eq!(dir.content_length, None);
    assert_eq!(dir.path(), "/dir/");
    assert_eq!(dir.name(), "dir");
    let file = &resources[1];
    assert!(!file.is_collection);
    assert_eq!(file.content_length, Some(12));
    assert_eq!(file.content_type.as_ref().map(|c| c.0.as_str()), Some(mime::TEXT_PLAIN.as_ref()));
    assert_eq!(file.etag.as_ref().unwrap().tag, "e1");
    assert!(file.last_modified.is_some());
    assert!(file.creation_date.is_some());
    assert_eq!(file.name(), "file.txt");
}

#[test]
fn invalid_property_values_become_none() {
    let xml = r#"<D:multistatus xmlns:D="DAV:"><D:response><D:href>/f</D:href><D:propstat><D:prop><D:getcontentlength>abc</D:getcontentlength></D:prop><D:status>HTTP/1.1 200 OK</D:status></D:propstat></D:response></D:multistatus>"#;
    let ms = Multistatus::from_xml(xml.as_bytes().to_vec()).unwrap();
    let resources = Resource::from_multistatus(&ms);
    assert_eq!(resources[0].content_length, None);
}

#[test]
fn trailing_slash_marks_collection_when_resourcetype_missing() {
    let xml = r#"<D:multistatus xmlns:D="DAV:"><D:response><D:href>/d/</D:href><D:propstat><D:prop/><D:status>HTTP/1.1 200 OK</D:status></D:propstat></D:response></D:multistatus>"#;
    let ms = Multistatus::from_xml(xml.as_bytes().to_vec()).unwrap();
    assert!(Resource::from_multistatus(&ms)[0].is_collection);
}

#[test]
fn percent_decode_replaces_escapes() {
    assert_eq!(percent_decode("%20"), " ");
    assert_eq!(percent_decode("file.txt"), "file.txt");
}

#[test]
fn percent_decode_keeps_invalid_escapes_literal() {
    assert_eq!(percent_decode("100%"), "100%");
    assert_eq!(percent_decode("%zz"), "%zz");
    assert_eq!(percent_decode("%+1"), "%+1");
}

#[test]
fn percent_decode_keeps_text_whose_bytes_are_not_utf8() {
    assert_eq!(percent_decode("%ff"), "%ff");
    assert_eq!(percent_decode("%C3%A9"), "\u{e9}");
}

#[test]
fn last_segment_percent_decodes_the_name() {
    assert_eq!(last_segment("/a/b%20c/"), "b c");
    assert_eq!(last_segment("/"), "");
}
