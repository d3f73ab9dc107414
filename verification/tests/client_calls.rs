use std::collections::VecDeque;
use std::sync::{Arc, Mutex};

use dav_xml::client::headers::{If, Overwrite};
use dav_xml::client::{Auth, DavClient, Error, HttpRequest, HttpResponse, Transport, TransportError, TransportErrorKind};
use dav_xml::elements::{Depth, LockInfo, Prop, PropFind, PropertyUpdate, Timeout};
use dav_xml::properties::DisplayName;

/// Answers requests from a queue and keeps every request it was given.
#[derive(Clone, Default)]
struct MockTransport {
    inner: Arc<Mutex<(VecDeque<HttpResponse>, Vec<HttpRequest>)>>,
}

impl MockTransport {
    fn reply(&self, response: HttpResponse) {
        self.inner.lock().unwrap().0.push_back(response);
    }

    fn requests(&self) -> Vec<String> {
        self.inner.lock().unwrap().1.iter().map(|r| r.method.clone()).collect()
    }

    fn last_method(&self) -> String {
        self.inner.lock().unwrap().1.last().unwrap().method.clone()
    }

    fn last_header(&self, name: &str) -> String {
        let inner = self.inner.lock().unwrap();
        let request = inner.1.last().unwrap();
        request.headers.iter().find(|(n, _)| n == name).unwrap().1.clone()
    }
}

impl Transport for MockTransport {
    fn send(&self, request: HttpRequest) -> Result<HttpResponse, TransportError> {
        let mut inner = self.inner.lock().unwrap();
        inner.1.push(request);
        inner
            .0
            .pop_front()
            .ok_or_else(|| TransportError::new(TransportErrorKind::Other, "mock transport: no reply queued"))
    }
}

fn client() -> (DavClient<MockTransport>, MockTransport) {
    let mock = MockTransport::default();
    (DavClient::new(mock.clone(), Auth::basic("a", "b")), mock)
}

fn answer(status: u16, headers: &[(&str, &str)], body: &str) -> HttpResponse {
    HttpResponse {
        status,
        headers: headers.iter().map(|(n, v)| (n.to_string(), Some(v.to_string()))).collect(),
        body: body.as_bytes().to_vec(),
    }
}

fn reply(mock: &MockTransport, status: u16, body: &str) {
    let headers: &[(&str, &str)] = if body.is_empty() { &[] } else { &[("content-type", "application/xml")] };
    mock.reply(answer(status, headers, body));
}

const LISTING: &str = r#"<D:multistatus xmlns:D="DAV:"><D:response><D:href>/d/</D:href><D:propstat><D:prop><D:resourcetype><D:collection/></D:resourcetype></D:prop><D:status>HTTP/1.1 200 OK</D:status></D:propstat></D:response><D:response><D:href>/d/f</D:href><D:propstat><D:prop><D:getcontentlength>1</D:getcontentlength></D:prop><D:status>HTTP/1.1 200 OK</D:status></D:propstat></D:response></D:multistatus>"#;
const LOCK_BODY: &str = r#"<D:prop xmlns:D="DAV:"><D:lockdiscovery><D:activelock><D:locktype><D:write/></D:locktype><D:lockscope><D:exclusive/></D:lockscope><D:depth>0</D:depth><D:timeout>Second-60</D:timeout><D:locktoken><D:href>urn:uuid:1</D:href></D:locktoken><D:lockroot><D:href>/d/f</D:href></D:lockroot></D:activelock></D:lockdiscovery></D:prop>"#;

#[test]
fn client_list_sends_allprop_depth_one_and_flattens() {
    let (client, mock) = client();
    reply(&mock, 207, LISTING);
    let resources = client.list("http://h/d/").unwrap();
    assert_eq!(mock.last_method(), "PROPFIND");
    assert_eq!(mock.last_header("depth"), "1");
    assert_eq!(resources.len(), 2);
    assert!(resources[0].is_collection);
}

#[test]
fn client_stat_returns_none_on_404() {
    let (client, mock) = client();
    reply(&mock, 404, "");
    assert!(client.stat("http://h/x").unwrap().is_none());
    reply(&mock, 207, LISTING);
    assert!(client.stat("http://h/d/").unwrap().is_some());
    assert_eq!(mock.last_header("depth"), "0");
}

#[test]
fn client_exists_uses_head() {
    let (client, mock) = client();
    reply(&mock, 200, "");
    assert!(client.exists_at("http://h/f").unwrap());
    assert_eq!(mock.last_method(), "HEAD");
    reply(&mock, 404, "");
    assert!(!client.exists_at("http://h/f").unwrap());
}

#[test]
fn client_propfind_returns_multistatus() {
    let (client, mock) = client();
    reply(&mock, 207, LISTING);
    let ms = client.propfind("http://h/d/", &PropFind::PropName, Depth::Zero).unwrap();
    assert_eq!(ms.response.len(), 2);
}

#[test]
fn client_proppatch_returns_multistatus() {
    let (client, mock) = client();
    reply(&mock, 207, LISTING);
    let update = PropertyUpdate::new().remove(Prop::builder().name::<DisplayName>().build());
    let ms = client.proppatch("http://h/d/", &update).unwrap();
    assert_eq!(ms.response.len(), 2);
    assert_eq!(mock.last_method(), "PROPPATCH");
}

#[test]
fn client_mkcol_put_delete_return_unit_on_2xx() {
    let (client, mock) = client();
    reply(&mock, 201, "");
    client.mkcol("http://h/d/").unwrap();
    reply(&mock, 204, "");
    client.put("http://h/d/f", b"x".to_vec(), "text/plain").unwrap();
    reply(&mock, 204, "");
    client.delete("http://h/d/f").unwrap();
    assert_eq!(mock.requests().len(), 3);
    assert_eq!(client.transport().requests().len(), 3);
}

#[test]
fn client_delete_207_with_failures_is_an_error() {
    let (client, mock) = client();
    reply(
        &mock,
        207,
        r#"<D:multistatus xmlns:D="DAV:"><D:response><D:href>/d/f</D:href><D:status>HTTP/1.1 423 Locked</D:status></D:response></D:multistatus>"#,
    );
    assert!(matches!(client.delete("http://h/d/"), Err(Error::Multistatus(_))));
}

#[test]
fn client_copy_and_move_forward_headers() {
    let (client, mock) = client();
    reply(&mock, 201, "");
    client.copy("http://h/a", "http://h/b", Depth::Infinity, Overwrite::False).unwrap();
    assert_eq!(mock.last_header("overwrite"), "F");
    reply(&mock, 204, "");
    client.mv("http://h/a", "http://h/c", Overwrite::True).unwrap();
    assert_eq!(mock.last_header("destination"), "http://h/c");
}

#[test]
fn client_get_and_head_return_responses() {
    let (client, mock) = client();
    reply(&mock, 200, "");
    mock.reply(answer(200, &[("etag", "\"x\"")], "body"));
    let head = client.head("http://h/f").unwrap();
    assert_eq!(head.status, 200);
    let get = client.get("http://h/f").unwrap();
    assert_eq!(get.body, b"body");
    let etag = get.headers.iter().find(|(n, _)| n == "etag").unwrap();
    assert_eq!(etag.1.as_deref(), Some("\"x\""));
}

#[test]
fn client_lock_refresh_unlock_flow() {
    let (client, mock) = client();
    mock.reply(answer(200, &[("content-type", "application/xml"), ("lock-token", "<urn:uuid:1>")], LOCK_BODY));
    let lock = client
        .lock("http://h/d/f", &LockInfo::exclusive_write(), Some(Timeout::Seconds(60)), Depth::Zero)
        .unwrap();
    assert_eq!(lock.token.0, "urn:uuid:1");
    assert_eq!(lock.discovery.0[0].timeout, Some(Timeout::Seconds(60)));

    reply(&mock, 200, LOCK_BODY);
    let refreshed = client.refresh_lock("http://h/d/f", &lock.token, Some(Timeout::Seconds(120))).unwrap();
    assert_eq!(refreshed.token.0, "urn:uuid:1", "token kept when header absent");
    assert_eq!(mock.last_header("if"), "(<urn:uuid:1>)");

    reply(&mock, 204, "");
    client.unlock("http://h/d/f", &lock.token).unwrap();
    assert_eq!(mock.last_header("lock-token"), "<urn:uuid:1>");
}

#[test]
fn client_lock_without_token_header_or_body_token_is_an_error() {
    let (client, mock) = client();
    reply(&mock, 200, r#"<D:prop xmlns:D="DAV:"><D:lockdiscovery/></D:prop>"#);
    assert!(matches!(
        client.lock("http://h/f", &LockInfo::exclusive_write(), None, Depth::Zero),
        Err(Error::MissingLockToken)
    ));
}

#[test]
fn client_with_if_applies_to_every_request() {
    let (client, mock) = client();
    let client = client.with_if(If::untagged("urn:uuid:1"));
    reply(&mock, 204, "");
    client.put("http://h/f", Vec::new(), "text/plain").unwrap();
    assert_eq!(mock.last_header("if"), "(<urn:uuid:1>)");
}

#[test]
fn client_with_header_sets_custom_header() {
    let (client, mock) = client();
    let client = client.with_header("x-custom", "1");
    reply(&mock, 204, "");
    client.put("http://h/f", Vec::new(), "text/plain").unwrap();
    assert_eq!(mock.last_header("x-custom"), "1");
}

#[test]
fn client_status_errors_carry_dav_error() {
    let (client, mock) = client();
    reply(
        &mock,
        423,
        r#"<D:error xmlns:D="DAV:"><D:lock-token-submitted><D:href>/f</D:href></D:lock-token-submitted></D:error>"#,
    );
    let error = client.put("http://h/f", Vec::new(), "text/plain").unwrap_err();
    assert_eq!(error.status().unwrap(), 423);
    assert!(error.dav_error().unwrap().contains("lock-token-submitted"));
}

#[test]
fn client_transport_errors_are_wrapped() {
    let (client, _mock) = client();
    assert!(matches!(client.get("http://h/f"), Err(Error::Transport(_))));
}

#[test]
fn client_options_returns_capabilities() {
    let (client, mock) = client();
    mock.reply(answer(200, &[("dav", "1,2"), ("allow", "GET")], ""));
    let caps = client.options("http://h/").unwrap();
    assert!(caps.supports_locking());
}

#[test]
fn client_sends_credentials_and_replaces_headers_by_name() {
    let (client, mock) = client();
    let client = client.with_header("x-custom", "1").with_header("x-custom", "2");
    reply(&mock, 204, "");
    client.delete("http://h/f").unwrap();
    assert_eq!(mock.last_header("authorization"), "Basic YTpi");
    assert_eq!(mock.last_header("x-custom"), "2");
    let inner = mock.inner.lock().unwrap();
    let headers = &inner.1.last().unwrap().headers;
    assert_eq!(headers.iter().filter(|(n, _)| n == "x-custom").count(), 1);
}

#[test]
fn client_invalid_url_is_not_sent() {
    let (client, mock) = client();
    assert!(matches!(client.mkcol("http://h/a b"), Err(Error::InvalidUrl(_))));
    assert_eq!(mock.requests().len(), 0);
}

#[test]
fn client_copy_at_depth_one_is_refused_before_sending() {
    let (client, mock) = client();
    assert!(matches!(
        client.copy("http://h/a", "http://h/b", Depth::One, Overwrite::True),
        Err(Error::InvalidArgument(_))
    ));
    assert_eq!(mock.requests().len(), 0);
}

#[test]
fn client_head_drops_the_body() {
    let (client, mock) = client();
    mock.reply(answer(200, &[("etag", "\"y\"")], "ignored"));
    let head = client.head("http://h/f").unwrap();
    assert!(head.body.is_empty());
    assert_eq!(head.headers.len(), 1);
}

#[test]
fn client_extra_header_replaces_authorization() {
    let (client, mock) = client();
    let client = client.with_header("authorization", "Bearer t");
    reply(&mock, 204, "");
    client.delete("http://h/f").unwrap();
    let inner = mock.inner.lock().unwrap();
    let headers = &inner.1.last().unwrap().headers;
    let auth: Vec<_> = headers.iter().filter(|(n, _)| n == "authorization").collect();
    assert_eq!(auth.len(), 1);
    assert_eq!(auth[0].1, "Bearer t");
}
