use warm_ml::http_request::{HttpHeader, HttpMethod, HttpRequest, HttpVersion, WarmDatasetFileReaderHelper};

#[test]
fn protocol_versions() {
    let v = WarmDatasetFileReaderHelper::get_protocol_version;
    assert_eq!(v("HTTP/0.9"), Some(HttpVersion::Http09));
    assert_eq!(v("HTTP/1.0"), Some(HttpVersion::Http10));
    assert_eq!(v("HTTP/1.1"), Some(HttpVersion::Http11));
    assert_eq!(v("HTTP/2"), Some(HttpVersion::Http2));
    assert_eq!(v("HTTP/2.0"), Some(HttpVersion::Http2));
    assert_eq!(v("HTTP/3"), Some(HttpVersion::Http3));
    assert_eq!(v("HTTP/3.0"), Some(HttpVersion::Http3));
    assert_eq!(v("http/1.1"), None);
    assert_eq!(v("HTTP/1.1 "), None);
    assert_eq!(v(""), None);
}

#[test]
fn methods() {
    let m = WarmDatasetFileReaderHelper::get_method;
    assert_eq!(m("GET"), Some(HttpMethod::Get));
    assert_eq!(m("POST"), Some(HttpMethod::Post));
    assert_eq!(m("PUT"), Some(HttpMethod::Put));
    assert_eq!(m("DELETE"), Some(HttpMethod::Delete));
    assert_eq!(m("PATCH"), Some(HttpMethod::Patch));
    assert_eq!(m("HEAD"), Some(HttpMethod::Head));
    assert_eq!(m("OPTIONS"), Some(HttpMethod::Options));
    assert_eq!(m("CONNECT"), Some(HttpMethod::Connect));
    assert_eq!(m("TRACE"), Some(HttpMethod::Trace));
    assert_eq!(m("get"), None);
    assert_eq!(m("PURGE"), None);
}

#[test]
fn modsecurity_version_labels() {
    assert_eq!(HttpVersion::Http09.modsecurity_label(), "0.9");
    assert_eq!(HttpVersion::Http10.modsecurity_label(), "1.0");
    assert_eq!(HttpVersion::Http11.modsecurity_label(), "1.1");
    assert_eq!(HttpVersion::Http2.modsecurity_label(), "2");
    assert_eq!(HttpVersion::Http3.modsecurity_label(), "3");
}

#[test]
fn duplicate_copies_every_part() {
    let req = HttpRequest {
        method: "POST".to_string(),
        uri: "/test_post".to_string(),
        version: HttpVersion::Http2,
        headers: vec![HttpHeader { name: "host".to_string(), value: "localhost".to_string() }],
        body: "p=1".to_string(),
    };
    let copy = req.duplicate();
    assert_eq!(copy.method, "POST");
    assert_eq!(copy.uri, "/test_post");
    assert_eq!(copy.version, HttpVersion::Http2);
    assert_eq!(copy.headers.len(), 1);
    assert_eq!(copy.headers[0].name, "host");
    assert_eq!(copy.headers[0].value, "localhost");
    assert_eq!(copy.body, "p=1");
}

#[test]
fn get_request_defaults() {
    let req = HttpRequest::get("/?a=1");
    assert_eq!(req.method, "GET");
    assert_eq!(req.uri, "/?a=1");
    assert_eq!(req.version, HttpVersion::Http11);
    assert!(req.headers.is_empty());
    assert!(req.body.is_empty());
}
